//! The git side: the commits that an agent co-authored and how many of their
//! lines are still alive. What git prints comes in as text.

use vstd::prelude::*;

use crate::session::contains_text;
use crate::tail::{decode_lossy, lossy_text};
use crate::tally::{
    count_of, occurrences, occurrences_add_up, tallies, tally_of, total_occurrences, Tally,
};
use crate::text::{
    begins_with, chars_of, decimal, decimal_text, is_digit, joined, lemma_decimal_digits,
    lemma_first_piece, lemma_joined_is_uncut, lemma_joined_splits, lemma_last_piece,
    lemma_one_piece, lemma_pieces_not_empty, lines, lines_of, numbers_are_digits_with_a_sign, only,
    parse_i64, parse_u64, pieces, prefixes_leave_a_rest, printed_numbers_read_back, signed_decimal,
    signed_number, sorts_before_text, split_at_char, split_char, starts_with, string_of,
    text_before, text_order_laws, texts, trim, trimmed, uncut, unsigned_number,
};
use crate::time::{Timestamp, MAX_SECONDS, MIN_SECONDS};

verus! {

// ---- running git --------------------------------------------------------------

/// The arguments that ask git for the root of a repository.
pub open spec fn root_query() -> Seq<Seq<char>> {
    seq!["rev-parse"@, "--show-toplevel"@]
}

/// The arguments that ask git for the commits of the last days that may be
/// co-authored by `author`, with their co-authors and the lines that they added
/// to each file. A message that only mentions the words is found too; the
/// co-authors tell it apart.
pub open spec fn log_query(author: Seq<char>, days: nat) -> Seq<Seq<char>> {
    seq![
        "log"@,
        "--since="@ + decimal(days) + ".days"@,
        "--no-merges"@,
        "--grep=Co-Authored-By: "@ + author,
        "--format=%x01%H%x02%ct%x02%s%x02%(trailers:key=Co-Authored-By,valueonly,unfold,separator=%x03)"@,
        "--numstat"@,
    ]
}

/// The arguments that ask git for the commits to which the lines of a file
/// belong.
pub open spec fn blame_query(file: Seq<char>) -> Seq<Seq<char>> {
    seq!["blame"@, "--line-porcelain"@, "HEAD"@, "--"@, file]
}

/// The arguments that ask git for the root of a repository.
pub fn root_args() -> (args: Vec<String>)
    ensures
        texts(args@) == root_query(),
{
    let args = vec!["rev-parse".to_owned(), "--show-toplevel".to_owned()];
    assert(texts(args@) == root_query());
    args
}

/// The arguments that ask git for the commits of the last days that may be
/// co-authored by `author`.
pub fn log_args(author: &str, days: u64) -> (args: Vec<String>)
    ensures
        texts(args@) == log_query(author@, days as nat),
{
    let mut since = "--since=".to_owned();
    since.append(decimal_text(days).as_str());
    since.append(".days");
    let mut trailer = "--grep=Co-Authored-By: ".to_owned();
    trailer.append(author);
    let args = vec![
        "log".to_owned(),
        since,
        "--no-merges".to_owned(),
        trailer,
        "--format=%x01%H%x02%ct%x02%s%x02%(trailers:key=Co-Authored-By,valueonly,unfold,separator=%x03)".to_owned(),
        "--numstat".to_owned(),
    ];
    assert(texts(args@) == log_query(author@, days as nat));
    args
}

/// The arguments that ask git for the commits to which the lines of a file
/// belong.
pub fn blame_args(file: &str) -> (args: Vec<String>)
    ensures
        texts(args@) == blame_query(file@),
{
    let args = vec![
        "blame".to_owned(),
        "--line-porcelain".to_owned(),
        "HEAD".to_owned(),
        "--".to_owned(),
        file.to_owned(),
    ];
    assert(texts(args@) == blame_query(file@));
    args
}

/// What a run of git came to: the text that it printed, or a message with its
/// complaint where it failed.
pub fn git_outcome(args: &Vec<String>, success: bool, stdout: &Vec<u8>, stderr: &Vec<u8>) -> (outcome:
    Result<String, String>)
    ensures
        outcome is Ok <==> success,
        outcome matches Ok(text) ==> text@ == lossy_text(stdout@),
        outcome matches Err(message) ==> message@ == "git "@ + (if args@.len() > 0 {
            args@[0]@
        } else {
            Seq::<char>::empty()
        }) + " failed: "@ + trimmed(lossy_text(stderr@)),
{
    if success {
        return Ok(decode_lossy(stdout.as_slice()));
    }
    let mut message = "git ".to_owned();
    if args.len() > 0 {
        message.append(args[0].as_str());
    }
    message.append(" failed: ");
    message.append(trim(decode_lossy(stderr.as_slice()).as_str()).as_str());
    Err(message)
}

/// The root of the repository, from what git says about it: none where git
/// failed or named nothing.
pub fn repo_root(outcome: &Result<String, String>) -> (root: Option<String>)
    ensures
        root is Some <==> outcome is Ok && trimmed(outcome->Ok_0@).len() > 0,
        root matches Some(path) ==> path@ == trimmed(outcome->Ok_0@),
{
    match outcome {
        Ok(text) => {
            let root = trim(text.as_str());
            if root.as_str().is_empty() {
                None
            } else {
                Some(root)
            }
        },
        Err(_) => None,
    }
}

// ---- commits ------------------------------------------------------------------

/// One commit with a co-author trailer.
pub struct AiCommit {
    pub sha: String,
    pub at: Timestamp,
    pub subject: String,
    /// Lines added, in total and per file.
    pub added: u64,
    pub files: Vec<(String, u64)>,
}

/// What a commit holds.
pub struct CommitView {
    pub sha: Seq<char>,
    pub at: Timestamp,
    pub subject: Seq<char>,
    pub added: int,
    pub files: Seq<(Seq<char>, int)>,
}

/// The files of a commit with the lines added to each.
pub open spec fn file_views(files: Seq<(String, u64)>) -> Seq<(Seq<char>, int)> {
    files.map_values(|file: (String, u64)| (file.0@, file.1 as int))
}

impl View for AiCommit {
    type V = CommitView;

    open spec fn view(&self) -> CommitView {
        CommitView {
            sha: self.sha@,
            at: self.at,
            subject: self.subject@,
            added: self.added as int,
            files: file_views(self.files@),
        }
    }
}

/// What the commits of a list hold.
pub open spec fn commit_views(commits: Seq<AiCommit>) -> Seq<CommitView> {
    commits.map_values(|commit: AiCommit| commit@)
}

/// The time that a text names as a number of seconds since 1970.
pub open spec fn unix_time(text: Seq<char>) -> Option<Timestamp> {
    match signed_number(text) {
        Some(secs) => if MIN_SECONDS <= secs <= MAX_SECONDS {
            Some(Timestamp::at_second(secs))
        } else {
            None
        },
        None => None,
    }
}

/// True if one of the co-authors in the list, which are separated by `\u{3}`,
/// begins with the name.
pub open spec fn carries(trailers: Seq<char>, author: Seq<char>) -> bool {
    exists|i: int|
        0 <= i < split_at_char(trailers, '\u{3}').len() && begins_with(
            #[trigger] split_at_char(trailers, '\u{3}')[i],
            author,
        )
}

/// The commit that a heading names: its hash, its time, its subject and its
/// co-authors, separated by `\u{2}`. Without a time, or where `author` is not
/// among the co-authors, it names none.
pub open spec fn headed_commit(heading: Seq<char>, author: Seq<char>) -> Option<CommitView> {
    let parts = split_at_char(heading, '\u{2}');
    if parts.len() < 4 || !carries(parts.last(), author) {
        None
    } else {
        match unix_time(parts[1]) {
            Some(at) => Some(
                CommitView {
                    sha: parts[0],
                    at,
                    subject: parts[2],
                    added: 0,
                    files: Seq::empty(),
                },
            ),
            None => None,
        }
    }
}

/// The file and the lines added to it that a row `added<TAB>deleted<TAB>path`
/// gives. Binary files, which have no number there, give none.
pub open spec fn file_row(line: Seq<char>) -> Option<(Seq<char>, int)> {
    let columns = split_at_char(line, '\t');
    if columns.len() < 3 {
        None
    } else {
        match unsigned_number(columns[0]) {
            Some(added) => if added <= u64::MAX {
                Some((columns[2], added as int))
            } else {
                None
            },
            None => None,
        }
    }
}

impl CommitView {
    /// The commit with one file more.
    pub open spec fn with_file(self, file: (Seq<char>, int)) -> CommitView {
        CommitView { added: self.added + file.1, files: self.files.push(file), ..self }
    }
}

/// What was read of a log: the commits, and whether the last one of them is
/// the one whose rows follow.
pub struct LogState {
    pub commits: Seq<CommitView>,
    pub open: bool,
}

/// True for the heading of a commit.
pub open spec fn is_heading(line: Seq<char>) -> bool {
    line.len() > 0 && line[0] == '\u{1}'
}

/// What is read after one line more of the log. A line that begins with `\u{1}`
/// is the heading of a commit; the rows after it list its files. The rows after
/// a heading that names no commit belong to none.
pub open spec fn after_log_line(log: LogState, line: Seq<char>, author: Seq<char>) -> LogState {
    if is_heading(line) {
        match headed_commit(line.drop_first(), author) {
            Some(commit) => LogState { commits: log.commits.push(commit), open: true },
            None => LogState { open: false, ..log },
        }
    } else {
        match file_row(line) {
            Some(file) => if log.open {
                LogState {
                    commits: log.commits.drop_last().push(log.commits.last().with_file(file)),
                    ..log
                }
            } else {
                log
            },
            None => log,
        }
    }
}

/// What is read after all of the lines.
pub open spec fn after_log_lines(log: LogState, lines: Seq<Seq<char>>, author: Seq<char>) -> LogState
    decreases lines.len(),
{
    if lines.len() == 0 {
        log
    } else {
        after_log_line(after_log_lines(log, lines.drop_last(), author), lines.last(), author)
    }
}

/// Nothing was read yet.
pub open spec fn empty_log() -> LogState {
    LogState { commits: Seq::empty(), open: false }
}

/// The commits co-authored by `author` that the lines of a log list.
pub open spec fn logged_commits(lines: Seq<Seq<char>>, author: Seq<char>) -> Seq<CommitView> {
    after_log_lines(empty_log(), lines, author).commits
}

/// True if the counters can hold the lines that each commit added.
pub open spec fn commits_fit(commits: Seq<CommitView>) -> bool {
    forall|i: int| 0 <= i < commits.len() ==> (#[trigger] commits[i]).added <= u64::MAX
}

/// True if every commit of the first list is in the second at its place, with
/// at least as many lines.
spec fn grows_to(fewer: Seq<CommitView>, more: Seq<CommitView>) -> bool {
    &&& fewer.len() <= more.len()
    &&& forall|i: int|
        0 <= i < fewer.len() ==> (#[trigger] fewer[i]).added <= more[i].added
}

/// What was read of the first lines.
spec fn read_log(lines: Seq<Seq<char>>, author: Seq<char>) -> LogState {
    after_log_lines(empty_log(), lines, author)
}

proof fn lemma_open_log_has_commits(lines: Seq<Seq<char>>, author: Seq<char>)
    ensures
        read_log(lines, author).open ==> read_log(lines, author).commits.len() > 0,
    decreases lines.len(),
{
    if lines.len() > 0 {
        lemma_open_log_has_commits(lines.drop_last(), author);
    }
}

proof fn lemma_logged_commits_grow(lines: Seq<Seq<char>>, author: Seq<char>, i: int)
    requires
        0 <= i <= lines.len(),
    ensures
        grows_to(logged_commits(lines.take(i), author), logged_commits(lines, author)),
    decreases lines.len() - i,
{
    if i < lines.len() {
        assert(lines.take(i + 1).drop_last() == lines.take(i));
        lemma_open_log_has_commits(lines.take(i), author);
        lemma_logged_commits_grow(lines, author, i + 1);
        let fewer = logged_commits(lines.take(i), author);
        let next = logged_commits(lines.take(i + 1), author);
        let more = logged_commits(lines, author);
        assert(grows_to(fewer, next));
        assert forall|k: int| 0 <= k < fewer.len() implies (#[trigger] fewer[k]).added
            <= more[k].added by {
            assert(next[k].added <= more[k].added);
        }
    } else {
        assert(lines.take(i) == lines);
    }
}

/// True if one of the co-authors in the list begins with the name.
fn is_carried(trailers: &str, author: &str) -> (yes: bool)
    ensures
        yes == carries(trailers@, author@),
{
    let parts = split_char(trailers, '\u{3}');
    let ghost all = split_at_char(trailers@, '\u{3}');
    for i in 0..parts.len()
        invariant
            all == texts(parts@),
            all == split_at_char(trailers@, '\u{3}'),
            forall|k: int| 0 <= k < i ==> !begins_with(#[trigger] all[k], author@),
    {
        assert(all[i as int] == parts@[i as int]@);
        if starts_with(parts[i].as_str(), author) {
            return true;
        }
    }
    false
}

/// The commit that a heading names.
fn parse_heading(heading: &str, author: &str) -> (commit: Option<AiCommit>)
    ensures
        match commit {
            Some(commit) => headed_commit(heading@, author@) == Some(commit@),
            None => headed_commit(heading@, author@) is None,
        },
{
    let parts = split_char(heading, '\u{2}');
    let ghost all = split_at_char(heading@, '\u{2}');
    let count: usize = parts.len();
    assert(all.len() == count);
    if count < 4 {
        return None;
    }
    assert(all[0] == parts@[0]@);
    assert(all[1] == parts@[1]@);
    assert(all[2] == parts@[2]@);
    assert(all.last() == parts@[count - 1]@);
    if !is_carried(parts[count - 1].as_str(), author) {
        return None;
    }
    let secs: i64 = match parse_i64(parts[1].as_str()) {
        Some(secs) => secs,
        None => {
            return None;
        },
    };
    match Timestamp::from_unix(secs) {
        Some(at) => {
            let commit = AiCommit {
                sha: parts[0].clone(),
                at,
                subject: parts[2].clone(),
                added: 0,
                files: Vec::new(),
            };
            assert(commit@.files == Seq::<(Seq<char>, int)>::empty());
            Some(commit)
        },
        None => None,
    }
}

/// The file and the lines added to it that a row gives.
fn parse_file_row(line: &str) -> (file: Option<(String, u64)>)
    ensures
        match file {
            Some(file) => file_row(line@) == Some((file.0@, file.1 as int)),
            None => file_row(line@) is None,
        },
{
    let columns = split_char(line, '\t');
    let ghost all = split_at_char(line@, '\t');
    assert(all.len() == columns@.len());
    if columns.len() < 3 {
        return None;
    }
    assert(all[0] == columns@[0]@);
    assert(all[2] == columns@[2]@);
    match parse_u64(columns[0].as_str()) {
        Some(added) => Some((columns[2].clone(), added)),
        None => None,
    }
}

/// `line` without its first character, where that is the mark of a heading.
fn heading_of(line: &str) -> (heading: Option<String>)
    ensures
        heading is Some <==> is_heading(line@),
        heading matches Some(rest) ==> rest@ == line@.drop_first(),
{
    let chars = chars_of(line);
    if chars.len() > 0 && chars[0] == '\u{1}' {
        assert(chars@.subrange(1, chars@.len() as int) == chars@.drop_first());
        Some(string_of(&chars, 1, chars.len()))
    } else {
        None
    }
}

/// The commits co-authored by `author` that a log lists, as `log_args` asks for
/// it. The result is missing exactly where a counter cannot hold the lines that
/// a commit added.
pub fn ai_commits(log: &str, author: &str) -> (commits: Option<Vec<AiCommit>>)
    ensures
        commits is Some <==> commits_fit(logged_commits(lines_of(log@), author@)),
        commits matches Some(list) ==> commit_views(list@) == logged_commits(
            lines_of(log@),
            author@,
        ),
{
    let rows = lines(log);
    let ghost all = lines_of(log@);
    let mut commits: Vec<AiCommit> = Vec::new();
    let mut open = false;
    assert(commit_views(commits@) == Seq::<CommitView>::empty());
    for i in 0..rows.len()
        invariant
            all == texts(rows@),
            all == lines_of(log@),
            commit_views(commits@) == read_log(all.take(i as int), author@).commits,
            open == read_log(all.take(i as int), author@).open,
    {
        let ghost before = commit_views(commits@);
        let line = rows[i].as_str();
        proof {
            assert(all[i as int] == rows@[i as int]@);
            assert(all.take(i + 1).drop_last() == all.take(i as int));
            assert(all.take(i + 1).last() == line@);
            lemma_logged_commits_grow(all, author@, i + 1);
            lemma_open_log_has_commits(all.take(i as int), author@);
        }
        if let Some(heading) = heading_of(line) {
            if let Some(commit) = parse_heading(heading.as_str(), author) {
                commits.push(commit);
                open = true;
                assert(commit_views(commits@) == before.push(commit@));
            } else {
                open = false;
            }
        } else if let Some((file, added)) = parse_file_row(line) {
            if open {
                if let Some(mut commit) = commits.pop() {
                    assert(commit_views(commits@) == before.drop_last());
                    assert(before.last() == commit@);
                    let ghost earlier = commit@;
                    match commit.added.checked_add(added) {
                        Some(sum) => {
                            commit.added = sum;
                        },
                        None => {
                            assert(!commits_fit(logged_commits(all, author@))) by {
                                let next = logged_commits(all.take(i + 1), author@);
                                let last = next.len() - 1;
                                assert(next[last].added > u64::MAX);
                                assert(logged_commits(all, author@)[last].added > u64::MAX);
                            }
                            return None;
                        },
                    }
                    commit.files.push((file, added));
                    assert(commit@.files == earlier.files.push((file@, added as int)));
                    commits.push(commit);
                    assert(commit_views(commits@) == before.drop_last().push(commit@));
                }
            }
        }
    }
    assert(all.take(all.len() as int) == all);
    proof {
        let list = logged_commits(all, author@);
        assert forall|i: int| 0 <= i < list.len() implies (#[trigger] list[i]).added
            <= u64::MAX by {
            assert(commit_views(commits@)[i] == commits@[i]@);
        }
    }
    Some(commits)
}

// ---- laws on logs -------------------------------------------------------------

/// The commits that the headings of a log name, in their order.
pub open spec fn headings(lines: Seq<Seq<char>>, author: Seq<char>) -> Seq<CommitView>
    decreases lines.len(),
{
    if lines.len() == 0 {
        Seq::empty()
    } else {
        let earlier = headings(lines.drop_last(), author);
        if is_heading(lines.last()) && headed_commit(lines.last().drop_first(), author) is Some {
            earlier.push(headed_commit(lines.last().drop_first(), author)->0)
        } else {
            earlier
        }
    }
}

/// The lines that the files got, all together.
pub open spec fn lines_in(files: Seq<(Seq<char>, int)>) -> int
    decreases files.len(),
{
    if files.len() == 0 {
        0
    } else {
        lines_in(files.drop_last()) + files.last().1
    }
}

/// Every log lists the commits of its headings, in their order, and nothing
/// else; and the lines that a commit added are those of its files.
pub proof fn logs_list_their_headings(lines: Seq<Seq<char>>, author: Seq<char>)
    ensures
        logged_commits(lines, author).len() == headings(lines, author).len(),
        forall|i: int|
            0 <= i < logged_commits(lines, author).len() ==> {
                let commit = #[trigger] logged_commits(lines, author)[i];
                let headed = headings(lines, author)[i];
                &&& commit.sha == headed.sha
                &&& commit.at == headed.at
                &&& commit.subject == headed.subject
                &&& commit.added == lines_in(commit.files)
            },
    decreases lines.len(),
{
    if lines.len() > 0 {
        let earlier = lines.drop_last();
        logs_list_their_headings(earlier, author);
        lemma_open_log_has_commits(earlier, author);
        let before = logged_commits(earlier, author);
        let after = logged_commits(lines, author);
        assert forall|i: int| 0 <= i < after.len() implies {
            let commit = #[trigger] after[i];
            let headed = headings(lines, author)[i];
            &&& commit.sha == headed.sha
            &&& commit.at == headed.at
            &&& commit.subject == headed.subject
            &&& commit.added == lines_in(commit.files)
        } by {
            if i < before.len() {
                assert(before[i].added == lines_in(before[i].files));
                if after[i] != before[i] {
                    let file = file_row(lines.last())->0;
                    assert(after[i] == before[i].with_file(file));
                    assert(after[i].files.drop_last() == before[i].files);
                }
            }
        }
    }
}

/// Every commit that a log lists carries the co-author: its heading names one
/// that begins with the name. A commit that only mentions the name is not
/// listed.
pub proof fn logged_commits_carry_the_author(lines: Seq<Seq<char>>, author: Seq<char>, k: int)
    requires
        0 <= k < logged_commits(lines, author).len(),
    ensures
        exists|j: int|
            0 <= j < lines.len() && is_heading(#[trigger] lines[j]) && {
                let parts = split_at_char(lines[j].drop_first(), '\u{2}');
                let commit = logged_commits(lines, author)[k];
                &&& parts.len() >= 4
                &&& parts[0] == commit.sha
                &&& unix_time(parts[1]) == Some(commit.at)
                &&& parts[2] == commit.subject
                &&& carries(parts.last(), author)
            },
{
    logs_list_their_headings(lines, author);
    let commit = logged_commits(lines, author)[k];
    lemma_headings_are_lines(lines, author, k);
    let j = choose|j: int|
        0 <= j < lines.len() && is_heading(#[trigger] lines[j]) && headed_commit(
            lines[j].drop_first(),
            author,
        ) == Some(headings(lines, author)[k]);
    assert(is_heading(lines[j]));
    assert(commit.sha == headings(lines, author)[k].sha);
}

proof fn lemma_headings_are_lines(lines: Seq<Seq<char>>, author: Seq<char>, k: int)
    requires
        0 <= k < headings(lines, author).len(),
    ensures
        exists|j: int|
            0 <= j < lines.len() && is_heading(#[trigger] lines[j]) && headed_commit(
                lines[j].drop_first(),
                author,
            ) == Some(headings(lines, author)[k]),
    decreases lines.len(),
{
    if lines.len() > 0 {
        let earlier = lines.drop_last();
        if k < headings(earlier, author).len() {
            lemma_headings_are_lines(earlier, author, k);
            let j = choose|j: int|
                0 <= j < earlier.len() && is_heading(#[trigger] earlier[j]) && headed_commit(
                    earlier[j].drop_first(),
                    author,
                ) == Some(headings(earlier, author)[k]);
            assert(lines[j] == earlier[j]);
        } else {
            assert(lines[lines.len() - 1] == lines.last());
        }
    }
}

// ---- reading back what git prints ---------------------------------------------

/// A commit as git knows it: with the values of its co-author trailers, and the
/// lines that it removed from each of its files.
pub struct GitCommit {
    pub commit: CommitView,
    pub trailers: Seq<Seq<char>>,
    pub removed: Seq<nat>,
}

/// The heading of a commit, as the log format has it printed.
pub open spec fn printed_heading(entry: GitCommit) -> Seq<char> {
    seq!['\u{1}'] + (entry.commit.sha.push('\u{2}') + (signed_decimal(
        entry.commit.at.seconds(),
    ).push('\u{2}') + (entry.commit.subject.push('\u{2}') + joined(
        entry.trailers,
        seq!['\u{3}'],
    ))))
}

/// The row of a file, as `--numstat` has it printed, with the lines that were
/// removed from the file.
pub open spec fn printed_row(file: (Seq<char>, int), removed: nat) -> Seq<char> {
    decimal(file.1 as nat).push('\t') + (decimal(removed).push('\t') + file.0)
}

/// The rows of the files.
pub open spec fn printed_rows(files: Seq<(Seq<char>, int)>, removed: Seq<nat>) -> Seq<Seq<char>> {
    Seq::new(files.len(), |i: int| printed_row(files[i], removed[i]))
}

/// The lines of a commit: its heading, an empty line, and its rows.
pub open spec fn printed_commit(entry: GitCommit) -> Seq<Seq<char>> {
    seq![printed_heading(entry), Seq::<char>::empty()] + printed_rows(
        entry.commit.files,
        entry.removed,
    )
}

/// The lines of a log.
pub open spec fn printed_log(entries: Seq<GitCommit>) -> Seq<Seq<char>>
    decreases entries.len(),
{
    if entries.len() == 0 {
        Seq::empty()
    } else {
        printed_log(entries.drop_last()) + printed_commit(entries.last())
    }
}

/// True if one of the co-authors of the commit begins with the name.
pub open spec fn is_by(entry: GitCommit, author: Seq<char>) -> bool {
    exists|i: int|
        0 <= i < entry.trailers.len() && begins_with(#[trigger] entry.trailers[i], author)
}

/// The commits of which `author` is a co-author, in their order.
pub open spec fn commits_by(entries: Seq<GitCommit>, author: Seq<char>) -> Seq<CommitView>
    decreases entries.len(),
{
    if entries.len() == 0 {
        Seq::empty()
    } else if is_by(entries.last(), author) {
        commits_by(entries.drop_last(), author).push(entries.last().commit)
    } else {
        commits_by(entries.drop_last(), author)
    }
}

/// True if the commit can be printed: none of the separators occurs in its
/// texts, its time is a whole second on the calendar, the counters can hold its
/// lines, and its total is that of its files.
pub open spec fn is_printable(entry: GitCommit) -> bool {
    let commit = entry.commit;
    &&& uncut(commit.sha, only('\u{2}'))
    &&& uncut(commit.subject, only('\u{2}'))
    &&& forall|i: int|
        0 <= i < entry.trailers.len() ==> uncut(#[trigger] entry.trailers[i], only('\u{2}'))
            && uncut(entry.trailers[i], only('\u{3}'))
    &&& MIN_SECONDS <= commit.at.seconds() <= MAX_SECONDS
    &&& commit.at == Timestamp::at_second(commit.at.seconds())
    &&& commit.added == lines_in(commit.files)
    &&& forall|i: int|
        0 <= i < commit.files.len() ==> uncut((#[trigger] commit.files[i]).0, only('\t')) && 0
            <= commit.files[i].1 <= u64::MAX
}

/// What git prints of commits is read back as those of them that the author,
/// who has a name, co-authored. The others leave no trace: not even their lines
/// are counted.
pub proof fn printed_logs_read_back(entries: Seq<GitCommit>, author: Seq<char>)
    requires
        author.len() > 0,
        forall|i: int| 0 <= i < entries.len() ==> is_printable(#[trigger] entries[i]),
    ensures
        logged_commits(printed_log(entries), author) == commits_by(entries, author),
    decreases entries.len(),
{
    if entries.len() > 0 {
        let fewer = entries.drop_last();
        assert forall|i: int| 0 <= i < fewer.len() implies is_printable(#[trigger] fewer[i]) by {
            assert(fewer[i] == entries[i]);
        }
        printed_logs_read_back(fewer, author);
        lemma_fold_adds(
            empty_log(),
            printed_log(fewer),
            printed_commit(entries.last()),
            author,
        );
        assert(is_printable(entries[entries.len() - 1]));
        lemma_printed_commit(
            after_log_lines(empty_log(), printed_log(fewer), author),
            entries.last(),
            author,
        );
    }
}

proof fn lemma_fold_adds(
    log: LogState,
    first: Seq<Seq<char>>,
    second: Seq<Seq<char>>,
    author: Seq<char>,
)
    ensures
        after_log_lines(log, first + second, author) == after_log_lines(
            after_log_lines(log, first, author),
            second,
            author,
        ),
    decreases second.len(),
{
    if second.len() == 0 {
        assert(first + second == first);
    } else {
        lemma_fold_adds(log, first, second.drop_last(), author);
        assert((first + second).drop_last() == first + second.drop_last());
    }
}

proof fn lemma_printed_commit(log: LogState, entry: GitCommit, author: Seq<char>)
    requires
        author.len() > 0,
        is_printable(entry),
    ensures
        after_log_lines(log, printed_commit(entry), author).commits == if is_by(entry, author) {
            log.commits.push(entry.commit)
        } else {
            log.commits
        },
{
    let commit = entry.commit;
    let heading = printed_heading(entry);
    let top = seq![heading, Seq::<char>::empty()];
    let rows = printed_rows(commit.files, entry.removed);
    lemma_fold_adds(log, top, rows, author);
    assert(top.drop_last() == seq![heading]);
    assert(top.drop_last().drop_last() == Seq::<Seq<char>>::empty());
    assert(after_log_lines(log, top.drop_last().drop_last(), author) == log);
    lemma_printed_heading(entry, author);
    let headed = after_log_line(log, heading, author);
    assert(after_log_lines(log, top.drop_last(), author) == headed);
    assert(file_row(Seq::<char>::empty()) is None) by {
        lemma_one_piece(Seq::<char>::empty(), only('\t'));
    }
    assert(after_log_lines(log, top, author) == headed);
    if is_by(entry, author) {
        lemma_printed_rows(log.commits, entry, author, commit.files.len() as int);
        assert(commit.files.take(commit.files.len() as int) == commit.files);
        assert(rows.take(commit.files.len() as int) == rows);
    } else {
        lemma_unclaimed_rows(headed, entry, author, rows.len() as int);
        assert(rows.take(rows.len() as int) == rows);
    }
}

/// The list of co-authors is read back.
proof fn lemma_printed_trailers(entry: GitCommit, author: Seq<char>)
    requires
        author.len() > 0,
        is_printable(entry),
    ensures
        uncut(joined(entry.trailers, seq!['\u{3}']), only('\u{2}')),
        carries(joined(entry.trailers, seq!['\u{3}']), author) == is_by(entry, author),
{
    let list = entry.trailers;
    let text = joined(list, seq!['\u{3}']);
    let found = split_at_char(text, '\u{3}');
    lemma_joined_is_uncut(list, '\u{3}', only('\u{2}'));
    if list.len() == 0 {
        lemma_one_piece(text, only('\u{3}'));
        assert(found[0].len() == 0);
    } else {
        lemma_joined_splits(list, '\u{3}');
        assert(found == list);
    }
    if is_by(entry, author) {
        let i = choose|i: int| 0 <= i < list.len() && begins_with(#[trigger] list[i], author);
        assert(begins_with(found[i], author));
    }
}

proof fn lemma_printed_heading(entry: GitCommit, author: Seq<char>)
    requires
        author.len() > 0,
        is_printable(entry),
    ensures
        is_heading(printed_heading(entry)),
        headed_commit(printed_heading(entry).drop_first(), author) == if is_by(entry, author) {
            Some(CommitView { added: 0, files: Seq::empty(), ..entry.commit })
        } else {
            None
        },
{
    let commit = entry.commit;
    let cut = only('\u{2}');
    let time = signed_decimal(commit.at.seconds());
    let trailers = joined(entry.trailers, seq!['\u{3}']);
    let last = commit.subject.push('\u{2}') + trailers;
    let rest = time.push('\u{2}') + last;
    let heading = commit.sha.push('\u{2}') + rest;
    assert(printed_heading(entry).drop_first() == heading);
    lemma_signed_decimal_is_plain(commit.at.seconds());
    lemma_printed_trailers(entry, author);
    lemma_first_piece(commit.sha, '\u{2}', rest, cut);
    lemma_first_piece(time, '\u{2}', last, cut);
    lemma_first_piece(commit.subject, '\u{2}', trailers, cut);
    lemma_one_piece(trailers, cut);
    assert(pieces(heading, cut) == seq![commit.sha, time, commit.subject, trailers]);
    printed_numbers_read_back(0, commit.at.seconds());
}

proof fn lemma_signed_decimal_is_plain(n: int)
    ensures
        uncut(signed_decimal(n), only('\u{2}')),
{
    let text = signed_decimal(n);
    let digits = if n < 0 {
        (-n) as nat
    } else {
        n as nat
    };
    lemma_decimal_digits(digits);
    assert forall|i: int| 0 <= i < text.len() implies !only('\u{2}')(#[trigger] text[i]) by {
        if n < 0 {
            if i > 0 {
                assert(text[i] == decimal(digits)[i - 1]);
            }
        } else {
            assert(text[i] == decimal(digits)[i]);
        }
    }
}

proof fn lemma_printed_row(file: (Seq<char>, int), removed: nat)
    requires
        uncut(file.0, only('\t')),
        0 <= file.1 <= u64::MAX,
    ensures
        file_row(printed_row(file, removed)) == Some(file),
        !is_heading(printed_row(file, removed)),
{
    let cut = only('\t');
    let first = decimal(file.1 as nat);
    let second = decimal(removed);
    lemma_decimal_digits(file.1 as nat);
    lemma_decimal_digits(removed);
    assert forall|i: int| 0 <= i < first.len() implies !cut(#[trigger] first[i]) by {
        assert(is_digit(first[i]));
    }
    assert forall|i: int| 0 <= i < second.len() implies !cut(#[trigger] second[i]) by {
        assert(is_digit(second[i]));
    }
    let rest = second.push('\t') + file.0;
    lemma_first_piece(first, '\t', rest, cut);
    lemma_first_piece(second, '\t', file.0, cut);
    lemma_one_piece(file.0, cut);
    assert(pieces(printed_row(file, removed), cut) == seq![first, second, file.0]);
    printed_numbers_read_back(file.1 as nat, 0);
    assert(is_digit(first[0]));
    assert(printed_row(file, removed)[0] == first[0]);
}

/// The rows of a commit that was headed go to it.
proof fn lemma_printed_rows(
    commits: Seq<CommitView>,
    entry: GitCommit,
    author: Seq<char>,
    n: int,
)
    requires
        is_printable(entry),
        0 <= n <= entry.commit.files.len(),
    ensures
        ({
            let commit = entry.commit;
            let headed = CommitView { added: 0, files: Seq::empty(), ..commit };
            let read = CommitView {
                added: lines_in(commit.files.take(n)),
                files: commit.files.take(n),
                ..commit
            };
            after_log_lines(
                LogState { commits: commits.push(headed), open: true },
                printed_rows(commit.files, entry.removed).take(n),
                author,
            ) == (LogState { commits: commits.push(read), open: true })
        }),
    decreases n,
{
    let commit = entry.commit;
    let rows = printed_rows(commit.files, entry.removed);
    if n == 0 {
        assert(rows.take(0) == Seq::<Seq<char>>::empty());
        assert(commit.files.take(0) == Seq::<(Seq<char>, int)>::empty());
    } else {
        lemma_printed_rows(commits, entry, author, n - 1);
        let file = commit.files[n - 1];
        let before = CommitView {
            added: lines_in(commit.files.take(n - 1)),
            files: commit.files.take(n - 1),
            ..commit
        };
        assert(rows.take(n).drop_last() == rows.take(n - 1));
        assert(rows.take(n).last() == printed_row(file, entry.removed[n - 1]));
        lemma_printed_row(file, entry.removed[n - 1]);
        assert(commits.push(before).drop_last() == commits);
        assert(commit.files.take(n).drop_last() == commit.files.take(n - 1));
        assert(commit.files.take(n) == commit.files.take(n - 1).push(file));
    }
}

/// The rows after a heading that names no commit change nothing.
proof fn lemma_unclaimed_rows(log: LogState, entry: GitCommit, author: Seq<char>, n: int)
    requires
        is_printable(entry),
        !log.open,
        0 <= n <= entry.commit.files.len(),
    ensures
        after_log_lines(
            log,
            printed_rows(entry.commit.files, entry.removed).take(n),
            author,
        ) == log,
    decreases n,
{
    let rows = printed_rows(entry.commit.files, entry.removed);
    if n > 0 {
        lemma_unclaimed_rows(log, entry, author, n - 1);
        let file = entry.commit.files[n - 1];
        assert(rows.take(n).drop_last() == rows.take(n - 1));
        assert(rows.take(n).last() == printed_row(file, entry.removed[n - 1]));
        lemma_printed_row(file, entry.removed[n - 1]);
    }
}

// ---- survival -----------------------------------------------------------------

/// True if one of the commits added lines to the file.
pub open spec fn touched(commits: Seq<CommitView>, file: Seq<char>) -> bool {
    exists|i: int, j: int|
        0 <= i < commits.len() && 0 <= j < commits[i].files.len() && #[trigger] names_file(
            commits,
            i,
            j,
            file,
        )
}

/// True if the file is the `j`-th one of commit `i`.
pub open spec fn names_file(commits: Seq<CommitView>, i: int, j: int, file: Seq<char>) -> bool {
    commits[i].files[j].0 == file
}

/// True if the list is in alphabetical order and holds nothing twice.
pub open spec fn alphabetical(list: Seq<Seq<char>>) -> bool {
    forall|i: int, j: int|
        0 <= i < j < list.len() ==> text_before(#[trigger] list[i], #[trigger] list[j])
}

/// Adds a text to an alphabetical list, at its place, unless it is there.
fn insert_text(list: &mut Vec<String>, text: &String)
    requires
        alphabetical(texts(old(list)@)),
    ensures
        alphabetical(texts(final(list)@)),
        forall|other: Seq<char>| #[trigger]
            texts(final(list)@).contains(other) <==> texts(old(list)@).contains(other) || other
                == text@,
{
    let ghost before = texts(list@);
    let mut place: usize = 0;
    while place < list.len() && sorts_before_text(list[place].as_str(), text.as_str())
        invariant
            before == texts(list@),
            place <= list@.len(),
            forall|i: int| 0 <= i < place ==> text_before(#[trigger] before[i], text@),
        decreases list@.len() - place,
    {
        assert(before[place as int] == list@[place as int]@);
        place += 1;
    }
    if place < list.len() && list[place] == *text {
        assert(before[place as int] == text@);
        return ;
    }
    list.insert(place, text.clone());
    let ghost after = texts(list@);
    proof {
        assert(after == before.insert(place as int, text@));
        assert forall|i: int| place <= i < before.len() implies text_before(
            text@,
            #[trigger] before[i],
        ) by {
            text_order_laws(text@, before[place as int], text@);
            if i > place {
                assert(text_before(before[place as int], before[i]));
                text_order_laws(text@, before[place as int], before[i]);
            }
        }
        assert forall|i: int, j: int| 0 <= i < j < after.len() implies text_before(
            #[trigger] after[i],
            #[trigger] after[j],
        ) by {
            let from = if i < place {
                i
            } else {
                i - 1
            };
            let to = if j < place {
                j
            } else {
                j - 1
            };
            if i != place && j != place {
                assert(text_before(before[from], before[to]));
            } else if i == place {
                assert(text_before(text@, before[to]));
            } else {
                assert(text_before(before[from], text@));
            }
        }
        assert forall|other: Seq<char>| #[trigger] after.contains(other) <==> before.contains(
            other,
        ) || other == text@ by {
            if before.contains(other) {
                let i = before.index_of(other);
                if i < place {
                    assert(after[i] == other);
                } else {
                    assert(after[i + 1] == other);
                }
            }
            if other == text@ {
                assert(after[place as int] == other);
            }
            if after.contains(other) && other != text@ {
                let i = after.index_of(other);
                if i < place {
                    assert(before[i] == other);
                } else {
                    assert(before[i - 1] == other);
                }
            }
        }
    }
}

/// The files to which the commits added lines, each one once, in alphabetical
/// order.
pub fn touched_files(commits: &Vec<AiCommit>) -> (files: Vec<String>)
    ensures
        alphabetical(texts(files@)),
        forall|file: Seq<char>| #[trigger]
            texts(files@).contains(file) <==> touched(commit_views(commits@), file),
{
    let ghost all = commit_views(commits@);
    let mut files: Vec<String> = Vec::new();
    for i in 0..commits.len()
        invariant
            all == commit_views(commits@),
            alphabetical(texts(files@)),
            forall|file: Seq<char>| #[trigger]
                texts(files@).contains(file) <==> touched(all.take(i as int), file),
    {
        let ghost earlier = all.take(i as int);
        let ghost own = all[i as int].files;
        assert(all[i as int] == commits@[i as int]@);
        let listed = &commits[i].files;
        for j in 0..listed.len()
            invariant
                own == file_views(listed@),
                alphabetical(texts(files@)),
                forall|file: Seq<char>| #[trigger]
                    texts(files@).contains(file) <==> touched(earlier, file) || exists|k: int|
                        0 <= k < j && #[trigger] own[k].0 == file,
        {
            let ghost before = texts(files@);
            insert_text(&mut files, &listed[j].0);
            assert(own[j as int].0 == listed@[j as int].0@);
            assert forall|file: Seq<char>| #[trigger]
                texts(files@).contains(file) <==> touched(earlier, file) || exists|k: int|
                    0 <= k < j + 1 && #[trigger] own[k].0 == file by {
                assert(before.contains(file) <==> touched(earlier, file) || exists|k: int|
                    0 <= k < j && #[trigger] own[k].0 == file);
            }
        }
        let ghost now = all.take(i + 1);
        assert forall|file: Seq<char>| #[trigger]
            texts(files@).contains(file) <==> touched(now, file) by {
            if touched(earlier, file) {
                let (k, l) = choose|k: int, l: int|
                    0 <= k < earlier.len() && 0 <= l < earlier[k].files.len()
                        && #[trigger] names_file(earlier, k, l, file);
                assert(names_file(now, k, l, file));
            }
            if exists|k: int| 0 <= k < own.len() && #[trigger] own[k].0 == file {
                let k = choose|k: int| 0 <= k < own.len() && #[trigger] own[k].0 == file;
                assert(names_file(now, i as int, k, file));
            }
            if touched(now, file) {
                let (k, l) = choose|k: int, l: int|
                    0 <= k < now.len() && 0 <= l < now[k].files.len() && #[trigger] names_file(
                        now,
                        k,
                        l,
                        file,
                    );
                if k < i {
                    assert(names_file(earlier, k, l, file));
                } else {
                    assert(own[l].0 == file);
                }
            }
        }
    }
    assert(all.take(all.len() as int) == all);
    files
}

/// What git says of the lines of a file; nothing where it failed, as it does
/// for files that are gone.
pub struct Blame {
    pub file: String,
    pub output: Option<String>,
}

/// What a blame holds: the file, and the lines that git printed.
pub struct BlameView {
    pub file: Seq<char>,
    pub lines: Seq<Seq<char>>,
}

impl View for Blame {
    type V = BlameView;

    open spec fn view(&self) -> BlameView {
        BlameView {
            file: self.file@,
            lines: match self.output {
                Some(text) => lines_of(text@),
                None => Seq::empty(),
            },
        }
    }
}

/// What the blames of a list hold.
pub open spec fn blame_views(blames: Seq<Blame>) -> Seq<BlameView> {
    blames.map_values(|blame: Blame| blame@)
}

/// The hashes of the commits.
pub open spec fn hashes(commits: Seq<CommitView>) -> Seq<Seq<char>> {
    commits.map_values(|commit: CommitView| commit.sha)
}

/// What stands before the first blank of a line.
pub open spec fn first_token(line: Seq<char>) -> Seq<char> {
    split_at_char(line, ' ')[0]
}

/// A line that is still alive: the commit that it belongs to and its file.
pub struct LiveLine {
    pub sha: Seq<char>,
    pub file: Seq<char>,
}

/// The live lines of a file that belong to one of the commits. A header with
/// the full hash of its commit stands before every line; nothing else that is
/// printed begins with such a token.
pub open spec fn live_in(file: Seq<char>, lines: Seq<Seq<char>>, shas: Seq<Seq<char>>) -> Seq<
    LiveLine,
>
    decreases lines.len(),
{
    if lines.len() == 0 {
        Seq::empty()
    } else if shas.contains(first_token(lines.last())) {
        live_in(file, lines.drop_last(), shas).push(
            LiveLine { sha: first_token(lines.last()), file },
        )
    } else {
        live_in(file, lines.drop_last(), shas)
    }
}

/// The live lines of all files.
pub open spec fn live_lines(blames: Seq<BlameView>, shas: Seq<Seq<char>>) -> Seq<LiveLine>
    decreases blames.len(),
{
    if blames.len() == 0 {
        Seq::empty()
    } else {
        live_lines(blames.drop_last(), shas) + live_in(
            blames.last().file,
            blames.last().lines,
            shas,
        )
    }
}

/// The commits of live lines.
pub open spec fn live_shas(live: Seq<LiveLine>) -> Seq<Seq<char>> {
    live.map_values(|line: LiveLine| line.sha)
}

/// The files of live lines.
pub open spec fn live_files(live: Seq<LiveLine>) -> Seq<Seq<char>> {
    live.map_values(|line: LiveLine| line.file)
}

/// How many lines of the commits are still alive, by commit and by file.
pub struct Survival {
    pub per_commit: Tally,
    pub per_file: Tally,
}

impl Survival {
    /// True if the counts are those of the live lines.
    pub open spec fn counts(self, live: Seq<LiveLine>) -> bool {
        &&& tallies(self.per_commit@, |sha: Seq<char>| occurrences(live_shas(live), sha))
        &&& tallies(self.per_file@, |file: Seq<char>| occurrences(live_files(live), file))
    }

    /// Nothing is alive.
    pub fn new() -> (survival: Survival)
        ensures
            survival.per_commit@ == Map::<Seq<char>, u64>::empty(),
            survival.per_file@ == Map::<Seq<char>, u64>::empty(),
    {
        Survival { per_commit: Tally::new(), per_file: Tally::new() }
    }
}

/// What stands before the first blank of a line.
fn token_of(line: &str) -> (token: String)
    ensures
        token@ == first_token(line@),
{
    let parts = split_char(line, ' ');
    assert(split_at_char(line@, ' ')[0] == parts@[0]@);
    parts[0].clone()
}

/// Counts, per commit and per file, how many of the lines in `HEAD` belong to
/// the commits.
pub fn survival(commits: &Vec<AiCommit>, blames: &Vec<Blame>) -> (survival: Survival)
    ensures
        survival.counts(live_lines(blame_views(blames@), hashes(commit_views(commits@)))),
{
    let ghost known = hashes(commit_views(commits@));
    let mut shas: Vec<String> = Vec::new();
    for i in 0..commits.len()
        invariant
            texts(shas@) == hashes(commit_views(commits@)).take(i as int),
    {
        let ghost before = texts(shas@);
        shas.push(commits[i].sha.clone());
        assert(texts(shas@) == before.push(commits@[i as int].sha@));
        assert(hashes(commit_views(commits@))[i as int] == commits@[i as int].sha@);
    }
    assert(known.take(known.len() as int) == known);
    let ghost all = blame_views(blames@);
    let ghost mut live: Seq<LiveLine> = Seq::empty();
    let mut owners: Vec<String> = Vec::new();
    let mut places: Vec<String> = Vec::new();
    assert(texts(owners@) == live_shas(live));
    assert(texts(places@) == live_files(live));
    for i in 0..blames.len()
        invariant
            texts(shas@) == known,
            all == blame_views(blames@),
            live == live_lines(all.take(i as int), known),
            texts(owners@) == live_shas(live),
            texts(places@) == live_files(live),
    {
        let blame = &blames[i];
        let ghost earlier = live;
        assert(all[i as int] == blame@);
        assert(all.take(i + 1).drop_last() == all.take(i as int));
        let rows = match &blame.output {
            Some(text) => lines(text.as_str()),
            None => Vec::new(),
        };
        let ghost printed = blame@.lines;
        assert(texts(rows@) == printed);
        assert(printed.take(0) == Seq::<Seq<char>>::empty());
        assert(live == earlier + live_in(blame.file@, printed.take(0), known));
        for j in 0..rows.len()
            invariant
                texts(shas@) == known,
                printed == texts(rows@),
                live == earlier + live_in(blame.file@, printed.take(j as int), known),
                texts(owners@) == live_shas(live),
                texts(places@) == live_files(live),
        {
            let token = token_of(rows[j].as_str());
            assert(printed.take(j + 1).drop_last() == printed.take(j as int));
            assert(printed.take(j + 1).last() == rows@[j as int]@);
            if contains_text(&shas, &token) {
                let ghost line = LiveLine { sha: token@, file: blame.file@ };
                let ghost before = live;
                let ghost old_owners = texts(owners@);
                let ghost old_places = texts(places@);
                owners.push(token);
                places.push(blame.file.clone());
                proof {
                    live = before.push(line);
                    assert(texts(owners@) == old_owners.push(line.sha));
                    assert(texts(places@) == old_places.push(line.file));
                    assert(live_shas(live) == live_shas(before).push(line.sha));
                    assert(live_files(live) == live_files(before).push(line.file));
                    assert(live == earlier + live_in(blame.file@, printed.take(j + 1), known));
                }
            }
        }
        assert(printed.take(printed.len() as int) == printed);
    }
    assert(all.take(all.len() as int) == all);
    Survival { per_commit: tally_of(&owners), per_file: tally_of(&places) }
}

/// A failed blame leaves the live lines as they are: files that are gone have
/// none.
pub proof fn failed_blames_count_nothing(blames: Seq<BlameView>, gone: BlameView, shas: Seq<
    Seq<char>,
>)
    requires
        gone.lines.len() == 0,
    ensures
        live_lines(blames.push(gone), shas) == live_lines(blames, shas),
{
    assert(blames.push(gone).drop_last() == blames);
    assert(live_in(gone.file, gone.lines, shas) == Seq::<LiveLine>::empty());
}

/// Every live line counts for one commit and for one file: over all commits,
/// and over all files, the counts add up to the number of live lines.
pub proof fn live_lines_add_up(live: Seq<LiveLine>, shas: Seq<Seq<char>>, files: Seq<Seq<char>>)
    requires
        shas.no_duplicates(),
        files.no_duplicates(),
        forall|i: int|
            0 <= i < live.len() ==> shas.contains((#[trigger] live[i]).sha) && files.contains(
                live[i].file,
            ),
    ensures
        total_occurrences(live_shas(live), shas) == live.len(),
        total_occurrences(live_files(live), files) == live.len(),
{
    assert forall|i: int| 0 <= i < live.len() implies shas.contains(
        #[trigger] live_shas(live)[i],
    ) by {
        assert(shas.contains(live[i].sha));
    }
    assert forall|i: int| 0 <= i < live.len() implies files.contains(
        #[trigger] live_files(live)[i],
    ) by {
        assert(files.contains(live[i].file));
    }
    occurrences_add_up(live_shas(live), shas);
    occurrences_add_up(live_files(live), files);
}

/// Every live line belongs to one of the commits and lies in one of the
/// blamed files.
pub proof fn live_lines_are_of_the_commits(blames: Seq<BlameView>, shas: Seq<Seq<char>>, k: int)
    requires
        0 <= k < live_lines(blames, shas).len(),
    ensures
        shas.contains(live_lines(blames, shas)[k].sha),
        exists|i: int|
            0 <= i < blames.len() && (#[trigger] blames[i]).file == live_lines(blames, shas)[k].file,
    decreases blames.len(),
{
    if blames.len() > 0 {
        let fewer = live_lines(blames.drop_last(), shas);
        let last = blames.last();
        if k < fewer.len() {
            live_lines_are_of_the_commits(blames.drop_last(), shas, k);
            let i = choose|i: int|
                0 <= i < blames.len() - 1 && (#[trigger] blames.drop_last()[i]).file == fewer[k].file;
            assert(blames[i].file == fewer[k].file);
        } else {
            lemma_live_in(last.file, last.lines, shas, k - fewer.len());
            assert(blames[blames.len() - 1].file == last.file);
        }
    }
}

proof fn lemma_live_in(file: Seq<char>, lines: Seq<Seq<char>>, shas: Seq<Seq<char>>, k: int)
    requires
        0 <= k < live_in(file, lines, shas).len(),
    ensures
        live_in(file, lines, shas)[k].file == file,
        shas.contains(live_in(file, lines, shas)[k].sha),
    decreases lines.len(),
{
    if lines.len() > 0 {
        let fewer = live_in(file, lines.drop_last(), shas);
        if k < fewer.len() {
            lemma_live_in(file, lines.drop_last(), shas, k);
        }
    }
}


/// A line that begins with the hash of one of the commits, alone or before a
/// blank, is a live line of that commit, whatever follows and however long the
/// hash is; a line that begins with anything else is none.
pub proof fn blamed_lines_are_alive(
    file: Seq<char>,
    lines: Seq<Seq<char>>,
    shas: Seq<Seq<char>>,
    token: Seq<char>,
    rest: Seq<char>,
)
    requires
        uncut(token, only(' ')),
    ensures
        shas.contains(token) ==> live_in(file, lines.push(token.push(' ') + rest), shas)
            == live_in(file, lines, shas).push(LiveLine { sha: token, file }),
        shas.contains(token) ==> live_in(file, lines.push(token), shas) == live_in(
            file,
            lines,
            shas,
        ).push(LiveLine { sha: token, file }),
        !shas.contains(token) ==> live_in(file, lines.push(token.push(' ') + rest), shas)
            == live_in(file, lines, shas),
        !shas.contains(token) ==> live_in(file, lines.push(token), shas) == live_in(
            file,
            lines,
            shas,
        ),
        live_in(file, Seq::empty(), shas) == Seq::<LiveLine>::empty(),
{
    lemma_first_piece(token, ' ', rest, only(' '));
    lemma_one_piece(token, only(' '));
    assert(lines.push(token.push(' ') + rest).drop_last() == lines);
    assert(lines.push(token).drop_last() == lines);
}

/// What git prints of the lines of a file: for each line the hash of the commit
/// that it belongs to with its numbers, and the line itself behind a tab.
pub open spec fn printed_blame(
    owners: Seq<Seq<char>>,
    numbers: Seq<Seq<char>>,
    code: Seq<Seq<char>>,
) -> Seq<Seq<char>>
    decreases owners.len(),
{
    if owners.len() == 0 {
        Seq::empty()
    } else {
        let last = owners.len() - 1;
        printed_blame(owners.drop_last(), numbers, code).push(
            owners.last().push(' ') + numbers[last],
        ).push(seq!['\t'] + code[last])
    }
}

/// The owners of lines that are among the commits, in their order.
pub open spec fn owners_among(owners: Seq<Seq<char>>, shas: Seq<Seq<char>>) -> Seq<Seq<char>>
    decreases owners.len(),
{
    if owners.len() == 0 {
        Seq::empty()
    } else if shas.contains(owners.last()) {
        owners_among(owners.drop_last(), shas).push(owners.last())
    } else {
        owners_among(owners.drop_last(), shas)
    }
}

/// The live lines of a printed blame are its lines that belong to the commits,
/// one for each, whatever the lines hold.
pub proof fn printed_blames_read_back(
    file: Seq<char>,
    owners: Seq<Seq<char>>,
    numbers: Seq<Seq<char>>,
    code: Seq<Seq<char>>,
    shas: Seq<Seq<char>>,
)
    requires
        forall|i: int| 0 <= i < owners.len() ==> uncut(#[trigger] owners[i], only(' ')),
        forall|i: int|
            0 <= i < shas.len() ==> (#[trigger] shas[i]).len() > 0 && shas[i][0] != '\t',
    ensures
        ({
            let live = live_in(file, printed_blame(owners, numbers, code), shas);
            &&& live_shas(live) == owners_among(owners, shas)
            &&& forall|i: int| 0 <= i < live.len() ==> (#[trigger] live[i]).file == file
        }),
    decreases owners.len(),
{
    if owners.len() > 0 {
        let fewer = owners.drop_last();
        let last = owners.len() - 1;
        assert forall|i: int| 0 <= i < fewer.len() implies uncut(
            #[trigger] fewer[i],
            only(' '),
        ) by {
            assert(fewer[i] == owners[i]);
        }
        printed_blames_read_back(file, fewer, numbers, code, shas);
        assert(uncut(owners[last], only(' ')));
        let before = printed_blame(fewer, numbers, code);
        let head = owners.last().push(' ') + numbers[last];
        let line = seq!['\t'] + code[last];
        blamed_lines_are_alive(file, before, shas, owners.last(), numbers[last]);
        let live = live_in(file, before.push(head), shas);
        let earlier = live_in(file, before, shas);
        assert(shas.contains(owners.last()) ==> live_shas(live) == live_shas(earlier).push(
            owners.last(),
        ));
        assert(before.push(head).push(line).drop_last() == before.push(head));
        let token = first_token(line);
        lemma_first_token_starts_the_line(line);
        if shas.contains(token) {
            let i = shas.index_of(token);
            assert(shas[i].len() > 0);
        }
    } else {
        assert(live_shas(Seq::<LiveLine>::empty()) == Seq::<Seq<char>>::empty());
    }
}

/// The first token of a line is empty, or begins as the line does.
proof fn lemma_first_token_starts_the_line(line: Seq<char>)
    requires
        line.len() > 0,
    ensures
        first_token(line).len() > 0 ==> first_token(line)[0] == line[0],
    decreases line.len(),
{
    let cut = only(' ');
    let front = line.drop_last();
    lemma_pieces_not_empty(front, cut);
    if front.len() == 0 {
        assert(pieces(front, cut) == seq![Seq::<char>::empty()]);
        assert(line == seq![line[0]]);
    } else {
        lemma_first_token_starts_the_line(front);
        let parts = pieces(front, cut);
        if !cut(line.last()) && parts.len() == 1 {
            if parts[0].len() == 0 {
                lemma_one_empty_piece(front, cut);
            }
        }
    }
}

/// A text of which there is one piece, and that is empty, is empty.
proof fn lemma_one_empty_piece(text: Seq<char>, cut: spec_fn(char) -> bool)
    requires
        pieces(text, cut).len() == 1,
        pieces(text, cut)[0].len() == 0,
    ensures
        text.len() == 0,
{
    if text.len() > 0 {
        lemma_pieces_not_empty(text.drop_last(), cut);
    }
}

/// The blames of several files are taken one after the other, each with what git
/// printed of its file.
pub proof fn blames_are_taken_in_turn(
    blames: Seq<BlameView>,
    blame: BlameView,
    printed: Blame,
    shas: Seq<Seq<char>>,
)
    ensures
        live_lines(Seq::empty(), shas) == Seq::<LiveLine>::empty(),
        live_lines(blames.push(blame), shas) == live_lines(blames, shas) + live_in(
            blame.file,
            blame.lines,
            shas,
        ),
        printed@.file == printed.file@,
        printed.output matches Some(text) ==> printed@.lines == lines_of(text@),
        printed.output is None ==> printed@.lines.len() == 0,
{
    assert(blames.push(blame).drop_last() == blames);
}

/// Survival holds, for every commit and every file, the number of its live
/// lines.
pub proof fn survival_holds_the_live_lines(
    survival: Survival,
    live: Seq<LiveLine>,
    line: LiveLine,
    name: Seq<char>,
)
    requires
        survival.counts(live),
    ensures
        count_of(survival.per_commit@, name) == occurrences(live_shas(live), name),
        count_of(survival.per_file@, name) == occurrences(live_files(live), name),
        live_shas(live.push(line)) == live_shas(live).push(line.sha),
        live_files(live.push(line)) == live_files(live).push(line.file),
{
    let commits = |sha: Seq<char>| occurrences(live_shas(live), sha);
    let files = |file: Seq<char>| occurrences(live_files(live), file);
    assert(count_of(survival.per_commit@, name) == commits(name));
    assert(count_of(survival.per_file@, name) == files(name));
    assert(live_shas(live.push(line)) == live_shas(live).push(line.sha));
    assert(live_files(live.push(line)) == live_files(live).push(line.file));
}

/// A file counts as touched exactly if one of the commits lists it.
pub proof fn touched_files_are_listed_by_commits(commits: Seq<CommitView>, file: Seq<char>)
    ensures
        touched(commits, file) <==> exists|i: int, j: int|
            0 <= i < commits.len() && 0 <= j < commits[i].files.len()
                && #[trigger] commits[i].files[j].0 == file,
{
    if exists|i: int, j: int|
        0 <= i < commits.len() && 0 <= j < commits[i].files.len()
            && #[trigger] commits[i].files[j].0 == file {
        let (i, j) = choose|i: int, j: int|
            0 <= i < commits.len() && 0 <= j < commits[i].files.len()
                && #[trigger] commits[i].files[j].0 == file;
        assert(names_file(commits, i, j, file));
    }
    if touched(commits, file) {
        let (i, j) = choose|i: int, j: int|
            0 <= i < commits.len() && 0 <= j < commits[i].files.len() && #[trigger] names_file(
                commits,
                i,
                j,
                file,
            );
        assert(commits[i].files[j].0 == file);
    }
}

/// A number of seconds names the beginning of that second, where the calendar
/// has it, and nothing where it has not.
pub proof fn seconds_name_times(seconds: int)
    ensures
        -8_334_601_228_800 <= seconds <= 8_210_266_876_799 ==> {
            &&& unix_time(signed_decimal(seconds)) is Some
            &&& (unix_time(signed_decimal(seconds))->0).seconds() == seconds
            &&& (unix_time(signed_decimal(seconds))->0).nanoseconds() == 0
        },
        !(-8_334_601_228_800 <= seconds <= 8_210_266_876_799) ==> unix_time(
            signed_decimal(seconds),
        ) is None,
{
    printed_numbers_read_back(0, seconds);
    if -8_334_601_228_800 <= seconds <= 8_210_266_876_799 {
        Timestamp::lemma_at_second(seconds);
    }
}

/// What git is asked: for the log of so many days without merges, of commits that
/// mention the co-author, with their hash, time, subject and co-authors, and the
/// lines of each file; and for the commit of every line of a file.
pub proof fn git_is_asked_for_the_log_and_the_lines(author: Seq<char>, days: nat, file: Seq<char>)
    ensures
        root_query() == seq!["rev-parse"@, "--show-toplevel"@],
        log_query(author, days).len() == 6,
        log_query(author, days)[0] == "log"@,
        log_query(author, days).contains("--since="@ + decimal(days) + ".days"@),
        log_query(author, days).contains("--no-merges"@),
        log_query(author, days).contains("--grep=Co-Authored-By: "@ + author),
        log_query(author, days).contains(
            "--format=%x01%H%x02%ct%x02%s%x02%(trailers:key=Co-Authored-By,valueonly,unfold,separator=%x03)"@,
        ),
        log_query(author, days).contains("--numstat"@),
        blame_query(file) == seq!["blame"@, "--line-porcelain"@, "HEAD"@, "--"@].push(file),
{
    let query = log_query(author, days);
    assert(query[1] == "--since="@ + decimal(days) + ".days"@);
    assert(query[2] == "--no-merges"@);
    assert(query[3] == "--grep=Co-Authored-By: "@ + author);
    assert(query[4]
        == "--format=%x01%H%x02%ct%x02%s%x02%(trailers:key=Co-Authored-By,valueonly,unfold,separator=%x03)"@);
    assert(query[5] == "--numstat"@);
}

/// A heading names a commit by its hash, its time and its subject, where it names
/// the co-author and its time is on the calendar.
pub proof fn headings_name_commits(
    sha: Seq<char>,
    time: Seq<char>,
    subject: Seq<char>,
    trailers: Seq<char>,
    author: Seq<char>,
    at: Timestamp,
)
    requires
        uncut(sha, only('\u{2}')),
        uncut(time, only('\u{2}')),
        uncut(subject, only('\u{2}')),
        uncut(trailers, only('\u{2}')),
    ensures
        ({
            let heading = sha.push('\u{2}') + (time.push('\u{2}') + (subject.push('\u{2}')
                + trailers));
            &&& unix_time(time) == Some(at) && carries(trailers, author) ==> headed_commit(
                heading,
                author,
            ) == Some(CommitView { sha, at, subject, added: 0, files: Seq::empty() })
            &&& unix_time(time) is None ==> headed_commit(heading, author) is None
            &&& !carries(trailers, author) ==> headed_commit(heading, author) is None
        }),
{
    let cut = only('\u{2}');
    let last = subject.push('\u{2}') + trailers;
    let more = time.push('\u{2}') + last;
    lemma_one_piece(trailers, cut);
    lemma_first_piece(subject, '\u{2}', trailers, cut);
    lemma_first_piece(time, '\u{2}', last, cut);
    lemma_first_piece(sha, '\u{2}', more, cut);
    assert(seq![sha] + (seq![time] + (seq![subject] + seq![trailers])) =~= seq![
        sha,
        time,
        subject,
        trailers,
    ]);
}

/// One co-author in a list of them is enough, first or last, and the name may go
/// on.
pub proof fn one_co_author_is_enough(
    before: Seq<char>,
    author: Seq<char>,
    more: Seq<char>,
    after: Seq<char>,
)
    requires
        uncut(author + more, only('\u{3}')),
    ensures
        carries(author + more, author),
        carries((author + more).push('\u{3}') + after, author),
        carries(before.push('\u{3}') + (author + more), author),
{
    let cut = only('\u{3}');
    let name = author + more;
    prefixes_leave_a_rest(name, author);
    lemma_one_piece(name, cut);
    assert(split_at_char(name, '\u{3}')[0] == name);
    lemma_first_piece(name, '\u{3}', after, cut);
    assert(split_at_char(name.push('\u{3}') + after, '\u{3}')[0] == name);
    lemma_last_piece(before, '\u{3}', name, cut);
    let parts = split_at_char(before.push('\u{3}') + name, '\u{3}');
    assert(parts[parts.len() - 1] == name);
}

/// Rows behind a heading that names no commit count for none.
pub proof fn rows_of_other_commits_do_not_count(
    lines: Seq<Seq<char>>,
    heading: Seq<char>,
    rows: Seq<Seq<char>>,
    author: Seq<char>,
)
    requires
        headed_commit(heading, author) is None,
        forall|i: int|
            0 <= i < rows.len() ==> ((#[trigger] rows[i]).len() == 0 || rows[i][0] != '\u{1}'),
    ensures
        logged_commits(lines.push(seq!['\u{1}'] + heading) + rows, author) == logged_commits(
            lines,
            author,
        ),
{
    lemma_unclaimed(lines, heading, rows, author);
}

proof fn lemma_unclaimed(
    lines: Seq<Seq<char>>,
    heading: Seq<char>,
    rows: Seq<Seq<char>>,
    author: Seq<char>,
)
    requires
        headed_commit(heading, author) is None,
        forall|i: int|
            0 <= i < rows.len() ==> ((#[trigger] rows[i]).len() == 0 || rows[i][0] != '\u{1}'),
    ensures
        ({
            let log = after_log_lines(
                empty_log(),
                lines.push(seq!['\u{1}'] + heading) + rows,
                author,
            );
            &&& !log.open
            &&& log.commits == logged_commits(lines, author)
        }),
    decreases rows.len(),
{
    let line = seq!['\u{1}'] + heading;
    let all = lines.push(line) + rows;
    if rows.len() == 0 {
        assert(all == lines.push(line));
        assert(all.drop_last() == lines);
        assert(line.drop_first() == heading);
        assert(line[0] == '\u{1}');
    } else {
        let fewer = rows.drop_last();
        assert forall|i: int| 0 <= i < fewer.len() implies ((#[trigger] fewer[i]).len() == 0
            || fewer[i][0] != '\u{1}') by {
            assert(fewer[i] == rows[i]);
        }
        lemma_unclaimed(lines, heading, fewer, author);
        assert(all.drop_last() == lines.push(line) + fewer);
        assert(all.last() == rows[rows.len() - 1]);
    }
}

/// A row gives the lines that its file got, whatever stands between; a file
/// without a number of lines, as git prints for binary ones, gives no row, and
/// neither does a number that is too large.
pub proof fn rows_give_the_added_lines(added: nat, between: Seq<char>, file: Seq<char>, rest: Seq<char>)
    requires
        uncut(between, only('\t')),
        uncut(file, only('\t')),
    ensures
        added <= 0xffff_ffff_ffff_ffff ==> file_row(
            decimal(added).push('\t') + (between.push('\t') + file),
        ) == Some((file, added as int)),
        added > 0xffff_ffff_ffff_ffff ==> file_row(
            decimal(added).push('\t') + (between.push('\t') + file),
        ) is None,
        file_row(seq!['-'].push('\t') + rest) is None,
        file_row(between) is None,
        file_row(between.push('\t') + file) is None,
{
    let cut = only('\t');
    let tail = between.push('\t') + file;
    lemma_decimal_digits(added);
    assert forall|i: int| 0 <= i < decimal(added).len() implies !cut(#[trigger] decimal(added)[i]) by {
        assert(is_digit(decimal(added)[i]));
    }
    lemma_one_piece(file, cut);
    lemma_one_piece(between, cut);
    lemma_first_piece(between, '\t', file, cut);
    lemma_first_piece(decimal(added), '\t', tail, cut);
    assert(seq![decimal(added)] + (seq![between] + seq![file]) =~= seq![
        decimal(added),
        between,
        file,
    ]);
    printed_numbers_read_back(added, 0);
    assert(uncut(seq!['-'], cut));
    lemma_first_piece(seq!['-'], '\t', rest, cut);
    let columns = split_at_char(seq!['-'].push('\t') + rest, '\t');
    assert(columns[0] == seq!['-']);
    numbers_are_digits_with_a_sign(0, seq!['0'], '-', Seq::empty());
    assert(seq!['-'] + Seq::<char>::empty() == seq!['-']);
}

/// The hashes are those of the commits; their lines fit where the counters of 64
/// bits hold them.
pub proof fn hashes_are_those_of_the_commits(commits: Seq<CommitView>, commit: CommitView)
    ensures
        hashes(Seq::empty()) == Seq::<Seq<char>>::empty(),
        hashes(commits.push(commit)) == hashes(commits).push(commit.sha),
        commits_fit(commits.push(commit)) <==> commits_fit(commits) && commit.added
            <= 0xffff_ffff_ffff_ffff,
        commits_fit(Seq::empty()),
{
    let all = commits.push(commit);
    assert(hashes(all) == hashes(commits).push(commit.sha));
    if commits_fit(all) {
        assert(all[commits.len() as int].added <= u64::MAX);
        assert forall|i: int| 0 <= i < commits.len() implies (#[trigger] commits[i]).added
            <= u64::MAX by {
            assert(all[i].added <= u64::MAX);
        }
    }
}

/// Files are listed in the order of their texts, no two alike.
pub proof fn listed_files_rise(list: Seq<Seq<char>>, i: int, j: int)
    requires
        alphabetical(list),
        0 <= i < j < list.len(),
    ensures
        text_before(list[i], list[j]),
        list[i] != list[j],
{
    text_order_laws(list[i], list[i], list[i]);
}

} // verus!
