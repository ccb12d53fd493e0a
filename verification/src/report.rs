//! The git join: links sessions to the commits that their agent co-authored
//! and derives what came of them: line survival, friction per file, and the
//! results of each session.

use vstd::prelude::*;

use crate::git::{
    commit_views, file_views, live_files, AiCommit, CommitView, LiveLine, Survival,
};
use crate::history::{reordered, summary_views, History, SessionSummary, SummaryView};
use crate::order::{
    lemma_every_position_listed, lemma_positions_fit, lists_positions, sorts_before, stable_order,
    Ranked,
};
use crate::session::text_view;
use crate::tally::{
    count_of, lists_names, occurrences, occurrences_add_up, total_occurrences, Tally,
};
use crate::text::{
    file_name, files_are_named_behind_the_last_slash, last_component, only, uncut,
};
use crate::time::{Gap, Timestamp, MAX_SECONDS};

verus! {

/// The age, in nanoseconds, that a commit needs before its survival says
/// anything: seven days.
pub const MATURITY: i128 = 604_800_000_000_000;

/// The seconds by which the window of a session is stretched: committing
/// usually happens after the last turn.
pub const COMMIT_SLACK: u32 = 2_700;

// ---- sessions and commits -----------------------------------------------------

/// True if a commit at `at` lands inside the stretched window of the session.
pub open spec fn lands_in(summary: SummaryView, at: Timestamp) -> bool {
    !at.before(summary.start) && !at.is_past(summary.end, COMMIT_SLACK as int)
}

/// True if the calendar holds the end of the stretched window.
pub open spec fn window_closes(summary: SummaryView) -> bool {
    summary.end.seconds() + COMMIT_SLACK <= MAX_SECONDS
}

/// The first session whose stretched window holds a commit at `at`, if there
/// is one. Nothing can be said where the search meets a session that began
/// before the commit and whose window does not end on the calendar.
pub open spec fn linked(summaries: Seq<SummaryView>, at: Timestamp) -> Option<Option<Seq<char>>>
    decreases summaries.len(),
{
    if summaries.len() == 0 {
        Some(None)
    } else if at.before(summaries[0].start) {
        linked(summaries.drop_first(), at)
    } else if !window_closes(summaries[0]) {
        None
    } else if lands_in(summaries[0], at) {
        Some(Some(summaries[0].id))
    } else {
        linked(summaries.drop_first(), at)
    }
}

/// A commit is linked to the first session whose stretched window holds it;
/// it goes without a session exactly where no window does.
pub proof fn links_are_first_windows(summaries: Seq<SummaryView>, at: Timestamp)
    ensures
        linked(summaries, at) matches Some(None) ==> forall|i: int|
            0 <= i < summaries.len() ==> !lands_in(#[trigger] summaries[i], at),
        linked(summaries, at) matches Some(Some(id)) ==> exists|i: int|
            0 <= i < summaries.len() && first_window(summaries, at, i) && (
            #[trigger] summaries[i]).id == id,
    decreases summaries.len(),
{
    if summaries.len() > 0 {
        let rest = summaries.drop_first();
        links_are_first_windows(rest, at);
        if linked(summaries, at) == linked(rest, at) && !lands_in(summaries[0], at) {
            assert forall|i: int|
                0 <= i < summaries.len() && linked(summaries, at) == Some(
                    None::<Seq<char>>,
                ) implies !lands_in(#[trigger] summaries[i], at) by {
                if i > 0 {
                    assert(!lands_in(rest[i - 1], at));
                }
            }
            if let Some(Some(id)) = linked(rest, at) {
                let i = choose|i: int|
                    0 <= i < rest.len() && first_window(rest, at, i) && (#[trigger] rest[i]).id
                        == id;
                assert(summaries[i + 1] == rest[i]);
                assert forall|j: int| 0 <= j < i + 1 implies !lands_in(
                    #[trigger] summaries[j],
                    at,
                ) by {
                    if j > 0 {
                        assert(!lands_in(rest[j - 1], at));
                    }
                }
                assert(first_window(summaries, at, i + 1));
            }
        } else if let Some(Some(id)) = linked(summaries, at) {
            assert(first_window(summaries, at, 0));
            assert(summaries[0].id == id);
        }
    }
}

/// True if session `i` is the first one whose stretched window holds a commit
/// at `at`.
pub open spec fn first_window(summaries: Seq<SummaryView>, at: Timestamp, i: int) -> bool {
    &&& lands_in(summaries[i], at)
    &&& forall|j: int| 0 <= j < i ==> !lands_in(#[trigger] summaries[j], at)
}

/// The first session whose stretched window holds a commit at `at`. The result
/// is missing exactly where nothing can be said.
pub fn find_link(summaries: &Vec<SessionSummary>, at: Timestamp) -> (link: Option<Option<String>>)
    ensures
        match link {
            Some(id) => linked(summary_views(summaries@), at) == Some(text_view(id)),
            None => linked(summary_views(summaries@), at) is None,
        },
{
    let ghost all = summary_views(summaries@);
    assert(all.skip(0) == all);
    for i in 0..summaries.len()
        invariant
            all == summary_views(summaries@),
            linked(all, at) == linked(all.skip(i as int), at),
    {
        let summary = &summaries[i];
        assert(all.skip(i as int)[0] == summary@);
        assert(all.skip(i as int).drop_first() == all.skip(i + 1));
        if !at.is_before(&summary.start) {
            match summary.end.after(COMMIT_SLACK) {
                Some(close) => {
                    if !close.is_before(&at) {
                        return Some(Some(summary.id.clone()));
                    }
                },
                None => {
                    return None;
                },
            }
        }
    }
    Some(None)
}

/// The session whose stretched window holds the commit.
pub fn link_session(history: &History, commit: &AiCommit) -> (id: Option<String>)
    requires
        linked(summary_views(history.summaries@), commit.at) is Some,
    ensures
        linked(summary_views(history.summaries@), commit.at) == Some(text_view(id)),
{
    match find_link(&history.summaries, commit.at) {
        Some(id) => id,
        None => None,
    }
}

// ---- commit rows --------------------------------------------------------------

/// A commit as the report shows it.
pub struct CommitRow {
    pub sha: String,
    pub at: Timestamp,
    pub subject: String,
    pub added: u64,
    pub surviving: u64,
    pub mature: bool,
    pub session_id: Option<String>,
}

/// What the row of a commit holds.
pub struct CommitRowView {
    pub sha: Seq<char>,
    pub at: Timestamp,
    pub subject: Seq<char>,
    pub added: int,
    pub surviving: int,
    pub mature: bool,
    pub session_id: Option<Seq<char>>,
}

impl View for CommitRow {
    type V = CommitRowView;

    open spec fn view(&self) -> CommitRowView {
        CommitRowView {
            sha: self.sha@,
            at: self.at,
            subject: self.subject@,
            added: self.added as int,
            surviving: self.surviving as int,
            mature: self.mature,
            session_id: text_view(self.session_id),
        }
    }
}

/// What the rows of a list hold.
pub open spec fn commit_row_views(rows: Seq<CommitRow>) -> Seq<CommitRowView> {
    rows.map_values(|row: CommitRow| row@)
}

/// The row of a commit: its lines that are alive, whether it is old enough to
/// judge, and its session.
pub open spec fn commit_row(
    commit: CommitView,
    summaries: Seq<SummaryView>,
    alive: Map<Seq<char>, u64>,
    now: Timestamp,
) -> CommitRowView {
    CommitRowView {
        sha: commit.sha,
        at: commit.at,
        subject: commit.subject,
        added: commit.added,
        surviving: count_of(alive, commit.sha) as int,
        mature: now.nanos_since(commit.at) >= MATURITY,
        session_id: linked(summaries, commit.at)->0,
    }
}

/// The rows of the commits, in their order.
pub open spec fn commit_rows(
    commits: Seq<CommitView>,
    summaries: Seq<SummaryView>,
    alive: Map<Seq<char>, u64>,
    now: Timestamp,
) -> Seq<CommitRowView> {
    Seq::new(commits.len(), |i: int| commit_row(commits[i], summaries, alive, now))
}

/// True if every commit can be linked, or is known to have no session.
pub open spec fn all_linked(commits: Seq<CommitView>, summaries: Seq<SummaryView>) -> bool {
    forall|i: int| 0 <= i < commits.len() ==> linked(summaries, (#[trigger] commits[i]).at) is Some
}

/// The rows of the commits, where every commit can be linked.
fn make_commit_rows(
    commits: &Vec<AiCommit>,
    summaries: &Vec<SessionSummary>,
    alive: &Tally,
    now: Timestamp,
) -> (rows: Option<Vec<CommitRow>>)
    ensures
        rows is Some <==> all_linked(commit_views(commits@), summary_views(summaries@)),
        rows matches Some(list) ==> commit_row_views(list@) == commit_rows(
            commit_views(commits@),
            summary_views(summaries@),
            alive@,
            now,
        ),
{
    let ghost all = commit_views(commits@);
    let ghost sessions = summary_views(summaries@);
    let ghost expected = commit_rows(all, sessions, alive@, now);
    let mut rows: Vec<CommitRow> = Vec::new();
    for i in 0..commits.len()
        invariant
            all == commit_views(commits@),
            sessions == summary_views(summaries@),
            expected == commit_rows(all, sessions, alive@, now),
            forall|k: int| 0 <= k < i ==> linked(sessions, (#[trigger] all[k]).at) is Some,
            commit_row_views(rows@) == expected.take(i as int),
    {
        let commit = &commits[i];
        assert(all[i as int] == commit@);
        let session_id = match find_link(summaries, commit.at) {
            Some(id) => id,
            None => {
                return None;
            },
        };
        let row = CommitRow {
            sha: commit.sha.clone(),
            at: commit.at,
            subject: commit.subject.clone(),
            added: commit.added,
            surviving: alive.count(commit.sha.as_str()),
            mature: now.since(&commit.at).nanoseconds() >= MATURITY,
            session_id,
        };
        let ghost before = commit_row_views(rows@);
        rows.push(row);
        assert(commit_row_views(rows@) == before.push(row@));
        assert(expected.take(i + 1) == expected.take(i as int).push(expected[i as int]));
    }
    assert(expected.take(expected.len() as int) == expected);
    Some(rows)
}

/// The lines that the commits added, all together.
pub open spec fn total_added(rows: Seq<CommitRowView>) -> int
    decreases rows.len(),
{
    if rows.len() == 0 {
        0
    } else {
        total_added(rows.drop_last()) + rows.last().added
    }
}

/// The rows of the commits that are old enough to judge.
pub open spec fn mature_rows(rows: Seq<CommitRowView>) -> Seq<CommitRowView>
    decreases rows.len(),
{
    if rows.len() == 0 {
        Seq::empty()
    } else if rows.last().mature {
        mature_rows(rows.drop_last()).push(rows.last())
    } else {
        mature_rows(rows.drop_last())
    }
}

/// The live lines of the commits, all together.
pub open spec fn total_surviving(rows: Seq<CommitRowView>) -> int
    decreases rows.len(),
{
    if rows.len() == 0 {
        0
    } else {
        total_surviving(rows.drop_last()) + rows.last().surviving
    }
}

/// True if nothing in the rows is negative.
spec fn rows_count_up(rows: Seq<CommitRowView>) -> bool {
    forall|i: int|
        0 <= i < rows.len() ==> (#[trigger] rows[i]).added >= 0 && rows[i].surviving >= 0
}

proof fn lemma_mature_totals_grow(rows: Seq<CommitRowView>, i: int)
    requires
        0 <= i <= rows.len(),
        rows_count_up(rows),
    ensures
        0 <= total_added(mature_rows(rows.take(i))) <= total_added(mature_rows(rows)),
        0 <= total_surviving(mature_rows(rows.take(i))) <= total_surviving(mature_rows(rows)),
    decreases rows.len(),
{
    if rows.len() > 0 {
        let fewer = rows.drop_last();
        assert forall|k: int| 0 <= k < fewer.len() implies (#[trigger] fewer[k]).added >= 0
            && fewer[k].surviving >= 0 by {
            assert(fewer[k] == rows[k]);
        }
        assert(rows.last() == rows[rows.len() - 1]);
        let j = if i < rows.len() {
            i
        } else {
            i - 1
        };
        lemma_mature_totals_grow(fewer, j);
        assert(fewer.take(j) == rows.take(j));
        let kept = mature_rows(fewer);
        assert(kept.push(rows.last()).drop_last() == kept);
        assert(fewer.take(fewer.len() as int) == fewer);
        if i == rows.len() {
            assert(rows.take(i) == rows);
        }
    }
}

/// The lines that the mature commits added, and those of them that are alive,
/// where the counters can hold them.
fn sum_mature(rows: &Vec<CommitRow>) -> (sums: Option<(u64, u64)>)
    ensures
        sums is Some <==> {
            &&& total_added(mature_rows(commit_row_views(rows@))) <= u64::MAX
            &&& total_surviving(mature_rows(commit_row_views(rows@))) <= u64::MAX
        },
        sums matches Some(sums) ==> {
            &&& sums.0 == total_added(mature_rows(commit_row_views(rows@)))
            &&& sums.1 == total_surviving(mature_rows(commit_row_views(rows@)))
        },
{
    let ghost all = commit_row_views(rows@);
    let mut added: u64 = 0;
    let mut surviving: u64 = 0;
    assert(rows_count_up(all));
    for i in 0..rows.len()
        invariant
            all == commit_row_views(rows@),
            rows_count_up(all),
            added == total_added(mature_rows(all.take(i as int))),
            surviving == total_surviving(mature_rows(all.take(i as int))),
    {
        let row = &rows[i];
        let ghost kept = mature_rows(all.take(i as int));
        proof {
            assert(all.take(i + 1).drop_last() == all.take(i as int));
            assert(all.take(i + 1).last() == row@);
            assert(kept.push(row@).drop_last() == kept);
            lemma_mature_totals_grow(all, i + 1);
        }
        if row.mature {
            match (added.checked_add(row.added), surviving.checked_add(row.surviving)) {
                (Some(more_added), Some(more_surviving)) => {
                    added = more_added;
                    surviving = more_surviving;
                },
                _ => {
                    return None;
                },
            }
        }
    }
    assert(all.take(all.len() as int) == all);
    Some((added, surviving))
}

// ---- heat rows ----------------------------------------------------------------

/// The name of a file without its directories; the path itself where it names
/// no file. Transcripts know names while git knows paths, so files are joined
/// by their names, and those with the same name are merged.
pub open spec fn base_of(path: Seq<char>) -> Seq<char> {
    match last_component(path) {
        Some(name) => name,
        None => path,
    }
}

/// The name of a file without its directories.
pub fn basename(path: &str) -> (name: String)
    ensures
        name@ == base_of(path@),
{
    match file_name(path) {
        Some(name) => name,
        None => path.to_owned(),
    }
}

/// The lines added to files of this name, in a list of files.
pub open spec fn lines_to(files: Seq<(Seq<char>, int)>, name: Seq<char>) -> int
    decreases files.len(),
{
    if files.len() == 0 {
        0
    } else {
        lines_to(files.drop_last(), name) + if base_of(files.last().0) == name {
            files.last().1
        } else {
            0
        }
    }
}

/// The lines that the commits added to files of this name.
pub open spec fn added_to(commits: Seq<CommitView>, name: Seq<char>) -> int
    decreases commits.len(),
{
    if commits.len() == 0 {
        0
    } else {
        added_to(commits.drop_last(), name) + lines_to(commits.last().files, name)
    }
}

/// The live lines in files of this name, by a count per path.
pub open spec fn alive_in(
    paths: Seq<Seq<char>>,
    alive: Map<Seq<char>, u64>,
    name: Seq<char>,
) -> int
    decreases paths.len(),
{
    if paths.len() == 0 {
        0
    } else {
        alive_in(paths.drop_last(), alive, name) + if base_of(paths.last()) == name {
            count_of(alive, paths.last()) as int
        } else {
            0
        }
    }
}

/// True if the tally holds, for every name, the number that `number` gives.
spec fn holds(counts: Map<Seq<char>, u64>, number: spec_fn(Seq<char>) -> int) -> bool {
    forall|name: Seq<char>| #[trigger] count_of(counts, name) == number(name)
}

/// True if nothing in the list is negative.
spec fn files_count_up(files: Seq<(Seq<char>, int)>) -> bool {
    forall|i: int| 0 <= i < files.len() ==> (#[trigger] files[i]).1 >= 0
}

spec fn commits_count_up(commits: Seq<CommitView>) -> bool {
    forall|i: int| 0 <= i < commits.len() ==> files_count_up((#[trigger] commits[i]).files)
}

proof fn lemma_lines_to_grow(files: Seq<(Seq<char>, int)>, name: Seq<char>, i: int)
    requires
        0 <= i <= files.len(),
        files_count_up(files),
    ensures
        0 <= lines_to(files.take(i), name) <= lines_to(files, name),
    decreases files.len(),
{
    if files.len() > 0 {
        let fewer = files.drop_last();
        let j = if i < files.len() {
            i
        } else {
            i - 1
        };
        assert(files[files.len() - 1].1 >= 0);
        assert forall|k: int| 0 <= k < fewer.len() implies (#[trigger] fewer[k]).1 >= 0 by {
            assert(fewer[k] == files[k]);
        }
        lemma_lines_to_grow(fewer, name, j);
        assert(fewer.take(j) == files.take(j));
        assert(fewer.take(fewer.len() as int) == fewer);
        if i == files.len() {
            assert(files.take(i) == files);
        }
    }
}

proof fn lemma_added_to_grow(commits: Seq<CommitView>, name: Seq<char>, i: int)
    requires
        0 <= i <= commits.len(),
        commits_count_up(commits),
    ensures
        0 <= added_to(commits.take(i), name) <= added_to(commits, name),
    decreases commits.len(),
{
    if commits.len() > 0 {
        let fewer = commits.drop_last();
        let j = if i < commits.len() {
            i
        } else {
            i - 1
        };
        let last = commits[commits.len() - 1].files;
        lemma_lines_to_grow(last, name, last.len() as int);
        assert(last.take(last.len() as int) == last);
        assert forall|k: int| 0 <= k < fewer.len() implies files_count_up(
            (#[trigger] fewer[k]).files,
        ) by {
            assert(fewer[k] == commits[k]);
        }
        lemma_added_to_grow(fewer, name, j);
        assert(fewer.take(j) == commits.take(j));
        assert(fewer.take(fewer.len() as int) == fewer);
        if i == commits.len() {
            assert(commits.take(i) == commits);
        }
    }
}

/// The lines that the commits added, by the names of the files, where the
/// counters can hold them.
fn tally_added(commits: &Vec<AiCommit>) -> (tally: Option<Tally>)
    ensures
        tally is Some <==> forall|name: Seq<char>| #[trigger]
            added_to(commit_views(commits@), name) <= u64::MAX,
        tally matches Some(t) ==> holds(
            t@,
            |name: Seq<char>| added_to(commit_views(commits@), name),
        ),
{
    let ghost all = commit_views(commits@);
    assert(commits_count_up(all));
    let mut tally = Tally::new();
    for i in 0..commits.len()
        invariant
            all == commit_views(commits@),
            commits_count_up(all),
            holds(tally@, |name: Seq<char>| added_to(all.take(i as int), name)),
    {
        let ghost earlier = |name: Seq<char>| added_to(all.take(i as int), name);
        let ghost later = |name: Seq<char>| added_to(all.take(i + 1), name);
        let files = &commits[i].files;
        let ghost own = file_views(files@);
        assert(all[i as int] == commits@[i as int]@);
        assert(all.take(i + 1).drop_last() == all.take(i as int));
        assert(all.take(i + 1).last().files == own);
        assert(files_count_up(own));
        assert forall|name: Seq<char>| #[trigger] count_of(tally@, name) == earlier(name)
            + lines_to(own.take(0), name) by {
            assert(count_of(tally@, name) == earlier(name));
        }
        let ghost mut so_far = own.take(0);
        let mut j: usize = 0;
        while j < files.len()
            invariant
                j <= files@.len(),
                i < all.len(),
                all == commit_views(commits@),
                own == file_views(files@),
                all.take(i + 1).drop_last() == all.take(i as int),
                all.take(i + 1).last().files == own,
                commits_count_up(all),
                files_count_up(own),
                earlier == (|name: Seq<char>| added_to(all.take(i as int), name)),
                so_far == own.take(j as int),
                forall|name: Seq<char>| #[trigger]
                    count_of(tally@, name) == earlier(name) + lines_to(so_far, name),
            decreases files@.len() - j,
        {
            let name = basename(files[j].0.as_str());
            let ghost longer = own.take(j + 1);
            let ghost before = tally@;
            proof {
                assert(longer.drop_last() == so_far);
                assert(own[j as int] == (files@[j as int].0@, files@[j as int].1 as int));
                assert(count_of(before, name@) == earlier(name@) + lines_to(so_far, name@));
                lemma_lines_to_grow(own, name@, j + 1);
                lemma_added_to_grow(all, name@, i + 1);
            }
            if !tally.add(name.as_str(), files[j].1) {
                assert(added_to(all, name@) > u64::MAX);
                return None;
            }
            assert forall|other: Seq<char>| #[trigger] count_of(tally@, other) == earlier(other)
                + lines_to(longer, other) by {
                assert(count_of(before, other) == earlier(other) + lines_to(so_far, other));
            }
            proof {
                so_far = longer;
            }
            j += 1;
        }
        assert(own.take(own.len() as int) == own);
        assert forall|name: Seq<char>| #[trigger] count_of(tally@, name) == later(name) by {
            assert(count_of(tally@, name) == earlier(name) + lines_to(own, name));
        }
        assert(holds(tally@, later));
    }
    assert(all.take(all.len() as int) == all);
    proof {
        assert forall|name: Seq<char>| #[trigger] added_to(all, name) <= u64::MAX by {
            let number = |name: Seq<char>| added_to(all, name);
            assert(holds(tally@, number));
            assert(count_of(tally@, name) == number(name));
        }
    }
    Some(tally)
}

proof fn lemma_alive_in_grow(
    paths: Seq<Seq<char>>,
    alive: Map<Seq<char>, u64>,
    name: Seq<char>,
    i: int,
)
    requires
        0 <= i <= paths.len(),
    ensures
        0 <= alive_in(paths.take(i), alive, name) <= alive_in(paths, alive, name),
    decreases paths.len(),
{
    if paths.len() > 0 {
        let fewer = paths.drop_last();
        let j = if i < paths.len() {
            i
        } else {
            i - 1
        };
        lemma_alive_in_grow(fewer, alive, name, j);
        assert(fewer.take(j) == paths.take(j));
        assert(fewer.take(fewer.len() as int) == fewer);
        if i == paths.len() {
            assert(paths.take(i) == paths);
        }
    }
}

/// The live lines by the names of the files, where the counters can hold them.
/// Survival is a fact of each path: it is taken once per path, not once per
/// commit that touches the path.
fn tally_alive(per_file: &Tally) -> (tally: Option<Tally>)
    ensures
        tally is Some <==> forall|name: Seq<char>| #[trigger]
            alive_in(per_file.order(), per_file@, name) <= u64::MAX,
        tally matches Some(t) ==> holds(
            t@,
            |name: Seq<char>| alive_in(per_file.order(), per_file@, name),
        ),
{
    let ghost paths = per_file.order();
    let ghost alive = per_file@;
    let mut tally = Tally::new();
    let count: usize = per_file.len();
    for i in 0..count
        invariant
            count == paths.len(),
            paths == per_file.order(),
            alive == per_file@,
            holds(tally@, |name: Seq<char>| alive_in(paths.take(i as int), alive, name)),
    {
        let ghost earlier = |name: Seq<char>| alive_in(paths.take(i as int), alive, name);
        let ghost later = |name: Seq<char>| alive_in(paths.take(i + 1), alive, name);
        let path = per_file.name(i);
        let name = basename(path.as_str());
        let ghost before = tally@;
        proof {
            assert(paths.take(i + 1).drop_last() == paths.take(i as int));
            assert(paths.take(i + 1).last() == path@);
            assert(count_of(before, name@) == earlier(name@));
            lemma_alive_in_grow(paths, alive, name@, i + 1);
        }
        if !tally.add(name.as_str(), per_file.count(path.as_str())) {
            assert(alive_in(paths, alive, name@) > u64::MAX);
            return None;
        }
        assert forall|other: Seq<char>| #[trigger] count_of(tally@, other) == later(other) by {
            assert(count_of(before, other) == earlier(other));
        }
        assert(holds(tally@, later));
    }
    assert(paths.take(paths.len() as int) == paths);
    proof {
        assert forall|name: Seq<char>| #[trigger] alive_in(paths, alive, name) <= u64::MAX by {
            let number = |name: Seq<char>| alive_in(paths, alive, name);
            assert(holds(tally@, number));
            assert(count_of(tally@, name) == number(name));
        }
    }
    Some(tally)
}

/// A file as the heatmap shows it: transcript churn joined with the lines that
/// git knows.
pub struct HeatRow {
    pub file: String,
    pub edits: u64,
    pub sessions: u64,
    pub added: u64,
    pub surviving: u64,
}

/// What the row of a file holds.
pub struct HeatRowView {
    pub file: Seq<char>,
    pub edits: int,
    pub sessions: int,
    pub added: int,
    pub surviving: int,
}

impl View for HeatRow {
    type V = HeatRowView;

    open spec fn view(&self) -> HeatRowView {
        HeatRowView {
            file: self.file@,
            edits: self.edits as int,
            sessions: self.sessions as int,
            added: self.added as int,
            surviving: self.surviving as int,
        }
    }
}

/// What the rows of a list hold.
pub open spec fn heat_row_views(rows: Seq<HeatRow>) -> Seq<HeatRowView> {
    rows.map_values(|row: HeatRow| row@)
}

/// The row of a file.
pub open spec fn heat_row(
    history: History,
    commits: Seq<CommitView>,
    per_file: Tally,
    file: Seq<char>,
) -> HeatRowView {
    HeatRowView {
        file,
        edits: count_of(history.edits_per_file@, file) as int,
        sessions: count_of(history.sessions_per_file@, file) as int,
        added: added_to(commits, file),
        surviving: alive_in(per_file.order(), per_file@, file),
    }
}

/// The rows of all edited files, in the order in which they were first edited.
pub open spec fn heat_rows_unsorted(
    history: History,
    commits: Seq<CommitView>,
    per_file: Tally,
) -> Seq<HeatRowView> {
    let files = history.edits_per_file.order();
    Seq::new(files.len(), |i: int| heat_row(history, commits, per_file, files[i]))
}

/// True if position `i` of the list stands before position `j`: the file was
/// edited more often, or as often and had more lines added, or ties in both
/// and was edited first.
pub open spec fn worse(list: Seq<HeatRowView>, i: int, j: int) -> bool {
    let a = list[i];
    let b = list[j];
    a.edits > b.edits || (a.edits == b.edits && (a.added > b.added || (a.added == b.added && i
        < j)))
}

/// True if `sorted` is `list`, worst offenders first.
pub open spec fn by_friction(list: Seq<HeatRowView>, sorted: Seq<HeatRowView>) -> bool {
    exists|order: Seq<usize>|
        {
            &&& lists_positions(order, list.len())
            &&& #[trigger] reordered(list, order, sorted)
            &&& forall|i: int, j: int|
                0 <= i < j < order.len() ==> worse(
                    list,
                    #[trigger] order[i] as int,
                    #[trigger] order[j] as int,
                )
        }
}

impl Ranked for HeatRow {
    open spec fn precedes(&self, other: &Self) -> bool {
        self.edits > other.edits || (self.edits == other.edits && self.added > other.added)
    }

    proof fn order_laws(a: &Self, b: &Self, c: &Self) {
    }

    fn goes_before(&self, other: &Self) -> (yes: bool) {
        self.edits > other.edits || (self.edits == other.edits && self.added > other.added)
    }
}

/// True if the counters can hold the lines of every file name.
pub open spec fn heat_fits(commits: Seq<CommitView>, per_file: Tally) -> bool {
    &&& forall|name: Seq<char>| #[trigger] added_to(commits, name) <= u64::MAX
    &&& forall|name: Seq<char>| #[trigger]
        alive_in(per_file.order(), per_file@, name) <= u64::MAX
}

/// The rows of all edited files, worst offenders first. The result is missing
/// exactly where the counters cannot hold the lines of a file name.
pub fn heat_rows(history: &History, commits: &Vec<AiCommit>, per_file: &Tally) -> (rows: Option<
    Vec<HeatRow>,
>)
    ensures
        rows is Some <==> heat_fits(commit_views(commits@), *per_file),
        rows matches Some(list) ==> by_friction(
            heat_rows_unsorted(*history, commit_views(commits@), *per_file),
            heat_row_views(list@),
        ),
{
    let ghost all = commit_views(commits@);
    let added = match tally_added(commits) {
        Some(tally) => tally,
        None => {
            return None;
        },
    };
    let alive = match tally_alive(per_file) {
        Some(tally) => tally,
        None => {
            return None;
        },
    };
    let files = &history.edits_per_file;
    let count: usize = files.len();
    let ghost expected = heat_rows_unsorted(*history, all, *per_file);
    let mut list: Vec<HeatRow> = Vec::new();
    for i in 0..count
        invariant
            files == history.edits_per_file,
            count == files.order().len(),
            all == commit_views(commits@),
            expected == heat_rows_unsorted(*history, all, *per_file),
            holds(added@, |name: Seq<char>| added_to(all, name)),
            holds(alive@, |name: Seq<char>| alive_in(per_file.order(), per_file@, name)),
            heat_row_views(list@) == expected.take(i as int),
    {
        let file = files.name(i);
        proof {
            let added_number = |name: Seq<char>| added_to(all, name);
            let alive_number = |name: Seq<char>| alive_in(per_file.order(), per_file@, name);
            assert(count_of(added@, file@) == added_number(file@));
            assert(count_of(alive@, file@) == alive_number(file@));
        }
        let row = HeatRow {
            file: file.clone(),
            edits: files.count(file.as_str()),
            sessions: history.sessions_per_file.count(file.as_str()),
            added: added.count(file.as_str()),
            surviving: alive.count(file.as_str()),
        };
        let ghost before = heat_row_views(list@);
        list.push(row);
        assert(heat_row_views(list@) == before.push(row@));
        assert(expected.take(i + 1) == expected.take(i as int).push(expected[i as int]));
    }
    assert(expected.take(expected.len() as int) == expected);
    let order = stable_order(&list);
    let mut rows: Vec<HeatRow> = Vec::new();
    for i in 0..order.len()
        invariant
            heat_row_views(list@) == expected,
            lists_positions(order@, list@.len()),
            rows@.len() == i,
            forall|k: int| 0 <= k < i ==> (#[trigger] rows@[k])@ == expected[order@[k] as int],
    {
        assert(order@[i as int] < list@.len());
        let row = &list[order[i]];
        assert(expected[order@[i as int] as int] == row@);
        rows.push(
            HeatRow {
                file: row.file.clone(),
                edits: row.edits,
                sessions: row.sessions,
                added: row.added,
                surviving: row.surviving,
            },
        );
    }
    proof {
        assert(reordered(expected, order@, heat_row_views(rows@)));
        assert forall|i: int, j: int| 0 <= i < j < order@.len() implies worse(
            expected,
            #[trigger] order@[i] as int,
            #[trigger] order@[j] as int,
        ) by {
            assert(sorts_before(list@, order@[i] as int, order@[j] as int));
            assert(expected[order@[i] as int] == list@[order@[i] as int]@);
            assert(expected[order@[j] as int] == list@[order@[j] as int]@);
        }
    }
    Some(rows)
}

// ---- session rows -------------------------------------------------------------

/// A session as the report shows it.
pub struct SessionRow {
    pub id: String,
    pub start: Timestamp,
    pub prompts: u64,
    pub output_tokens: u64,
    pub babysit: Gap,
    pub commits: u64,
}

/// What the row of a session holds.
pub struct SessionRowView {
    pub id: Seq<char>,
    pub start: Timestamp,
    pub prompts: int,
    pub output_tokens: int,
    pub babysit: int,
    pub commits: int,
}

impl View for SessionRow {
    type V = SessionRowView;

    open spec fn view(&self) -> SessionRowView {
        SessionRowView {
            id: self.id@,
            start: self.start,
            prompts: self.prompts as int,
            output_tokens: self.output_tokens as int,
            babysit: self.babysit.length(),
            commits: self.commits as int,
        }
    }
}

/// What the rows of a list hold.
pub open spec fn session_row_views(rows: Seq<SessionRow>) -> Seq<SessionRowView> {
    rows.map_values(|row: SessionRow| row@)
}

/// How many of the commits are linked to the session.
pub open spec fn commits_of(rows: Seq<CommitRowView>, id: Seq<char>) -> nat
    decreases rows.len(),
{
    if rows.len() == 0 {
        0
    } else {
        commits_of(rows.drop_last(), id) + if rows.last().session_id == Some(id) {
            1nat
        } else {
            0nat
        }
    }
}

/// The row of a session.
pub open spec fn session_row(summary: SummaryView, rows: Seq<CommitRowView>) -> SessionRowView {
    SessionRowView {
        id: summary.id,
        start: summary.start,
        prompts: summary.prompts,
        output_tokens: summary.output_tokens,
        babysit: summary.babysit,
        commits: commits_of(rows, summary.id) as int,
    }
}

/// The rows of the sessions, latest first.
pub open spec fn rows_of_sessions(
    summaries: Seq<SummaryView>,
    rows: Seq<CommitRowView>,
) -> Seq<SessionRowView> {
    Seq::new(
        summaries.len(),
        |i: int| session_row(summaries[summaries.len() - 1 - i], rows),
    )
}

/// Counts the commits that are linked to the session.
fn count_commits(rows: &Vec<CommitRow>, id: &String) -> (count: u64)
    ensures
        count == commits_of(commit_row_views(rows@), id@),
{
    let ghost all = commit_row_views(rows@);
    let mut count: u64 = 0;
    for i in 0..rows.len()
        invariant
            all == commit_row_views(rows@),
            count <= i,
            count == commits_of(all.take(i as int), id@),
    {
        assert(all.take(i + 1).drop_last() == all.take(i as int));
        assert(all.take(i + 1).last() == rows@[i as int]@);
        if let Some(session) = &rows[i].session_id {
            if *session == *id {
                count += 1;
            }
        }
    }
    assert(all.take(all.len() as int) == all);
    count
}

/// The rows of the sessions, latest first, each with the number of commits
/// that are linked to it.
pub fn session_rows(history: &History, commits: &Vec<CommitRow>) -> (rows: Vec<SessionRow>)
    ensures
        session_row_views(rows@) == rows_of_sessions(
            summary_views(history.summaries@),
            commit_row_views(commits@),
        ),
{
    let summaries = &history.summaries;
    let ghost all = summary_views(summaries@);
    let ghost expected = rows_of_sessions(all, commit_row_views(commits@));
    let count: usize = summaries.len();
    let mut rows: Vec<SessionRow> = Vec::new();
    for i in 0..count
        invariant
            count == summaries@.len(),
            all == summary_views(summaries@),
            expected == rows_of_sessions(all, commit_row_views(commits@)),
            session_row_views(rows@) == expected.take(i as int),
    {
        let summary = &summaries[count - 1 - i];
        assert(all[count - 1 - i] == summary@);
        let row = SessionRow {
            id: summary.id.clone(),
            start: summary.start,
            prompts: summary.prompts,
            output_tokens: summary.output_tokens,
            babysit: summary.babysit,
            commits: count_commits(commits, &summary.id),
        };
        let ghost before = session_row_views(rows@);
        rows.push(row);
        assert(session_row_views(rows@) == before.push(row@));
        assert(expected.take(i + 1) == expected.take(i as int).push(expected[i as int]));
    }
    assert(expected.take(expected.len() as int) == expected);
    rows
}

// ---- report -------------------------------------------------------------------

/// Everything that the report, heatmap and sessions views show.
pub struct ReportData {
    pub commits: Vec<CommitRow>,
    pub heat: Vec<HeatRow>,
    pub sessions: Vec<SessionRow>,
    pub added_mature: u64,
    pub surviving_mature: u64,
    pub output_tokens_30d: u64,
}

/// The output tokens of the sessions, all together.
pub open spec fn total_output(summaries: Seq<SummaryView>) -> int
    decreases summaries.len(),
{
    if summaries.len() == 0 {
        0
    } else {
        total_output(summaries.drop_last()) + summaries.last().output_tokens
    }
}

proof fn lemma_total_output_grows(summaries: Seq<SummaryView>, i: int)
    requires
        0 <= i <= summaries.len(),
        forall|k: int| 0 <= k < summaries.len() ==> (#[trigger] summaries[k]).output_tokens >= 0,
    ensures
        0 <= total_output(summaries.take(i)) <= total_output(summaries),
    decreases summaries.len(),
{
    if summaries.len() > 0 {
        let fewer = summaries.drop_last();
        let j = if i < summaries.len() {
            i
        } else {
            i - 1
        };
        assert(summaries[summaries.len() - 1].output_tokens >= 0);
        assert forall|k: int| 0 <= k < fewer.len() implies (#[trigger] fewer[k]).output_tokens
            >= 0 by {
            assert(fewer[k] == summaries[k]);
        }
        lemma_total_output_grows(fewer, j);
        assert(fewer.take(j) == summaries.take(j));
        assert(fewer.take(fewer.len() as int) == fewer);
        if i == summaries.len() {
            assert(summaries.take(i) == summaries);
        }
    }
}

/// The output tokens of the sessions, where the counter can hold them.
fn sum_all_output(summaries: &Vec<SessionSummary>) -> (total: Option<u64>)
    ensures
        match total {
            Some(n) => n == total_output(summary_views(summaries@)),
            None => total_output(summary_views(summaries@)) > u64::MAX,
        },
{
    let ghost all = summary_views(summaries@);
    let mut total: u64 = 0;
    for i in 0..summaries.len()
        invariant
            all == summary_views(summaries@),
            total == total_output(all.take(i as int)),
    {
        proof {
            assert(all.take(i + 1).drop_last() == all.take(i as int));
            assert(all.take(i + 1).last() == summaries@[i as int]@);
            lemma_total_output_grows(all, i + 1);
        }
        match total.checked_add(summaries[i].output_tokens) {
            Some(sum) => {
                total = sum;
            },
            None => {
                return None;
            },
        }
    }
    assert(all.take(all.len() as int) == all);
    Some(total)
}

/// True if the report can be made: every commit can be linked, and the
/// counters can hold the sums.
pub open spec fn report_fits(
    history: History,
    commits: Seq<CommitView>,
    survival: Survival,
    now: Timestamp,
) -> bool {
    let summaries = summary_views(history.summaries@);
    let rows = commit_rows(commits, summaries, survival.per_commit@, now);
    &&& all_linked(commits, summaries)
    &&& total_added(mature_rows(rows)) <= u64::MAX
    &&& total_surviving(mature_rows(rows)) <= u64::MAX
    &&& total_output(summaries) <= u64::MAX
    &&& heat_fits(commits, survival.per_file)
}

impl ReportData {
    /// True if the report is the join of the history with the commits and
    /// their survival.
    pub open spec fn joins(
        self,
        history: History,
        commits: Seq<CommitView>,
        survival: Survival,
        now: Timestamp,
    ) -> bool {
        let summaries = summary_views(history.summaries@);
        let rows = commit_rows(commits, summaries, survival.per_commit@, now);
        &&& commit_row_views(self.commits@) == rows
        &&& by_friction(
            heat_rows_unsorted(history, commits, survival.per_file),
            heat_row_views(self.heat@),
        )
        &&& session_row_views(self.sessions@) == rows_of_sessions(summaries, rows)
        &&& self.added_mature == total_added(mature_rows(rows))
        &&& self.surviving_mature == total_surviving(mature_rows(rows))
        &&& self.output_tokens_30d == total_output(summaries)
    }
}

/// Joins the history with the commits and their survival. The result is
/// missing exactly where the report cannot be made.
pub fn build(history: &History, commits: &Vec<AiCommit>, survival: &Survival, now: Timestamp) -> (report:
    Option<ReportData>)
    ensures
        report is Some <==> report_fits(*history, commit_views(commits@), *survival, now),
        report matches Some(data) ==> data.joins(
            *history,
            commit_views(commits@),
            *survival,
            now,
        ),
{
    let rows = match make_commit_rows(commits, &history.summaries, &survival.per_commit, now) {
        Some(rows) => rows,
        None => {
            return None;
        },
    };
    let (added_mature, surviving_mature): (u64, u64) = match sum_mature(&rows) {
        Some(sums) => sums,
        None => {
            return None;
        },
    };
    let output_tokens_30d: u64 = match sum_all_output(&history.summaries) {
        Some(total) => total,
        None => {
            return None;
        },
    };
    let heat = match heat_rows(history, commits, &survival.per_file) {
        Some(heat) => heat,
        None => {
            return None;
        },
    };
    let sessions = session_rows(history, &rows);
    Some(
        ReportData {
            commits: rows,
            heat,
            sessions,
            added_mature,
            surviving_mature,
            output_tokens_30d,
        },
    )
}

// ---- laws ---------------------------------------------------------------------

/// The order in which the sorted list holds the rows.
proof fn order_of_friction(list: Seq<HeatRowView>, sorted: Seq<HeatRowView>) -> (order: Seq<usize>)
    requires
        by_friction(list, sorted),
    ensures
        lists_positions(order, list.len()),
        reordered(list, order, sorted),
        forall|i: int, j: int|
            0 <= i < j < order.len() ==> worse(
                list,
                #[trigger] order[i] as int,
                #[trigger] order[j] as int,
            ),
{
    choose|order: Seq<usize>|
        {
            &&& lists_positions(order, list.len())
            &&& #[trigger] reordered(list, order, sorted)
            &&& forall|i: int, j: int|
                0 <= i < j < order.len() ==> worse(
                    list,
                    #[trigger] order[i] as int,
                    #[trigger] order[j] as int,
                )
        }
}

/// The heatmap lists the worst offenders first.
pub proof fn heat_rows_fall(list: Seq<HeatRowView>, sorted: Seq<HeatRowView>, i: int, j: int)
    requires
        by_friction(list, sorted),
        0 <= i < j < sorted.len(),
    ensures
        sorted[i].edits > sorted[j].edits || (sorted[i].edits == sorted[j].edits
            && sorted[i].added >= sorted[j].added),
{
    let order = order_of_friction(list, sorted);
    assert(worse(list, order[i] as int, order[j] as int));
    assert(sorted[i] == list[order[i] as int]);
    assert(sorted[j] == list[order[j] as int]);
}

/// The heatmap has one row for each edited file.
pub proof fn heat_rows_cover_the_files(list: Seq<HeatRowView>, sorted: Seq<HeatRowView>, i: int)
    requires
        by_friction(list, sorted),
        0 <= i < list.len(),
    ensures
        sorted.len() == list.len(),
        sorted.contains(list[i]),
{
    let order = order_of_friction(list, sorted);
    lemma_positions_fit(order);
    lemma_every_position_listed(order, i as usize);
    let k = order.index_of(i as usize);
    assert(sorted[k] == list[i]);
}

/// Commits that are too young to judge add nothing to the mature lines.
pub proof fn mature_lines_are_among_all(rows: Seq<CommitRowView>)
    requires
        forall|i: int|
            0 <= i < rows.len() ==> (#[trigger] rows[i]).added >= 0 && rows[i].surviving >= 0,
    ensures
        0 <= total_added(mature_rows(rows)) <= total_added(rows),
        0 <= total_surviving(mature_rows(rows)) <= total_surviving(rows),
    decreases rows.len(),
{
    if rows.len() > 0 {
        let fewer = rows.drop_last();
        assert forall|i: int| 0 <= i < fewer.len() implies (#[trigger] fewer[i]).added >= 0
            && fewer[i].surviving >= 0 by {
            assert(fewer[i] == rows[i]);
        }
        mature_lines_are_among_all(fewer);
        assert(rows[rows.len() - 1].added >= 0);
        let kept = mature_rows(fewer);
        assert(kept.push(rows.last()).drop_last() == kept);
    }
}

/// The sessions of the linked commits.
pub open spec fn linked_ids(rows: Seq<CommitRowView>) -> Seq<Seq<char>>
    decreases rows.len(),
{
    if rows.len() == 0 {
        Seq::empty()
    } else {
        match rows.last().session_id {
            Some(id) => linked_ids(rows.drop_last()).push(id),
            None => linked_ids(rows.drop_last()),
        }
    }
}

/// The commits of the session rows, all together.
pub open spec fn total_commits(sessions: Seq<SessionRowView>) -> int
    decreases sessions.len(),
{
    if sessions.len() == 0 {
        0
    } else {
        total_commits(sessions.drop_last()) + sessions.last().commits
    }
}

/// Every linked commit counts for one session: where the sessions have
/// different identifiers and each linked commit belongs to one of them, the
/// commits of the session rows add up to the linked commits.
pub proof fn linked_commits_are_shared_out(
    summaries: Seq<SummaryView>,
    rows: Seq<CommitRowView>,
)
    requires
        forall|i: int, j: int|
            0 <= i < j < summaries.len() ==> (#[trigger] summaries[i]).id != (
            #[trigger] summaries[j]).id,
        forall|i: int|
            0 <= i < linked_ids(rows).len() ==> exists|j: int|
                0 <= j < summaries.len() && (#[trigger] summaries[j]).id == (#[trigger] linked_ids(
                    rows,
                )[i]),
    ensures
        total_commits(rows_of_sessions(summaries, rows)) == linked_ids(rows).len(),
{
    let names = linked_ids(rows);
    let sessions = rows_of_sessions(summaries, rows);
    let list = Seq::new(sessions.len(), |i: int| sessions[i].id);
    assert(list.no_duplicates()) by {
        assert forall|i: int, j: int| 0 <= i < list.len() && 0 <= j < list.len() && i
            != j implies list[i] != list[j] by {
            let a = summaries[summaries.len() - 1 - i];
            let b = summaries[summaries.len() - 1 - j];
            assert(a.id != b.id);
        }
    }
    assert forall|i: int| 0 <= i < names.len() implies list.contains(#[trigger] names[i]) by {
        let j = choose|j: int| 0 <= j < summaries.len() && (#[trigger] summaries[j]).id == names[i];
        assert(list[summaries.len() - 1 - j] == names[i]);
    }
    occurrences_add_up(names, list);
    assert forall|n: int| 0 <= n <= sessions.len() implies total_commits(#[trigger] sessions.take(n))
        == total_occurrences(names, list.take(n)) by {
        lemma_commits_are_occurrences(rows, sessions, list, n);
    }
    assert(sessions.take(sessions.len() as int) == sessions);
    assert(list.take(sessions.len() as int) == list);
}

proof fn lemma_commits_are_occurrences(
    rows: Seq<CommitRowView>,
    sessions: Seq<SessionRowView>,
    list: Seq<Seq<char>>,
    n: int,
)
    requires
        0 <= n <= sessions.len(),
        list.len() == sessions.len(),
        forall|i: int|
            0 <= i < sessions.len() ==> (#[trigger] sessions[i]).commits == commits_of(
                rows,
                list[i],
            ),
    ensures
        total_commits(sessions.take(n)) == total_occurrences(linked_ids(rows), list.take(n)),
    decreases n,
{
    if n > 0 {
        lemma_commits_are_occurrences(rows, sessions, list, n - 1);
        assert(sessions.take(n).drop_last() == sessions.take(n - 1));
        assert(list.take(n).drop_last() == list.take(n - 1));
        assert(sessions[n - 1].commits == commits_of(rows, list[n - 1]));
        lemma_commits_of_one(rows, list[n - 1]);
    }
}

proof fn lemma_commits_of_one(rows: Seq<CommitRowView>, id: Seq<char>)
    ensures
        commits_of(rows, id) == occurrences(linked_ids(rows), id),
    decreases rows.len(),
{
    if rows.len() > 0 {
        lemma_commits_of_one(rows.drop_last(), id);
        if let Some(session) = rows.last().session_id {
            let fewer = linked_ids(rows.drop_last());
            assert(fewer.push(session).drop_last() == fewer);
        }
    }
}

/// The names of files without their directories.
pub open spec fn bases(paths: Seq<Seq<char>>) -> Seq<Seq<char>> {
    paths.map_values(|path: Seq<char>| base_of(path))
}

/// The live lines of a file name are the live lines of all files of that name,
/// each one counted once, however many commits touched the file.
pub proof fn live_lines_count_once_per_name(
    survival: Survival,
    live: Seq<LiveLine>,
    name: Seq<char>,
)
    requires
        survival.counts(live),
        lists_names(survival.per_file.order(), survival.per_file@),
    ensures
        alive_in(survival.per_file.order(), survival.per_file@, name) == occurrences(
            bases(live_files(live)),
            name,
        ),
{
    let paths = survival.per_file.order();
    let alive = survival.per_file@;
    let files = live_files(live);
    let number = |file: Seq<char>| occurrences(files, file);
    assert forall|path: Seq<char>| #[trigger] count_of(alive, path) == occurrences(files, path) by {
        assert(count_of(alive, path) == number(path));
    }
    assert forall|i: int| 0 <= i < files.len() implies paths.contains(#[trigger] files[i]) by {
        lemma_occurs(files, i);
        assert(count_of(alive, files[i]) == number(files[i]));
        assert(alive.contains_key(files[i]));
    }
    lemma_alive_is_occurrences(paths, alive, files, name);
    lemma_bases_add_up(paths, files, name);
}

/// What stands in a list occurs in it.
proof fn lemma_occurs(names: Seq<Seq<char>>, i: int)
    requires
        0 <= i < names.len(),
    ensures
        occurrences(names, names[i]) > 0,
    decreases names.len(),
{
    if i < names.len() - 1 {
        lemma_occurs(names.drop_last(), i);
    }
}

/// The occurrences of the paths of this name, together.
spec fn occurrences_under(
    paths: Seq<Seq<char>>,
    files: Seq<Seq<char>>,
    name: Seq<char>,
) -> int
    decreases paths.len(),
{
    if paths.len() == 0 {
        0
    } else {
        occurrences_under(paths.drop_last(), files, name) + if base_of(paths.last()) == name {
            occurrences(files, paths.last()) as int
        } else {
            0
        }
    }
}

proof fn lemma_alive_is_occurrences(
    paths: Seq<Seq<char>>,
    alive: Map<Seq<char>, u64>,
    files: Seq<Seq<char>>,
    name: Seq<char>,
)
    requires
        forall|path: Seq<char>| #[trigger] count_of(alive, path) == occurrences(files, path),
    ensures
        alive_in(paths, alive, name) == occurrences_under(paths, files, name),
    decreases paths.len(),
{
    if paths.len() > 0 {
        lemma_alive_is_occurrences(paths.drop_last(), alive, files, name);
    }
}

proof fn lemma_bases_add_up(paths: Seq<Seq<char>>, files: Seq<Seq<char>>, name: Seq<char>)
    requires
        paths.no_duplicates(),
        forall|i: int| 0 <= i < files.len() ==> paths.contains(#[trigger] files[i]),
    ensures
        occurrences_under(paths, files, name) == occurrences(bases(files), name),
    decreases files.len(),
{
    if files.len() == 0 {
        lemma_nothing_under(paths, files, name);
    } else {
        let fewer = files.drop_last();
        assert forall|i: int| 0 <= i < fewer.len() implies paths.contains(#[trigger] fewer[i]) by {
            assert(fewer[i] == files[i]);
        }
        lemma_bases_add_up(paths, fewer, name);
        assert(paths.contains(files[files.len() - 1]));
        lemma_one_more_under(paths, files, name);
        assert(bases(files).drop_last() == bases(fewer));
        assert(bases(files).last() == base_of(files.last()));
    }
}

proof fn lemma_nothing_under(paths: Seq<Seq<char>>, files: Seq<Seq<char>>, name: Seq<char>)
    requires
        files.len() == 0,
    ensures
        occurrences_under(paths, files, name) == 0,
    decreases paths.len(),
{
    if paths.len() > 0 {
        lemma_nothing_under(paths.drop_last(), files, name);
    }
}

proof fn lemma_one_more_under(paths: Seq<Seq<char>>, files: Seq<Seq<char>>, name: Seq<char>)
    requires
        files.len() > 0,
        paths.no_duplicates(),
    ensures
        occurrences_under(paths, files, name) == occurrences_under(paths, files.drop_last(), name)
            + if paths.contains(files.last()) && base_of(files.last()) == name {
            1int
        } else {
            0int
        },
    decreases paths.len(),
{
    if paths.len() > 0 {
        let rest = paths.drop_last();
        assert(rest.no_duplicates());
        lemma_one_more_under(rest, files, name);
        if rest.contains(files.last()) {
            let i = rest.index_of(files.last());
            assert(paths[i] == files.last());
        } else if paths.contains(files.last()) {
            let i = paths.index_of(files.last());
            if i < rest.len() {
                assert(rest[i] == files.last());
            }
        }
        if paths.last() == files.last() {
            assert(paths[paths.len() - 1] == files.last());
        }
    }
}


// ---- what the join is for -----------------------------------------------------

/// A commit made from the beginning of a session to three quarters of an hour
/// after its end is linked to that session, unless it falls into the window of
/// an earlier one of the list as well.
pub proof fn commits_inside_a_window_are_linked(
    before: Seq<SummaryView>,
    session: SummaryView,
    after: Seq<SummaryView>,
    at: Timestamp,
)
    requires
        session.start.seconds() < at.seconds() || (session.start.seconds() == at.seconds()
            && session.start.nanoseconds() <= at.nanoseconds()),
        at.seconds() < session.end.seconds() + 2_700 || (at.seconds() == session.end.seconds()
            + 2_700 && at.nanoseconds() <= session.end.nanoseconds() - if session.end.nanoseconds()
            >= 1_000_000_000 {
            1_000_000_000int
        } else {
            0int
        }),
        session.end.seconds() + 2_700 <= 8_210_266_876_799,
        forall|i: int|
            0 <= i < before.len() ==> {
                let other = #[trigger] before[i];
                ||| at.seconds() < other.start.seconds()
                ||| at.seconds() == other.start.seconds() && at.nanoseconds()
                    < other.start.nanoseconds()
                ||| other.end.seconds() + 2_700 < at.seconds() <= 8_210_266_876_799
            },
    ensures
        linked(before.push(session) + after, at) == Some(Some(session.id)),
    decreases before.len(),
{
    let all = before.push(session) + after;
    if before.len() == 0 {
        assert(all[0] == session);
    } else {
        let fewer = before.drop_first();
        assert forall|i: int| 0 <= i < fewer.len() implies {
            let other = #[trigger] fewer[i];
            ||| at.seconds() < other.start.seconds()
            ||| at.seconds() == other.start.seconds() && at.nanoseconds()
                < other.start.nanoseconds()
            ||| other.end.seconds() + 2_700 < at.seconds() <= 8_210_266_876_799
        } by {
            assert(fewer[i] == before[i + 1]);
        }
        commits_inside_a_window_are_linked(fewer, session, after, at);
        assert(all.drop_first() == fewer.push(session) + after);
        assert(all[0] == before[0]);
    }
}

/// A commit made before a session began or more than three quarters of an hour
/// after it ended has nothing to do with it: where that holds of all sessions
/// it is linked to none.
pub proof fn commits_outside_all_windows_are_not_linked(
    summaries: Seq<SummaryView>,
    at: Timestamp,
)
    requires
        forall|i: int|
            0 <= i < summaries.len() ==> {
                let other = #[trigger] summaries[i];
                ||| at.seconds() < other.start.seconds()
                ||| at.seconds() == other.start.seconds() && at.nanoseconds()
                    < other.start.nanoseconds()
                ||| other.end.seconds() + 2_700 < at.seconds() <= 8_210_266_876_799
                ||| other.end.seconds() + 2_700 == at.seconds() <= 8_210_266_876_799
                    && other.end.nanoseconds() < 1_000_000_000 && other.end.nanoseconds()
                    < at.nanoseconds()
            },
    ensures
        linked(summaries, at) == Some(None::<Seq<char>>),
    decreases summaries.len(),
{
    if summaries.len() > 0 {
        let fewer = summaries.drop_first();
        assert forall|i: int| 0 <= i < fewer.len() implies {
            let other = #[trigger] fewer[i];
            ||| at.seconds() < other.start.seconds()
            ||| at.seconds() == other.start.seconds() && at.nanoseconds()
                < other.start.nanoseconds()
            ||| other.end.seconds() + 2_700 < at.seconds() <= 8_210_266_876_799
            ||| other.end.seconds() + 2_700 == at.seconds() <= 8_210_266_876_799
                && other.end.nanoseconds() < 1_000_000_000 && other.end.nanoseconds()
                < at.nanoseconds()
        } by {
            assert(fewer[i] == summaries[i + 1]);
        }
        commits_outside_all_windows_are_not_linked(fewer, at);
        let first = summaries[0];
        assert(first.end.seconds() + 2_700 <= 8_210_266_876_799 || at.before(first.start));
    }
}

/// The report has a row for each commit, in the order of the commits, with all
/// that is known of it: its lines that are alive, its session, and whether it is
/// at least seven days old.
pub proof fn commits_keep_their_rows(
    commits: Seq<CommitView>,
    summaries: Seq<SummaryView>,
    alive: Map<Seq<char>, u64>,
    now: Timestamp,
    i: int,
)
    requires
        0 <= i < commits.len(),
        now.nanoseconds() < 1_000_000_000,
        commits[i].at.nanoseconds() < 1_000_000_000,
    ensures
        ({
            let rows = commit_rows(commits, summaries, alive, now);
            &&& rows.len() == commits.len()
            &&& rows[i].sha == commits[i].sha
            &&& rows[i].at == commits[i].at
            &&& rows[i].subject == commits[i].subject
            &&& rows[i].added == commits[i].added
            &&& rows[i].surviving == count_of(alive, commits[i].sha)
            &&& linked(summaries, commits[i].at) is Some ==> Some(rows[i].session_id) == linked(
                summaries,
                commits[i].at,
            )
            &&& rows[i].mature <==> (now.seconds() - commits[i].at.seconds()) * 1_000_000_000 + (
            now.nanoseconds() - commits[i].at.nanoseconds()) >= 604_800 * 1_000_000_000
        }),
{
}

/// A commit that is old enough to judge adds its lines to those that are judged;
/// a younger one adds nothing to them, but does to all lines.
pub proof fn mature_commits_are_judged(rows: Seq<CommitRowView>, row: CommitRowView)
    ensures
        row.mature ==> total_added(mature_rows(rows.push(row))) == total_added(mature_rows(rows))
            + row.added,
        row.mature ==> total_surviving(mature_rows(rows.push(row))) == total_surviving(
            mature_rows(rows),
        ) + row.surviving,
        !row.mature ==> mature_rows(rows.push(row)) == mature_rows(rows),
        total_added(rows.push(row)) == total_added(rows) + row.added,
        total_added(Seq::empty()) == 0,
        total_surviving(Seq::empty()) == 0,
        mature_rows(Seq::empty()) == Seq::<CommitRowView>::empty(),
{
    assert(rows.push(row).drop_last() == rows);
    let kept = mature_rows(rows);
    assert(kept.push(row).drop_last() == kept);
}

/// The lines that a commit adds to a file count for the name of the file without
/// its directories, in full, and for no other name.
pub proof fn added_lines_count_for_their_name(
    commits: Seq<CommitView>,
    commit: CommitView,
    files: Seq<(Seq<char>, int)>,
    dir: Seq<char>,
    name: Seq<char>,
    lines: int,
    other: Seq<char>,
)
    requires
        name.len() > 0,
        uncut(name, only('/')),
        name != seq!['.'],
        name != seq!['.', '.'],
        other != name,
        commit.files == files.push((dir.push('/') + name, lines)) || commit.files == files.push(
            (name, lines),
        ),
    ensures
        ({
            let before = CommitView { files, ..commit };
            &&& added_to(commits.push(commit), name) == added_to(commits.push(before), name) + lines
            &&& added_to(commits.push(commit), other) == added_to(commits.push(before), other)
            &&& added_to(commits.push(CommitView { files: Seq::empty(), ..commit }), name)
                == added_to(commits, name)
            &&& added_to(Seq::empty(), name) == 0
        }),
{
    let before = CommitView { files, ..commit };
    files_are_named_behind_the_last_slash(dir, name);
    assert(commits.push(commit).drop_last() == commits);
    assert(commits.push(before).drop_last() == commits);
    assert(commit.files.drop_last() == files);
    assert(commits.push(CommitView { files: Seq::empty(), ..commit }).drop_last() == commits);
}

/// A row of the heatmap shows how often its file was edited and in how many
/// sessions, and the lines of all files of that name.
pub proof fn heat_rows_show_their_file(
    history: History,
    commits: Seq<CommitView>,
    per_file: Tally,
    i: int,
)
    requires
        0 <= i < history.edits_per_file.order().len(),
    ensures
        ({
            let rows = heat_rows_unsorted(history, commits, per_file);
            let file = history.edits_per_file.order()[i];
            &&& rows.len() == history.edits_per_file.order().len()
            &&& rows[i].file == file
            &&& rows[i].edits == count_of(history.edits_per_file@, file)
            &&& rows[i].sessions == count_of(history.sessions_per_file@, file)
            &&& rows[i].added == added_to(commits, file)
            &&& rows[i].surviving == alive_in(per_file.order(), per_file@, file)
        }),
{
}

/// The sessions are listed latest first, each with all that its digest says and
/// the commits that are linked to it.
pub proof fn sessions_are_listed_latest_first(
    summaries: Seq<SummaryView>,
    rows: Seq<CommitRowView>,
    i: int,
)
    requires
        0 <= i < summaries.len(),
    ensures
        ({
            let listed = rows_of_sessions(summaries, rows);
            let summary = summaries[summaries.len() - 1 - i];
            &&& listed.len() == summaries.len()
            &&& listed[i].id == summary.id
            &&& listed[i].start == summary.start
            &&& listed[i].prompts == summary.prompts
            &&& listed[i].output_tokens == summary.output_tokens
            &&& listed[i].babysit == summary.babysit
            &&& listed[i].commits == commits_of(rows, summary.id)
        }),
{
}

/// A commit counts for the session that it is linked to, and for no other; the
/// tokens of every session count.
pub proof fn commits_and_tokens_count_once(
    rows: Seq<CommitRowView>,
    row: CommitRowView,
    id: Seq<char>,
    summaries: Seq<SummaryView>,
    summary: SummaryView,
)
    ensures
        commits_of(Seq::empty(), id) == 0,
        commits_of(rows.push(row), id) == commits_of(rows, id) + if row.session_id == Some(id) {
            1nat
        } else {
            0nat
        },
        total_output(Seq::empty()) == 0,
        total_output(summaries.push(summary)) == total_output(summaries) + summary.output_tokens,
{
    assert(rows.push(row).drop_last() == rows);
    assert(summaries.push(summary).drop_last() == summaries);
}

/// A report holds the rows of the commits and of the sessions, the lines of the
/// commits that are judged and those of them that are alive, and the tokens of
/// all sessions.
pub proof fn reports_hold_their_numbers(
    data: ReportData,
    history: History,
    commits: Seq<CommitView>,
    survival: Survival,
    now: Timestamp,
)
    requires
        data.joins(history, commits, survival, now),
    ensures
        ({
            let summaries = summary_views(history.summaries@);
            let rows = commit_rows(commits, summaries, survival.per_commit@, now);
            &&& commit_row_views(data.commits@) == rows
            &&& session_row_views(data.sessions@) == rows_of_sessions(summaries, rows)
            &&& data.added_mature == total_added(mature_rows(rows))
            &&& data.surviving_mature == total_surviving(mature_rows(rows))
            &&& data.output_tokens_30d == total_output(summaries)
            &&& by_friction(
                heat_rows_unsorted(history, commits, survival.per_file),
                heat_row_views(data.heat@),
            )
        }),
{
}

/// Rows with the same edits and the same added lines stay in the order in which
/// their files were first edited.
pub proof fn equal_rows_keep_their_order(
    list: Seq<HeatRowView>,
    sorted: Seq<HeatRowView>,
    i: int,
    j: int,
)
    requires
        by_friction(list, sorted),
        0 <= i < j < list.len(),
        list[i].edits == list[j].edits,
        list[i].added == list[j].added,
    ensures
        exists|a: int, b: int|
            0 <= a < b < sorted.len() && #[trigger] sorted[a] == list[i] && #[trigger] sorted[b]
                == list[j],
{
    let order = order_of_friction(list, sorted);
    lemma_positions_fit(order);
    lemma_every_position_listed(order, i as usize);
    lemma_every_position_listed(order, j as usize);
    let a = order.index_of(i as usize);
    let b = order.index_of(j as usize);
    if b < a {
        assert(worse(list, order[b] as int, order[a] as int));
    }
    assert(sorted[a] == list[i] && sorted[b] == list[j]);
}

/// The live lines of a path count for the name of its file, in full, and for no
/// other name. A path without a name counts under itself.
pub proof fn live_lines_count_for_their_name(
    paths: Seq<Seq<char>>,
    alive: Map<Seq<char>, u64>,
    dir: Seq<char>,
    name: Seq<char>,
    lines: u64,
    other: Seq<char>,
    bare: Seq<char>,
)
    requires
        name.len() > 0,
        uncut(name, only('/')),
        name != seq!['.'],
        name != seq!['.', '.'],
        other != name,
        count_of(alive, dir.push('/') + name) == lines,
        last_component(bare) is None,
    ensures
        alive_in(paths.push(dir.push('/') + name), alive, name) == alive_in(paths, alive, name)
            + lines,
        alive_in(paths.push(dir.push('/') + name), alive, other) == alive_in(paths, alive, other),
        alive_in(Seq::empty(), alive, name) == 0,
        base_of(bare) == bare,
{
    files_are_named_behind_the_last_slash(dir, name);
    assert(paths.push(dir.push('/') + name).drop_last() == paths);
}

/// Nothing can be said of a commit after the beginning of a session whose window
/// would end behind the last day of the calendar.
pub proof fn windows_end_on_the_calendar(
    session: SummaryView,
    after: Seq<SummaryView>,
    at: Timestamp,
)
    requires
        session.end.seconds() + 2_700 > 8_210_266_876_799,
    ensures
        session.start.seconds() < at.seconds() ==> linked(seq![session] + after, at) is None,
        at.seconds() < session.start.seconds() ==> linked(seq![session] + after, at) == linked(
            after,
            at,
        ),
{
    let all = seq![session] + after;
    assert(all[0] == session);
    assert(all.drop_first() == after);
}

/// A report can be made wherever its counters of 64 bits hold its numbers, and
/// the windows of the sessions end on the calendar.
pub proof fn reports_are_made_where_counters_hold(
    history: History,
    commits: Seq<CommitView>,
    survival: Survival,
    now: Timestamp,
)
    requires
        ({
            let summaries = summary_views(history.summaries@);
            let rows = commit_rows(commits, summaries, survival.per_commit@, now);
            &&& forall|i: int|
                0 <= i < commits.len() ==> linked(summaries, (#[trigger] commits[i]).at) is Some
            &&& total_added(mature_rows(rows)) <= 0xffff_ffff_ffff_ffff
            &&& total_surviving(mature_rows(rows)) <= 0xffff_ffff_ffff_ffff
            &&& total_output(summaries) <= 0xffff_ffff_ffff_ffff
            &&& forall|name: Seq<char>| #[trigger]
                added_to(commits, name) <= 0xffff_ffff_ffff_ffff
            &&& forall|name: Seq<char>| #[trigger]
                alive_in(survival.per_file.order(), survival.per_file@, name)
                    <= 0xffff_ffff_ffff_ffff
        }),
    ensures
        report_fits(history, commits, survival, now),
{
}

} // verus!
