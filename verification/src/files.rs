//! Where transcripts are found: directory names, and which files of a project
//! directory count.

use vstd::prelude::*;

use crate::order::{
    is_stable_order, lemma_every_position_listed, sorts_before, stable_order, Ranked,
};
use crate::text::{
    chars_of, components, file_name, files_are_named_behind_the_last_slash, last_component,
    lemma_filter_push, lemma_one_piece, names_something, only, path_components, same_text,
    string_of, texts, uncut,
};

verus! {

pub open spec fn is_ascii_alphanumeric(c: char) -> bool {
    '0' <= c <= '9' || 'A' <= c <= 'Z' || 'a' <= c <= 'z'
}

/// The directory name for a path: every character that is not alphanumeric
/// becomes a dash.
pub open spec fn sanitized(path: Seq<char>) -> Seq<char> {
    path.map_values(
        |c: char|
            if is_ascii_alphanumeric(c) {
                c
            } else {
                '-'
            },
    )
}

/// The agent flattens the working directory into a directory name by replacing
/// every character that is not alphanumeric with `-`.
pub fn sanitize(path: &str) -> (name: String)
    ensures
        name@ == sanitized(path@),
{
    let mut name = String::new();
    for c in it: path.chars()
        invariant
            it.seq() == path@,
            name@ == sanitized(path@.take(it.index() as int)),
    {
        let alphanumeric = ('0' <= c && c <= '9') || ('A' <= c && c <= 'Z') || ('a' <= c && c
            <= 'z');
        name.push(
            if alphanumeric {
                c
            } else {
                '-'
            },
        );
        assert(path@.take(it.index() + 1) == path@.take(it.index() as int).push(c));
        assert(name@ == sanitized(path@.take(it.index() + 1)));
    }
    assert(path@.take(path@.len() as int) == path@);
    name
}

/// A sanitized name is as long as the path and holds nothing but ASCII letters,
/// digits and dashes; sanitizing it again changes nothing.
pub proof fn sanitized_names_are_plain(path: Seq<char>)
    ensures
        sanitized(path).len() == path.len(),
        forall|i: int|
            0 <= i < path.len() ==> is_ascii_alphanumeric(#[trigger] sanitized(path)[i])
                || sanitized(path)[i] == '-',
        sanitized(sanitized(path)) == sanitized(path),
{
}

/// The transcript directory of a working directory, below the home directory:
/// `/Users/x/app` leads to `projects` and `-Users-x-app` in the directory that
/// the agent keeps there.
pub fn project_dir(agent_dir: &str, cwd: &str) -> (below_home: Vec<String>)
    ensures
        texts(below_home@) == seq![agent_dir@, "projects"@, sanitized(cwd@)],
{
    let below_home = vec![agent_dir.to_owned(), "projects".to_owned(), sanitize(cwd)];
    assert(texts(below_home@) == seq![agent_dir@, "projects"@, sanitized(cwd@)]);
    below_home
}

/// The name shown for a project: the last component of its path with its parent
/// where both are there, and the path itself where it names no directory.
pub open spec fn shown_name(cwd: Seq<char>) -> Seq<char> {
    let parts = path_components(cwd);
    match last_component(cwd) {
        Some(name) => if parts.len() >= 2 && parts[parts.len() - 2] != ".."@ {
            parts[parts.len() - 2] + "/"@ + name
        } else {
            name
        },
        None => cwd,
    }
}

/// The name shown for a project.
pub fn project_name(cwd: &str) -> (name: String)
    ensures
        name@ == shown_name(cwd@),
{
    match file_name(cwd) {
        Some(name) => {
            let parts = components(cwd);
            let ghost all = path_components(cwd@);
            let count: usize = parts.len();
            assert(all.len() == count);
            if count >= 2 {
                assert(all[count - 2] == parts@[count - 2]@);
                if !same_text(parts[count - 2].as_str(), "..") {
                    let mut full = parts[count - 2].clone();
                    full.append("/");
                    full.append(name.as_str());
                    return full;
                }
            }
            name
        },
        None => cwd.to_owned(),
    }
}

// ---- file names ---------------------------------------------------------------

/// The position of the last dot, or -1.
pub open spec fn last_dot(name: Seq<char>) -> int
    decreases name.len(),
{
    if name.len() == 0 {
        -1
    } else if name.last() == '.' {
        name.len() - 1
    } else {
        last_dot(name.drop_last())
    }
}

/// The extension of the file that a path names: what follows the last dot of
/// its name, unless the name begins with that dot.
pub open spec fn extension_of(path: Seq<char>) -> Option<Seq<char>> {
    match last_component(path) {
        Some(name) => if last_dot(name) > 0 {
            Some(name.skip(last_dot(name) + 1))
        } else {
            None
        },
        None => None,
    }
}

/// The name of the file that a path names, without its extension; empty where
/// the path names none.
pub open spec fn stem_of(path: Seq<char>) -> Seq<char> {
    match last_component(path) {
        Some(name) => if last_dot(name) > 0 {
            name.take(last_dot(name))
        } else {
            name
        },
        None => Seq::empty(),
    }
}

/// True for the paths of transcripts.
pub open spec fn is_transcript(path: Seq<char>) -> bool {
    extension_of(path) == Some("jsonl"@)
}

proof fn lemma_last_dot_in_range(name: Seq<char>)
    ensures
        -1 <= last_dot(name) < name.len(),
    decreases name.len(),
{
    if name.len() > 0 && name.last() != '.' {
        lemma_last_dot_in_range(name.drop_last());
    }
}

/// The number of characters of a file name before its extension and the dot of
/// the extension; all of them where it has none.
fn stem_length(name: &Vec<char>) -> (length: usize)
    ensures
        length == if last_dot(name@) > 0 {
            last_dot(name@)
        } else {
            name@.len() as int
        },
{
    let mut i: usize = name.len();
    assert(name@.take(name@.len() as int) == name@);
    while i > 0
        invariant
            i <= name@.len(),
            last_dot(name@) == last_dot(name@.take(i as int)),
        decreases i,
    {
        assert(name@.take(i as int).drop_last() == name@.take(i - 1));
        if name[i - 1] == '.' {
            if i == 1 {
                return name.len();
            }
            return i - 1;
        }
        i -= 1;
    }
    name.len()
}

/// The identifier of the session that a path names: the name of the file
/// without its extension.
pub fn session_id(path: &str) -> (id: String)
    ensures
        id@ == stem_of(path@),
{
    match file_name(path) {
        Some(name) => {
            let chars = chars_of(name.as_str());
            let length: usize = stem_length(&chars);
            proof {
                lemma_last_dot_in_range(name@);
            }
            let id = string_of(&chars, 0, length);
            assert(chars@.subrange(0, chars@.len() as int) == chars@);
            id
        },
        None => String::new(),
    }
}

/// True for the paths of transcripts.
pub fn names_transcript(path: &str) -> (yes: bool)
    ensures
        yes == is_transcript(path@),
{
    match file_name(path) {
        Some(name) => {
            let chars = chars_of(name.as_str());
            let length: usize = stem_length(&chars);
            proof {
                lemma_last_dot_in_range(name@);
            }
            if length == chars.len() {
                return false;
            }
            let extension = string_of(&chars, length + 1, chars.len());
            assert(chars@.subrange(length + 1, chars@.len() as int) == chars@.skip(length + 1));
            same_text(extension.as_str(), "jsonl")
        },
        None => false,
    }
}

// ---- listing ------------------------------------------------------------------

/// A file of a project directory, with the time of its last change in
/// nanoseconds since 1970 where that is known.
pub struct SessionFile {
    pub path: String,
    pub modified: Option<i128>,
}

/// True for the files that hold a session.
pub open spec fn is_session(file: SessionFile) -> bool {
    is_transcript(file.path@) && file.modified is Some
}

/// The time of the last change.
pub open spec fn changed(file: SessionFile) -> int {
    match file.modified {
        Some(nanos) => nanos as int,
        None => 0,
    }
}

/// True if `positions` lists the sessions among `files`, each one once.
pub open spec fn lists_sessions(files: Seq<SessionFile>, positions: Seq<usize>) -> bool {
    &&& forall|i: int|
        0 <= i < positions.len() ==> (#[trigger] positions[i]) < files.len() && is_session(
            files[positions[i] as int],
        )
    &&& forall|i: int, j: int|
        0 <= i < j < positions.len() ==> #[trigger] positions[i] != #[trigger] positions[j]
    &&& forall|p: usize|
        p < files.len() && is_session(files[p as int]) ==> #[trigger] positions.contains(p)
}

/// True if the session at position `a` comes before the one at `b`: it changed
/// later, or both changed at the same time and it was listed first.
pub open spec fn more_recent(files: Seq<SessionFile>, a: int, b: int) -> bool {
    changed(files[a]) > changed(files[b]) || (changed(files[a]) == changed(files[b]) && a < b)
}

/// The time of the last change, latest first.
struct Recency {
    nanos: i128,
}

impl Ranked for Recency {
    closed spec fn precedes(&self, other: &Self) -> bool {
        self.nanos > other.nanos
    }

    proof fn order_laws(a: &Self, b: &Self, c: &Self) {
    }

    fn goes_before(&self, other: &Self) -> (yes: bool) {
        self.nanos > other.nanos
    }
}

/// The positions of all sessions, newest-modified first.
pub fn sessions_by_recency(files: &Vec<SessionFile>) -> (positions: Vec<usize>)
    ensures
        lists_sessions(files@, positions@),
        forall|i: int, j: int|
            0 <= i < j < positions@.len() ==> more_recent(
                files@,
                #[trigger] positions@[i] as int,
                #[trigger] positions@[j] as int,
            ),
{
    let mut found: Vec<usize> = Vec::new();
    let mut keys: Vec<Recency> = Vec::new();
    for i in 0..files.len()
        invariant
            keys@.len() == found@.len(),
            forall|k: int|
                0 <= k < found@.len() ==> (#[trigger] found@[k]) < i && is_session(
                    files@[found@[k] as int],
                ) && keys@[k].nanos == changed(files@[found@[k] as int]),
            forall|k: int, l: int|
                0 <= k < l < found@.len() ==> #[trigger] found@[k] < #[trigger] found@[l],
            forall|p: usize| p < i && is_session(files@[p as int]) ==> #[trigger] found@.contains(p),
            i <= files@.len(),
    {
        let ghost before = found@;
        if let Some(nanos) = files[i].modified {
            if names_transcript(files[i].path.as_str()) {
                found.push(i);
                keys.push(Recency { nanos });
                proof {
                    assert(found@[before.len() as int] == i);
                    assert forall|p: usize|
                        p <= i && is_session(
                            files@[p as int],
                        ) implies #[trigger] found@.contains(p) by {
                        if p < i {
                            assert(before.contains(p));
                            let k = choose|k: int| 0 <= k < before.len() && before[k] == p;
                            assert(found@[k] == p);
                        }
                    }
                }
            }
        }
    }
    let order = stable_order(&keys);
    let mut positions: Vec<usize> = Vec::new();
    for n in 0..order.len()
        invariant
            is_stable_order(keys@, order@),
            keys@.len() == found@.len(),
            positions@.len() == n,
            n <= order@.len(),
            forall|k: int|
                0 <= k < n ==> #[trigger] positions@[k] == found@[order@[k] as int],
    {
        assert(order@[n as int] < found@.len());
        positions.push(found[order[n]]);
    }
    proof {
        assert forall|i: int, j: int| 0 <= i < j < positions@.len() implies more_recent(
            files@,
            #[trigger] positions@[i] as int,
            #[trigger] positions@[j] as int,
        ) by {
            assert(sorts_before(keys@, order@[i] as int, order@[j] as int));
            let a = order@[i] as int;
            let b = order@[j] as int;
            assert(keys@[a].nanos == changed(files@[found@[a] as int]));
            assert(keys@[b].nanos == changed(files@[found@[b] as int]));
        }
        assert forall|i: int| 0 <= i < positions@.len() implies (#[trigger] positions@[i])
            < files@.len() && is_session(files@[positions@[i] as int]) by {
            assert(found@[order@[i] as int] < files@.len());
        }
        assert forall|p: usize|
            p < files@.len() && is_session(
                files@[p as int],
            ) implies #[trigger] positions@.contains(p) by {
            assert(found@.contains(p));
            let k = choose|k: int| 0 <= k < found@.len() && found@[k] == p;
            lemma_every_position_listed(order@, k as usize);
            let n = choose|n: int| 0 <= n < order@.len() && order@[n] == k as usize;
            assert(positions@[n] == p);
        }
        assert forall|i: int, j: int| 0 <= i < j < positions@.len() implies #[trigger] positions@[i]
            != #[trigger] positions@[j] by {
            assert(more_recent(files@, positions@[i] as int, positions@[j] as int));
        }
    }
    positions
}

/// The position of the most recently modified session, if there is any.
pub fn latest_session(files: &Vec<SessionFile>) -> (position: Option<usize>)
    ensures
        match position {
            Some(p) => {
                &&& p < files@.len()
                &&& is_session(files@[p as int])
                &&& forall|q: usize|
                    q < files@.len() && q != p && is_session(#[trigger] files@[q as int])
                        ==> more_recent(files@, p as int, q as int)
            },
            None => forall|q: usize|
                q < files@.len() ==> !is_session(#[trigger] files@[q as int]),
        },
{
    let positions = sessions_by_recency(files);
    proof {
        assert forall|q: usize| q < files@.len() && is_session(files@[q as int]) implies exists|
            k: int,
        | 0 <= k < positions@.len() && positions@[k] == q by {
            assert(positions@.contains(q));
        }
    }
    if positions.len() == 0 {
        None
    } else {
        assert forall|q: usize|
            q < files@.len() && q != positions@[0] && is_session(
                #[trigger] files@[q as int],
            ) implies more_recent(files@, positions@[0] as int, q as int) by {
            let k = choose|k: int| 0 <= k < positions@.len() && positions@[k] == q;
            assert(more_recent(files@, positions@[0] as int, positions@[k] as int));
        }
        Some(positions[0])
    }
}

/// The nanoseconds of so many days.
pub open spec fn days_in_nanos(days: int) -> int {
    days * 86_400_000_000_000
}

/// The positions of the sessions modified within the last `days` days before
/// `now`, as they are listed.
pub fn recent_sessions(files: &Vec<SessionFile>, now: i128, days: u64) -> (positions: Vec<usize>)
    requires
        days * 86_400 <= u64::MAX,
    ensures
        forall|i: int, j: int|
            0 <= i < j < positions@.len() ==> #[trigger] positions@[i] < #[trigger] positions@[j],
        forall|p: usize| #[trigger]
            positions@.contains(p) <==> p < files@.len() && is_session(files@[p as int]) && changed(
                files@[p as int],
            ) >= now - days_in_nanos(days as int),
{
    let span: i128 = (days as i128) * 86_400_000_000_000;
    let cutoff: Option<i128> = now.checked_sub(span);
    let mut positions: Vec<usize> = Vec::new();
    for i in 0..files.len()
        invariant
            span == days_in_nanos(days as int),
            cutoff == now.checked_sub(span),
            i <= files@.len(),
            forall|k: int, l: int|
                0 <= k < l < positions@.len() ==> #[trigger] positions@[k] < #[trigger] positions@[l],
            forall|p: usize| #[trigger]
                positions@.contains(p) <==> p < i && is_session(files@[p as int]) && changed(
                    files@[p as int],
                ) >= now - days_in_nanos(days as int),
    {
        let ghost before = positions@;
        if let Some(modified) = files[i].modified {
            let recent = match cutoff {
                Some(limit) => modified >= limit,
                None => true,
            };
            if recent && names_transcript(files[i].path.as_str()) {
                proof {
                    assert forall|k: int| 0 <= k < before.len() implies #[trigger] before[k] < i by {
                        assert(before.contains(before[k]));
                    }
                }
                positions.push(i);
                proof {
                    assert(positions@[before.len() as int] == i);
                    assert forall|p: usize| #[trigger] positions@.contains(p) <==> before.contains(
                        p,
                    ) || p == i by {
                        if before.contains(p) {
                            let k = choose|k: int| 0 <= k < before.len() && before[k] == p;
                            assert(positions@[k] == p);
                        }
                        if positions@.contains(p) && p != i {
                            let k = choose|k: int| 0 <= k < positions@.len() && positions@[k] == p;
                            assert(before[k] == p);
                        }
                    }
                }
            }
        }
    }
    positions
}

// ---- laws ---------------------------------------------------------------------

/// Paths are flattened character by character: letters and digits of ASCII stay,
/// and everything else is a dash.
pub proof fn paths_are_flattened(path: Seq<char>, c: char)
    ensures
        sanitized(Seq::empty()) == Seq::<char>::empty(),
        'a' <= c <= 'z' || 'A' <= c <= 'Z' || '0' <= c <= '9' ==> sanitized(path.push(c))
            == sanitized(path).push(c),
        !('a' <= c <= 'z' || 'A' <= c <= 'Z' || '0' <= c <= '9') ==> sanitized(path.push(c))
            == sanitized(path).push('-'),
{
}

/// A project is shown by its directory and the one around it.
pub proof fn projects_are_shown_with_their_parent(
    around: Seq<char>,
    parent: Seq<char>,
    name: Seq<char>,
)
    requires
        parent.len() > 0,
        name.len() > 0,
        uncut(parent, only('/')),
        uncut(name, only('/')),
        parent != seq!['.'],
        parent != seq!['.', '.'],
        name != seq!['.'],
        name != seq!['.', '.'],
    ensures
        shown_name((around.push('/') + parent).push('/') + name) == parent.push('/') + name,
        shown_name(parent.push('/') + name) == parent.push('/') + name,
        shown_name(name) == name,
        shown_name(Seq::empty()) == Seq::<char>::empty(),
{
    reveal_strlit("/");
    reveal_strlit("..");
    assert("/"@ == seq!['/']);
    assert(".."@ == seq!['.', '.']);
    files_are_named_behind_the_last_slash(around, parent);
    files_are_named_behind_the_last_slash(around.push('/') + parent, name);
    files_are_named_behind_the_last_slash(parent, name);
    let whole = path_components((around.push('/') + parent).push('/') + name);
    assert(whole == path_components(around).push(parent).push(name));
    assert(whole[whole.len() - 2] == parent);
    assert(path_components(parent.push('/') + name) == seq![parent].push(name));
    assert(parent + "/"@ + name == parent.push('/') + name);
    assert(last_component(Seq::empty()) is None) by {
        let cut = only('/');
        lemma_one_piece(Seq::<char>::empty(), cut);
        reveal(Seq::filter);
        let nothing = Seq::<Seq<char>>::empty();
        lemma_filter_push(nothing, Seq::<char>::empty(), names_something());
        assert(nothing.push(Seq::<char>::empty()) == seq![Seq::<char>::empty()]);
        assert(nothing.filter(names_something()) == nothing);
    }
}

proof fn lemma_last_dot_is_last(stem: Seq<char>, extension: Seq<char>)
    requires
        uncut(extension, only('.')),
    ensures
        last_dot(stem.push('.') + extension) == stem.len(),
    decreases extension.len(),
{
    if extension.len() == 0 {
        assert(stem.push('.') + extension == stem.push('.'));
    } else {
        let shorter = extension.drop_last();
        assert((stem.push('.') + extension).last() == extension.last());
        assert((stem.push('.') + extension).drop_last() == stem.push('.') + shorter);
        assert forall|i: int| 0 <= i < shorter.len() implies !only('.')(#[trigger] shorter[i]) by {
            assert(shorter[i] == extension[i]);
        }
        assert(!only('.')(extension[extension.len() - 1]));
        lemma_last_dot_is_last(stem, shorter);
    }
}

/// A transcript is a file whose name ends in `.jsonl`; what stands before names
/// its session. Other extensions do not count.
pub proof fn transcripts_are_named_after_their_session(
    dir: Seq<char>,
    session: Seq<char>,
    extension: Seq<char>,
)
    requires
        session.len() > 0,
        uncut(session, only('/')),
        uncut(extension, only('/')),
        uncut(extension, only('.')),
        session != seq!['.'] || extension.len() > 0,
    ensures
        ({
            let path = dir.push('/') + (session.push('.') + extension);
            &&& stem_of(path) == session
            &&& is_transcript(path) <==> extension == seq!['j', 's', 'o', 'n', 'l']
        }),
{
    reveal_strlit("jsonl");
    assert("jsonl"@ == seq!['j', 's', 'o', 'n', 'l']);
    let name = session.push('.') + extension;
    let path = dir.push('/') + name;
    assert forall|i: int| 0 <= i < name.len() implies !only('/')(#[trigger] name[i]) by {
        if i < session.len() {
            assert(!only('/')(session[i]));
        } else if i > session.len() {
            assert(!only('/')(extension[i - session.len() - 1]));
        }
    }
    assert(name.len() >= 2);
    assert(name != seq!['.']);
    if name == seq!['.', '.'] {
        assert(name.len() == 2);
        assert(extension.len() == 0);
        assert(session == seq![name[0]]);
        assert(session == seq!['.']);
    }
    files_are_named_behind_the_last_slash(dir, name);
    lemma_last_dot_is_last(session, extension);
    assert(name.take(session.len() as int) == session);
    assert(name.skip(session.len() as int + 1) == extension);
}

/// A file whose name has no dot, or only one in front, is no transcript.
pub proof fn bare_names_are_no_transcripts(dir: Seq<char>, name: Seq<char>)
    requires
        name.len() > 0,
        uncut(name, only('/')),
        uncut(name, only('.')),
    ensures
        !is_transcript(dir.push('/') + name),
        stem_of(dir.push('/') + name) == name,
        !is_transcript(dir.push('/') + (seq!['.'] + name)),
        stem_of(dir.push('/') + (seq!['.'] + name)) == seq!['.'] + name,
{
    let hidden = seq!['.'] + name;
    assert(!only('.')(name[0]));
    assert(name != seq!['.'] && name != seq!['.', '.']) by {
        assert(seq!['.'][0] == '.' && seq!['.', '.'][0] == '.');
    }
    assert(hidden[1] == name[0]);
    assert(hidden != seq!['.'] && hidden != seq!['.', '.']) by {
        assert(seq!['.', '.'][1] == '.');
    }
    assert forall|i: int| 0 <= i < hidden.len() implies !only('/')(#[trigger] hidden[i]) by {
        if i > 0 {
            assert(!only('/')(name[i - 1]));
        }
    }
    files_are_named_behind_the_last_slash(dir, name);
    files_are_named_behind_the_last_slash(dir, hidden);
    lemma_no_dot(name);
    assert(Seq::<char>::empty().push('.') + name == hidden);
    lemma_last_dot_is_last(Seq::empty(), name);
}

proof fn lemma_no_dot(name: Seq<char>)
    requires
        uncut(name, only('.')),
    ensures
        last_dot(name) == -1,
    decreases name.len(),
{
    if name.len() > 0 {
        let shorter = name.drop_last();
        assert(!only('.')(name[name.len() - 1]));
        assert forall|i: int| 0 <= i < shorter.len() implies !only('.')(#[trigger] shorter[i]) by {
            assert(shorter[i] == name[i]);
        }
        lemma_no_dot(shorter);
    }
}

/// Of two sessions the one that changed later comes first; a file that is no
/// transcript, or whose time is not known, is no session.
pub proof fn later_changes_come_first(files: Seq<SessionFile>, a: int, b: int, x: i128, y: i128)
    requires
        0 <= a < files.len(),
        0 <= b < files.len(),
        files[a].modified == Some(x),
        files[b].modified == Some(y),
    ensures
        x > y ==> more_recent(files, a, b) && !more_recent(files, b, a),
        x == y && a < b ==> more_recent(files, a, b) && !more_recent(files, b, a),
        is_session(files[a]) == is_transcript(files[a].path@),
{
}

/// A day has 24 hours of 60 minutes of 60 seconds.
pub proof fn days_are_whole(days: int)
    ensures
        days_in_nanos(days) == days * 24 * 60 * 60 * 1_000_000_000,
        days_in_nanos(days + 1) == days_in_nanos(days) + 24 * 3_600 * 1_000_000_000,
{
}

/// The listed positions are those of the sessions, each of them once.
pub proof fn all_sessions_are_listed(
    files: Seq<SessionFile>,
    positions: Seq<usize>,
    p: usize,
    i: int,
    j: int,
)
    requires
        lists_sessions(files, positions),
        p < files.len(),
        0 <= i < j < positions.len(),
    ensures
        positions.contains(p) <==> is_transcript(files[p as int].path@) && files[p as int].modified
            is Some,
        positions[i] != positions[j],
{
    if positions.contains(p) {
        let k = choose|k: int| 0 <= k < positions.len() && positions[k] == p;
        assert(positions[k] < files.len());
    }
}

} // verus!
