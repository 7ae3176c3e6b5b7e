//! Check 4, append-only in git: along the commits that touch an append-only
//! path, each version of the file is a byte prefix of the next (additions at
//! the end only), and the working tree extends the last committed version.

use vstd::prelude::*;
use vstd::string::StringExecFns;
use vstd::utf8::{decode_utf8, encode_utf8, is_char_boundary};
use crate::report::{CheckReport, ReportView, gather, lemma_gather_has_piece};
use crate::text::{str_eq, strs};

verus! {

/// The paths kept append-only, checked where they have history.
pub open spec fn append_only_path_list() -> Seq<Seq<char>> {
    seq!["state/events.jsonl"@, "memory/facts.jsonl"@, "journal/JOURNAL.md"@, "JOURNAL.md"@]
}

/// The paths kept append-only, in the order they are checked.
pub fn append_only_paths() -> (r: Vec<&'static str>)
    ensures
        r@.map_values(|s: &str| s@) == append_only_path_list(),
{
    let mut r: Vec<&'static str> = Vec::new();
    r.push("state/events.jsonl");
    r.push("memory/facts.jsonl");
    r.push("journal/JOURNAL.md");
    r.push("JOURNAL.md");
    assert(r@.map_values(|s: &str| s@) =~= append_only_path_list());
    r
}

/// A file at one commit that touched it: the commit's id and the file's
/// bytes there, absent where the commit deleted it.
#[derive(Debug)]
pub struct FileVersion {
    pub sha: String,
    pub content: Option<Vec<u8>>,
}

/// The history of one append-only path: the versions in commit order, oldest
/// first (`None` where the history could not be listed), and the file in
/// the working tree.
#[derive(Debug)]
pub struct PathHistory {
    pub path: String,
    pub versions: Option<Vec<FileVersion>>,
    pub on_disk: WorkingFile,
}

/// An append-only file in the working tree: its bytes, absent (no such
/// file), or present but unreadable.
#[derive(Debug)]
pub enum WorkingFile {
    Present(Vec<u8>),
    Absent,
    Unreadable,
}

/// A working-tree file as values.
pub enum DiskView {
    Present(Seq<u8>),
    Absent,
    Unreadable,
}

impl View for WorkingFile {
    type V = DiskView;

    open spec fn view(&self) -> DiskView {
        match self {
            WorkingFile::Present(b) => DiskView::Present(b@),
            WorkingFile::Absent => DiskView::Absent,
            WorkingFile::Unreadable => DiskView::Unreadable,
        }
    }
}

/// The working tree extends the last committed version `p`: the file is
/// there and begins with `p`. A file that cannot be read is not judged.
pub open spec fn worktree_ok(p: Seq<u8>, disk: DiskView) -> bool {
    match disk {
        DiskView::Present(d) => p.is_prefix_of(d),
        DiskView::Absent => false,
        DiskView::Unreadable => true,
    }
}

/// What git holds of the repository: whether it has a commit at all, and the
/// history of each append-only path.
#[derive(Debug)]
pub struct GitHistory {
    pub has_head: bool,
    pub paths: Vec<PathHistory>,
}

pub open spec fn opt_bytes(o: Option<Vec<u8>>) -> Option<Seq<u8>> {
    match o {
        Some(s) => Some(s@),
        None => None,
    }
}

pub open spec fn version_view(v: FileVersion) -> (Seq<char>, Option<Seq<u8>>) {
    (v.sha@, opt_bytes(v.content))
}

pub open spec fn versions_view(vs: Seq<FileVersion>) -> Seq<(Seq<char>, Option<Seq<u8>>)> {
    vs.map_values(|v: FileVersion| version_view(v))
}

/// The length in bytes of a commit id's short form: seven bytes, or the whole
/// id where it is shorter.
pub open spec fn short_len(sha: Seq<char>) -> int {
    let n = encode_utf8(sha).len();
    if n < 7 {
        n as int
    } else {
        7
    }
}

/// A commit id cut to its first seven bytes (`&sha[..7.min(sha.len())]`).
pub open spec fn short_sha(sha: Seq<char>) -> Seq<char> {
    decode_utf8(encode_utf8(sha).subrange(0, short_len(sha)))
}

/// The cut of a commit id to its short form falls on a character boundary,
/// as slicing a `str` demands.
pub open spec fn short_cut_ok(sha: Seq<char>) -> bool {
    is_char_boundary(encode_utf8(sha), short_len(sha))
}

pub open spec fn edited_msg(path: Seq<char>, sha: Seq<char>) -> Seq<char> {
    path + ": commit "@ + short_sha(sha) + " edits existing lines (not append-only)"@
}

pub open spec fn deleted_msg(path: Seq<char>, sha: Seq<char>) -> Seq<char> {
    path + ": deleted in commit "@ + short_sha(sha)
}

pub open spec fn worktree_msg(path: Seq<char>) -> Seq<char> {
    path + ": working tree edits committed lines"@
}

/// Walking a path's versions oldest first: the failures so far and the last
/// version present (none after a deletion). A present version that does not
/// begin with the previous present one edits history; a deletion after a
/// present version is reported too.
pub open spec fn version_scan(path: Seq<char>, vs: Seq<(Seq<char>, Option<Seq<u8>>)>) -> (
    Seq<Seq<char>>,
    Option<Seq<u8>>,
)
    decreases vs.len(),
{
    if vs.len() == 0 {
        (seq![], None)
    } else {
        let (fails, prev) = version_scan(path, vs.drop_last());
        let (sha, content) = vs.last();
        match content {
            Some(c) => match prev {
                Some(p) => if p.is_prefix_of(c) {
                    (fails, Some(c))
                } else {
                    (fails.push(edited_msg(path, sha)), Some(c))
                },
                None => (fails, Some(c)),
            },
            None => match prev {
                Some(p) => (fails.push(deleted_msg(path, sha)), None),
                None => (fails, None),
            },
        }
    }
}

/// What the check reports of one path.
pub open spec fn path_failures(
    path: Seq<char>,
    versions: Option<Seq<(Seq<char>, Option<Seq<u8>>)>>,
    on_disk: DiskView,
) -> Seq<Seq<char>> {
    match versions {
        None => seq![],
        Some(vs) => if vs.len() == 0 {
            seq![]
        } else {
            let (fails, prev) = version_scan(path, vs);
            match prev {
                Some(p) => if worktree_ok(p, on_disk) {
                    fails
                } else {
                    fails.push(worktree_msg(path))
                },
                None => fails,
            }
        },
    }
}

pub open spec fn history_view(h: PathHistory) -> Seq<Seq<char>> {
    path_failures(
        h.path@,
        match h.versions {
            Some(vs) => Some(versions_view(vs@)),
            None => None,
        },
        h.on_disk@,
    )
}

/// The history git shows for `path`: the first entry for it, if any.
pub open spec fn history_for(hs: Seq<PathHistory>, path: Seq<char>) -> Option<PathHistory>
    decreases hs.len(),
{
    if hs.len() == 0 {
        None
    } else if hs[0].path@ == path {
        Some(hs[0])
    } else {
        history_for(hs.drop_first(), path)
    }
}

/// What the check reports of the append-only path `path`: nothing where git
/// shows no history for it.
pub open spec fn path_report(hs: Seq<PathHistory>, path: Seq<char>) -> Seq<Seq<char>> {
    match history_for(hs, path) {
        Some(h) => history_view(h),
        None => seq![],
    }
}

/// The failures of every append-only path, in the order of the path list.
pub open spec fn all_path_failures(hs: Seq<PathHistory>) -> Seq<Seq<char>> {
    gather(4, |k: int| path_report(hs, append_only_path_list()[k]))
}

/// The report of check 4 on a repository's history.
pub open spec fn append_only_report(h: GitHistory) -> ReportView {
    if !h.has_head {
        ReportView {
            number: 4,
            name: "append-only in git"@,
            failures: seq![],
            notes: seq!["no git history — nothing to violate yet"@],
        }
    } else {
        ReportView {
            number: 4,
            name: "append-only in git"@,
            failures: all_path_failures(h.paths@),
            notes: seq![],
        }
    }
}

/// The version at position `i` is reported: it edits the last version
/// present before it, or deletes it.
pub open spec fn reported_at(path: Seq<char>, vs: Seq<(Seq<char>, Option<Seq<u8>>)>, i: int) -> bool {
    match (vs[i].1, version_scan(path, vs.take(i)).1) {
        (Some(c), Some(p)) => !p.is_prefix_of(c),
        (None, Some(_)) => true,
        _ => false,
    }
}

/// Every commit id that a report names can be cut to its short form.
pub open spec fn cuts_ok(path: Seq<char>, vs: Seq<(Seq<char>, Option<Seq<u8>>)>) -> bool {
    forall|i: int| 0 <= i < vs.len() && #[trigger] reported_at(path, vs, i) ==> short_cut_ok(vs[i].0)
}

/// The commit ids that the check may name for one path's history can be cut
/// to their short form.
pub open spec fn path_cuts_ok(h: PathHistory) -> bool {
    match h.versions {
        Some(vs) => cuts_ok(h.path@, versions_view(vs@)),
        None => true,
    }
}

/// Every commit id that the check names can be cut to its short form.
pub open spec fn history_cuts_ok(h: GitHistory) -> bool {
    forall|k: int|
        0 <= k < 4 ==> match #[trigger] history_for(h.paths@, append_only_path_list()[k]) {
            Some(ph) => path_cuts_ok(ph),
            None => true,
        }
}

fn short_sha_string(sha: &String) -> (r: String)
    requires
        short_cut_ok(sha@),
    ensures
        r@ == short_sha(sha@),
{
    broadcast use vstd::utf8::encode_utf8_decode_utf8;

    let s = sha.as_str();
    let n = s.as_bytes().len();
    let k = if n < 7 {
        n
    } else {
        7
    };
    let (head, _) = s.split_at(k);
    assert(encode_utf8(head@) == encode_utf8(sha@).subrange(0, short_len(sha@)));
    assert(decode_utf8(encode_utf8(head@)) == head@);
    String::from_str(head)
}

/// Whether `s` begins with the bytes of `prefix`.
pub fn bytes_start_with(s: &Vec<u8>, prefix: &Vec<u8>) -> (r: bool)
    ensures
        r == prefix@.is_prefix_of(s@),
{
    if prefix.len() > s.len() {
        return false;
    }
    let mut i: usize = 0;
    while i < prefix.len()
        invariant
            i <= prefix.len() <= s.len(),
            forall|j: int| 0 <= j < i ==> prefix@[j] == s@[j],
        decreases prefix.len() - i,
    {
        if prefix[i] != s[i] {
            return false;
        }
        i = i + 1;
    }
    assert(prefix@ =~= s@.take(prefix.len() as int));
    true
}

fn path_failure_msgs(h: &PathHistory) -> (r: Vec<String>)
    requires
        path_cuts_ok(*h),
    ensures
        strs(r@) == history_view(*h),
{
    let vs = match &h.versions {
        None => {
            return Vec::new();
        },
        Some(vs) => vs,
    };
    if vs.len() == 0 {
        return Vec::new();
    }
    let ghost vv = versions_view(vs@);
    let path = h.path.as_str();
    let mut out: Vec<String> = Vec::new();
    let mut prev: Option<&Vec<u8>> = None;
    let mut i: usize = 0;
    assert(vv.take(0) =~= seq![]);
    while i < vs.len()
        invariant
            i <= vs.len(),
            vv == versions_view(vs@),
            path@ == h.path@,
            cuts_ok(path@, vv),
            version_scan(path@, vv.take(i as int)) == (strs(out@), opt_bytes_ref(prev)),
        decreases vs.len() - i,
    {
        assert(vv.take(i + 1).drop_last() == vv.take(i as int));
        assert(vv.take(i + 1).last() == version_view(vs@[i as int]));
        assert(vv[i as int] == version_view(vs@[i as int]));
        assert(reported_at(path@, vv, i as int) ==> short_cut_ok(vs@[i as int].sha@));
        let v = &vs[i];
        match &v.content {
            Some(c) => {
                match prev {
                    Some(p) => {
                        if !bytes_start_with(c, p) {
                            let mut m = String::from_str(path);
                            m.append(": commit ");
                            let s = short_sha_string(&v.sha);
                            m.append(s.as_str());
                            m.append(" edits existing lines (not append-only)");
                            out.push(m);
                            assert(strs(out@) == strs(out@.drop_last()).push(m@));
                        }
                    },
                    None => {},
                }
                prev = Some(c);
            },
            None => {
                if prev.is_some() {
                    let mut m = String::from_str(path);
                    m.append(": deleted in commit ");
                    let s = short_sha_string(&v.sha);
                    m.append(s.as_str());
                    out.push(m);
                    assert(strs(out@) == strs(out@.drop_last()).push(m@));
                    prev = None;
                }
            },
        }
        i = i + 1;
    }
    assert(vv.take(vs.len() as int) == vv);
    match prev {
        Some(p) => {
            let ok = match &h.on_disk {
                WorkingFile::Present(d) => bytes_start_with(d, p),
                WorkingFile::Absent => false,
                WorkingFile::Unreadable => true,
            };
            if !ok {
                let mut m = String::from_str(path);
                m.append(": working tree edits committed lines");
                out.push(m);
                assert(strs(out@) == strs(out@.drop_last()).push(m@));
            }
        },
        None => {},
    }
    out
}

pub open spec fn opt_bytes_ref(o: Option<&Vec<u8>>) -> Option<Seq<u8>> {
    match o {
        Some(s) => Some(s@),
        None => None,
    }
}

/// The position of the first history for `path`.
fn find_history(hs: &Vec<PathHistory>, path: &str) -> (r: Option<usize>)
    ensures
        match r {
            Some(i) => i < hs.len() && history_for(hs@, path@) == Some(hs@[i as int]),
            None => history_for(hs@, path@) is None,
        },
{
    let mut i: usize = 0;
    assert(hs@.skip(0) == hs@);
    while i < hs.len()
        invariant
            i <= hs.len(),
            history_for(hs@, path@) == history_for(hs@.skip(i as int), path@),
        decreases hs.len() - i,
    {
        assert(hs@.skip(i as int)[0] == hs@[i as int]);
        assert(hs@.skip(i as int).drop_first() == hs@.skip(i + 1));
        if str_eq(hs[i].path.as_str(), path) {
            return Some(i);
        }
        i = i + 1;
    }
    None
}

/// Check 4: append-only in git, on the history that git shows for each
/// append-only path.
pub fn check_append_only(history: &GitHistory) -> (r: CheckReport)
    requires
        history.has_head ==> history_cuts_ok(*history),
    ensures
        r@ == append_only_report(*history),
{
    let mut report = CheckReport::new(4, "append-only in git");
    if !history.has_head {
        report.note(String::from_str("no git history — nothing to violate yet"));
        assert(report@.failures =~= seq![]);
        assert(report@.notes =~= seq!["no git history — nothing to violate yet"@]);
        return report;
    }
    let paths = append_only_paths();
    let ghost list = append_only_path_list();
    assert(paths@.len() == 4) by {
        assert(paths@.map_values(|s: &str| s@).len() == list.len());
    }
    let mut k: usize = 0;
    while k < 4
        invariant
            k <= 4,
            paths@.len() == 4,
            paths@.map_values(|s: &str| s@) == list,
            list == append_only_path_list(),
            history.has_head,
            history_cuts_ok(*history),
            report.number == 4,
            report.name@ == "append-only in git"@,
            report@.notes == Seq::<Seq<char>>::empty(),
            report@.failures == gather(k as nat, |j: int| path_report(history.paths@, list[j])),
        decreases 4 - k,
    {
        let path = paths[k];
        assert(paths@.map_values(|s: &str| s@)[k as int] == path@);
        assert(history_for(history.paths@, list[k as int]) matches Some(ph) ==> path_cuts_ok(ph));
        match find_history(&history.paths, path) {
            Some(i) => {
                let msgs = path_failure_msgs(&history.paths[i]);
                report.fail_all(msgs);
            },
            None => {
                assert(report@.failures + path_report(history.paths@, list[k as int]) == report@.failures);
            },
        }
        k = k + 1;
    }
    proof {
        assert(report@.notes =~= seq![]);
        assert(gather(4, |j: int| path_report(history.paths@, list[j])) == all_path_failures(history.paths@)) by {
            assert((|j: int| path_report(history.paths@, list[j])) =~= (|j: int| path_report(
                history.paths@,
                append_only_path_list()[j],
            )));
        }
    }
    report
}

/// Whether the check can name every commit id it reports for one path's
/// history in its short form: `path_cuts_ok`.
fn path_cuts_checked(h: &PathHistory) -> (r: bool)
    ensures
        r == path_cuts_ok(*h),
{
    let vs = match &h.versions {
        None => {
            return true;
        },
        Some(vs) => vs,
    };
    let ghost vv = versions_view(vs@);
    let ghost path = h.path@;
    let mut prev: Option<&Vec<u8>> = None;
    let mut i: usize = 0;
    assert(vv.take(0) =~= seq![]);
    while i < vs.len()
        invariant
            i <= vs.len(),
            vv == versions_view(vs@),
            h.versions == Some(*vs),
            path == h.path@,
            version_scan(path, vv.take(i as int)).1 == opt_bytes_ref(prev),
            forall|j: int| 0 <= j < i && #[trigger] reported_at(path, vv, j) ==> short_cut_ok(vv[j].0),
        decreases vs.len() - i,
    {
        assert(vv.take(i + 1).drop_last() == vv.take(i as int));
        assert(vv.take(i + 1).last() == version_view(vs@[i as int]));
        assert(vv[i as int] == version_view(vs@[i as int]));
        let v = &vs[i];
        let reported = match (&v.content, prev) {
            (Some(c), Some(p)) => !bytes_start_with(c, p),
            (None, Some(_)) => true,
            _ => false,
        };
        assert(reported == reported_at(path, vv, i as int));
        if reported {
            let s = v.sha.as_str();
            let n = s.as_bytes().len();
            let cut = if n < 7 {
                n
            } else {
                7
            };
            if !s.is_char_boundary(cut) {
                assert(!short_cut_ok(vv[i as int].0));
                assert(reported_at(h.path@, versions_view(vs@), i as int));
                return false;
            }
        }
        match &v.content {
            Some(c) => {
                prev = Some(c);
            },
            None => {
                prev = None;
            },
        }
        i = i + 1;
    }
    true
}

/// Whether every commit id that check 4 reports can be cut to its short form
/// (on a history with a commit); `check_append_only` asks this of its input.
pub fn commit_ids_cut_ok(history: &GitHistory) -> (r: bool)
    ensures
        r == (history.has_head ==> history_cuts_ok(*history)),
{
    if !history.has_head {
        return true;
    }
    let paths = append_only_paths();
    let ghost list = append_only_path_list();
    assert(paths@.len() == 4) by {
        assert(paths@.map_values(|s: &str| s@).len() == list.len());
    }
    let mut k: usize = 0;
    while k < 4
        invariant
            k <= 4,
            paths@.len() == 4,
            paths@.map_values(|s: &str| s@) == list,
            list == append_only_path_list(),
            history.has_head,
            forall|j: int| 0 <= j < k ==> match #[trigger] history_for(history.paths@, list[j]) {
                Some(ph) => path_cuts_ok(ph),
                None => true,
            },
        decreases 4 - k,
    {
        let path = paths[k];
        assert(paths@.map_values(|s: &str| s@)[k as int] == path@);
        match find_history(&history.paths, path) {
            Some(i) => {
                if !path_cuts_checked(&history.paths[i]) {
                    assert(!match history_for(history.paths@, append_only_path_list()[k as int]) {
                        Some(ph) => path_cuts_ok(ph),
                        None => true,
                    });
                    return false;
                }
            },
            None => {},
        }
        k = k + 1;
    }
    true
}

/// The step into version `i` keeps the file append-only: after a version
/// that holds the file, the next one holds it too and begins with it.
pub open spec fn step_ok(vs: Seq<(Seq<char>, Option<Seq<u8>>)>, i: int) -> bool {
    match (vs[i - 1].1, vs[i].1) {
        (Some(p), Some(c)) => p.is_prefix_of(c),
        (Some(_), None) => false,
        _ => true,
    }
}

proof fn lemma_scan(path: Seq<char>, vs: Seq<(Seq<char>, Option<Seq<u8>>)>)
    ensures
        version_scan(path, vs).1 == (if vs.len() == 0 {
            None
        } else {
            vs.last().1
        }),
        version_scan(path, vs).0.len() == 0 <==> forall|i: int| 0 < i < vs.len() ==> #[trigger] step_ok(vs, i),
    decreases vs.len(),
{
    if vs.len() > 0 {
        let init = vs.drop_last();
        lemma_scan(path, init);
        let n = vs.len() as int;
        assert forall|i: int| 0 < i < init.len() implies #[trigger] step_ok(init, i) == step_ok(vs, i) by {
            assert(init[i - 1] == vs[i - 1]);
            assert(init[i] == vs[i]);
        }
        if n > 1 {
            assert(init.last() == vs[n - 2]);
        }
        if version_scan(path, vs).0.len() == 0 {
            assert forall|i: int| 0 < i < vs.len() implies #[trigger] step_ok(vs, i) by {
                if i < n - 1 {
                    assert(step_ok(init, i));
                }
            }
        }
        if forall|i: int| 0 < i < vs.len() ==> #[trigger] step_ok(vs, i) {
            assert forall|i: int| 0 < i < init.len() implies #[trigger] step_ok(init, i) by {
                assert(step_ok(vs, i));
            }
            if n > 1 {
                assert(step_ok(vs, n - 1));
            }
        }
    }
}

/// Check 4 reports nothing of a path exactly when every version after one
/// that holds the file holds it too and begins with it (no edit, no
/// deletion), and, where the last version holds the file, the working tree
/// has the file and it begins with that version (unless it cannot be read).
pub proof fn lemma_append_only_passes(
    path: Seq<char>,
    vs: Seq<(Seq<char>, Option<Seq<u8>>)>,
    on_disk: DiskView,
)
    ensures
        path_failures(path, Some(vs), on_disk).len() == 0 <==> (forall|i: int| 0 < i < vs.len() ==> #[trigger] step_ok(vs, i))
            && (vs.len() > 0 && vs.last().1 is Some ==> worktree_ok(vs.last().1->0, on_disk)),
{
    lemma_scan(path, vs);
}

proof fn lemma_history_for_path(hs: Seq<PathHistory>, path: Seq<char>)
    ensures
        history_for(hs, path) matches Some(h) ==> h.path@ == path,
    decreases hs.len(),
{
    if hs.len() > 0 && hs[0].path@ != path {
        lemma_history_for_path(hs.drop_first(), path);
    }
}

/// The working tree must extend the last committed version byte for byte:
/// where the last commit touching an append-only path holds bytes `p` and the
/// working-tree file holds bytes `d` that do not begin with `p` (in
/// particular, any `d` shorter than `p`, such as a truncation), check 4
/// reports that path's working tree.
pub proof fn lemma_worktree_must_extend(
    h: GitHistory,
    k: int,
    ph: PathHistory,
    vs: Vec<FileVersion>,
    p: Vec<u8>,
    d: Vec<u8>,
)
    requires
        h.has_head,
        0 <= k < 4,
        history_for(h.paths@, append_only_path_list()[k]) == Some(ph),
        ph.versions == Some(vs),
        vs@.len() > 0,
        vs@.last().content == Some(p),
        ph.on_disk == WorkingFile::Present(d),
        !p@.is_prefix_of(d@),
    ensures
        append_only_report(h).failures.contains(append_only_path_list()[k] + ": working tree edits committed lines"@),
{
    let path = append_only_path_list()[k];
    lemma_history_for_path(h.paths@, path);
    let vv = versions_view(vs@);
    lemma_scan(path, vv);
    assert(vv.last() == version_view(vs@.last()));
    let fails = version_scan(path, vv).0;
    assert(history_view(ph) == fails.push(worktree_msg(path)));
    assert(history_view(ph)[fails.len() as int] == worktree_msg(path));
    let f = |j: int| path_report(h.paths@, append_only_path_list()[j]);
    assert(f(k) == history_view(ph));
    lemma_gather_has_piece(4, f, k, worktree_msg(path));
}

} // verus!
