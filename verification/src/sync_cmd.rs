//! The synchronisation engine: the remote locations derived from the WebDAV
//! settings, and the decisions of a full sync, a push and a pull as a state
//! machine. The caller performs each requested action (network, database,
//! ETag file) and reports its outcome as the next event.
use vstd::prelude::*;
use crate::db::{Note, clone_notes};
use crate::sync::{SyncPayload, merge, merged_view, merge_conflicts, lists_map, unique_ids, push_conflict_message};
use crate::db::sorted_by_order;
use crate::text::{chars_of, push_char, push_str, push_dec, dec, str_eq};

verus! {

/// The text with every trailing `/` removed.
pub open spec fn trim_slashes(s: Seq<char>) -> Seq<char>
    decreases s.len(),
{
    if s.len() > 0 && s.last() == '/' {
        trim_slashes(s.drop_last())
    } else {
        s
    }
}

/// Trimming keeps the text up to its last character that is not a slash: the
/// result is a prefix of the text, only slashes follow it, and it does not
/// end with a slash.
pub proof fn law_trim_slashes(s: Seq<char>)
    ensures
        trim_slashes(s).len() <= s.len(),
        trim_slashes(s) == s.take(trim_slashes(s).len() as int),
        forall|i: int| trim_slashes(s).len() <= i < s.len() ==> #[trigger] s[i] == '/',
        trim_slashes(s).len() > 0 ==> trim_slashes(s).last() != '/',
    decreases s.len(),
{
    if s.len() > 0 && s.last() == '/' {
        let p = s.drop_last();
        law_trim_slashes(p);
        let t = trim_slashes(p);
        assert(t == s.take(t.len() as int)) by {
            assert(p.take(t.len() as int) =~= s.take(t.len() as int));
        }
        assert forall|i: int| t.len() <= i < s.len() implies #[trigger] s[i] == '/' by {
            if i < p.len() {
                assert(s[i] == p[i]);
            }
        }
    } else {
        assert(s.take(s.len() as int) =~= s);
    }
}

/// Where and how to synchronise.
pub struct SyncEngine {
    /// URL of `notes.json` on the server.
    pub file_url: String,
    /// URL of the `sticky-notes` directory on the server.
    pub dir_url: String,
    pub user: String,
    pub password: String,
    /// Path of the file that keeps the last known ETag.
    pub etag_path: String,
}

fn trim_trailing_slashes(s: &str) -> (r: String)
    ensures
        r@ == trim_slashes(s@),
{
    let cs = chars_of(s);
    let mut end: usize = cs.len();
    assert(s@.take(end as int) =~= s@);
    while end > 0 && cs[end - 1] == '/'
        invariant
            end <= cs.len(),
            cs@ == s@,
            trim_slashes(s@) == trim_slashes(s@.take(end as int)),
        decreases end,
    {
        proof {
            assert(s@.take(end as int).drop_last() =~= s@.take(end - 1));
        }
        end = end - 1;
    }
    let mut r = String::new();
    let mut i: usize = 0;
    while i < end
        invariant
            i <= end <= cs.len(),
            cs@ == s@,
            r@ == s@.take(i as int),
        decreases end - i,
    {
        push_char(&mut r, cs[i]);
        i = i + 1;
        assert(r@ =~= s@.take(i as int));
    }
    assert(trim_slashes(s@.take(end as int)) == s@.take(end as int));
    r
}

impl SyncEngine {
    /// Builds the engine from the WebDAV settings. The remote directory is
    /// `<url without trailing slashes>/sticky-notes`, the file is
    /// `notes.json` in it. Refused when no URL is configured.
    pub fn from_config(webdav_url: &str, webdav_user: &str, webdav_password: &str, etag_path: &str) -> (r: Result<SyncEngine, String>)
        ensures
            webdav_url@.len() == 0 ==> (r matches Err(e) && e@ == "请先配置 WebDAV 地址"@),
            webdav_url@.len() > 0 ==> (r matches Ok(e) && {
                &&& e.dir_url@ == trim_slashes(webdav_url@) + "/sticky-notes"@
                &&& e.file_url@ == e.dir_url@ + "/notes.json"@
                &&& e.user@ == webdav_user@
                &&& e.password@ == webdav_password@
                &&& e.etag_path@ == etag_path@
            }),
    {
        if webdav_url.unicode_len() == 0 {
            return Err(String::from_str("请先配置 WebDAV 地址"));
        }
        let mut dir_url = trim_trailing_slashes(webdav_url);
        push_str(&mut dir_url, "/sticky-notes");
        let mut file_url = dir_url.clone();
        push_str(&mut file_url, "/notes.json");
        Ok(SyncEngine {
            file_url,
            dir_url,
            user: String::from_str(webdav_user),
            password: String::from_str(webdav_password),
            etag_path: String::from_str(etag_path),
        })
    }
}

/// Which synchronisation runs.
#[derive(Clone, Copy, Debug)]
pub enum SyncMode {
    /// Fetch, merge, store locally, push back.
    Full,
    /// Upload the local notes only.
    PushOnly,
    /// Download the remote notes only.
    PullOnly,
}

/// Where a run stands: which outcome it waits for.
#[derive(Clone, Copy, Debug)]
pub enum Phase {
    Start,
    AwaitDir,
    AwaitFetch,
    AwaitLocal,
    AwaitWrite,
    AwaitPush,
    Finished,
}

/// How many times a full sync fetches, merges and pushes again after the
/// server refused a push because the remote file changed (HTTP 412).
pub const MAX_PUSH_RETRIES: u32 = 3;

/// A synchronisation in progress: its mode, its phase, and what it has
/// gathered (the notes to store or push, whether a merge found a conflict,
/// the ETag to fall back on, and how often a refused push was retried).
pub struct SyncRun {
    pub mode: SyncMode,
    pub phase: Phase,
    pub notes: Vec<Note>,
    pub has_conflict: bool,
    pub etag: String,
    pub retries: u32,
}

/// What reading the local store yields: the live notes, and the ids of the
/// soft-deleted notes (tombstones).
pub struct LocalNotes {
    pub notes: Vec<Note>,
    pub tombstones: Vec<String>,
}

/// The outcome of the action the run asked for.
pub enum SyncEvent {
    /// The run is started.
    Begin,
    /// The remote directory was made sure of.
    DirReady(Result<(), String>),
    /// The remote notes and their ETag were fetched.
    Fetched(Result<(SyncPayload, String), String>),
    /// The local notes were read, with the stored ETag when it was asked for
    /// (empty when it could not be read).
    LocalRead(Result<LocalNotes, String>, String),
    /// The notes (and conflicting remote versions) were written in one
    /// transaction.
    Written(Result<(), String>),
    /// The notes were pushed; the server's new ETag (possibly empty). A push
    /// refused because the remote file changed reports the error
    /// `push_conflict_message()`.
    Pushed(Result<String, String>),
}

/// What a finished run reports.
pub enum SyncDone {
    /// Full sync: the merged notes and whether a conflict occurred.
    Merged(Vec<Note>, bool),
    /// Push or pull: the message for the user.
    Message(String),
}

/// What the caller has to do next.
pub enum SyncAction {
    /// Create the remote directory at this URL (MKCOL).
    EnsureDir(String),
    /// Fetch the remote notes from this URL.
    Fetch(String),
    /// Read the local notes (and the stored ETag when `with_etag`).
    ReadLocal { with_etag: bool },
    /// Write these notes, and store these conflicting remote versions, in one
    /// transaction.
    Write { notes: Vec<Note>, conflicts: Vec<(String, Note)> },
    /// Push these notes to this URL, with this ETag as precondition.
    Push { url: String, notes: Vec<Note>, etag: String },
    /// Save this ETag (when given) and report the result.
    Finish { save_etag: Option<String>, result: Result<SyncDone, String> },
}

/// The event that the phase of a run waits for.
pub open spec fn expects(run: SyncRun, ev: SyncEvent) -> bool {
    match run.phase {
        Phase::Start => ev is Begin,
        Phase::AwaitDir => ev is DirReady,
        Phase::AwaitFetch => ev is Fetched,
        Phase::AwaitLocal => ev is LocalRead,
        Phase::AwaitWrite => ev is Written,
        Phase::AwaitPush => ev is Pushed,
        Phase::Finished => false,
    }
}

/// The error an event reports, if it reports one.
pub open spec fn failure_of(ev: SyncEvent) -> Option<String> {
    match ev {
        SyncEvent::DirReady(Err(e)) => Some(e),
        SyncEvent::Fetched(Err(e)) => Some(e),
        SyncEvent::LocalRead(Err(e), _) => Some(e),
        SyncEvent::Written(Err(e)) => Some(e),
        SyncEvent::Pushed(Err(e)) => Some(e),
        _ => None,
    }
}

/// A full sync whose push was refused because the remote file changed, with
/// retries left: it fetches, merges and pushes again.
pub open spec fn retries_push(run: SyncRun, ev: SyncEvent) -> bool {
    &&& run.mode is Full
    &&& ev matches SyncEvent::Pushed(Err(e)) && e@ == "同步冲突: 远程文件已被修改，请重新同步"@
    &&& run.retries < MAX_PUSH_RETRIES
}

/// The ids of a list of strings, as character sequences.
pub open spec fn id_views(ids: Seq<String>) -> Seq<Seq<char>> {
    ids.map_values(|s: String| s@)
}

/// A subtask whose parent is a tombstone.
pub open spec fn orphaned(n: Note, dead: Seq<Seq<char>>) -> bool {
    n.parent_id matches Some(p) && dead.contains(p@)
}

/// `a` is `n` as stored after a sync: an orphaned subtask becomes a top-level
/// note whose title is prefixed with `[Archive]`; every other note is kept.
pub open spec fn archived_as(n: Note, a: Note, dead: Seq<Seq<char>>) -> bool {
    if orphaned(n, dead) {
        &&& a == (Note { title: a.title, parent_id: None, ..n })
        &&& a.title@ == "[Archive]"@ + n.title@
    } else {
        a == n
    }
}

/// `s` lists the notes of `m`, once each, with orphaned subtasks archived.
pub open spec fn lists_archived(s: Seq<Note>, m: Map<Seq<char>, Note>, dead: Seq<Seq<char>>) -> bool {
    &&& unique_ids(s)
    &&& forall|i: int| 0 <= i < s.len() ==> m.contains_key(#[trigger] s[i].id@) && archived_as(m[s[i].id@], s[i], dead)
    &&& forall|k: Seq<char>| m.contains_key(k) ==> exists|i: int| 0 <= i < s.len() && #[trigger] s[i].id@ == k
}

/// After a sync no stored note is a subtask of a tombstone.
pub proof fn law_archived_notes_have_no_dead_parent(n: Note, a: Note, dead: Seq<Seq<char>>)
    requires
        archived_as(n, a, dead),
    ensures
        !orphaned(a, dead),
        a.id == n.id && a.order == n.order && a.updated_at == n.updated_at,
{
}

/// Whether the run waits for this kind of event.
pub fn expects_event(run: &SyncRun, ev: &SyncEvent) -> (r: bool)
    ensures
        r == expects(*run, *ev),
{
    match run.phase {
        Phase::Start => matches!(ev, SyncEvent::Begin),
        Phase::AwaitDir => matches!(ev, SyncEvent::DirReady(_)),
        Phase::AwaitFetch => matches!(ev, SyncEvent::Fetched(_)),
        Phase::AwaitLocal => matches!(ev, SyncEvent::LocalRead(_, _)),
        Phase::AwaitWrite => matches!(ev, SyncEvent::Written(_)),
        Phase::AwaitPush => matches!(ev, SyncEvent::Pushed(_)),
        Phase::Finished => false,
    }
}

/// `已上传 N 条笔记` / `已下载 N 条笔记`.
pub open spec fn count_message(uploaded: bool, n: nat) -> Seq<char> {
    (if uploaded { "已上传 "@ } else { "已下载 "@ }) + dec(n) + " 条笔记"@
}

fn count_msg(uploaded: bool, n: usize) -> (m: String)
    ensures
        m@ == count_message(uploaded, n as nat),
{
    let mut m = if uploaded { String::from_str("已上传 ") } else { String::from_str("已下载 ") };
    push_dec(&mut m, n as u64);
    push_str(&mut m, " 条笔记");
    m
}

/// The message shown after a full sync.
pub fn sync_message(has_conflict: bool) -> (m: String)
    ensures
        has_conflict ==> m@ == "同步完成 (有冲突，已保留本地版本)"@,
        !has_conflict ==> m@ == "同步完成"@,
{
    if has_conflict {
        String::from_str("同步完成 (有冲突，已保留本地版本)")
    } else {
        String::from_str("同步完成")
    }
}

/// A run that has not started yet.
pub fn start_run(mode: SyncMode) -> (r: SyncRun)
    ensures
        r.mode == mode,
        r.phase is Start,
        r.notes@.len() == 0,
        !r.has_conflict,
        r.etag@.len() == 0,
        r.retries == 0,
{
    SyncRun { mode, phase: Phase::Start, notes: Vec::new(), has_conflict: false, etag: String::new(), retries: 0 }
}

fn finished(mode: SyncMode, retries: u32) -> (r: SyncRun)
    ensures
        r.mode == mode,
        r.phase is Finished,
        r.retries == retries,
{
    SyncRun { mode, phase: Phase::Finished, notes: Vec::new(), has_conflict: false, etag: String::new(), retries }
}

fn fail(mode: SyncMode, retries: u32, e: String) -> (r: (SyncRun, SyncAction))
    ensures
        r.0.phase is Finished,
        r.0.mode == mode,
        r.0.retries == retries,
        r.1 matches SyncAction::Finish { save_etag, result } && save_etag is None && result == Err::<SyncDone, String>(e),
{
    (finished(mode, retries), SyncAction::Finish { save_etag: None, result: Err(e) })
}

/// The ETag kept after a push: the server's new one, or the previous one when
/// the server sent none.
pub open spec fn etag_after_push(pushed: Seq<char>, previous: Seq<char>) -> Seq<char> {
    if pushed.len() == 0 { previous } else { pushed }
}

/// Whether the id is among the given ids.
fn contains_id(ids: &Vec<String>, id: &String) -> (r: bool)
    ensures
        r == id_views(ids@).contains(id@),
{
    let mut i: usize = 0;
    while i < ids.len()
        invariant
            i <= ids.len(),
            forall|j: int| 0 <= j < i ==> ids@[j]@ != id@,
        decreases ids.len() - i,
    {
        if ids[i].eq(id) {
            assert(id_views(ids@)[i as int] == id@);
            return true;
        }
        i = i + 1;
    }
    assert(!id_views(ids@).contains(id@)) by {
        if id_views(ids@).contains(id@) {
            let j = choose|j: int| 0 <= j < id_views(ids@).len() && id_views(ids@)[j] == id@;
            assert(ids@[j]@ == id@);
        }
    }
    false
}

/// The note as stored after a sync (see `archived_as`).
fn archive_note(n: Note, tombstones: &Vec<String>) -> (a: Note)
    ensures
        archived_as(n, a, id_views(tombstones@)),
{
    let orphan = match &n.parent_id {
        Some(p) => contains_id(tombstones, p),
        None => false,
    };
    if orphan {
        let mut title = String::from_str("[Archive]");
        push_str(&mut title, n.title.as_str());
        Note { title, parent_id: None, ..n }
    } else {
        n
    }
}

/// Archives the orphaned subtasks among the notes, keeping the sequence.
fn archive_orphans(notes: Vec<Note>, tombstones: &Vec<String>) -> (r: Vec<Note>)
    ensures
        r@.len() == notes@.len(),
        forall|i: int| 0 <= i < r@.len() ==> archived_as(notes@[i], #[trigger] r@[i], id_views(tombstones@)),
{
    let ghost all = notes@;
    let mut notes = notes;
    let mut r: Vec<Note> = Vec::new();
    let ghost mut done: int = 0;
    assert(notes@ =~= all.skip(0));
    while notes.len() > 0
        invariant
            0 <= done <= all.len(),
            notes@ == all.skip(done),
            r@.len() == done,
            forall|i: int| 0 <= i < done ==> archived_as(all[i], #[trigger] r@[i], id_views(tombstones@)),
        decreases notes.len(),
    {
        let n = notes.remove(0);
        assert(n == all[done]);
        let a = archive_note(n, tombstones);
        r.push(a);
        proof {
            done = done + 1;
            assert(notes@ =~= all.skip(done));
        }
    }
    r
}

/// Merges, then archives orphaned subtasks: the notes to store and push,
/// whether a conflict occurred, and the conflicting remote versions.
fn merge_and_archive(local: LocalNotes, remote: Vec<Note>) -> (res: (Vec<Note>, bool, Vec<(String, Note)>))
    ensures
        lists_archived(res.0@, merged_view(local.notes@, remote@), id_views(local.tombstones@)),
        sorted_by_order(res.0@),
        res.2@.len() == merge_conflicts(local.notes@, remote@).len(),
        forall|i: int|
            0 <= i < res.2@.len() ==> (#[trigger] res.2@[i]).1 == merge_conflicts(local.notes@, remote@)[i]
                && res.2@[i].0@ == res.2@[i].1.id@,
        res.1 == (res.2@.len() > 0),
{
    let ghost m = merged_view(local.notes@, remote@);
    let ghost dead = id_views(local.tombstones@);
    let (merged, has_conflict, conflicts) = merge(local.notes, remote);
    let ghost ms = merged@;
    let out = archive_orphans(merged, &local.tombstones);
    proof {
        assert forall|i: int| 0 <= i < out@.len() implies #[trigger] out@[i].id@ == ms[i].id@ && out@[i].order@ == ms[i].order@ by {
            assert(archived_as(ms[i], out@[i], dead));
        }
        assert forall|i: int, j: int| 0 <= i < out@.len() && 0 <= j < out@.len() && i != j implies #[trigger] out@[i].id@ != #[trigger] out@[j].id@ by {
            assert(out@[i].id@ == ms[i].id@);
            assert(out@[j].id@ == ms[j].id@);
        }
        assert forall|i: int| 0 <= i < out@.len() implies m.contains_key(#[trigger] out@[i].id@) && archived_as(m[out@[i].id@], out@[i], dead) by {
            assert(out@[i].id@ == ms[i].id@);
            assert(m[ms[i].id@] == ms[i]);
        }
        assert forall|k: Seq<char>| m.contains_key(k) implies exists|i: int| 0 <= i < out@.len() && #[trigger] out@[i].id@ == k by {
            let i = choose|i: int| 0 <= i < ms.len() && #[trigger] ms[i].id@ == k;
            assert(out@[i].id@ == ms[i].id@);
        }
        assert forall|i: int, j: int| 0 <= i < j < out@.len() implies crate::text::lex_le(#[trigger] out@[i].order@, #[trigger] out@[j].order@) by {
            assert(out@[i].order@ == ms[i].order@);
            assert(out@[j].order@ == ms[j].order@);
            assert(crate::text::lex_le(ms[i].order@, ms[j].order@));
        }
    }
    (out, has_conflict, conflicts)
}

fn is_push_conflict(e: &String) -> (r: bool)
    ensures
        r == (e@ == "同步冲突: 远程文件已被修改，请重新同步"@),
{
    let m = push_conflict_message();
    str_eq(e.as_str(), m.as_str())
}

impl SyncEngine {
    /// Advances a run by one event.
    ///
    /// Full sync: make sure of the directory, fetch, read the local notes,
    /// merge, archive subtasks whose parent is a tombstone, write the result
    /// and the conflicting remote versions, push it with the fetched ETag,
    /// save the new ETag (or the fetched one when the server sent none),
    /// report the notes. When the push is refused because the remote file
    /// changed, fetch, merge and push again, at most `MAX_PUSH_RETRIES` times.
    /// Push: read the local notes and the stored ETag, make sure of the
    /// directory, push, save the new ETag (or the stored one), report the
    /// number uploaded. Pull: make sure of the directory, fetch, write the
    /// remote notes, save the fetched ETag, report the number downloaded.
    /// Any other failed step ends the run with its error and saves nothing.
    pub fn step(&self, run: SyncRun, ev: SyncEvent) -> (r: (SyncRun, SyncAction))
        requires
            expects(run, ev),
        ensures
            r.0.mode == run.mode,
            r.0.retries == if retries_push(run, ev) { run.retries + 1 } else { run.retries as int },
            // only a merge of a full sync can raise the conflict flag, and a run in
            // progress never drops it
            r.0.phase !is Finished && !(ev is LocalRead && run.mode is Full) ==> r.0.has_conflict == run.has_conflict,
            // starting
            ev is Begin ==> (run.mode !is PushOnly ==> r.0.phase is AwaitDir && r.1 == SyncAction::EnsureDir(self.dir_url)),
            ev is Begin ==> (run.mode is PushOnly ==> r.0.phase is AwaitLocal && r.1 == (SyncAction::ReadLocal { with_etag: true })),
            // a push refused for a changed remote file, with retries left: fetch again
            retries_push(run, ev) ==> r.0.phase is AwaitFetch && r.0.has_conflict == run.has_conflict
                && r.1 == SyncAction::Fetch(self.file_url),
            // any other failure ends the run with that error and saves nothing
            !retries_push(run, ev) ==> (failure_of(ev) matches Some(e) ==> r.0.phase is Finished && (r.1 matches SyncAction::Finish { save_etag, result }
                && save_etag is None && result == Err::<SyncDone, String>(e))),
            // directory ready
            ev matches SyncEvent::DirReady(Ok(_)) ==> (run.mode !is PushOnly ==> r.0.phase is AwaitFetch
                && r.1 == SyncAction::Fetch(self.file_url)),
            ev matches SyncEvent::DirReady(Ok(_)) ==> (run.mode is PushOnly ==> r.0.phase is AwaitPush && r.0.notes@ == run.notes@
                && r.0.etag == run.etag && (r.1 matches SyncAction::Push { url, notes, etag } && url == self.file_url
                && notes@ == run.notes@ && etag == run.etag)),
            // fetched
            ev matches SyncEvent::Fetched(Ok((p, t))) ==> (run.mode is Full ==> r.0.phase is AwaitLocal && r.0.notes@ == p.notes@
                && r.0.etag == t && r.0.has_conflict == run.has_conflict && r.1 == (SyncAction::ReadLocal { with_etag: false })),
            ev matches SyncEvent::Fetched(Ok((p, t))) ==> (run.mode !is Full ==> r.0.phase is AwaitWrite && r.0.notes@ == p.notes@
                && r.0.etag == t && (r.1 matches SyncAction::Write { notes, conflicts } && notes@ == p.notes@ && conflicts@.len() == 0)),
            // local notes read
            ev matches SyncEvent::LocalRead(Ok(local), _) ==> (run.mode is Full ==> r.0.phase is AwaitWrite && r.0.etag == run.etag
                && lists_archived(r.0.notes@, merged_view(local.notes@, run.notes@), id_views(local.tombstones@))
                && sorted_by_order(r.0.notes@)
                && r.0.has_conflict == (run.has_conflict || merge_conflicts(local.notes@, run.notes@).len() > 0)
                && (r.1 matches SyncAction::Write { notes, conflicts } && notes@ == r.0.notes@
                && conflicts@.len() == merge_conflicts(local.notes@, run.notes@).len()
                && forall|i: int| 0 <= i < conflicts@.len() ==> (#[trigger] conflicts@[i]).1 == merge_conflicts(local.notes@, run.notes@)[i]
                    && conflicts@[i].0@ == conflicts@[i].1.id@)),
            ev matches SyncEvent::LocalRead(Ok(local), stored) ==> (run.mode !is Full ==> r.0.phase is AwaitDir && r.0.notes@ == local.notes@
                && r.0.etag == stored && r.1 == SyncAction::EnsureDir(self.dir_url)),
            // written
            ev matches SyncEvent::Written(Ok(_)) ==> (run.mode is Full ==> r.0.phase is AwaitPush && r.0.notes@ == run.notes@
                && r.0.has_conflict == run.has_conflict && r.0.etag == run.etag && (r.1 matches SyncAction::Push { url, notes, etag }
                && url == self.file_url && notes@ == run.notes@ && etag == run.etag)),
            ev matches SyncEvent::Written(Ok(_)) ==> (run.mode !is Full ==> r.0.phase is Finished && (r.1 matches SyncAction::Finish { save_etag, result }
                && save_etag == Some(run.etag) && (result matches Ok(SyncDone::Message(m)) && m@ == count_message(false, run.notes@.len())))),
            // pushed
            ev matches SyncEvent::Pushed(Ok(t)) ==> (run.mode is Full ==> r.0.phase is Finished && (r.1 matches SyncAction::Finish { save_etag, result }
                && (save_etag matches Some(s) && s@ == etag_after_push(t@, run.etag@))
                && (result matches Ok(SyncDone::Merged(ns, c)) && ns@ == run.notes@ && c == run.has_conflict))),
            ev matches SyncEvent::Pushed(Ok(t)) ==> (run.mode !is Full ==> r.0.phase is Finished && (r.1 matches SyncAction::Finish { save_etag, result }
                && (save_etag matches Some(s) && s@ == etag_after_push(t@, run.etag@))
                && (result matches Ok(SyncDone::Message(m)) && m@ == count_message(true, run.notes@.len())))),
    {
        let mode = run.mode;
        let retries = run.retries;
        match ev {
            SyncEvent::Begin => {
                match mode {
                    SyncMode::PushOnly => {
                        (SyncRun { phase: Phase::AwaitLocal, ..run }, SyncAction::ReadLocal { with_etag: true })
                    },
                    _ => (SyncRun { phase: Phase::AwaitDir, ..run }, SyncAction::EnsureDir(self.dir_url.clone())),
                }
            },
            SyncEvent::DirReady(Err(e)) => fail(mode, retries, e),
            SyncEvent::DirReady(Ok(_)) => {
                match mode {
                    SyncMode::PushOnly => {
                        let notes = clone_notes(&run.notes);
                        let etag = run.etag.clone();
                        (
                            SyncRun { phase: Phase::AwaitPush, ..run },
                            SyncAction::Push { url: self.file_url.clone(), notes, etag },
                        )
                    },
                    _ => (SyncRun { phase: Phase::AwaitFetch, ..run }, SyncAction::Fetch(self.file_url.clone())),
                }
            },
            SyncEvent::Fetched(Err(e)) => fail(mode, retries, e),
            SyncEvent::Fetched(Ok((payload, etag))) => {
                match mode {
                    SyncMode::Full => (
                        SyncRun { mode, phase: Phase::AwaitLocal, notes: payload.notes, has_conflict: run.has_conflict, etag, retries },
                        SyncAction::ReadLocal { with_etag: false },
                    ),
                    _ => {
                        let notes = clone_notes(&payload.notes);
                        (
                            SyncRun { mode, phase: Phase::AwaitWrite, notes: payload.notes, has_conflict: run.has_conflict, etag, retries },
                            SyncAction::Write { notes, conflicts: Vec::new() },
                        )
                    },
                }
            },
            SyncEvent::LocalRead(Err(e), _) => fail(mode, retries, e),
            SyncEvent::LocalRead(Ok(local), stored) => {
                match mode {
                    SyncMode::Full => {
                        let (merged, found, conflicts) = merge_and_archive(local, run.notes);
                        let notes = clone_notes(&merged);
                        (
                            SyncRun {
                                mode,
                                phase: Phase::AwaitWrite,
                                notes: merged,
                                has_conflict: run.has_conflict || found,
                                etag: run.etag,
                                retries,
                            },
                            SyncAction::Write { notes, conflicts },
                        )
                    },
                    _ => (
                        SyncRun { mode, phase: Phase::AwaitDir, notes: local.notes, has_conflict: run.has_conflict, etag: stored, retries },
                        SyncAction::EnsureDir(self.dir_url.clone()),
                    ),
                }
            },
            SyncEvent::Written(Err(e)) => fail(mode, retries, e),
            SyncEvent::Written(Ok(_)) => {
                match mode {
                    SyncMode::Full => {
                        let notes = clone_notes(&run.notes);
                        let etag = run.etag.clone();
                        (
                            SyncRun { phase: Phase::AwaitPush, ..run },
                            SyncAction::Push { url: self.file_url.clone(), notes, etag },
                        )
                    },
                    _ => {
                        let m = count_msg(false, run.notes.len());
                        (
                            finished(mode, retries),
                            SyncAction::Finish { save_etag: Some(run.etag), result: Ok(SyncDone::Message(m)) },
                        )
                    },
                }
            },
            SyncEvent::Pushed(Err(e)) => {
                let full = match mode {
                    SyncMode::Full => true,
                    _ => false,
                };
                if full && retries < MAX_PUSH_RETRIES && is_push_conflict(&e) {
                    (
                        SyncRun {
                            mode,
                            phase: Phase::AwaitFetch,
                            notes: Vec::new(),
                            has_conflict: run.has_conflict,
                            etag: run.etag,
                            retries: retries + 1,
                        },
                        SyncAction::Fetch(self.file_url.clone()),
                    )
                } else {
                    fail(mode, retries, e)
                }
            },
            SyncEvent::Pushed(Ok(pushed)) => {
                let keep = if pushed.unicode_len() == 0 { run.etag } else { pushed };
                match mode {
                    SyncMode::Full => (
                        finished(mode, retries),
                        SyncAction::Finish { save_etag: Some(keep), result: Ok(SyncDone::Merged(run.notes, run.has_conflict)) },
                    ),
                    _ => {
                        let m = count_msg(true, run.notes.len());
                        (
                            finished(mode, retries),
                            SyncAction::Finish { save_etag: Some(keep), result: Ok(SyncDone::Message(m)) },
                        )
                    },
                }
            },
        }
    }
}

} // verus!
