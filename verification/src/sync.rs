//! WebDAV synchronisation: the entity-level last-writer-wins merge of local
//! and remote notes, and the decisions taken on the server's answers.
use vstd::prelude::*;
use crate::db::{Note, content_differs, differs, opt_view, sorted_by_order, sort_by_order};

verus! {

broadcast use vstd::seq_lib::group_to_multiset_ensures;

/// Transport format: all notes, serialised as `{"notes": [...]}`.
pub struct SyncPayload {
    pub notes: Vec<Note>,
}

impl SyncPayload {
    /// The remote state of a first synchronisation: no notes yet.
    pub fn empty() -> (p: SyncPayload)
        ensures
            p.notes@.len() == 0,
    {
        SyncPayload { notes: Vec::new() }
    }
}

/// HTTP 2xx.
pub open spec fn is_success(status: u16) -> bool {
    200 <= status <= 299
}

/// Whether the answer to creating the remote directory (MKCOL) lets the
/// synchronisation go on: created (201), already there (405, 409), or any
/// other success.
pub fn mkcol_ok(status: u16) -> (r: bool)
    ensures
        r == (status == 201 || status == 405 || status == 409 || is_success(status)),
{
    status == 201 || status == 405 || status == 409 || (200 <= status && status <= 299)
}

/// How the answer to fetching `notes.json` is handled.
pub enum FetchOutcome {
    /// 404: nothing stored yet; the remote counts as empty.
    FirstSync,
    /// Any other failure status.
    Failed,
    /// Success: the body holds the notes.
    ReadBody,
}

/// Classifies the status of the answer to fetching `notes.json`.
pub fn fetch_outcome(status: u16) -> (r: FetchOutcome)
    ensures
        status == 404 ==> r is FirstSync,
        status != 404 && !is_success(status) ==> r is Failed,
        is_success(status) ==> r is ReadBody,
{
    if status == 404 {
        FetchOutcome::FirstSync
    } else if !(200 <= status && status <= 299) {
        FetchOutcome::Failed
    } else {
        FetchOutcome::ReadBody
    }
}

/// How the answer to storing `notes.json` is handled.
pub enum PushOutcome {
    /// 412: the remote file changed since it was read.
    Conflict,
    /// Any other failure status.
    Failed,
    /// Success: the answer may carry the new ETag.
    Stored,
}

/// Classifies the status of the answer to storing `notes.json`.
pub fn push_outcome(status: u16) -> (r: PushOutcome)
    ensures
        status == 412 ==> r is Conflict,
        status != 412 && !is_success(status) ==> r is Failed,
        is_success(status) ==> r is Stored,
{
    if status == 412 {
        PushOutcome::Conflict
    } else if !(200 <= status && status <= 299) {
        PushOutcome::Failed
    } else {
        PushOutcome::Stored
    }
}

/// The error reported when the remote file changed under a push.
pub fn push_conflict_message() -> (m: String)
    ensures
        m@ == "同步冲突: 远程文件已被修改，请重新同步"@,
{
    String::from_str("同步冲突: 远程文件已被修改，请重新同步")
}

/// Whether a push sends `If-Match`: only when an ETag is known (a first push
/// has none).
pub fn sends_if_match(etag: &str) -> (r: bool)
    ensures
        r == (etag@.len() > 0),
{
    etag.unicode_len() > 0
}

/// Notes keyed by id; a later note with the same id replaces an earlier one.
pub open spec fn index_by_id(s: Seq<Note>) -> Map<Seq<char>, Note>
    decreases s.len(),
{
    if s.len() == 0 {
        Map::empty()
    } else {
        index_by_id(s.drop_last()).insert(s.last().id@, s.last())
    }
}

/// One remote note merged into the keyed notes: taken when its id is new or
/// when it was updated strictly later than the kept version.
pub open spec fn lww_step(m: Map<Seq<char>, Note>, n: Note) -> Map<Seq<char>, Note> {
    if m.contains_key(n.id@) && n.updated_at <= m[n.id@].updated_at {
        m
    } else {
        m.insert(n.id@, n)
    }
}

/// Remote notes merged one after the other.
pub open spec fn apply_remote(m: Map<Seq<char>, Note>, s: Seq<Note>) -> Map<Seq<char>, Note>
    decreases s.len(),
{
    if s.len() == 0 {
        m
    } else {
        lww_step(apply_remote(m, s.drop_last()), s.last())
    }
}

/// The merged notes by id.
pub open spec fn merged_view(local: Seq<Note>, remote: Seq<Note>) -> Map<Seq<char>, Note> {
    apply_remote(index_by_id(local), remote)
}

/// A remote note conflicts with the kept version of the same id when both
/// carry the same `updated_at` but differ in content.
pub open spec fn is_conflict(m: Map<Seq<char>, Note>, n: Note) -> bool {
    &&& m.contains_key(n.id@)
    &&& m[n.id@].updated_at == n.updated_at
    &&& content_differs(m[n.id@], n)
}

/// The remote notes that conflict at the moment they are merged, in order.
pub open spec fn conflicts_of(m: Map<Seq<char>, Note>, s: Seq<Note>) -> Seq<Note>
    decreases s.len(),
{
    if s.len() == 0 {
        Seq::empty()
    } else {
        let prev = conflicts_of(m, s.drop_last());
        if is_conflict(apply_remote(m, s.drop_last()), s.last()) {
            prev.push(s.last())
        } else {
            prev
        }
    }
}

/// The remote versions that conflict when `remote` is merged into `local`.
pub open spec fn merge_conflicts(local: Seq<Note>, remote: Seq<Note>) -> Seq<Note> {
    conflicts_of(index_by_id(local), remote)
}

/// No two notes share an id.
pub open spec fn unique_ids(s: Seq<Note>) -> bool {
    forall|i: int, j: int| 0 <= i < s.len() && 0 <= j < s.len() && i != j ==> #[trigger] s[i].id@ != #[trigger] s[j].id@
}

/// `s` lists exactly the notes of `m`, once each.
pub open spec fn lists_map(s: Seq<Note>, m: Map<Seq<char>, Note>) -> bool {
    &&& unique_ids(s)
    &&& forall|i: int| 0 <= i < s.len() ==> m.contains_key(#[trigger] s[i].id@) && m[s[i].id@] == s[i]
    &&& forall|k: Seq<char>| m.contains_key(k) ==> exists|i: int| 0 <= i < s.len() && #[trigger] s[i].id@ == k
}

/// Writing a note over the listed note of the same id lists the updated map.
proof fn lemma_listing_replace(before: Seq<Note>, idx: int, n: Note, m: Map<Seq<char>, Note>)
    requires
        lists_map(before, m),
        0 <= idx < before.len(),
        before[idx].id@ == n.id@,
    ensures
        lists_map(before.update(idx, n), m.insert(n.id@, n)),
{
    let after = before.update(idx, n);
    let m2 = m.insert(n.id@, n);
    assert forall|k: Seq<char>| m2.contains_key(k) implies exists|i: int|
        0 <= i < after.len() && #[trigger] after[i].id@ == k by {
        if k != n.id@ {
            let i = choose|i: int| 0 <= i < before.len() && #[trigger] before[i].id@ == k;
            assert(after[i].id@ == k);
        } else {
            assert(after[idx].id@ == k);
        }
    }
}

/// Appending a note whose id is not listed lists the extended map.
proof fn lemma_listing_append(before: Seq<Note>, n: Note, m: Map<Seq<char>, Note>)
    requires
        lists_map(before, m),
        forall|i: int| 0 <= i < before.len() ==> before[i].id@ != n.id@,
    ensures
        lists_map(before.push(n), m.insert(n.id@, n)),
{
    let after = before.push(n);
    let m2 = m.insert(n.id@, n);
    assert forall|k: Seq<char>| m2.contains_key(k) implies exists|i: int|
        0 <= i < after.len() && #[trigger] after[i].id@ == k by {
        if k != n.id@ {
            let i = choose|i: int| 0 <= i < before.len() && #[trigger] before[i].id@ == k;
            assert(after[i].id@ == k);
        } else {
            assert(after[before.len() as int].id@ == k);
        }
    }
}

/// Position of the note with the given id, if any.
fn find_id(v: &Vec<Note>, id: &String) -> (r: Option<usize>)
    ensures
        match r {
            Some(i) => i < v.len() && v@[i as int].id@ == id@,
            None => forall|i: int| 0 <= i < v.len() ==> v@[i].id@ != id@,
        },
{
    let mut i: usize = 0;
    while i < v.len()
        invariant
            i <= v.len(),
            forall|j: int| 0 <= j < i ==> v@[j].id@ != id@,
        decreases v.len() - i,
    {
        if v[i].id.eq(id) {
            return Some(i);
        }
        i = i + 1;
    }
    None
}

/// Entity-level last-writer-wins merge.
///
/// For the same id the version with the higher `updated_at` is kept; on equal
/// `updated_at` the local version is kept, and if the two differ in content the
/// remote version is reported as a conflict. Notes present on one side only
/// are kept. Returns the merged notes sorted by `order`, whether a conflict
/// occurred, and the conflicting remote versions with their ids.
pub fn merge(local: Vec<Note>, remote: Vec<Note>) -> (res: (Vec<Note>, bool, Vec<(String, Note)>))
    ensures
        lists_map(res.0@, merged_view(local@, remote@)),
        sorted_by_order(res.0@),
        res.2@.len() == merge_conflicts(local@, remote@).len(),
        forall|i: int|
            0 <= i < res.2@.len() ==> (#[trigger] res.2@[i]).1 == merge_conflicts(local@, remote@)[i]
                && res.2@[i].0@ == res.2@[i].1.id@,
        res.1 == (res.2@.len() > 0),
{
    let ghost local0 = local@;
    let ghost remote0 = remote@;
    let mut local = local;
    let mut remote = remote;
    let mut map: Vec<Note> = Vec::new();
    let mut has_conflict = false;
    let mut conflicts: Vec<(String, Note)> = Vec::new();

    let ghost mut done: int = 0;
    assert(local@ =~= local0.skip(0));
    while local.len() > 0
        invariant
            0 <= done <= local0.len(),
            local@ == local0.skip(done),
            lists_map(map@, index_by_id(local0.take(done))),
        decreases local.len(),
    {
        let ghost before = map@;
        let n = local.remove(0);
        proof {
            assert(n == local0[done]);
            assert(local0.take(done + 1).drop_last() =~= local0.take(done));
            assert(local0.take(done + 1).last() == n);
        }
        let ghost m = index_by_id(local0.take(done + 1));
        match find_id(&map, &n.id) {
            Some(idx) => {
                let ghost gn = n;
                map.set(idx, n);
                proof {
                    lemma_listing_replace(before, idx as int, gn, index_by_id(local0.take(done)));
                }
            },
            None => {
                let ghost gn = n;
                map.push(n);
                proof {
                    lemma_listing_append(before, gn, index_by_id(local0.take(done)));
                }
            },
        }
        proof {
            done = done + 1;
            assert(local@ =~= local0.skip(done));
        }
    }
    assert(local0.take(done) =~= local0);

    let ghost m0 = index_by_id(local0);
    let ghost mut rdone: int = 0;
    assert(remote@ =~= remote0.skip(0));
    assert(remote0.take(0) =~= Seq::<Note>::empty());
    while remote.len() > 0
        invariant
            0 <= rdone <= remote0.len(),
            remote@ == remote0.skip(rdone),
            m0 == index_by_id(local0),
            lists_map(map@, apply_remote(m0, remote0.take(rdone))),
            conflicts@.len() == conflicts_of(m0, remote0.take(rdone)).len(),
            forall|i: int|
                0 <= i < conflicts@.len() ==> (#[trigger] conflicts@[i]).1 == conflicts_of(
                    m0,
                    remote0.take(rdone),
                )[i] && conflicts@[i].0@ == conflicts@[i].1.id@,
            has_conflict == (conflicts@.len() > 0),
        decreases remote.len(),
    {
        let ghost before = map@;
        let ghost pre = remote0.take(rdone);
        let ghost mprev = apply_remote(m0, pre);
        let n = remote.remove(0);
        proof {
            assert(n == remote0[rdone]);
            assert(remote0.take(rdone + 1).drop_last() =~= pre);
            assert(remote0.take(rdone + 1).last() == n);
        }
        let ghost m = apply_remote(m0, remote0.take(rdone + 1));
        let ghost cprev = conflicts_of(m0, pre);
        match find_id(&map, &n.id) {
            Some(idx) => {
                assert(mprev.contains_key(n.id@) && mprev[n.id@] == map@[idx as int]);
                if map[idx].updated_at == n.updated_at {
                    if differs(&map[idx], &n) {
                        has_conflict = true;
                        let id = n.id.clone();
                        conflicts.push((id, n));
                        proof {
                            assert(conflicts_of(m0, remote0.take(rdone + 1)) == cprev.push(n));
                        }
                    } else {
                        proof {
                            assert(conflicts_of(m0, remote0.take(rdone + 1)) == cprev);
                        }
                    }
                    assert(m == mprev);
                } else if n.updated_at > map[idx].updated_at {
                    let ghost gn = n;
                    map.set(idx, n);
                    proof {
                        assert(conflicts_of(m0, remote0.take(rdone + 1)) == cprev);
                        lemma_listing_replace(before, idx as int, gn, mprev);
                    }
                } else {
                    proof {
                        assert(conflicts_of(m0, remote0.take(rdone + 1)) == cprev);
                        assert(m == mprev);
                    }
                }
            },
            None => {
                let ghost gn = n;
                map.push(n);
                proof {
                    assert(!mprev.contains_key(gn.id@));
                    assert(conflicts_of(m0, remote0.take(rdone + 1)) == cprev);
                    lemma_listing_append(before, gn, mprev);
                }
            },
        }
        proof {
            rdone = rdone + 1;
            assert(remote@ =~= remote0.skip(rdone));
        }
    }
    assert(remote0.take(rdone) =~= remote0);

    let ghost unsorted = map@;
    let merged = sort_by_order(map);
    proof {
        lemma_lists_map_permuted(unsorted, merged@, merged_view(local0, remote0));
    }
    (merged, has_conflict, conflicts)
}

/// A rearrangement of a listing of a map is again a listing of it.
proof fn lemma_lists_map_permuted(s: Seq<Note>, t: Seq<Note>, m: Map<Seq<char>, Note>)
    requires
        lists_map(s, m),
        t.to_multiset() == s.to_multiset(),
    ensures
        lists_map(t, m),
{
    assert(s.no_duplicates()) by {
        assert forall|i: int, j: int| 0 <= i < s.len() && 0 <= j < s.len() && i != j implies s[i] != s[j] by {
            assert(s[i].id@ != s[j].id@);
        }
    }
    s.lemma_multiset_has_no_duplicates();
    t.lemma_multiset_has_no_duplicates_conv();
    assert forall|i: int| 0 <= i < t.len() implies m.contains_key(#[trigger] t[i].id@) && m[t[i].id@] == t[i] by {
        assert(t.contains(t[i]));
        assert(t.to_multiset().count(t[i]) > 0);
        assert(s.contains(t[i]));
    }
    assert forall|i: int, j: int| 0 <= i < t.len() && 0 <= j < t.len() && i != j implies #[trigger] t[i].id@ != #[trigger] t[j].id@ by {
        assert(t.contains(t[i]));
        assert(t.contains(t[j]));
        assert(t.to_multiset().count(t[i]) > 0);
        assert(t.to_multiset().count(t[j]) > 0);
        if t[i].id@ == t[j].id@ {
            assert(m[t[i].id@] == t[i]);
            assert(t[i] == t[j]);
        }
    }
    assert forall|k: Seq<char>| m.contains_key(k) implies exists|i: int| 0 <= i < t.len() && #[trigger] t[i].id@ == k by {
        let i = choose|i: int| 0 <= i < s.len() && #[trigger] s[i].id@ == k;
        assert(s.contains(s[i]));
        assert(s.to_multiset().count(s[i]) > 0);
        assert(t.contains(s[i]));
        let j = choose|j: int| 0 <= j < t.len() && t[j] == s[i];
        assert(t[j].id@ == k);
    }
}

/// Some note of `s` has id `k`.
pub open spec fn has_id(s: Seq<Note>, k: Seq<char>) -> bool {
    exists|i: int| 0 <= i < s.len() && #[trigger] s[i].id@ == k
}

/// The keyed notes hold exactly the ids of the sequence, each with the last
/// note of that id; with unique ids, each note under its own id.
pub proof fn lemma_index_by_id(s: Seq<Note>)
    ensures
        forall|k: Seq<char>| index_by_id(s).contains_key(k) <==> has_id(s, k),
        unique_ids(s) ==> forall|i: int| 0 <= i < s.len() ==> index_by_id(s)[#[trigger] s[i].id@] == s[i],
    decreases s.len(),
{
    if s.len() > 0 {
        let p = s.drop_last();
        lemma_index_by_id(p);
        assert forall|k: Seq<char>| index_by_id(s).contains_key(k) <==> has_id(s, k) by {
            if has_id(p, k) {
                let i = choose|i: int| 0 <= i < p.len() && #[trigger] p[i].id@ == k;
                assert(s[i].id@ == k);
            }
            if has_id(s, k) && k != s.last().id@ {
                let i = choose|i: int| 0 <= i < s.len() && #[trigger] s[i].id@ == k;
                assert(i < p.len());
                assert(p[i].id@ == k);
            }
        }
        if unique_ids(s) {
            assert(unique_ids(p));
            assert forall|i: int| 0 <= i < s.len() implies index_by_id(s)[#[trigger] s[i].id@] == s[i] by {
                if i < p.len() {
                    assert(p[i] == s[i]);
                    assert(s[i].id@ != s.last().id@);
                }
            }
        }
    }
}

/// With unique remote ids, each key ends up with the result of merging the one
/// remote note of that id (if any) into the starting version.
pub proof fn lemma_apply_remote_unique(m: Map<Seq<char>, Note>, s: Seq<Note>, k: Seq<char>)
    requires
        unique_ids(s),
    ensures
        !has_id(s, k) ==> (apply_remote(m, s).contains_key(k) == m.contains_key(k) && (m.contains_key(k) ==> apply_remote(m, s)[k] == m[k])),
        forall|j: int| 0 <= j < s.len() && #[trigger] s[j].id@ == k ==> apply_remote(m, s).contains_key(k) && apply_remote(m, s)[k] == lww_step(m, s[j])[k],
    decreases s.len(),
{
    if s.len() > 0 {
        let p = s.drop_last();
        assert(unique_ids(p));
        lemma_apply_remote_unique(m, p, k);
        if !has_id(s, k) {
            assert(!has_id(p, k)) by {
                if has_id(p, k) {
                    let i = choose|i: int| 0 <= i < p.len() && #[trigger] p[i].id@ == k;
                    assert(s[i].id@ == k);
                }
            }
            assert(s[s.len() - 1].id@ != k);
        }
        assert forall|j: int| 0 <= j < s.len() && #[trigger] s[j].id@ == k implies apply_remote(m, s).contains_key(k) && apply_remote(m, s)[k] == lww_step(m, s[j])[k] by {
            if j < s.len() - 1 {
                assert(p[j].id@ == k);
                assert(s.last().id@ != k);
            } else {
                assert(!has_id(p, k)) by {
                    if has_id(p, k) {
                        let i = choose|i: int| 0 <= i < p.len() && #[trigger] p[i].id@ == k;
                        assert(s[i].id@ == k);
                    }
                }
            }
        }
    }
}

/// Merging remote notes with unique ids raises a conflict exactly when one of
/// them conflicts with the starting version of its id; every reported
/// conflict is one of the remote notes.
pub proof fn lemma_conflicts_unique(m: Map<Seq<char>, Note>, s: Seq<Note>)
    requires
        unique_ids(s),
    ensures
        conflicts_of(m, s).len() > 0 <==> exists|j: int| 0 <= j < s.len() && is_conflict(m, #[trigger] s[j]),
        forall|i: int| 0 <= i < conflicts_of(m, s).len() ==> s.contains(#[trigger] conflicts_of(m, s)[i]),
    decreases s.len(),
{
    if s.len() > 0 {
        let p = s.drop_last();
        assert(unique_ids(p));
        lemma_conflicts_unique(m, p);
        let n = s.last();
        assert(!has_id(p, n.id@)) by {
            if has_id(p, n.id@) {
                let i = choose|i: int| 0 <= i < p.len() && #[trigger] p[i].id@ == n.id@;
                assert(s[i].id@ == n.id@);
            }
        }
        lemma_apply_remote_unique(m, p, n.id@);
        assert(is_conflict(apply_remote(m, p), n) == is_conflict(m, n));
        if exists|j: int| 0 <= j < p.len() && is_conflict(m, #[trigger] p[j]) {
            let j = choose|j: int| 0 <= j < p.len() && is_conflict(m, #[trigger] p[j]);
            assert(s[j] == p[j]);
        }
        if exists|j: int| 0 <= j < s.len() && is_conflict(m, #[trigger] s[j]) {
            let j = choose|j: int| 0 <= j < s.len() && is_conflict(m, #[trigger] s[j]);
            if j < p.len() {
                assert(p[j] == s[j]);
            }
        }
        assert forall|i: int| 0 <= i < conflicts_of(m, s).len() implies s.contains(#[trigger] conflicts_of(m, s)[i]) by {
            if i < conflicts_of(m, p).len() {
                assert(conflicts_of(m, s)[i] == conflicts_of(m, p)[i]);
                assert(p.contains(conflicts_of(m, p)[i]));
                let q = choose|q: int| 0 <= q < p.len() && p[q] == conflicts_of(m, p)[i];
                assert(s[q] == p[q]);
            } else {
                assert(conflicts_of(m, s)[i] == s[s.len() - 1]);
            }
        }
    }
}

/// The merged notes hold exactly the ids found locally or remotely.
pub proof fn law_merge_keeps_every_id(local: Seq<Note>, remote: Seq<Note>, k: Seq<char>)
    ensures
        merged_view(local, remote).contains_key(k) <==> (has_id(local, k) || has_id(remote, k)),
    decreases remote.len(),
{
    lemma_index_by_id(local);
    lemma_apply_remote_keys(index_by_id(local), remote, k);
}

proof fn lemma_apply_remote_keys(m: Map<Seq<char>, Note>, s: Seq<Note>, k: Seq<char>)
    ensures
        apply_remote(m, s).contains_key(k) <==> (m.contains_key(k) || has_id(s, k)),
    decreases s.len(),
{
    if s.len() > 0 {
        let p = s.drop_last();
        lemma_apply_remote_keys(m, p, k);
        if has_id(p, k) {
            let i = choose|i: int| 0 <= i < p.len() && #[trigger] p[i].id@ == k;
            assert(s[i].id@ == k);
        }
        if has_id(s, k) && s.last().id@ != k {
            let i = choose|i: int| 0 <= i < s.len() && #[trigger] s[i].id@ == k;
            assert(p[i].id@ == k);
        }
    }
}

/// Last writer wins: when neither side repeats an id, a note present on one
/// side only is kept as it is, and for a note present on both sides the
/// remote version is kept when it was updated strictly later, the local one
/// otherwise (the local version wins a tie).
pub proof fn law_merge_last_writer_wins(local: Seq<Note>, remote: Seq<Note>, k: Seq<char>)
    requires
        unique_ids(local),
        unique_ids(remote),
    ensures
        forall|i: int|
            0 <= i < local.len() && #[trigger] local[i].id@ == k && !has_id(remote, k)
                ==> merged_view(local, remote)[k] == local[i],
        forall|j: int|
            0 <= j < remote.len() && #[trigger] remote[j].id@ == k && !has_id(local, k)
                ==> merged_view(local, remote)[k] == remote[j],
        forall|i: int, j: int|
            0 <= i < local.len() && 0 <= j < remote.len() && #[trigger] local[i].id@ == k
                && #[trigger] remote[j].id@ == k ==> merged_view(local, remote)[k] == if remote[j].updated_at
                > local[i].updated_at {
                remote[j]
            } else {
                local[i]
            },
{
    let m = index_by_id(local);
    lemma_index_by_id(local);
    lemma_apply_remote_unique(m, remote, k);
    assert forall|i: int|
        0 <= i < local.len() && #[trigger] local[i].id@ == k implies m.contains_key(k) && m[k] == local[i] by {
        assert(has_id(local, k));
    }
    assert forall|i: int, j: int|
        0 <= i < local.len() && 0 <= j < remote.len() && #[trigger] local[i].id@ == k
            && #[trigger] remote[j].id@ == k implies merged_view(local, remote)[k] == if remote[j].updated_at
            > local[i].updated_at {
            remote[j]
        } else {
            local[i]
        } by {
        assert(has_id(local, k));
        assert(m[k] == local[i]);
        assert(apply_remote(m, remote)[k] == lww_step(m, remote[j])[k]);
    }
    assert forall|i: int|
        0 <= i < local.len() && #[trigger] local[i].id@ == k && !has_id(remote, k)
            implies merged_view(local, remote)[k] == local[i] by {
        assert(has_id(local, k));
        assert(m[k] == local[i]);
    }
}

/// A conflict is reported exactly when, for some id on both sides, the two
/// versions carry the same `updated_at` but differ in content (for inputs
/// without repeated ids); every reported conflict is a remote note.
pub proof fn law_merge_conflict_iff_tie_with_different_content(local: Seq<Note>, remote: Seq<Note>)
    requires
        unique_ids(local),
        unique_ids(remote),
    ensures
        merge_conflicts(local, remote).len() > 0 <==> exists|i: int, j: int|
            0 <= i < local.len() && 0 <= j < remote.len() && #[trigger] local[i].id@ == #[trigger] remote[j].id@
                && local[i].updated_at == remote[j].updated_at && content_differs(local[i], remote[j]),
        forall|i: int| 0 <= i < merge_conflicts(local, remote).len() ==> remote.contains(#[trigger] merge_conflicts(local, remote)[i]),
{
    let m = index_by_id(local);
    lemma_index_by_id(local);
    lemma_conflicts_unique(m, remote);
    if exists|j: int| 0 <= j < remote.len() && is_conflict(m, #[trigger] remote[j]) {
        let j = choose|j: int| 0 <= j < remote.len() && is_conflict(m, #[trigger] remote[j]);
        assert(has_id(local, remote[j].id@));
        let i = choose|i: int| 0 <= i < local.len() && #[trigger] local[i].id@ == remote[j].id@;
        assert(m[local[i].id@] == local[i]);
    }
    if exists|i: int, j: int|
        0 <= i < local.len() && 0 <= j < remote.len() && #[trigger] local[i].id@ == #[trigger] remote[j].id@
            && local[i].updated_at == remote[j].updated_at && content_differs(local[i], remote[j]) {
        let (i, j) = choose|i: int, j: int|
            0 <= i < local.len() && 0 <= j < remote.len() && #[trigger] local[i].id@ == #[trigger] remote[j].id@
                && local[i].updated_at == remote[j].updated_at && content_differs(local[i], remote[j]);
        assert(has_id(local, local[i].id@));
        assert(m[local[i].id@] == local[i]);
        assert(is_conflict(m, remote[j]));
    }
}

/// Merging a set of notes with itself changes nothing and raises no conflict.
pub proof fn law_merge_with_itself(notes: Seq<Note>)
    requires
        unique_ids(notes),
    ensures
        merged_view(notes, notes) == index_by_id(notes),
        merge_conflicts(notes, notes).len() == 0,
{
    let m = index_by_id(notes);
    lemma_index_by_id(notes);
    assert forall|k: Seq<char>| #[trigger] merged_view(notes, notes).contains_key(k) == m.contains_key(k)
        && (m.contains_key(k) ==> merged_view(notes, notes)[k] == m[k]) by {
        lemma_apply_remote_unique(m, notes, k);
        if has_id(notes, k) {
            let i = choose|i: int| 0 <= i < notes.len() && #[trigger] notes[i].id@ == k;
            assert(m[k] == notes[i]);
        }
    }
    assert(merged_view(notes, notes) =~= m);
    lemma_conflicts_unique(m, notes);
    assert forall|j: int| 0 <= j < notes.len() implies !is_conflict(m, #[trigger] notes[j]) by {
        assert(m[notes[j].id@] == notes[j]);
    }
}

/// When no id is updated at the same moment on both sides, the merge does not
/// depend on which side is local and which is remote.
pub proof fn law_merge_symmetric_without_ties(a: Seq<Note>, b: Seq<Note>)
    requires
        unique_ids(a),
        unique_ids(b),
        forall|i: int, j: int|
            0 <= i < a.len() && 0 <= j < b.len() && #[trigger] a[i].id@ == #[trigger] b[j].id@ ==> a[i].updated_at
                != b[j].updated_at,
    ensures
        merged_view(a, b) == merged_view(b, a),
{
    assert forall|k: Seq<char>| #[trigger] merged_view(a, b).contains_key(k) == merged_view(b, a).contains_key(k)
        && (merged_view(a, b).contains_key(k) ==> merged_view(a, b)[k] == merged_view(b, a)[k]) by {
        law_merge_keeps_every_id(a, b, k);
        law_merge_keeps_every_id(b, a, k);
        law_merge_last_writer_wins(a, b, k);
        law_merge_last_writer_wins(b, a, k);
        if has_id(a, k) && has_id(b, k) {
            let i = choose|i: int| 0 <= i < a.len() && #[trigger] a[i].id@ == k;
            let j = choose|j: int| 0 <= j < b.len() && #[trigger] b[j].id@ == k;
            assert(a[i].updated_at != b[j].updated_at);
        } else if has_id(a, k) {
            let i = choose|i: int| 0 <= i < a.len() && #[trigger] a[i].id@ == k;
        } else if has_id(b, k) {
            let j = choose|j: int| 0 <= j < b.len() && #[trigger] b[j].id@ == k;
        }
    }
    assert(merged_view(a, b) =~= merged_view(b, a));
}

proof fn lemma_index_values(s: Seq<Note>, k: Seq<char>)
    ensures
        index_by_id(s).contains_key(k) ==> s.contains(index_by_id(s)[k]),
    decreases s.len(),
{
    if s.len() > 0 {
        let p = s.drop_last();
        lemma_index_values(p, k);
        if k != s.last().id@ && index_by_id(p).contains_key(k) {
            let j = choose|j: int| 0 <= j < p.len() && p[j] == index_by_id(p)[k];
            assert(s[j] == p[j]);
        }
        assert(s[s.len() - 1] == s.last());
    }
}

proof fn lemma_apply_remote_values(m: Map<Seq<char>, Note>, s: Seq<Note>, k: Seq<char>)
    ensures
        apply_remote(m, s).contains_key(k) ==> (s.contains(apply_remote(m, s)[k]) || (m.contains_key(k)
            && apply_remote(m, s)[k] == m[k])),
    decreases s.len(),
{
    if s.len() > 0 {
        let p = s.drop_last();
        lemma_apply_remote_values(m, p, k);
        let prev = apply_remote(m, p);
        if k != s.last().id@ && prev.contains_key(k) && p.contains(prev[k]) {
            let j = choose|j: int| 0 <= j < p.len() && p[j] == prev[k];
            assert(s[j] == p[j]);
        }
        assert(s[s.len() - 1] == s.last());
    }
}

/// The merge invents nothing: every merged note is one of the local or
/// remote notes, unchanged.
pub proof fn law_merge_invents_nothing(local: Seq<Note>, remote: Seq<Note>, k: Seq<char>)
    ensures
        merged_view(local, remote).contains_key(k) ==> (local.contains(merged_view(local, remote)[k])
            || remote.contains(merged_view(local, remote)[k])),
{
    lemma_index_values(local, k);
    lemma_apply_remote_values(index_by_id(local), remote, k);
}

proof fn lemma_conflicts_filter(m: Map<Seq<char>, Note>, s: Seq<Note>)
    requires
        unique_ids(s),
    ensures
        conflicts_of(m, s) == s.filter(|r: Note| is_conflict(m, r)),
    decreases s.len(),
{
    reveal(Seq::filter);
    if s.len() > 0 {
        let p = s.drop_last();
        assert(unique_ids(p));
        lemma_conflicts_filter(m, p);
        let n = s.last();
        assert(!has_id(p, n.id@)) by {
            if has_id(p, n.id@) {
                let i = choose|i: int| 0 <= i < p.len() && #[trigger] p[i].id@ == n.id@;
                assert(s[i].id@ == n.id@);
            }
        }
        lemma_apply_remote_unique(m, p, n.id@);
        assert(is_conflict(apply_remote(m, p), n) == is_conflict(m, n));
    }
}

/// When no remote note repeats an id, the reported conflicts are exactly the
/// remote notes, in their order, that tie on `updated_at` with the local
/// version of their id and differ from it in content.
pub proof fn law_merge_conflicts_are_filtered_remote(local: Seq<Note>, remote: Seq<Note>)
    requires
        unique_ids(remote),
    ensures
        merge_conflicts(local, remote) == remote.filter(|r: Note| is_conflict(index_by_id(local), r)),
{
    lemma_conflicts_filter(index_by_id(local), remote);
}

/// For notes without repeated ids, a local and a remote version of one note
/// that carry the same `updated_at` make the merge report the remote version
/// as a conflict exactly when they differ in title, completion state, due
/// date, completion time, pinning, colour, order, parent or reminder time.
pub proof fn law_merge_tie_conflicts_on_any_field(local: Seq<Note>, remote: Seq<Note>, i: int, j: int)
    requires
        unique_ids(local),
        unique_ids(remote),
        0 <= i < local.len(),
        0 <= j < remote.len(),
        local[i].id@ == remote[j].id@,
        local[i].updated_at == remote[j].updated_at,
    ensures
        merge_conflicts(local, remote).contains(remote[j]) <==> {
            let a = local[i];
            let b = remote[j];
            ||| a.title@ != b.title@
            ||| a.completed != b.completed
            ||| a.due_date != b.due_date
            ||| a.completed_at != b.completed_at
            ||| a.pinned != b.pinned
            ||| a.color@ != b.color@
            ||| a.order@ != b.order@
            ||| opt_view(a.parent_id) != opt_view(b.parent_id)
            ||| a.remind_at != b.remind_at
        },
{
    let m = index_by_id(local);
    let pred = |r: Note| is_conflict(m, r);
    lemma_index_by_id(local);
    assert(m[local[i].id@] == local[i]);
    assert(has_id(local, local[i].id@));
    lemma_conflicts_filter(m, remote);
    let f = remote.filter(pred);
    if f.contains(remote[j]) {
        let k = choose|k: int| 0 <= k < f.len() && f[k] == remote[j];
        remote.lemma_filter_pred(pred, k);
        assert(is_conflict(m, remote[j]));
    }
    if content_differs(local[i], remote[j]) {
        assert(is_conflict(m, remote[j]));
        remote.lemma_filter_contains(pred, j);
    }
}

} // verus!
