//! The note record and the query logic over stored notes: which notes are
//! listed, which are due for a reminder, which tombstones are purged, and how
//! a stored conflict is resolved. Reading and writing rows is done by the
//! caller; these functions decide over the rows it hands in.
use vstd::prelude::*;
use vstd::multiset::Multiset;
use crate::text::{lex_le, str_le, lemma_lex_total, lemma_lex_trans};

verus! {

broadcast use vstd::seq_lib::group_to_multiset_ensures;

/// One sticky note (or subtask, when `parent_id` is set).
/// Timestamps are milliseconds since the Unix epoch.
#[derive(Debug)]
pub struct Note {
    pub id: String,
    pub title: String,
    pub parent_id: Option<String>,
    pub order: String,
    pub completed: bool,
    pub pinned: bool,
    pub color: String,
    pub created_at: i64,
    pub updated_at: i64,
    pub deleted_at: Option<i64>,
    pub conflict_id: Option<String>,
    pub due_date: Option<i64>,
    pub remind_at: Option<i64>,
    pub completed_at: Option<i64>,
}

fn clone_opt_string(o: &Option<String>) -> (r: Option<String>)
    ensures
        r == *o,
{
    match o {
        Some(s) => Some(s.clone()),
        None => None,
    }
}

impl Clone for Note {
    fn clone(&self) -> (r: Self)
        ensures
            r == *self,
    {
        Note {
            id: self.id.clone(),
            title: self.title.clone(),
            parent_id: clone_opt_string(&self.parent_id),
            order: self.order.clone(),
            completed: self.completed,
            pinned: self.pinned,
            color: self.color.clone(),
            created_at: self.created_at,
            updated_at: self.updated_at,
            deleted_at: self.deleted_at,
            conflict_id: clone_opt_string(&self.conflict_id),
            due_date: self.due_date,
            remind_at: self.remind_at,
            completed_at: self.completed_at,
        }
    }
}

/// A copy of a list of notes.
pub fn clone_notes(v: &Vec<Note>) -> (r: Vec<Note>)
    ensures
        r@ == v@,
{
    let mut r: Vec<Note> = Vec::new();
    let mut i: usize = 0;
    while i < v.len()
        invariant
            i <= v.len(),
            r@ == v@.take(i as int),
        decreases v.len() - i,
    {
        r.push(v[i].clone());
        i = i + 1;
        assert(r@ =~= v@.take(i as int));
    }
    assert(v@.take(v.len() as int) =~= v@);
    r
}

impl Default for Note {
    fn default() -> (n: Self)
        ensures
            n.id@ == Seq::<char>::empty(),
            n.title@ == Seq::<char>::empty(),
            n.parent_id is None,
            n.order@ == Seq::<char>::empty(),
            !n.completed,
            !n.pinned,
            n.color@ == "#333333"@,
            n.created_at == 0,
            n.updated_at == 0,
            n.deleted_at is None,
            n.conflict_id is None,
            n.due_date is None,
            n.remind_at is None,
            n.completed_at is None,
    {
        Note {
            id: String::new(),
            title: String::new(),
            parent_id: None,
            order: String::new(),
            completed: false,
            pinned: false,
            color: String::from_str("#333333"),
            created_at: 0,
            updated_at: 0,
            deleted_at: None,
            conflict_id: None,
            due_date: None,
            remind_at: None,
            completed_at: None,
        }
    }
}

/// The characters of an optional string.
pub open spec fn opt_view(o: Option<String>) -> Option<Seq<char>> {
    match o {
        Some(s) => Some(s@),
        None => None,
    }
}

/// Two versions of a note differ in what the user sees or edits
/// (title, state, dates, colour, position, parent).
pub open spec fn content_differs(a: Note, b: Note) -> bool {
    ||| a.title@ != b.title@
    ||| a.completed != b.completed
    ||| a.due_date != b.due_date
    ||| a.completed_at != b.completed_at
    ||| a.pinned != b.pinned
    ||| a.color@ != b.color@
    ||| a.order@ != b.order@
    ||| opt_view(a.parent_id) != opt_view(b.parent_id)
    ||| a.remind_at != b.remind_at
}

/// Equality of optional strings by content.
pub fn opt_str_eq(a: &Option<String>, b: &Option<String>) -> (r: bool)
    ensures
        r == (opt_view(*a) == opt_view(*b)),
{
    match (a, b) {
        (Some(x), Some(y)) => x.eq(y),
        (None, None) => true,
        _ => false,
    }
}

/// Equality of optional timestamps.
pub fn opt_i64_eq(a: &Option<i64>, b: &Option<i64>) -> (r: bool)
    ensures
        r == (*a == *b),
{
    match (a, b) {
        (Some(x), Some(y)) => *x == *y,
        (None, None) => true,
        _ => false,
    }
}

/// Whether two versions of a note differ in content.
pub fn differs(a: &Note, b: &Note) -> (r: bool)
    ensures
        r == content_differs(*a, *b),
{
    a.title != b.title || a.completed != b.completed || !opt_i64_eq(&a.due_date, &b.due_date)
        || !opt_i64_eq(&a.completed_at, &b.completed_at) || a.pinned != b.pinned || a.color
        != b.color || a.order != b.order || !opt_str_eq(&a.parent_id, &b.parent_id)
        || !opt_i64_eq(&a.remind_at, &b.remind_at)
}

/// The notes are in ascending `order` (byte-wise string order).
pub open spec fn sorted_by_order(s: Seq<Note>) -> bool {
    forall|i: int, j: int| 0 <= i < j < s.len() ==> lex_le(#[trigger] s[i].order@, #[trigger] s[j].order@)
}

/// Sorts notes by `order`, keeping notes of equal `order` in their input
/// sequence.
pub fn sort_by_order(v: Vec<Note>) -> (r: Vec<Note>)
    ensures
        sorted_by_order(r@),
        r@.to_multiset() == v@.to_multiset(),
        r@.len() == v@.len(),
{
    let mut v = v;
    let ghost orig = v@;
    let mut r: Vec<Note> = Vec::new();
    while v.len() > 0
        invariant
            sorted_by_order(r@),
            r@.to_multiset().add(v@.to_multiset()) == orig.to_multiset(),
        decreases v.len(),
    {
        let ghost v_before = v@;
        let x = v.remove(0);
        proof {
            assert(v@ == v_before.remove(0));
            assert(v_before.contains(x)) by { assert(v_before[0] == x); }
            assert(v_before.to_multiset().count(x) > 0);
        }
        let mut p: usize = 0;
        while p < r.len() && str_le(r[p].order.as_str(), x.order.as_str())
            invariant
                p <= r.len(),
                forall|k: int| 0 <= k < p ==> lex_le(#[trigger] r@[k].order@, x.order@),
            decreases r.len() - p,
        {
            p = p + 1;
        }
        let ghost r_before = r@;
        proof {
            if p < r.len() {
                lemma_lex_total(r@[p as int].order@, x.order@);
            }
            assert forall|i: int, j: int|
                0 <= i < j < r_before.len() + 1 implies lex_le(
                #[trigger] r_before.insert(p as int, x)[i].order@,
                #[trigger] r_before.insert(p as int, x)[j].order@,
            ) by {
                let s = r_before.insert(p as int, x);
                if i < p && j == p {
                } else if i == p && j > p {
                    assert(s[j] == r_before[j - 1]);
                    if j - 1 > p {
                        assert(lex_le(r_before[p as int].order@, r_before[j - 1].order@));
                        lemma_lex_trans(x.order@, r_before[p as int].order@, r_before[j - 1].order@);
                    }
                } else if i < p && j > p {
                    assert(lex_le(s[i].order@, s[j].order@)) by {
                        assert(s[i] == r_before[i]);
                        assert(s[j] == r_before[j - 1]);
                    }
                } else if j < p {
                } else {
                    assert(s[i] == r_before[i - 1]);
                    assert(s[j] == r_before[j - 1]);
                }
            }
        }
        r.insert(p, x);
        proof {
            assert(r@.to_multiset() == r_before.to_multiset().insert(x));
            assert(r@.to_multiset().add(v@.to_multiset()) =~= r_before.to_multiset().add(
                v_before.to_multiset(),
            ));
        }
    }
    proof {
        assert(v@.to_multiset() =~= Multiset::empty());
        assert(r@.to_multiset() =~= orig.to_multiset());
        assert(r@.len() == r@.to_multiset().len());
        assert(orig.len() == orig.to_multiset().len());
    }
    r
}

/// A note that is not soft-deleted.
pub open spec fn is_live(n: Note) -> bool {
    n.deleted_at is None
}

/// A live note whose reminder fell in `(window_start, now]`, or whose due
/// date has passed while it is still open.
pub open spec fn reminder_due(n: Note, now: i64, window_start: i64) -> bool {
    &&& is_live(n)
    &&& {
        ||| (n.remind_at matches Some(r) && r <= now && r > window_start)
        ||| (n.due_date matches Some(d) && d <= now && !n.completed)
    }
}

/// A tombstone older than the cutoff.
pub open spec fn purgeable(n: Note, cutoff: i64) -> bool {
    n.deleted_at matches Some(d) && d < cutoff
}

proof fn lemma_filter_step(s: Seq<Note>, i: int, pred: spec_fn(Note) -> bool)
    requires
        0 <= i < s.len(),
    ensures
        s.take(i + 1).filter(pred) == if pred(s[i]) {
            s.take(i).filter(pred).push(s[i])
        } else {
            s.take(i).filter(pred)
        },
{
    reveal(Seq::filter);
    assert(s.take(i + 1).drop_last() =~= s.take(i));
    assert(s.take(i + 1).last() == s[i]);
}

/// The tombstones deleted before `cutoff`, in row order.
pub open spec fn purge_selection(rows: Seq<Note>, cutoff: i64) -> Seq<Note> {
    rows.filter(|n: Note| purgeable(n, cutoff))
}

/// The notes that are listed: the live ones, sorted by `order`.
pub fn list_notes(rows: Vec<Note>) -> (r: Vec<Note>)
    ensures
        sorted_by_order(r@),
        r@.to_multiset() == rows@.filter(|n: Note| is_live(n)).to_multiset(),
{
    let ghost pred = |n: Note| is_live(n);
    let ghost all = rows@;
    let mut rows = rows;
    let mut kept: Vec<Note> = Vec::new();
    let ghost mut i: int = 0;
    assert(rows@ =~= all.skip(0));
    assert(all.take(0) =~= Seq::<Note>::empty());
    proof { reveal(Seq::filter); }
    while rows.len() > 0
        invariant
            0 <= i <= all.len(),
            rows@ == all.skip(i),
            pred == (|n: Note| is_live(n)),
            kept@ == all.take(i).filter(pred),
        decreases rows.len(),
    {
        let n = rows.remove(0);
        proof {
            assert(n == all[i]);
            lemma_filter_step(all, i, pred);
        }
        if n.deleted_at.is_none() {
            kept.push(n);
        }
        proof {
            i = i + 1;
            assert(rows@ =~= all.skip(i));
        }
    }
    assert(all.take(i) =~= all);
    sort_by_order(kept)
}

/// The notes to remind about at `now`: live notes with a reminder in
/// `(window_start, now]` or an open note past its due date, sorted by `order`.
pub fn check_reminders(rows: Vec<Note>, now: i64, window_start: i64) -> (r: Vec<Note>)
    ensures
        sorted_by_order(r@),
        r@.to_multiset() == rows@.filter(|n: Note| reminder_due(n, now, window_start)).to_multiset(),
{
    let ghost pred = |n: Note| reminder_due(n, now, window_start);
    let ghost all = rows@;
    let mut rows = rows;
    let mut kept: Vec<Note> = Vec::new();
    let ghost mut i: int = 0;
    assert(rows@ =~= all.skip(0));
    assert(all.take(0) =~= Seq::<Note>::empty());
    proof { reveal(Seq::filter); }
    while rows.len() > 0
        invariant
            0 <= i <= all.len(),
            rows@ == all.skip(i),
            pred == (|n: Note| reminder_due(n, now, window_start)),
            kept@ == all.take(i).filter(pred),
        decreases rows.len(),
    {
        let n = rows.remove(0);
        proof {
            assert(n == all[i]);
            lemma_filter_step(all, i, pred);
        }
        let remind = match n.remind_at {
            Some(r) => r <= now && r > window_start,
            None => false,
        };
        let due = match n.due_date {
            Some(d) => d <= now && !n.completed,
            None => false,
        };
        if n.deleted_at.is_none() && (remind || due) {
            kept.push(n);
        }
        proof {
            i = i + 1;
            assert(rows@ =~= all.skip(i));
        }
    }
    assert(all.take(i) =~= all);
    sort_by_order(kept)
}

/// The ids of the tombstones deleted before `cutoff`, in row order.
pub fn purge_old(rows: &Vec<Note>, cutoff: i64) -> (r: Vec<String>)
    ensures
        r@.map_values(|s: String| s@) == purge_selection(rows@, cutoff).map_values(|n: Note| n.id@),
{
    let ghost pred = |n: Note| purgeable(n, cutoff);
    let mut ids: Vec<String> = Vec::new();
    let mut i: usize = 0;
    assert(rows@.take(0) =~= Seq::<Note>::empty());
    proof { reveal(Seq::filter); }
    while i < rows.len()
        invariant
            i <= rows.len(),
            pred == (|n: Note| purgeable(n, cutoff)),
            ids@.map_values(|s: String| s@) == rows@.take(i as int).filter(pred).map_values(|n: Note| n.id@),
        decreases rows.len() - i,
    {
        proof {
            lemma_filter_step(rows@, i as int, pred);
        }
        let old_ids = Ghost(ids@);
        match rows[i].deleted_at {
            Some(d) => {
                if d < cutoff {
                    ids.push(rows[i].id.clone());
                    assert(ids@.map_values(|s: String| s@) =~= old_ids@.map_values(|s: String| s@).push(rows@[i as int].id@));
                }
            },
            None => {},
        }
        i = i + 1;
        proof {
            assert(ids@.map_values(|s: String| s@) =~= rows@.take(i as int).filter(pred).map_values(|n: Note| n.id@));
        }
    }
    assert(rows@.take(rows.len() as int) =~= rows@);
    ids
}

/// Every note due for a reminder is also among the listed notes (as often as
/// it occurs in the rows).
pub proof fn law_reminders_are_listed(rows: Seq<Note>, now: i64, window_start: i64)
    ensures
        rows.filter(|n: Note| reminder_due(n, now, window_start)).to_multiset().subset_of(
            rows.filter(|n: Note| is_live(n)).to_multiset(),
        ),
    decreases rows.len(),
{
    let p1 = |n: Note| reminder_due(n, now, window_start);
    let p2 = |n: Note| is_live(n);
    reveal(Seq::filter);
    if rows.len() > 0 {
        law_reminders_are_listed(rows.drop_last(), now, window_start);
        let a = rows.drop_last().filter(p1);
        let b = rows.drop_last().filter(p2);
        assert(a.to_multiset().subset_of(b.to_multiset()));
        let x = rows.last();
        if p1(x) {
            assert(p2(x));
            assert(rows.filter(p1) == a.push(x));
            assert(rows.filter(p2) == b.push(x));
        } else if p2(x) {
            assert(rows.filter(p1) == a);
            assert(rows.filter(p2) == b.push(x));
        } else {
            assert(rows.filter(p1) == a);
            assert(rows.filter(p2) == b);
        }
    }
}

/// A note is selected for a reminder exactly when it is one of the rows, it is
/// not soft-deleted, and either its reminder time lies after `window_start`
/// and at or before `now`, or it is still open and its due date is at or
/// before `now` (however long ago that was).
pub proof fn law_reminder_selection(rows: Seq<Note>, now: i64, window_start: i64, n: Note)
    ensures
        rows.filter(|x: Note| reminder_due(x, now, window_start)).contains(n) <==> {
            &&& rows.contains(n)
            &&& n.deleted_at is None
            &&& {
                ||| (n.remind_at matches Some(r) && window_start < r && r <= now)
                ||| (n.due_date matches Some(d) && d <= now && !n.completed)
            }
        },
{
    let pred = |x: Note| reminder_due(x, now, window_start);
    let f = rows.filter(pred);
    if f.contains(n) {
        rows.lemma_filter_contains_rev(pred, n);
        let k = choose|k: int| 0 <= k < f.len() && f[k] == n;
        rows.lemma_filter_pred(pred, k);
    }
    if rows.contains(n) && pred(n) {
        let i = choose|i: int| 0 <= i < rows.len() && rows[i] == n;
        rows.lemma_filter_contains(pred, i);
    }
}

/// A live note that is still open and whose due date has passed is reminded
/// of at every check, whatever the start of the reminder window.
pub proof fn law_overdue_open_notes_are_reminded(rows: Seq<Note>, now: i64, window_start: i64, i: int)
    requires
        0 <= i < rows.len(),
        rows[i].deleted_at is None,
        !rows[i].completed,
        rows[i].due_date matches Some(d) && d <= now,
    ensures
        rows.filter(|x: Note| reminder_due(x, now, window_start)).contains(rows[i]),
{
    law_reminder_selection(rows, now, window_start, rows[i]);
}

/// Exactly the rows that are not soft-deleted are listed, and exactly the
/// soft-deleted ones are tombstones.
pub proof fn law_live_and_tombstone_selection(rows: Seq<Note>, n: Note)
    ensures
        rows.filter(|x: Note| is_live(x)).contains(n) <==> rows.contains(n) && n.deleted_at is None,
        rows.filter(|x: Note| !is_live(x)).contains(n) <==> rows.contains(n) && n.deleted_at is Some,
{
    let live = |x: Note| is_live(x);
    let dead = |x: Note| !is_live(x);
    let f = rows.filter(live);
    let g = rows.filter(dead);
    if f.contains(n) {
        rows.lemma_filter_contains_rev(live, n);
        let k = choose|k: int| 0 <= k < f.len() && f[k] == n;
        rows.lemma_filter_pred(live, k);
    }
    if g.contains(n) {
        rows.lemma_filter_contains_rev(dead, n);
        let k = choose|k: int| 0 <= k < g.len() && g[k] == n;
        rows.lemma_filter_pred(dead, k);
    }
    if rows.contains(n) {
        let i = choose|i: int| 0 <= i < rows.len() && rows[i] == n;
        if n.deleted_at is None {
            rows.lemma_filter_contains(live, i);
        } else {
            rows.lemma_filter_contains(dead, i);
        }
    }
}

/// A row is purged exactly when it was soft-deleted strictly before the
/// cutoff.
pub proof fn law_purge_selection(rows: Seq<Note>, cutoff: i64, n: Note)
    ensures
        purge_selection(rows, cutoff).contains(n) <==> rows.contains(n) && (n.deleted_at matches Some(d) && d < cutoff),
{
    let pred = |x: Note| purgeable(x, cutoff);
    let f = rows.filter(pred);
    if f.contains(n) {
        rows.lemma_filter_contains_rev(pred, n);
        let k = choose|k: int| 0 <= k < f.len() && f[k] == n;
        rows.lemma_filter_pred(pred, k);
    }
    if rows.contains(n) && pred(n) {
        let i = choose|i: int| 0 <= i < rows.len() && rows[i] == n;
        rows.lemma_filter_contains(pred, i);
    }
}

/// Purging never removes a live note: every purged note is a tombstone.
pub proof fn law_purge_spares_live_notes(rows: Seq<Note>, cutoff: i64)
    ensures
        forall|i: int|
            0 <= i < purge_selection(rows, cutoff).len() ==> !is_live(#[trigger] purge_selection(rows, cutoff)[i]),
{
    broadcast use vstd::seq_lib::group_filter_ensures;
    assert forall|i: int| 0 <= i < purge_selection(rows, cutoff).len() implies !is_live(
        #[trigger] purge_selection(rows, cutoff)[i],
    ) by {
        rows.lemma_filter_pred(|n: Note| purgeable(n, cutoff), i);
    }
}

/// The ids of the soft-deleted notes, in row order.
pub fn tombstone_ids(rows: &Vec<Note>) -> (r: Vec<String>)
    ensures
        r@.map_values(|s: String| s@) == rows@.filter(|n: Note| !is_live(n)).map_values(|n: Note| n.id@),
{
    let ghost pred = |n: Note| !is_live(n);
    let mut ids: Vec<String> = Vec::new();
    let mut i: usize = 0;
    assert(rows@.take(0) =~= Seq::<Note>::empty());
    proof { reveal(Seq::filter); }
    while i < rows.len()
        invariant
            i <= rows.len(),
            pred == (|n: Note| !is_live(n)),
            ids@.map_values(|s: String| s@) == rows@.take(i as int).filter(pred).map_values(|n: Note| n.id@),
        decreases rows.len() - i,
    {
        proof {
            lemma_filter_step(rows@, i as int, pred);
        }
        let old_ids = Ghost(ids@);
        if rows[i].deleted_at.is_some() {
            ids.push(rows[i].id.clone());
            assert(ids@.map_values(|s: String| s@) =~= old_ids@.map_values(|s: String| s@).push(rows@[i as int].id@));
        }
        i = i + 1;
        proof {
            assert(ids@.map_values(|s: String| s@) =~= rows@.take(i as int).filter(pred).map_values(|n: Note| n.id@));
        }
    }
    assert(rows@.take(rows.len() as int) =~= rows@);
    ids
}

/// What resolving a stored conflict does to the note.
pub enum Resolution {
    /// Overwrite the note with this (remote) version.
    Overwrite(Note),
    /// Keep the local version and clear its conflict mark.
    ClearMark,
    /// Leave the note as it is.
    Unchanged,
}

/// Resolving a conflict: with `use_remote`, the stored remote version (if any)
/// replaces the note with its conflict mark cleared; otherwise the local
/// version is kept and its mark cleared. In every case the stored remote
/// version is discarded afterwards.
pub fn resolve_conflict(use_remote: bool, stored: Option<Note>) -> (r: Resolution)
    ensures
        use_remote && stored is Some ==> (r matches Resolution::Overwrite(n) && n == (Note {
            conflict_id: None,
            ..stored->0
        })),
        use_remote && stored is None ==> r is Unchanged,
        !use_remote ==> r is ClearMark,
{
    if use_remote {
        match stored {
            Some(remote) => {
                let mut note = remote;
                note.conflict_id = None;
                Resolution::Overwrite(note)
            },
            None => Resolution::Unchanged,
        }
    } else {
        Resolution::ClearMark
    }
}

} // verus!
