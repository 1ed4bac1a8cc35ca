use sticky_notes::db::{check_reminders, list_notes, purge_old, resolve_conflict, tombstone_ids, Note, Resolution};

fn note(id: &str, order: &str) -> Note {
    Note { id: id.to_string(), order: order.to_string(), ..Default::default() }
}

#[test]
fn note_default_values() {
    let n = Note::default();
    assert_eq!(n.id, "");
    assert_eq!(n.color, "#333333");
    assert!(!n.completed && !n.pinned);
    assert_eq!(n.created_at, 0);
    assert!(n.deleted_at.is_none() && n.parent_id.is_none() && n.completed_at.is_none());
}

#[test]
fn list_notes_hides_deleted_and_sorts() {
    let mut gone = note("gone", "a0");
    gone.deleted_at = Some(5);
    let rows = vec![note("b", "b1"), gone, note("a", "a5"), note("c", "B9")];
    let listed = list_notes(rows);
    let ids: Vec<&str> = listed.iter().map(|n| n.id.as_str()).collect();
    assert_eq!(ids, vec!["c", "a", "b"]);
}

#[test]
fn check_reminders_selects_due_notes() {
    let now = 1_000_000;
    let ws = now - 60_000;
    let mut r1 = note("remind-now", "1");
    r1.remind_at = Some(now);
    let mut r2 = note("remind-old", "2");
    r2.remind_at = Some(ws);
    let mut r3 = note("overdue", "3");
    r3.due_date = Some(now - 1);
    let mut r4 = note("overdue-done", "4");
    r4.due_date = Some(now - 1);
    r4.completed = true;
    let mut r5 = note("future", "5");
    r5.due_date = Some(now + 1);
    r5.remind_at = Some(now + 1);
    let mut r6 = note("deleted", "6");
    r6.remind_at = Some(now);
    r6.deleted_at = Some(1);
    let mut r7 = note("in-window", "0");
    r7.remind_at = Some(ws + 1);
    let due = check_reminders(vec![r1, r2, r3, r4, r5, r6, r7], now, ws);
    let ids: Vec<&str> = due.iter().map(|n| n.id.as_str()).collect();
    assert_eq!(ids, vec!["in-window", "remind-now", "overdue"]);
}

#[test]
fn purge_old_picks_old_tombstones_only() {
    let mut a = note("a", "1");
    a.deleted_at = Some(10);
    let mut b = note("b", "2");
    b.deleted_at = Some(100);
    let c = note("c", "3");
    let mut d = note("d", "4");
    d.deleted_at = Some(99);
    let ids = purge_old(&vec![a, b, c, d], 100);
    assert_eq!(ids, vec!["a".to_string(), "d".to_string()]);
}

#[test]
fn resolve_conflict_choices() {
    let mut remote = note("x", "1");
    remote.title = "remote".to_string();
    remote.conflict_id = Some("x".to_string());
    match resolve_conflict(true, Some(remote.clone())) {
        Resolution::Overwrite(n) => {
            assert_eq!(n.title, "remote");
            assert!(n.conflict_id.is_none());
        }
        _ => panic!("expected overwrite"),
    }
    assert!(matches!(resolve_conflict(true, None), Resolution::Unchanged));
    assert!(matches!(resolve_conflict(false, Some(remote)), Resolution::ClearMark));
}

#[test]
fn reminders_are_listed_notes() {
    let now = 5_000_000;
    let mut rows = Vec::new();
    for i in 0..8i64 {
        let mut n = note(&format!("n{i}"), &format!("{}", 9 - i));
        n.remind_at = if i % 2 == 0 { Some(now - i * 20_000) } else { None };
        n.due_date = if i % 3 == 0 { Some(now - 1) } else { Some(now + 1) };
        n.completed = i == 3;
        n.deleted_at = if i == 4 { Some(1) } else { None };
        rows.push(n);
    }
    let due = check_reminders(rows.clone(), now, now - 60_000);
    let listed = list_notes(rows);
    assert!(!due.is_empty());
    for d in &due {
        assert!(listed.iter().any(|l| l.id == d.id));
    }
}

#[test]
fn tombstone_ids_in_row_order() {
    let mut a = note("a", "1");
    a.deleted_at = Some(3);
    let b = note("b", "2");
    let mut c = note("c", "3");
    c.deleted_at = Some(1);
    assert_eq!(tombstone_ids(&vec![a, b, c]), vec!["a".to_string(), "c".to_string()]);
}
