use sticky_notes::db::Note;
use sticky_notes::sync::merge;

fn make_note(id: &str, title: &str, updated_at: i64) -> Note {
    Note {
        id: id.to_string(),
        title: title.to_string(),
        order: format!("{:010x}", updated_at),
        updated_at,
        ..Default::default()
    }
}

#[test]
fn merge_empty_lists() {
    let (merged, conflict, _) = merge(vec![], vec![]);
    assert!(merged.is_empty());
    assert!(!conflict);
}

#[test]
fn merge_local_only() {
    let local = vec![make_note("a", "local note", 100)];
    let (merged, conflict, _) = merge(local, vec![]);
    assert_eq!(merged.len(), 1);
    assert_eq!(merged[0].id, "a");
    assert!(!conflict);
}

#[test]
fn merge_remote_only() {
    let remote = vec![make_note("b", "remote note", 200)];
    let (merged, conflict, _) = merge(vec![], remote);
    assert_eq!(merged.len(), 1);
    assert_eq!(merged[0].id, "b");
    assert!(!conflict);
}

#[test]
fn merge_no_overlap() {
    let local = vec![make_note("a", "local", 100)];
    let remote = vec![make_note("b", "remote", 200)];
    let (merged, conflict, _) = merge(local, remote);
    assert_eq!(merged.len(), 2);
    assert!(!conflict);
}

#[test]
fn merge_remote_newer_wins() {
    let local = vec![make_note("a", "old title", 100)];
    let remote = vec![make_note("a", "new title", 200)];
    let (merged, conflict, _) = merge(local, remote);
    assert_eq!(merged.len(), 1);
    assert_eq!(merged[0].title, "new title");
    assert!(!conflict);
}

#[test]
fn merge_local_newer_wins() {
    let local = vec![make_note("a", "new title", 300)];
    let remote = vec![make_note("a", "old title", 100)];
    let (merged, conflict, _) = merge(local, remote);
    assert_eq!(merged.len(), 1);
    assert_eq!(merged[0].title, "new title");
    assert!(!conflict);
}

#[test]
fn merge_same_timestamp_different_content_is_conflict() {
    let local = Note {
        id: "a".to_string(),
        title: "local version".to_string(),
        updated_at: 100,
        completed: false,
        ..Default::default()
    };
    let remote = Note {
        id: "a".to_string(),
        title: "remote version".to_string(),
        updated_at: 100,
        completed: true,
        ..Default::default()
    };
    let (merged, conflict, conflicts) = merge(vec![local], vec![remote]);
    assert_eq!(merged.len(), 1);
    assert!(conflict, "Same timestamp + different content should flag conflict");
    assert_eq!(conflicts.len(), 1);
    assert_eq!(conflicts[0].0, "a");
    // Local wins the tie
    assert_eq!(merged[0].title, "local version");
}

#[test]
fn merge_same_timestamp_same_content_no_conflict() {
    let note = make_note("a", "identical", 100);
    let (merged, conflict, _) = merge(vec![note.clone()], vec![note]);
    assert_eq!(merged.len(), 1);
    assert!(!conflict);
}

#[test]
fn merge_result_is_sorted_by_order() {
    let mut n1 = make_note("a", "first", 100);
    n1.order = "0000000001".to_string();
    let mut n2 = make_note("b", "second", 200);
    n2.order = "0000000002".to_string();
    let mut n3 = make_note("c", "third", 300);
    n3.order = "0000000000".to_string();
    // Remote provides n3 which has lowest order
    let (merged, _, _) = merge(vec![n1, n2], vec![n3]);
    assert_eq!(merged[0].id, "c"); // order 0000000000
    assert_eq!(merged[1].id, "a"); // order 0000000001
    assert_eq!(merged[2].id, "b"); // order 0000000002
}

#[test]
fn merge_mixed_scenarios() {
    // local: a (local-only), b (will be overwritten by remote), c (newer local wins)
    let local = vec![
        make_note("a", "local only", 100),
        make_note("b", "local old", 100),
        make_note("c", "local newer", 300),
    ];
    // remote: b (newer remote), c (older remote), d (remote-only)
    let remote = vec![
        make_note("b", "remote newer", 200),
        make_note("c", "remote older", 100),
        make_note("d", "remote only", 200),
    ];
    let (merged, conflict, _) = merge(local, remote);
    assert_eq!(merged.len(), 4);
    assert!(!conflict);
    let a = merged.iter().find(|n| n.id == "a").unwrap();
    let b = merged.iter().find(|n| n.id == "b").unwrap();
    let c = merged.iter().find(|n| n.id == "c").unwrap();
    let d = merged.iter().find(|n| n.id == "d").unwrap();
    assert_eq!(a.title, "local only");
    assert_eq!(b.title, "remote newer");
    assert_eq!(c.title, "local newer");
    assert_eq!(d.title, "remote only");
}

// ---- further properties of the merge, on concrete values ----

#[test]
fn merge_swapping_sides_without_ties_gives_same_notes() {
    let a = vec![make_note("x", "x-a", 100), make_note("y", "y-a", 500)];
    let b = vec![make_note("x", "x-b", 200), make_note("z", "z-b", 50)];
    let (m1, c1, _) = merge(a.clone(), b.clone());
    let (m2, c2, _) = merge(b, a);
    let t1: Vec<(String, String)> = m1.iter().map(|n| (n.id.clone(), n.title.clone())).collect();
    let t2: Vec<(String, String)> = m2.iter().map(|n| (n.id.clone(), n.title.clone())).collect();
    let mut s1 = t1.clone();
    s1.sort();
    let mut s2 = t2.clone();
    s2.sort();
    assert_eq!(s1, s2);
    assert!(!c1 && !c2);
}

#[test]
fn merge_with_itself_keeps_notes_and_no_conflict() {
    let notes = vec![make_note("p", "one", 3), make_note("q", "two", 1), make_note("r", "three", 2)];
    let (merged, conflict, conflicts) = merge(notes.clone(), notes);
    assert!(!conflict);
    assert!(conflicts.is_empty());
    let ids: Vec<&str> = merged.iter().map(|n| n.id.as_str()).collect();
    assert_eq!(ids, vec!["q", "r", "p"]);
}

#[test]
fn merge_conflict_entry_is_the_remote_version() {
    let mut local = make_note("k", "mine", 7);
    local.color = "#ff0000".to_string();
    let remote = make_note("k", "mine", 7);
    let (merged, conflict, conflicts) = merge(vec![local], vec![remote]);
    assert!(conflict);
    assert_eq!(conflicts.len(), 1);
    assert_eq!(conflicts[0].0, "k");
    assert_eq!(conflicts[0].1.color, "#333333");
    assert_eq!(merged[0].color, "#ff0000");
}

#[test]
fn merge_ids_are_unique_with_repeated_local_ids() {
    let local = vec![make_note("a", "first", 1), make_note("a", "second", 2)];
    let (merged, conflict, _) = merge(local, vec![]);
    assert_eq!(merged.len(), 1);
    assert_eq!(merged[0].title, "second");
    assert!(!conflict);
}

#[test]
fn merge_equal_order_keeps_every_note() {
    let mut n1 = make_note("a", "one", 1);
    n1.order = "a0".to_string();
    let mut n2 = make_note("b", "two", 2);
    n2.order = "a0".to_string();
    let mut n3 = make_note("c", "three", 3);
    n3.order = "Z".to_string();
    let (merged, _, _) = merge(vec![n1, n2], vec![n3]);
    assert_eq!(merged.len(), 3);
    assert_eq!(merged[0].id, "c");
    assert_eq!(merged[1].order, "a0");
    assert_eq!(merged[2].order, "a0");
}

#[test]
fn merge_ignores_differences_outside_compared_fields() {
    let mut local = make_note("n", "same", 10);
    local.created_at = 1;
    let mut remote = make_note("n", "same", 10);
    remote.created_at = 2;
    let (merged, conflict, _) = merge(vec![local], vec![remote]);
    assert!(!conflict);
    assert_eq!(merged[0].created_at, 1);
}
