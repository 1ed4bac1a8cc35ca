use sticky_notes::db::Note;
use sticky_notes::sync::{fetch_outcome, mkcol_ok, push_conflict_message, push_outcome, sends_if_match, FetchOutcome, PushOutcome, SyncPayload};
use sticky_notes::sync_cmd::{expects_event, start_run, LocalNotes, MAX_PUSH_RETRIES, sync_message, Phase, SyncAction, SyncDone, SyncEngine, SyncEvent, SyncMode, SyncRun};

fn engine() -> SyncEngine {
    SyncEngine::from_config("https://dav.example.com/dav//", "me", "SECRET-REDACTED", "/tmp/.sync_etag").unwrap()
}

fn note(id: &str, title: &str, updated_at: i64, order: &str) -> Note {
    Note { id: id.to_string(), title: title.to_string(), updated_at, order: order.to_string(), ..Default::default() }
}

#[test]
fn from_config_builds_urls() {
    let e = engine();
    assert_eq!(e.dir_url, "https://dav.example.com/dav/sticky-notes");
    assert_eq!(e.file_url, "https://dav.example.com/dav/sticky-notes/notes.json");
    assert_eq!(e.user, "me");
    assert_eq!(e.password, "SECRET-REDACTED");
    assert_eq!(e.etag_path, "/tmp/.sync_etag");
}

#[test]
fn from_config_without_url_is_refused() {
    match SyncEngine::from_config("", "u", "p", "x") {
        Err(e) => assert_eq!(e, "请先配置 WebDAV 地址"),
        Ok(_) => panic!("expected an error"),
    }
}

#[test]
fn status_decisions() {
    assert!(mkcol_ok(201) && mkcol_ok(405) && mkcol_ok(409) && mkcol_ok(200) && mkcol_ok(204));
    assert!(!mkcol_ok(401) && !mkcol_ok(500) && !mkcol_ok(301));
    assert!(matches!(fetch_outcome(404), FetchOutcome::FirstSync));
    assert!(matches!(fetch_outcome(500), FetchOutcome::Failed));
    assert!(matches!(fetch_outcome(200), FetchOutcome::ReadBody));
    assert!(matches!(push_outcome(412), PushOutcome::Conflict));
    assert!(matches!(push_outcome(403), PushOutcome::Failed));
    assert!(matches!(push_outcome(201), PushOutcome::Stored));
    assert_eq!(push_conflict_message(), "同步冲突: 远程文件已被修改，请重新同步");
    assert!(sends_if_match("\"abc\""));
    assert!(!sends_if_match(""));
    assert!(SyncPayload::empty().notes.is_empty());
}

#[test]
fn sync_messages() {
    assert_eq!(sync_message(true), "同步完成 (有冲突，已保留本地版本)");
    assert_eq!(sync_message(false), "同步完成");
}

fn step(e: &SyncEngine, run: SyncRun, ev: SyncEvent) -> (SyncRun, SyncAction) {
    e.step(run, ev)
}

#[test]
fn full_sync_flow() {
    let e = engine();
    let run = start_run(SyncMode::Full);
    let (run, act) = step(&e, run, SyncEvent::Begin);
    assert!(matches!(act, SyncAction::EnsureDir(ref u) if u == "https://dav.example.com/dav/sticky-notes"));
    let (run, act) = step(&e, run, SyncEvent::DirReady(Ok(())));
    assert!(matches!(act, SyncAction::Fetch(ref u) if u.ends_with("/notes.json")));
    let remote = SyncPayload { notes: vec![note("a", "remote", 200, "2"), note("b", "remote b", 5, "1")] };
    let (run, act) = step(&e, run, SyncEvent::Fetched(Ok((remote, "\"e1\"".to_string()))));
    assert!(matches!(act, SyncAction::ReadLocal { with_etag: false }));
    let local = vec![note("a", "local", 100, "2"), note("b", "local b", 5, "1")];
    let (run, act) = step(&e, run, SyncEvent::LocalRead(Ok(LocalNotes { notes: local, tombstones: vec![] }), String::new()));
    match &act {
        SyncAction::Write { notes, conflicts } => {
            let titles: Vec<&str> = notes.iter().map(|n| n.title.as_str()).collect();
            assert_eq!(titles, vec!["local b", "remote"]);
            assert_eq!(conflicts.len(), 1);
            assert_eq!(conflicts[0].0, "b");
            assert_eq!(conflicts[0].1.title, "remote b");
        }
        _ => panic!("expected a write"),
    }
    let (run, act) = step(&e, run, SyncEvent::Written(Ok(())));
    match &act {
        SyncAction::Push { url, notes, etag } => {
            assert!(url.ends_with("/sticky-notes/notes.json"));
            assert_eq!(notes.len(), 2);
            assert_eq!(etag, "\"e1\"");
        }
        _ => panic!("expected a push"),
    }
    let (run, act) = step(&e, run, SyncEvent::Pushed(Ok(String::new())));
    assert!(matches!(run.phase, Phase::Finished));
    match act {
        SyncAction::Finish { save_etag, result } => {
            assert_eq!(save_etag, Some("\"e1\"".to_string()));
            match result {
                Ok(SyncDone::Merged(notes, conflict)) => {
                    assert_eq!(notes.len(), 2);
                    assert!(conflict);
                }
                _ => panic!("expected merged notes"),
            }
        }
        _ => panic!("expected finish"),
    }
}

#[test]
fn push_only_flow_keeps_new_etag() {
    let e = engine();
    let (run, act) = step(&e, start_run(SyncMode::PushOnly), SyncEvent::Begin);
    assert!(matches!(act, SyncAction::ReadLocal { with_etag: true }));
    let local = vec![note("a", "x", 1, "1"), note("b", "y", 2, "2"), note("c", "z", 3, "3")];
    let (run, act) = step(&e, run, SyncEvent::LocalRead(Ok(LocalNotes { notes: local, tombstones: vec![] }), "\"old\"".to_string()));
    assert!(matches!(act, SyncAction::EnsureDir(_)));
    let (run, act) = step(&e, run, SyncEvent::DirReady(Ok(())));
    match &act {
        SyncAction::Push { notes, etag, .. } => {
            assert_eq!(notes.len(), 3);
            assert_eq!(etag, "\"old\"");
        }
        _ => panic!("expected a push"),
    }
    let (_, act) = step(&e, run, SyncEvent::Pushed(Ok("\"new\"".to_string())));
    match act {
        SyncAction::Finish { save_etag, result } => {
            assert_eq!(save_etag, Some("\"new\"".to_string()));
            match result {
                Ok(SyncDone::Message(m)) => assert_eq!(m, "已上传 3 条笔记"),
                _ => panic!("expected a message"),
            }
        }
        _ => panic!("expected finish"),
    }
}

#[test]
fn pull_only_flow() {
    let e = engine();
    let (run, _) = step(&e, start_run(SyncMode::PullOnly), SyncEvent::Begin);
    let (run, act) = step(&e, run, SyncEvent::DirReady(Ok(())));
    assert!(matches!(act, SyncAction::Fetch(_)));
    let payload = SyncPayload { notes: vec![note("r", "remote", 9, "1"); 12] };
    let (run, act) = step(&e, run, SyncEvent::Fetched(Ok((payload, "\"t\"".to_string()))));
    match &act {
        SyncAction::Write { notes, conflicts } => {
            assert_eq!(notes.len(), 12);
            assert!(conflicts.is_empty());
        }
        _ => panic!("expected a write"),
    }
    let (_, act) = step(&e, run, SyncEvent::Written(Ok(())));
    match act {
        SyncAction::Finish { save_etag, result } => {
            assert_eq!(save_etag, Some("\"t\"".to_string()));
            match result {
                Ok(SyncDone::Message(m)) => assert_eq!(m, "已下载 12 条笔记"),
                _ => panic!("expected a message"),
            }
        }
        _ => panic!("expected finish"),
    }
}

#[test]
fn failure_ends_run_without_saving() {
    let e = engine();
    let (run, _) = step(&e, start_run(SyncMode::Full), SyncEvent::Begin);
    let (run, act) = step(&e, run, SyncEvent::DirReady(Err("WebDAV MKCOL 返回 401 Unauthorized".to_string())));
    assert!(matches!(run.phase, Phase::Finished));
    match act {
        SyncAction::Finish { save_etag, result } => {
            assert!(save_etag.is_none());
            assert!(matches!(result, Err(ref m) if m == "WebDAV MKCOL 返回 401 Unauthorized"));
        }
        _ => panic!("expected finish"),
    }
}

fn expect_failure(act: SyncAction, msg: &str) {
    match act {
        SyncAction::Finish { save_etag, result } => {
            assert!(save_etag.is_none());
            assert!(matches!(result, Err(ref m) if m == msg));
        }
        _ => panic!("expected finish"),
    }
}

#[test]
fn every_failing_step_ends_the_run() {
    let e = engine();
    // fetch fails
    let (run, _) = step(&e, start_run(SyncMode::Full), SyncEvent::Begin);
    let (run, _) = step(&e, run, SyncEvent::DirReady(Ok(())));
    let (_, act) = step(&e, run, SyncEvent::Fetched(Err("fetch".to_string())));
    expect_failure(act, "fetch");
    // reading local notes fails
    let (run, _) = step(&e, start_run(SyncMode::PushOnly), SyncEvent::Begin);
    let (_, act) = step(&e, run, SyncEvent::LocalRead(Err("db".to_string()), String::new()));
    expect_failure(act, "db");
    // writing fails
    let (run, _) = step(&e, start_run(SyncMode::PullOnly), SyncEvent::Begin);
    let (run, _) = step(&e, run, SyncEvent::DirReady(Ok(())));
    let (run, _) = step(&e, run, SyncEvent::Fetched(Ok((SyncPayload::empty(), String::new()))));
    let (_, act) = step(&e, run, SyncEvent::Written(Err("write".to_string())));
    expect_failure(act, "write");
    // pushing fails
    let (run, _) = step(&e, start_run(SyncMode::PushOnly), SyncEvent::Begin);
    let (run, _) = step(&e, run, SyncEvent::LocalRead(Ok(LocalNotes { notes: vec![], tombstones: vec![] }), String::new()));
    let (run, _) = step(&e, run, SyncEvent::DirReady(Ok(())));
    let (run, act) = step(&e, run, SyncEvent::Pushed(Err("同步冲突: 远程文件已被修改，请重新同步".to_string())));
    assert!(matches!(run.phase, Phase::Finished));
    expect_failure(act, "同步冲突: 远程文件已被修改，请重新同步");
}

#[test]
fn expects_event_follows_phase() {
    let run = start_run(SyncMode::Full);
    assert!(expects_event(&run, &SyncEvent::Begin));
    assert!(!expects_event(&run, &SyncEvent::DirReady(Ok(()))));
    let e = engine();
    let (run, _) = step(&e, run, SyncEvent::Begin);
    assert!(expects_event(&run, &SyncEvent::DirReady(Ok(()))));
    assert!(!expects_event(&run, &SyncEvent::Pushed(Ok(String::new()))));
}

#[test]
fn full_sync_retries_after_refused_push() {
    let e = engine();
    let conflict = push_conflict_message();
    let (mut run, _) = step(&e, start_run(SyncMode::Full), SyncEvent::Begin);
    let (r, _) = step(&e, run, SyncEvent::DirReady(Ok(())));
    run = r;
    for round in 0..=MAX_PUSH_RETRIES {
        let remote = SyncPayload { notes: vec![note("a", "remote", 200 + round as i64, "1")] };
        let (r, _) = step(&e, run, SyncEvent::Fetched(Ok((remote, format!("\"e{round}\"")))));
        let local = LocalNotes { notes: vec![note("a", "local", 100, "1")], tombstones: vec![] };
        let (r, _) = step(&e, r, SyncEvent::LocalRead(Ok(local), String::new()));
        let (r, act) = step(&e, r, SyncEvent::Written(Ok(())));
        match &act {
            SyncAction::Push { etag, .. } => assert_eq!(etag, &format!("\"e{round}\"")),
            _ => panic!("expected a push"),
        }
        let (r, act) = step(&e, r, SyncEvent::Pushed(Err(conflict.clone())));
        if round < MAX_PUSH_RETRIES {
            assert!(matches!(r.phase, Phase::AwaitFetch));
            assert!(matches!(act, SyncAction::Fetch(ref u) if u.ends_with("/notes.json")));
            run = r;
        } else {
            assert!(matches!(r.phase, Phase::Finished));
            expect_failure(act, "同步冲突: 远程文件已被修改，请重新同步");
            return;
        }
    }
}

#[test]
fn push_only_does_not_retry_refused_push() {
    let e = engine();
    let (run, _) = step(&e, start_run(SyncMode::PushOnly), SyncEvent::Begin);
    let (run, _) = step(&e, run, SyncEvent::LocalRead(Ok(LocalNotes { notes: vec![], tombstones: vec![] }), String::new()));
    let (run, _) = step(&e, run, SyncEvent::DirReady(Ok(())));
    let (_, act) = step(&e, run, SyncEvent::Pushed(Err(push_conflict_message())));
    expect_failure(act, "同步冲突: 远程文件已被修改，请重新同步");
}

#[test]
fn full_sync_archives_orphaned_subtasks() {
    let e = engine();
    let (run, _) = step(&e, start_run(SyncMode::Full), SyncEvent::Begin);
    let (run, _) = step(&e, run, SyncEvent::DirReady(Ok(())));
    let mut orphan = note("kid", "buy milk", 5, "2");
    orphan.parent_id = Some("gone".to_string());
    let mut child = note("kid2", "call", 5, "3");
    child.parent_id = Some("alive".to_string());
    let remote = SyncPayload { notes: vec![orphan] };
    let (run, _) = step(&e, run, SyncEvent::Fetched(Ok((remote, String::new()))));
    let local = LocalNotes { notes: vec![note("alive", "parent", 1, "1"), child], tombstones: vec!["gone".to_string()] };
    let (_, act) = step(&e, run, SyncEvent::LocalRead(Ok(local), String::new()));
    match act {
        SyncAction::Write { notes, .. } => {
            let kid = notes.iter().find(|n| n.id == "kid").unwrap();
            assert_eq!(kid.title, "[Archive]buy milk");
            assert!(kid.parent_id.is_none());
            assert_eq!(kid.updated_at, 5);
            let kid2 = notes.iter().find(|n| n.id == "kid2").unwrap();
            assert_eq!(kid2.title, "call");
            assert_eq!(kid2.parent_id.as_deref(), Some("alive"));
        }
        _ => panic!("expected a write"),
    }
}
