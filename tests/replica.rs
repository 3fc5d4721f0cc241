use haret::api::{ElementType, VrApiReq, VrApiRsp};
use haret::client_table::ClientTable;
use haret::log::{Log, LogEntry};
use haret::quorum::QuorumTracker;
use haret::replica::{select_log, Outbound, Replica, Status, ViewChangeReport, VrMsg};

fn create(path: &str) -> VrApiReq {
    VrApiReq::Create { path: path.to_string(), ty: ElementType::Binary }
}

fn entry(op_number: u64, request_num: u64, path: &str) -> LogEntry {
    LogEntry { view: 0, op_number, client_id: 9, request_num, op: create(path) }
}

fn replies(out: &[Outbound]) -> Vec<(u128, u64, VrApiRsp)> {
    out.iter()
        .filter_map(|o| match o {
            Outbound::Reply { client_id, request_num, value } => Some((*client_id, *request_num, value.clone())),
            _ => None,
        })
        .collect()
}

fn take_prepare(out: Vec<Outbound>) -> (u64, u64, u64, LogEntry) {
    for o in out {
        if let Outbound::Broadcast(VrMsg::Prepare { view, op_number, commit_number, entry }) = o {
            return (view, op_number, commit_number, entry);
        }
    }
    panic!("no prepare sent");
}

fn take_sent(out: Vec<Outbound>) -> Vec<(u64, VrMsg)> {
    out.into_iter()
        .filter_map(|o| match o {
            Outbound::Send { to, msg } => Some((to, msg)),
            _ => None,
        })
        .collect()
}

#[test]
fn repeated_request_gets_cached_reply_and_runs_once() {
    let mut r = Replica::new(0, 1, true);
    let first = r.handle_client_request(77, 5, create("/foo"));
    assert_eq!(replies(&first), vec![(77, 5, VrApiRsp::Success)]);
    let again = r.handle_client_request(77, 5, create("/foo"));
    assert_eq!(replies(&again), vec![(77, 5, VrApiRsp::Success)]);
    assert_eq!(again.len(), 1);
    assert_eq!(r.op_number(), 1);
    assert_eq!(r.commit_number(), 1);
    assert_eq!(r.store_version(), 1);
    let older = r.handle_client_request(77, 4, create("/bar"));
    assert_eq!(replies(&older), vec![(77, 4, VrApiRsp::Success)]);
    assert_eq!(r.store_version(), 1);
    let next = r.handle_client_request(77, 6, create("/foo"));
    assert_eq!(replies(&next), vec![(77, 6, VrApiRsp::ElementAlreadyExistsError)]);
}

#[test]
fn backup_ignores_client_requests() {
    let mut r = Replica::new(1, 3, true);
    assert!(r.handle_client_request(1, 1, create("/a")).is_empty());
    let mut rec = Replica::new(0, 3, false);
    assert_eq!(rec.status(), Status::Recovering);
    assert!(rec.handle_client_request(1, 1, create("/a")).is_empty());
}

#[test]
fn majority_commits_and_replies() {
    let mut p = Replica::new(0, 3, true);
    let mut b = Replica::new(1, 3, true);
    let out = p.handle_client_request(3, 1, create("/x"));
    assert!(replies(&out).is_empty());
    let (view, op, commit, e) = take_prepare(out);
    assert_eq!((view, op, commit), (0, 1, 0));
    let acks = take_sent(b.handle_prepare(view, op, commit, e));
    assert_eq!(b.op_number(), 1);
    assert_eq!(b.commit_number(), 0);
    match &acks[..] {
        [(0, VrMsg::PrepareOk { view: 0, op_number: 1, from: 1 })] => {}
        other => panic!("unexpected {:?}", other),
    }
    let done = p.handle_prepare_ok(0, 1, 1);
    assert_eq!(replies(&done), vec![(3, 1, VrApiRsp::Success)]);
    assert_eq!(p.commit_number(), 1);
    assert!(p.handle_prepare_ok(0, 1, 2).is_empty());
    assert_eq!(p.commit_number(), 1);
    b.handle_commit(0, 1);
    assert_eq!(b.commit_number(), 1);
    assert_eq!(b.store_version(), 1);
    b.handle_commit(0, 9);
    assert_eq!(b.commit_number(), 1);
}

#[test]
fn gap_in_prepares_asks_for_state() {
    let mut p = Replica::new(0, 3, true);
    let mut b = Replica::new(1, 3, true);
    let (_, _, _, e1) = take_prepare(p.handle_client_request(3, 1, create("/x")));
    let (v, op2, c2, e2) = take_prepare(p.handle_client_request(3, 2, create("/y")));
    let sent = take_sent(b.handle_prepare(v, op2, c2, e2));
    let (to, from_op) = match &sent[..] {
        [(to, VrMsg::GetState { view: 0, op_number, from: 1 })] => (*to, *op_number),
        other => panic!("unexpected {:?}", other),
    };
    assert_eq!((to, from_op), (0, 0));
    assert_eq!(b.op_number(), 0);
    let answer = take_sent(p.handle_get_state(0, from_op, 1));
    match answer.into_iter().next() {
        Some((1, VrMsg::NewState { view, op_number, entries, commit_number })) => {
            assert_eq!(entries.len(), 2);
            assert_eq!(entries[0], e1);
            b.handle_new_state(view, op_number, entries, commit_number);
        }
        other => panic!("unexpected {:?}", other),
    }
    assert_eq!(b.op_number(), 2);
    assert_eq!(b.status(), Status::Normal);
}

#[test]
fn stale_view_message_starts_recovery() {
    let mut b = Replica::new(1, 3, true);
    let out = take_sent(b.handle_commit(4, 0));
    assert_eq!(b.status(), Status::Recovering);
    assert_eq!(b.view_number(), 4);
    match &out[..] {
        [(1, VrMsg::GetState { view: 4, op_number: 0, from: 1 })] => {}
        other => panic!("unexpected {:?}", other),
    }
    assert!(b.handle_prepare(2, 1, 0, entry(1, 1, "/a")).is_empty());
    assert_eq!(b.view_number(), 4);
}

#[test]
fn partitioned_primary_adopts_new_view_log() {
    let mut r0 = Replica::new(0, 3, true);
    let mut r1 = Replica::new(1, 3, true);
    let mut r2 = Replica::new(2, 3, true);
    // One operation committed on all three.
    let (v, op, c, e) = take_prepare(r0.handle_client_request(5, 1, create("/a")));
    r1.handle_prepare(v, op, c, e.clone());
    r2.handle_prepare(v, op, c, e);
    r0.handle_prepare_ok(0, 1, 1);
    r1.handle_commit(0, 1);
    r2.handle_commit(0, 1);
    // The primary is cut off and takes an operation nobody else sees.
    take_prepare(r0.handle_client_request(5, 2, create("/b")));
    assert_eq!(r0.op_number(), 2);
    // The backups move to view 1, whose primary is replica 1.
    let svc1 = r1.start_view_change();
    let svc2 = r2.start_view_change();
    assert_eq!(r1.status(), Status::ViewChange);
    assert!(matches!(svc1[0], Outbound::Broadcast(VrMsg::StartViewChange { view: 1, from: 1 })));
    assert!(matches!(svc2[0], Outbound::Broadcast(VrMsg::StartViewChange { view: 1, from: 2 })));
    let mut reports = take_sent(r1.handle_start_view_change(1, 2));
    reports.extend(take_sent(r2.handle_start_view_change(1, 1)));
    assert_eq!(reports.len(), 2);
    let mut start_view = None;
    for (to, msg) in reports {
        assert_eq!(to, 1);
        if let VrMsg::DoViewChange { view, report } = msg {
            for o in r1.handle_do_view_change(view, report) {
                if let Outbound::Broadcast(VrMsg::StartView { view, log, commit_number }) = o {
                    start_view = Some((view, log, commit_number));
                }
            }
        }
    }
    assert_eq!(r1.status(), Status::Normal);
    assert!(r1.is_primary());
    let (view, log, commit) = start_view.expect("no StartView");
    assert_eq!((view, log.len(), commit), (1, 1, 1));
    // The entry committed in view 0 is in the new view's log.
    assert_eq!(log[0].op, create("/a"));
    // The partition heals: the old primary takes the new view's log.
    r0.handle_start_view(view, log, commit);
    assert_eq!(r0.view_number(), 1);
    assert_eq!(r0.status(), Status::Normal);
    assert_eq!(r0.op_number(), 1);
    assert_eq!(r0.commit_number(), 1);
    assert_eq!(r0.store_version(), 1);
    let out = r1.handle_client_request(5, 2, create("/b"));
    let (v, op, _, _) = take_prepare(out);
    assert_eq!((v, op), (1, 2));
}

#[test]
fn selection_prefers_latest_view_then_longest_log() {
    let reports = vec![
        ViewChangeReport { from: 0, log: vec![entry(1, 1, "/a"), entry(2, 2, "/b")], last_normal_view: 1, commit_number: 2 },
        ViewChangeReport { from: 1, log: vec![entry(1, 1, "/a")], last_normal_view: 2, commit_number: 1 },
        ViewChangeReport { from: 2, log: vec![], last_normal_view: 2, commit_number: 0 },
    ];
    assert_eq!(select_log(&reports), 1);
}

#[test]
fn quorum_reached_once() {
    let mut q = QuorumTracker::new(5);
    assert_eq!(q.quorum(), 3);
    assert!(!q.register_ack(1, 0));
    assert!(!q.register_ack(1, 1));
    assert!(!q.register_ack(1, 1));
    assert!(!q.register_ack(2, 2));
    assert!(q.register_ack(1, 2));
    assert!(!q.register_ack(1, 3));
    assert!(!q.register_ack(1, 2));
}

#[test]
fn log_appends_truncates_and_slices() {
    let mut log = Log::new();
    log.append(entry(1, 1, "/a"));
    log.append(entry(2, 2, "/b"));
    log.append(entry(3, 3, "/c"));
    assert_eq!(log.last_index(), 3);
    assert_eq!(log.slice(1, 3), vec![entry(2, 2, "/b"), entry(3, 3, "/c")]);
    assert_eq!(*log.entry(2), entry(2, 2, "/b"));
    log.truncate_after(1);
    assert_eq!(log.last_index(), 1);
    assert!(Log::check_numbered(&vec![entry(1, 1, "/a"), entry(2, 1, "/a")], 0));
    assert!(!Log::check_numbered(&vec![entry(2, 1, "/a")], 0));
    assert!(log.prefix_of(1, &vec![entry(1, 1, "/a"), entry(2, 9, "/z")]));
    assert!(!log.prefix_of(1, &vec![entry(1, 1, "/q")]));
}

#[test]
fn client_table_caches_last_reply() {
    let mut t = ClientTable::new();
    assert_eq!(t.cached(1, 1), None);
    t.record(1, 4, VrApiRsp::Success);
    t.record(2, 1, VrApiRsp::ParentNotFoundError);
    assert_eq!(t.cached(1, 4), Some(VrApiRsp::Success));
    assert_eq!(t.cached(1, 2), Some(VrApiRsp::Success));
    assert_eq!(t.cached(1, 5), None);
    assert_eq!(t.cached(2, 1), Some(VrApiRsp::ParentNotFoundError));
}

#[test]
fn get_after_retransmit_sees_same_element() {
    let mut r = Replica::new(0, 1, true);
    r.handle_client_request(8, 5, create("/foo"));
    let get = || VrApiReq::Get { path: "/foo".to_string(), cas: true };
    let before = replies(&r.handle_client_request(9, 1, get()));
    let again = replies(&r.handle_client_request(8, 5, create("/foo")));
    assert_eq!(again, vec![(8, 5, VrApiRsp::Success)]);
    let after = replies(&r.handle_client_request(9, 2, get()));
    assert_eq!(before[0].2, after[0].2);
    assert_eq!(after[0].2, VrApiRsp::Element { data: vec![], cas_tag: Some(1) });
}
