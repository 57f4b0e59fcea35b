use triskelion::boot::Boot;
use triskelion::objects::{HandleTable, Process, Thread};
use triskelion::select::{
    compute_ntsync_timeout, file_time, wait_outcome, SelectPlan, SelectRequest, SelectStep, WaitResult,
};
use triskelion::state::{
    Action, Client, EventLoop, ExitEvent, PendingRead, PendingWait, SyncObject, SYNC_EVENT, SYNC_INTERNAL, SYNC_MUTEX,
    SYNC_SEMAPHORE,
};
use triskelion::sync::{
    event_args, event_op_reply, handle_cancel_sync, handle_get_apc_result, handle_queue_apc,
    handle_queue_exception_event, handle_register_async, handle_set_async_direct_result,
    query_event_reply, query_mutex_reply, query_semaphore_reply, release_reply, semaphore_args, AsyncStep,
    CancelAsyncRequest, CreateEventRequest, CreateSemaphoreRequest, EventOpRequest, MadeObject, MakeObject, ObjectStep, Operation,
    SetAsyncDirectResultRequest, ShareStep, SharedFrom,
};
use triskelion::wire::{
    Reply, STATUS_INVALID_HANDLE, STATUS_INVALID_PARAMETER, STATUS_KERNEL_APC, STATUS_OBJECT_NAME_EXISTS,
    STATUS_OBJECT_NAME_NOT_FOUND, STATUS_PENDING, STATUS_PORT_NOT_SET, STATUS_TIMEOUT,
};

fn bytes_of(r: &Reply) -> Vec<u8> {
    match r {
        Reply::Fixed { buf, len } => buf[..*len].to_vec(),
        Reply::Vararg(v) => v.clone(),
    }
}

fn word(r: &Reply, at: usize) -> u32 {
    let b = bytes_of(r);
    u32::from_le_bytes([b[at], b[at + 1], b[at + 2], b[at + 3]])
}

fn long(r: &Reply, at: usize) -> u64 {
    word(r, at) as u64 | (word(r, at + 4) as u64) << 32
}

/// A daemon with one process, 100, of one thread, 101, whose client is 5.
fn server() -> EventLoop {
    let (mut el, _) = EventLoop::new(Boot {
        user_sid: vec![1, 1, 0, 0, 0, 0, 0, 5, 18, 0, 0, 0],
        session_fd: None,
        session_mapped: false,
        sync_available: true,
        display_mutex: None,
        font_mutex: None,
        linger_hint: None,
        first_object_id: 1000,
        first_atom: 0xC000,
    });
    join(&mut el, 5, 100, 101);
    el.sync.eventfds = (700..740).collect();
    el.outbox.clear();
    el
}

fn join(el: &mut EventLoop, fd: i32, pid: u32, tid: u32) {
    let mut c = Client::new(fd + 1000);
    c.process_id = pid;
    c.thread_id = tid;
    c.reply_fd = Some(fd + 2000);
    c.wait_fd = Some(fd + 3000);
    el.clients.clients.insert(fd, c);
    if !el.objects.processes.contains_key(pid) {
        el.objects.processes.insert(
            pid,
            Process {
                handles: HandleTable::new(),
                threads: Vec::new(),
                exit_code: 0,
                startup_done: true,
                idle_signaled: false,
                exe_image_info: None,
            },
        );
    }
    el.objects.processes.get_mut(pid).unwrap().threads.push(tid);
    el.objects.threads.insert(tid, Thread { pid, suspend_count: 0 });
}

/// A request that names an object.
fn named(name: &str) -> Vec<u8> {
    let n: Vec<u8> = name.encode_utf16().flat_map(|u| u.to_le_bytes()).collect();
    let mut b = vec![0u8; 64 + 12];
    b.extend_from_slice(&(n.len() as u32).to_le_bytes());
    b.extend_from_slice(&n);
    b
}

/// A request that opens an object by name.
fn opening(name: &str) -> Vec<u8> {
    let mut b = vec![0u8; 64];
    b.extend(name.encode_utf16().flat_map(|u| u.to_le_bytes()));
    b
}

/// A request that waits for handles.
fn waiting(op: u32, handles: &[u32]) -> Vec<u8> {
    let mut b = vec![0u8; 64];
    b.extend_from_slice(&[0; 40]);
    b.extend_from_slice(&op.to_le_bytes());
    for h in handles {
        b.extend_from_slice(&h.to_le_bytes());
    }
    b
}

fn select_of(cookie: u64, timeout: i64, handles: usize) -> SelectRequest {
    SelectRequest { cookie, timeout, size: 4 + 4 * handles as u32, prev_apc: 0 }
}

fn event(el: &mut EventLoop, fd: i32) -> u32 {
    let r = el.handle_create_event(5, &[0; 64], MadeObject::Fresh { fd, copy: None });
    word(&r, 8)
}

#[test]
fn a_new_event_has_a_handle() {
    let mut el = server();
    assert!(matches!(el.object_to_make(&[0; 64]), MakeObject::Fresh { named: false }));
    let h = event(&mut el, 30);
    assert_ne!(h, 0);
    let o = el.sync.objects.get((100, h)).unwrap();
    assert_eq!((o.fd, o.kind), (30, SYNC_EVENT));
    assert!(el.sync.recyclable.contains_key((100, h)));
    assert_eq!(el.object_of(5, h), Some(30));
    assert_eq!(el.object_of(5, h + 4), None);
    assert_eq!(el.object_of(6, h), None);
}

#[test]
fn a_name_stands_for_one_object() {
    let mut el = server();
    let b = named("\\BaseNamedObjects\\Ready");
    assert!(matches!(el.object_to_make(&b), MakeObject::Fresh { named: true }));
    let r = el.handle_create_event(5, &b, MadeObject::Fresh { fd: 30, copy: Some(31) });
    assert_eq!(word(&r, 0), 0);
    assert_eq!(el.sync.named.get("ready").unwrap().fd, 31);
    let again = named("READY");
    assert!(matches!(el.object_to_make(&again), MakeObject::Duplicate { fd: 31 }));
    let r = el.handle_create_semaphore(5, &again, MadeObject::Duplicate { fd: 32 });
    assert_eq!(word(&r, 0), STATUS_OBJECT_NAME_EXISTS);
    let o = el.sync.objects.get((100, word(&r, 8))).unwrap();
    assert_eq!((o.fd, o.kind), (32, SYNC_EVENT));
}

#[test]
fn a_stranger_gets_no_object() {
    let mut el = server();
    let r = el.handle_create_event(77, &[0; 64], MadeObject::Fresh { fd: 30, copy: None });
    assert_eq!(word(&r, 8), 0);
    assert!(el.outbox.iter().any(|a| matches!(a, Action::Close { fd: 30 })));
}

#[test]
fn mutexes_and_semaphores() {
    let mut el = server();
    assert_eq!(el.mutex_args(5, Some(1)), (101, 1));
    assert_eq!(el.mutex_args(5, Some(0)), (0, 0));
    let r = el.handle_create_mutex(5, &[0; 64], MadeObject::Fresh { fd: 40, copy: None });
    assert_eq!(el.sync.objects.get((100, word(&r, 8))).unwrap().kind, SYNC_MUTEX);
    let r = el.handle_create_semaphore(5, &[0; 64], MadeObject::Fresh { fd: 41, copy: None });
    assert_eq!(el.sync.objects.get((100, word(&r, 8))).unwrap().kind, SYNC_SEMAPHORE);
    assert_eq!(semaphore_args(Some(CreateSemaphoreRequest { initial: 1, max: 3 })), (1, 3));
    assert_eq!(event_args(Some(CreateEventRequest { manual_reset: 2, initial_state: 0 })), (true, false));
    assert_eq!(event_args(None), (false, false));
}

#[test]
fn objects_are_opened_by_name() {
    let mut el = server();
    el.sync.named.insert("ready".to_string(), SyncObject { fd: 31, kind: SYNC_EVENT });
    let b = opening("\\BaseNamedObjects\\Ready");
    assert_eq!(el.object_to_open(&b), Some(31));
    let r = el.handle_open_event(5, &b, Some(33));
    assert_eq!(word(&r, 0), 0);
    assert_eq!(el.sync.objects.get((100, word(&r, 8))).unwrap().fd, 33);
    assert_eq!(el.object_to_open(&opening("nothing")), None);
    let r = el.handle_open_mutex(5, &opening("nothing"), None);
    assert_eq!(word(&r, 0), STATUS_OBJECT_NAME_NOT_FOUND);
    let r = el.handle_open_semaphore(5, &opening("nothing"), None);
    assert_eq!(word(&r, 0), STATUS_OBJECT_NAME_NOT_FOUND);
}

#[test]
fn event_operations_find_their_object() {
    let mut el = server();
    let h = event(&mut el, 30);
    let step = el.handle_event_op(5, Some(EventOpRequest { handle: h, op: 1 }));
    assert!(matches!(step, ObjectStep::Operate { object: 30, what: Operation::Raise }));
    let step = el.handle_event_op(5, Some(EventOpRequest { handle: h, op: 2 }));
    assert!(matches!(step, ObjectStep::Operate { object: 30, what: Operation::Lower }));
    let step = el.handle_event_op(5, Some(EventOpRequest { handle: h, op: 9 }));
    assert!(matches!(step, ObjectStep::Operate { object: 30, what: Operation::Nothing }));
    let step = el.handle_release_semaphore(5, Some((h, 3)));
    assert!(matches!(step, ObjectStep::Operate { object: 30, what: Operation::Release { count: 3 } }));
    let step = el.handle_release_mutex(5, Some(h));
    assert!(matches!(step, ObjectStep::Operate { object: 30, what: Operation::Unlock { owner: 101 } }));
    let step = el.handle_query_event(5, Some(h));
    assert!(matches!(step, ObjectStep::Operate { object: 30, what: Operation::Read }));
    assert!(matches!(el.handle_release_mutex(5, Some(h + 4)), ObjectStep::Done(_)));
    assert!(matches!(el.handle_query_mutex(5, None), ObjectStep::Done(_)));
    assert!(matches!(el.handle_query_semaphore(5, None), ObjectStep::Done(_)));
    match el.handle_event_op(5, None) {
        ObjectStep::Done(r) => assert_eq!(word(&r, 0), STATUS_INVALID_HANDLE),
        ObjectStep::Operate { .. } => panic!("no request"),
    }
    assert_eq!(word(&event_op_reply(Some(1)), 8), 1);
    assert_eq!(word(&release_reply(Some(2)), 8), 2);
    assert_eq!(word(&release_reply(None), 0), STATUS_INVALID_HANDLE);
    let r = query_event_reply(None);
    assert_eq!((word(&r, 0), word(&r, 8), word(&r, 12)), (0, 0, 0));
    let r = query_event_reply(Some((1, 0)));
    assert_eq!((word(&r, 8), word(&r, 12)), (1, 0));
    let r = query_mutex_reply(Some((7, 2)));
    assert_eq!((word(&r, 8), word(&r, 12), word(&r, 16)), (2, 1, 0));
    assert_eq!(word(&query_semaphore_reply(None), 12), 1);
    let r = query_semaphore_reply(Some((2, 5)));
    assert_eq!((word(&r, 8), word(&r, 12)), (2, 5));
}

#[test]
fn requests_that_only_answer() {
    assert_eq!(word(&handle_register_async(), 0), 0);
    assert_eq!(word(&handle_cancel_sync(), 0), 0);
    assert_eq!(word(&handle_queue_apc(), 0), 0);
    assert_eq!(word(&handle_get_apc_result(), 0), 0);
    assert_eq!(word(&handle_queue_exception_event(), 0), STATUS_PORT_NOT_SET);
    assert_eq!(
        word(&handle_set_async_direct_result(Some(SetAsyncDirectResultRequest { handle: 0x44, mark_pending: 0 })), 0),
        0
    );
    assert_eq!(word(&handle_set_async_direct_result(None), 8), 0);
    let q = SetAsyncDirectResultRequest { handle: 0x44, mark_pending: 1 };
    assert_eq!(word(&handle_set_async_direct_result(Some(q)), 8), 0x44);
}

#[test]
fn keyed_events_are_internal_objects() {
    let mut el = server();
    el.sync.manual_events.push(60);
    let r = el.handle_create_keyed_event(5);
    let h = word(&r, 8);
    assert_eq!(el.sync.objects.get((100, h)).unwrap().kind, SYNC_INTERNAL);
    let r = el.handle_open_keyed_event(5);
    assert_ne!(word(&r, 8), 0);
}

#[test]
fn the_end_of_a_wait() {
    assert_eq!(compute_ntsync_timeout(i64::MAX, 5, 5), u64::MAX);
    assert_eq!(compute_ntsync_timeout(-10, 5, 0), 1005);
    assert_eq!(compute_ntsync_timeout(30, 5, 20), 1005);
    assert_eq!(compute_ntsync_timeout(20, 5, 20), 1);
    assert_eq!(compute_ntsync_timeout(0, 5, 20), 1);
    assert_eq!(compute_ntsync_timeout(i64::MIN, u64::MAX, 0), u64::MAX);
}

#[test]
fn times_of_day_since_1601() {
    assert_eq!(file_time(0, 0), 116_444_736_000_000_000);
    assert_eq!(file_time(1_700_000_000, 250), 133_444_736_000_000_002);
}

#[test]
fn a_worker_reports_once() {
    assert_eq!(wait_outcome(WaitResult::Signaled(3), false), Some(3));
    assert_eq!(wait_outcome(WaitResult::Timeout, false), Some(STATUS_TIMEOUT));
    assert_eq!(wait_outcome(WaitResult::Alerted, false), Some(STATUS_KERNEL_APC));
    assert_eq!(wait_outcome(WaitResult::Error, false), Some(STATUS_TIMEOUT));
    assert_eq!(wait_outcome(WaitResult::Signaled(3), true), None);
}

fn plan_of(step: SelectStep) -> SelectPlan {
    match step {
        SelectStep::Poll(p) => p,
        SelectStep::Done(_) => panic!("nothing to wait for"),
    }
}

#[test]
fn a_wait_gathers_its_objects() {
    let mut el = server();
    let a = event(&mut el, 30);
    let b = event(&mut el, 31);
    let buf = waiting(1, &[a, b]);
    let plan = plan_of(el.handle_select(5, &buf, Some(select_of(9, 0, 2))));
    assert_eq!(plan.objects, vec![30, 31]);
    assert!(!plan.wait_all);
    assert_eq!(plan.owner, 101);
    let buf = waiting(2, &[a, b]);
    let plan = plan_of(el.handle_select(5, &buf, Some(select_of(9, 0, 2))));
    assert!(plan.wait_all);
}

#[test]
fn a_signaled_object_answers_at_once() {
    let mut el = server();
    let a = event(&mut el, 30);
    let buf = waiting(1, &[a]);
    let req = select_of(9, i64::MAX, 1);
    let plan = plan_of(el.handle_select(5, &buf, Some(req)));
    let (r, job) = el.select_polled(5, select_of(9, i64::MAX, 1), plan, Some(0), None, 7, 0);
    assert_eq!((word(&r, 0), word(&r, 12)), (0, 1));
    assert!(job.is_none());
}

#[test]
fn a_look_at_nothing_times_out() {
    let mut el = server();
    let plan = plan_of(el.handle_select(5, &[0; 64], Some(select_of(9, 0, 0))));
    let (r, job) = el.select_polled(5, select_of(9, 0, 0), plan, None, None, 7, 0);
    assert_eq!((word(&r, 0), word(&r, 12)), (STATUS_TIMEOUT, 1));
    assert!(job.is_none());
}

#[test]
fn a_wait_is_left_to_a_worker() {
    let mut el = server();
    let a = event(&mut el, 30);
    el.sync.auto_events.push(61);
    let buf = waiting(1, &[a]);
    let plan = plan_of(el.handle_select(5, &buf, Some(select_of(9, i64::MAX, 1))));
    let (r, job) = el.select_polled(5, select_of(9, i64::MAX, 1), plan, None, Some(70), 7, 0);
    assert_eq!((word(&r, 0), word(&r, 12)), (STATUS_PENDING, 0));
    let job = job.unwrap();
    assert_eq!(job.plan.objects, vec![30]);
    assert_eq!((job.wait_fd, job.cookie, job.timeout_ns), (70, 9, u64::MAX));
    assert_eq!(el.clients.clients.get(5).unwrap().current_wait_cookie, 9);
}

#[test]
fn waits_without_objects_end_by_time() {
    let mut el = server();
    let (r, job) = match el.handle_select(5, &[0; 64], Some(select_of(9, -1_000_000, 0))) {
        SelectStep::Poll(plan) => el.select_polled(5, select_of(9, -1_000_000, 0), plan, None, None, 1000, 0),
        SelectStep::Done(_) => panic!("a sleep waits"),
    };
    assert_eq!(word(&r, 0), STATUS_PENDING);
    assert!(job.is_none());
    assert_eq!(el.sync.waits.len(), 1);
    assert_eq!(el.sync.waits[0].deadline, 1000 + 100_000_000);
    el.outbox.clear();
    el.check_pending_waits(1000 + 99_999_999);
    assert_eq!(el.sync.waits.len(), 1);
    el.check_pending_waits(1000 + 100_000_000);
    assert!(el.sync.waits.is_empty());
    assert!(el.outbox.iter().any(|a| matches!(
        a,
        Action::WakeUp { wait_fd: 3005, cookie: 9, signaled } if *signaled as u32 == STATUS_TIMEOUT
    )));
}

#[test]
fn waits_are_ordered_by_their_end() {
    let mut el = server();
    for d in [50, 20, 70, 20] {
        el.queue_wait(PendingWait { deadline: d, client_fd: 5, cookie: d });
    }
    let ends: Vec<u64> = el.sync.waits.iter().map(|w| w.deadline).collect();
    let mut sorted = ends.clone();
    sorted.sort();
    assert_eq!(ends, sorted);
    el.outbox.clear();
    el.arm_timer(5);
    assert!(el.outbox.iter().any(|a| matches!(a, Action::ArmTimer { after_ns: 15 })));
}

#[test]
fn a_call_for_the_client_comes_first() {
    let mut el = server();
    el.sync.kernel_apcs.insert(5, vec![[7; 28]]);
    match el.handle_select(5, &[0; 64], Some(select_of(9, i64::MAX, 0))) {
        SelectStep::Done(r) => assert_eq!(word(&r, 0), STATUS_KERNEL_APC),
        SelectStep::Poll(_) => panic!("a call is due"),
    }
    assert_eq!(el.sync.kernel_apcs.get(5).map(|v| v.len()).unwrap_or(0), 0);
}

#[test]
fn results_of_asynchronous_reads() {
    let mut el = server();
    match el.handle_get_async_result(5, None) {
        AsyncStep::Done(r) => assert_eq!(word(&r, 0), STATUS_INVALID_PARAMETER),
        AsyncStep::Receive { .. } => panic!("no request"),
    }
    el.pipes.pending_reads.insert((100, 0x77), PendingRead { fd: 44, max_bytes: 10, iosb: 1, tid: 101 });
    assert!(matches!(el.handle_get_async_result(5, Some(0x77)), AsyncStep::Receive { fd: 44, max: 10 }));
    let r = el.async_received(5, 0x77, &vec![1, 2, 3]);
    let b = bytes_of(&r);
    assert_eq!(b[64..], [1, 2, 3]);
    assert!(!el.pipes.pending_reads.contains_key((100, 0x77)));
}

#[test]
fn reads_are_cancelled_by_place_and_thread() {
    let reads = |q: CancelAsyncRequest| {
        let mut el = server();
        for (user, iosb, tid) in [(1, 0x10, 101), (2, 0x20, 101), (3, 0x20, 999)] {
            el.pipes.pending_reads.insert((100, user), PendingRead { fd: 44, max_bytes: 10, iosb, tid });
        }
        el.pipes.pending_reads.insert((200, 1), PendingRead { fd: 44, max_bytes: 10, iosb: 0x20, tid: 101 });
        assert_eq!(word(&el.handle_cancel_async(5, Some(q)), 0), 0);
        assert!(el.pipes.pending_reads.contains_key((200, 1)));
        [1, 2, 3].map(|user| el.pipes.pending_reads.contains_key((100, user)))
    };
    let q = CancelAsyncRequest { handle: 0, iosb: 0, only_thread: 0 };
    assert_eq!(reads(q), [false, false, false]);
    assert_eq!(reads(CancelAsyncRequest { iosb: 0x20, ..q }), [true, false, false]);
    assert_eq!(reads(CancelAsyncRequest { only_thread: 1, ..q }), [false, false, true]);
    assert_eq!(reads(CancelAsyncRequest { iosb: 0x20, only_thread: 1, ..q }), [true, false, true]);
    assert_eq!(reads(CancelAsyncRequest { handle: 0x7000, ..q }), [true, true, true]);
    let mut el = server();
    assert_eq!(word(&el.handle_cancel_async(5, None), 0), STATUS_INVALID_PARAMETER);
}

#[test]
fn an_object_is_shared_with_its_client() {
    let mut el = server();
    let h = event(&mut el, 30);
    let shared = match el.handle_get_inproc_sync_fd(5, Some(h)) {
        ShareStep::Share(s) => s,
        ShareStep::Done(_) => panic!("the object is there"),
    };
    assert_eq!((shared.object, shared.kind), (30, SYNC_EVENT));
    let r = el.share_object(5, h, shared, None, None);
    assert_eq!(word(&r, 0), 0xC000_0017);
    assert_eq!(el.clients.clients.get(5).unwrap().pending_fd, None);
    let r = el.share_alert(5, 7, None);
    assert_eq!((word(&r, 0), word(&r, 8)), (0, 7));
    assert_eq!(el.clients.clients.get(5).unwrap().pending_fd, None);
    let r = el.share_object(5, h, shared, Some(80), None);
    assert_eq!(word(&r, 0), 0);
    assert_eq!(el.clients.clients.get(5).unwrap().pending_fd, Some((80, h)));
    match el.handle_get_inproc_sync_fd(5, Some(0)) {
        ShareStep::Done(r) => assert_ne!(word(&r, 0), 0),
        ShareStep::Share(_) => panic!("no handle"),
    }
}

#[test]
fn a_fresh_event_is_told_of_without_a_duplicate() {
    let mut el = server();
    el.sync.available = true;
    el.sync.manual_set_events = vec![77];
    let shared = match el.handle_get_inproc_sync_fd(5, Some(0x9000)) {
        ShareStep::Share(s) => s,
        ShareStep::Done(_) => panic!("an event is made"),
    };
    assert_eq!((shared.object, shared.from), (77, SharedFrom::Fresh));
    let r = el.share_object(5, 0x9000, shared, None, None);
    assert_eq!((word(&r, 0), word(&r, 8)), (0, 1));
    assert_eq!(el.clients.clients.get(5).unwrap().pending_fd, None);
    let shared = match el.handle_get_inproc_sync_fd(5, Some(0x9000)) {
        ShareStep::Share(s) => s,
        ShareStep::Done(_) => panic!("the event is there"),
    };
    assert_eq!((shared.object, shared.from), (77, SharedFrom::Known));
    assert_eq!(word(&el.share_object(5, 0x9000, shared, None, None), 0), 0xC000_0017);
}

#[test]
fn a_removed_object_is_not_recycled() {
    let mut el = server();
    let h = event(&mut el, 30);
    el.outbox.clear();
    el.remove_ntsync_obj(100, h);
    assert!(!el.sync.recyclable.contains_key((100, h)));
    assert_eq!(el.object_of(5, h), Some(30));
    assert_eq!(
        triskelion::sync::find_exit(&vec![ExitEvent { pid: 1, handle: 4, object: 9 }], 1, 4),
        Some(9)
    );
    assert_eq!(triskelion::sync::find_exit(&vec![], 1, 4), None);
}

#[test]
fn an_object_is_held_until_no_table_has_it() {
    let mut el = server();
    assert!(!el.holds_object(60));
    el.sync.objects.insert((100, 4), SyncObject { fd: 60, kind: 2 });
    assert!(el.holds_object(60));
    let _ = el.sync.objects.remove((100, 4));
    el.sync.named.insert("x".to_string(), SyncObject { fd: 60, kind: 2 });
    assert!(el.holds_object(60));
    let _ = el.sync.named.remove("x");
    el.sync.idle_events.insert(100, 60);
    assert!(el.holds_object(60) && !el.holds_object(61));
    let _ = el.sync.idle_events.remove(100);
    el.sync.process_exit.insert(100, vec![ExitEvent { pid: 100, handle: 4, object: 60 }]);
    assert!(el.holds_object(60));
    let _ = el.sync.process_exit.remove(100);
    assert!(!el.holds_object(60));
}

#[test]
fn objects_by_their_short_names() {
    let mut el = server();
    let ready = || Some("ready".to_string());
    assert!(matches!(el.object_under(&ready()), MakeObject::Fresh { named: true }));
    assert!(matches!(el.object_under(&None), MakeObject::Fresh { named: false }));
    assert_eq!(el.object_named(&ready()), None);
    let (r, h) = el.create_object(5, ready(), SYNC_MUTEX, false, MadeObject::Fresh { fd: 30, copy: Some(31) });
    assert_eq!((word(&r, 0), word(&r, 8)), (0, h));
    assert!(matches!(el.object_under(&ready()), MakeObject::Duplicate { fd: 31 }));
    assert_eq!(el.object_named(&ready()), Some(31));
    let (r, h) = el.open_object(5, ready(), None, Some(33));
    assert_eq!((word(&r, 0), word(&r, 8)), (0, h));
    let o = el.sync.objects.get((100, h)).unwrap();
    assert_eq!((o.fd, o.kind), (33, SYNC_MUTEX));
    let (r, h) = el.open_object(5, None, None, None);
    assert_eq!((word(&r, 0), h), (STATUS_OBJECT_NAME_NOT_FOUND, 0));
}
