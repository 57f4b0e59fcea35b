use triskelion::authority::{housekeeping_due, report_due, TICK_NS};
use triskelion::boot::Boot;
use triskelion::framing::{next_request, read_header};
use triskelion::io::{Effect, FixedFds, IoAct, IoState, Ready};
use triskelion::objects::{HandleTable, Process, Thread};
use triskelion::report::{
    is_worth_telling, named_report, process_report, report_title, sync_line, NamedReading,
};
use triskelion::state::{Client, EventLoop, SYNC_EVENT, SYNC_INTERNAL, SYNC_MUTEX, SYNC_SEMAPHORE};
use triskelion::table::Table;

fn frame(req: i32, vararg: &[u8]) -> Vec<u8> {
    let mut b = vec![0u8; 64];
    b[..4].copy_from_slice(&req.to_le_bytes());
    b[4..8].copy_from_slice(&(vararg.len() as u32).to_le_bytes());
    b.extend_from_slice(vararg);
    b
}

/// A daemon with one process, 100, of one thread, 101, whose client is 5.
fn server() -> EventLoop {
    let (mut el, _) = EventLoop::new(Boot {
        user_sid: vec![1, 1, 0, 0, 0, 0, 0, 5, 18, 0, 0, 0],
        session_fd: None,
        session_mapped: false,
        sync_available: true,
        display_mutex: None,
        font_mutex: None,
        linger_hint: None,
        first_object_id: 1000,
        first_atom: 0xC000,
    });
    join(&mut el, 5, 100, 101);
    el.sync.eventfds = (700..740).collect();
    el.outbox.clear();
    el
}

fn join(el: &mut EventLoop, fd: i32, pid: u32, tid: u32) {
    let mut c = Client::new(fd + 1000);
    c.process_id = pid;
    c.thread_id = tid;
    c.reply_fd = Some(fd + 2000);
    c.wait_fd = Some(fd + 3000);
    el.clients.clients.insert(fd, c);
    if !el.objects.processes.contains_key(pid) {
        el.objects.processes.insert(
            pid,
            Process {
                handles: HandleTable::new(),
                threads: Vec::new(),
                exit_code: 0,
                startup_done: true,
                idle_signaled: false,
                exe_image_info: None,
            },
        );
    }
    el.objects.processes.get_mut(pid).unwrap().threads.push(tid);
    el.objects.threads.insert(tid, Thread { pid, suspend_count: 0 });
}

const FIXED: FixedFds = FixedFds { listener: 3, signal: 4, shutdown: 5, wake: 6, death: -1 };

#[test]
fn requests_are_cut_out_of_the_stream() {
    let mut all = frame(7, &[1, 2, 3]);
    all.extend(frame(-1, &[]));
    all.extend(&frame(9, &[4])[..64]);
    let mut buf = Vec::new();
    let mut seen = Vec::new();
    for piece in all.chunks(10) {
        buf.extend_from_slice(piece);
        while let Some((h, b)) = next_request(&mut buf) {
            seen.push((h.req, b.len()));
        }
    }
    assert_eq!(seen, vec![(7, 67), (-1, 64)]);
    assert_eq!(buf.len(), 64);
    let h = read_header(&all);
    assert_eq!((h.req, h.request_size, h.reply_size), (7, 3, 0));
}

#[test]
fn a_descriptor_is_ready_for_something() {
    let mut s = IoState::new();
    s.accepted(10, 11);
    assert_eq!(s.ready(FIXED, 3), Ready::Accept);
    assert_eq!(s.ready(FIXED, 4), Ready::Signal);
    assert_eq!(s.ready(FIXED, 5), Ready::Shutdown);
    assert_eq!(s.ready(FIXED, 6), Ready::Wake);
    assert_eq!(s.ready(FIXED, 10), Ready::Request);
    assert_eq!(s.ready(FIXED, 11), Ready::Descriptors);
    assert_eq!(s.ready(FIXED, 12), Ready::Unknown);
    assert_eq!(s.ready(FIXED, -1), Ready::Unknown);
    s.pipe_watchers.insert(20, 21);
    s.queue_watchers.insert(22, (0x1000, 23));
    assert_eq!(s.ready(FIXED, 20), Ready::Pipe { event_fd: 21 });
    assert_eq!(s.ready(FIXED, 22), Ready::Display { shm: 0x1000, event_fd: 23 });
}

#[test]
fn a_connection_is_served_and_leaves() {
    let mut s = IoState::new();
    s.accepted(10, 11);
    s.received(10, &frame(7, &[1])[..40]);
    assert!(s.next(10).is_none());
    s.received(10, &frame(7, &[1])[40..]);
    let (h, b, msg) = s.next(10).unwrap();
    assert_eq!((h.req, b.len(), msg), (7, 65, 11));
    assert!(s.next(10).is_none());
    s.fd_arrived(11, &[9, 0, 0, 0, 44, 0, 0, 0], 30);
    s.fd_arrived(11, &[1], 31);
    assert_eq!(s.take_pending(11), vec![(9, 44, 30), (0, 31, 31)]);
    assert_eq!(s.take_pending(11), vec![]);
    let acts = s.left(10);
    assert_eq!(
        acts,
        vec![
            IoAct::Unwatch { fd: 10 },
            IoAct::Unwatch { fd: 11 },
            IoAct::Close { fd: 11 },
            IoAct::Close { fd: 10 },
        ]
    );
    assert_eq!(s.ready(FIXED, 10), Ready::Unknown);
    assert_eq!(s.ready(FIXED, 11), Ready::Unknown);
}

#[test]
fn a_shared_socket_stays_until_the_last_client() {
    let mut s = IoState::new();
    s.accepted(10, 11);
    s.accepted(12, 11);
    assert_eq!(s.left(10), vec![IoAct::Unwatch { fd: 10 }, IoAct::Close { fd: 10 }]);
    assert_eq!(s.ready(FIXED, 11), Ready::Descriptors);
    let mut fds = s.all_fds();
    fds.sort();
    assert_eq!(fds, vec![11, 12]);
}

#[test]
fn effects_come_before_the_reply() {
    let mut s = IoState::new();
    s.accepted(10, 11);
    let effects = vec![
        Effect::SendFd { target_fd: 11, fd_to_send: 30, version: 4 },
        Effect::WatchPipeFd { pipe_fd: 20, event_fd: 21 },
        Effect::WatchQueueFd { queue_fd: 22, shm: 0x1000, event_fd: 23 },
        Effect::RearmQueueFd { queue_fd: 22 },
        Effect::RearmQueueFd { queue_fd: 99 },
    ];
    let acts = s.execute_reply(10, &effects, Some(15), false);
    assert_eq!(acts[0], IoAct::SendFd { target_fd: 11, fd: 30, version: 4 });
    assert_eq!(acts[1], IoAct::Close { fd: 30 });
    assert_eq!(*acts.last().unwrap(), IoAct::Write { fd: 15 });
    assert_eq!(acts.iter().filter(|a| matches!(a, IoAct::Write { .. })).count(), 1);
    assert_eq!(s.ready(FIXED, 20), Ready::Pipe { event_fd: 21 });
    let acts = s.execute_reply(10, &vec![], None, false);
    assert_eq!(acts, vec![IoAct::Write { fd: 15 }]);
    assert_eq!(s.execute_reply(10, &vec![], None, true), vec![]);
    let acts = s.execute_reply(10, &vec![Effect::WatchPipeFd { pipe_fd: 20, event_fd: 24 }], None, true);
    assert_eq!(acts, vec![IoAct::Close { fd: 21 }]);
}

#[test]
fn clients_are_counted() {
    let mut el = server();
    let mut known: Table<i32, ()> = Table::new();
    el.client_joined(8, 9, &mut known);
    el.client_joined(8, 9, &mut known);
    assert_eq!(el.count_clients(), 2);
    assert_eq!(el.clients.peak, 2);
    assert!(known.contains_key(8));
    el.count_request();
    assert_eq!(el.clients.total_requests, 1);
}

#[test]
fn the_daemon_lingers_after_the_last_client() {
    let mut el = server();
    let mut known: Table<i32, ()> = Table::new();
    el.count_request();
    el.disconnect_client(5, &vec![], 1000);
    el.note_left(5, &mut known, 1000);
    assert_eq!(el.clients.linger_deadline, Some(1000 + 5_000_000_000));
    assert!(!el.linger_over(5_000_000_999));
    assert!(el.linger_over(5_000_001_000));
    el.client_joined(8, 9, &mut known);
    el.note_left(7, &mut known, 2000);
    assert_eq!(el.clients.linger_deadline, None);
    assert!(!el.linger_over(u64::MAX));
}

#[test]
fn a_request_leaves_its_effects() {
    let mut el = server();
    let mut known: Table<i32, ()> = Table::new();
    known.insert(5, ());
    el.send_fd(5, 40, 44);
    el.clients.pipe_watches.push((20, 21));
    el.clients.queue_rearms.push(22);
    let effects = el.collect_effects(5, 1, &mut known);
    assert_eq!(
        effects,
        vec![
            Effect::SendFd { target_fd: 1005, fd_to_send: 40, version: 44 },
            Effect::WatchPipeFd { pipe_fd: 20, event_fd: 21 },
            Effect::RearmQueueFd { queue_fd: 22 },
        ]
    );
    assert!(el.collect_effects(5, 1, &mut known).is_empty());
    join(&mut el, 6, 200, 201);
    let effects = el.collect_effects(5, 1, &mut known);
    assert!(matches!(effects[0], Effect::RegisterClient { request_fd: 6, msg_fd: 1006, .. }));
    assert!(known.contains_key(6));
}

#[test]
fn time_to_look_after_the_state() {
    assert!(!housekeeping_due(TICK_NS - 1, 0));
    assert!(housekeeping_due(TICK_NS, 0));
    assert!(!housekeeping_due(0, 5));
    assert!(report_due(200, 1) && !report_due(200, 0) && !report_due(201, 1));
}

#[test]
fn objects_are_reported() {
    assert_eq!(sync_line(0x44, SYNC_EVENT, Some((1, 0))), "  0x0044 EVT [manual=1 signaled=0]");
    assert_eq!(sync_line(0x12345, SYNC_MUTEX, Some((7, 2))), "  0x12345 MUT [owner=7 count=2]");
    assert_eq!(sync_line(4, SYNC_SEMAPHORE, Some((1, 5))), "  0x0004 SEM [count=1 max=5]");
    assert_eq!(sync_line(4, SYNC_EVENT, None), "  0x0004 EVT [read_err]");
    assert_eq!(sync_line(4, 9, None), "  0x0004 ? [?]");
    assert_eq!(report_title(31), "NTSYNC STATE DUMP (31 objects):");
    assert_eq!(named_report(&vec![]), ["NAMED SYNC (0):"]);
    let named = vec![
        NamedReading { name: "__wine_svc".to_string(), read: Some((1, 0)) },
        NamedReading { name: "gone".to_string(), read: None },
    ];
    assert_eq!(
        named_report(&named),
        ["NAMED SYNC (2):", "  \"__wine_svc\" [manual=1 signaled=0]", "  \"gone\" [read_err]"]
    );
    assert!(is_worth_telling(SYNC_EVENT, Some((0, 1))));
    assert!(!is_worth_telling(SYNC_INTERNAL, Some((0, 1))));
    assert!(is_worth_telling(SYNC_INTERNAL, Some((0, 0))));
    let lines: Vec<String> = (0..23).map(|i| i.to_string()).collect();
    let r = process_report(100, &lines);
    assert_eq!(r.len(), 22);
    assert_eq!(r[0], "  pid=100 (23 interesting):");
    assert_eq!(r[21], "  ... and 3 more");
}

#[test]
fn processes_end_with_the_daemon() {
    let mut el = server();
    join(&mut el, 6, 100, 102);
    join(&mut el, 7, 200, 201);
    el.clients.clients.get_mut(5).unwrap().unix_pid = 4000;
    el.clients.clients.get_mut(6).unwrap().unix_pid = 4000;
    let mut pids = el.processes_to_end();
    pids.sort();
    assert_eq!(pids, vec![4000]);
}
