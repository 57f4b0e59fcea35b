use triskelion::boot::Boot;
use triskelion::objects::{HandleEntry, HandleTable, Process, Thread};
use triskelion::pipes::{
    handle_set_named_pipe_info, read_async, transceive_polled, IoctlRequest, IoctlStep, PolledRead,
    Transceived, TransceiveStep, FSCTL_PIPE_DISCONNECT, FSCTL_PIPE_LISTEN, FSCTL_PIPE_TRANSCEIVE, FSCTL_PIPE_WAIT,
};
use triskelion::state::{Action, AsyncPipeRead, Client, EventLoop, PipeState, SyncObject};
use triskelion::wire::{
    Reply, STATUS_INVALID_HANDLE, STATUS_INVALID_PARAMETER, STATUS_NO_MEMORY, STATUS_OBJECT_NAME_NOT_FOUND,
    STATUS_PENDING, STATUS_PIPE_BROKEN,
};

fn bytes_of(r: &Reply) -> Vec<u8> {
    match r {
        Reply::Fixed { buf, len } => buf[..*len].to_vec(),
        Reply::Vararg(v) => v.clone(),
    }
}

fn word(r: &Reply, at: usize) -> u32 {
    let b = bytes_of(r);
    u32::from_le_bytes([b[at], b[at + 1], b[at + 2], b[at + 3]])
}

fn long(r: &Reply, at: usize) -> u64 {
    word(r, at) as u64 | (word(r, at + 4) as u64) << 32
}

/// A daemon with one process, 100, of one thread, 101, whose client is 5.
fn server() -> EventLoop {
    let (mut el, _) = EventLoop::new(Boot {
        user_sid: vec![1, 1, 0, 0, 0, 0, 0, 5, 18, 0, 0, 0],
        session_fd: None,
        session_mapped: false,
        sync_available: true,
        display_mutex: None,
        font_mutex: None,
        linger_hint: None,
        first_object_id: 1000,
        first_atom: 0xC000,
    });
    join(&mut el, 5, 100, 101);
    el.sync.eventfds = (700..740).collect();
    el.outbox.clear();
    el
}

fn join(el: &mut EventLoop, fd: i32, pid: u32, tid: u32) {
    let mut c = Client::new(fd + 1000);
    c.process_id = pid;
    c.thread_id = tid;
    c.reply_fd = Some(fd + 2000);
    c.wait_fd = Some(fd + 3000);
    el.clients.clients.insert(fd, c);
    if !el.objects.processes.contains_key(pid) {
        el.objects.processes.insert(
            pid,
            Process {
                handles: HandleTable::new(),
                threads: Vec::new(),
                exit_code: 0,
                startup_done: true,
                idle_signaled: false,
                exe_image_info: None,
            },
        );
    }
    el.objects.processes.get_mut(pid).unwrap().threads.push(tid);
    el.objects.threads.insert(tid, Thread { pid, suspend_count: 0 });
}

/// A request that creates a pipe.
fn creating(name: &str) -> Vec<u8> {
    let n: Vec<u8> = name.encode_utf16().flat_map(|u| u.to_le_bytes()).collect();
    let mut b = vec![0u8; 64 + 12];
    b.extend_from_slice(&(n.len() as u32).to_le_bytes());
    b.extend_from_slice(&n);
    b
}

fn async_of(handle: u32, event: u32, user: u64) -> [u8; 40] {
    let mut a = [0u8; 40];
    a[..4].copy_from_slice(&handle.to_le_bytes());
    a[4..8].copy_from_slice(&event.to_le_bytes());
    a[16..24].copy_from_slice(&user.to_le_bytes());
    a
}

fn ioctl(el: &mut EventLoop, fd: i32, code: u32, a: [u8; 40], buf: &[u8]) -> Reply {
    match el.handle_ioctl(fd, buf, Some(IoctlRequest { code, async_data: a })) {
        IoctlStep::Done(r) => r,
        IoctlStep::Transceive { .. } => panic!("nothing to send"),
    }
}

/// A server, 5, with a pipe, and a client, 6, of another process.
fn with_pipe() -> (EventLoop, u32) {
    let mut el = server();
    join(&mut el, 6, 200, 201);
    el.pipes.socket_pairs.push((40, 41));
    el.pipes.socket_pairs.push((42, 43));
    for e in [60, 61, 62, 63] {
        el.sync.auto_events.push(e);
    }
    let r = el.handle_create_named_pipe(5, &creating("\\Device\\NamedPipe\\Lsass"), true);
    assert_eq!(word(&r, 0), 0);
    let h = word(&r, 8);
    assert_ne!(h, 0);
    (el, h)
}

fn waiting_for(name: &str) -> Vec<u8> {
    let n: Vec<u8> = name.encode_utf16().flat_map(|u| u.to_le_bytes()).collect();
    let mut b = vec![0u8; 64 + 8];
    b.extend_from_slice(&(n.len() as u32).to_le_bytes());
    b.extend_from_slice(&[0, 0]);
    b.extend_from_slice(&n);
    b
}

#[test]
fn the_parts_of_an_async() {
    let a = read_async(&async_of(4, 8, 9));
    assert_eq!((a.handle, a.event, a.iosb, a.user), (4, 8, 0, 9));
}

#[test]
fn a_pipe_listens_and_is_connected() {
    let (mut el, h) = with_pipe();
    let entry = el.handle_entry(100, h).unwrap();
    let server_end = entry.fd.unwrap();
    let r = ioctl(&mut el, 5, FSCTL_PIPE_LISTEN, async_of(h, 0, 0), &[0; 64]);
    assert_eq!(word(&r, 0), STATUS_PENDING);
    let wait = word(&r, 8);
    assert_ne!(wait, 0);
    let fd = el.listening_fd("lsass").unwrap();
    assert_ne!(fd, server_end);
    el.outbox.clear();
    let r = el.try_connect_named_pipe(6, "lsass", 0x0012_019F, 0x20, Some(50)).unwrap();
    assert_eq!(word(&r, 0), 0);
    let c = word(&r, 8);
    assert_ne!(c, 0);
    assert_eq!(el.sync.kernel_apcs.get(5).unwrap().len(), 1);
    assert_eq!(el.sync.kernel_apcs.get(5).unwrap()[0][..4], 2u32.to_le_bytes());
    assert_eq!(el.sync.deferred.get(5), Some(&vec![(100, wait)]));
    let all = el.pipes.named.get("lsass").unwrap();
    assert!(matches!(all[0].state, PipeState::Connected));
    assert_eq!(el.listening_fd("lsass"), None);
}

#[test]
fn a_connection_does_not_set_the_alert() {
    let (mut el, h) = with_pipe();
    el.sync.alerts.insert(5, 99);
    el.sync.interrupts.insert(5, 98);
    ioctl(&mut el, 5, FSCTL_PIPE_LISTEN, async_of(h, 0, 0), &[0; 64]);
    el.outbox.clear();
    el.try_connect_named_pipe(6, "lsass", 0x0012_019F, 0x20, Some(50)).unwrap();
    assert!(!el.outbox.iter().any(|a| matches!(a, Action::SetEvent { object: 99 })));
    assert!(el.outbox.iter().any(|a| matches!(a, Action::SetEvent { object: 98 })));
}

#[test]
fn a_system_call_does_not_set_the_alert() {
    let (mut el, h) = with_pipe();
    el.sync.alerts.insert(5, 99);
    el.sync.objects.insert((100, 0x44), SyncObject { fd: 97, kind: 2 });
    ioctl(&mut el, 5, FSCTL_PIPE_LISTEN, async_of(h, 0x44, 7), &[0; 64]);
    el.try_connect_named_pipe(6, "lsass", 0x0012_019F, 0x20, Some(50)).unwrap();
    el.sync.deferred.insert(5, vec![(100, 0x44)]);
    el.outbox.clear();
    assert!(el.deliver_apc(5).is_some());
    assert!(!el.outbox.iter().any(|a| matches!(a, Action::SetEvent { .. })));
    el.acknowledge_apc(5, 0);
    assert!(el.outbox.iter().any(|a| matches!(a, Action::SetEvent { object: 97 })));
    assert!(!el.outbox.iter().any(|a| matches!(a, Action::SetEvent { object: 99 })));
}

#[test]
fn an_overlapped_listen_does_not_block() {
    let (mut el, h) = with_pipe();
    let r = ioctl(&mut el, 5, FSCTL_PIPE_LISTEN, async_of(h, 0x44, 7), &[0; 64]);
    assert_eq!((word(&r, 0), word(&r, 8)), (STATUS_PENDING, 0));
    let all = el.pipes.named.get("lsass").unwrap();
    assert_eq!(all[0].listen_event, Some((100, 0x44)));
    let a = all[0].listen_async.as_ref().unwrap();
    assert_eq!((a.server_client_fd, a.user, a.user_arg), (5, 7, 7));
}

#[test]
fn other_handles_are_no_pipes() {
    let (mut el, h) = with_pipe();
    let r = ioctl(&mut el, 5, FSCTL_PIPE_LISTEN, async_of(h + 4, 0, 0), &[0; 64]);
    assert_eq!((word(&r, 0), word(&r, 8)), (0, 0));
    let r = ioctl(&mut el, 5, 0x1234, async_of(h, 0, 0), &[0; 64]);
    assert_eq!(word(&r, 0), 0);
    match el.handle_ioctl(5, &[0; 64], None) {
        IoctlStep::Done(r) => assert_eq!(word(&r, 0), STATUS_INVALID_PARAMETER),
        IoctlStep::Transceive { .. } => panic!("no request"),
    }
    assert_eq!(word(&handle_set_named_pipe_info(false), 0), STATUS_INVALID_PARAMETER);
    assert_eq!(word(&handle_set_named_pipe_info(true), 0), 0);
}

#[test]
fn a_disconnected_pipe_gets_fresh_ends() {
    let (mut el, h) = with_pipe();
    let old = el.handle_entry(100, h).unwrap().fd.unwrap();
    el.outbox.clear();
    let r = ioctl(&mut el, 5, FSCTL_PIPE_DISCONNECT, async_of(h, 0, 0), &[0; 64]);
    assert_eq!(word(&r, 0), 0);
    let new = el.handle_entry(100, h).unwrap().fd.unwrap();
    assert_ne!(old, new);
    assert!(el.outbox.iter().any(|a| matches!(a, Action::Close { fd } if *fd == old)));
    assert!(matches!(el.pipes.named.get("lsass").unwrap()[0].state, PipeState::Listening));
}

#[test]
fn a_client_waits_until_a_pipe_listens() {
    let (mut el, _) = with_pipe();
    let r = ioctl(&mut el, 6, FSCTL_PIPE_WAIT, async_of(0, 0, 0), &waiting_for("Other"));
    assert_eq!(word(&r, 0), STATUS_PENDING);
    let wait = word(&r, 8);
    let object = el.object_of(6, wait).unwrap();
    el.outbox.clear();
    el.wake_pipe_waiters("other");
    assert!(el.outbox.iter().any(|a| matches!(a, Action::SetEvent { object: o } if *o == object)));
    let r = ioctl(&mut el, 6, FSCTL_PIPE_WAIT, async_of(0, 0, 0), &[0; 64]);
    assert_eq!(word(&r, 0), STATUS_OBJECT_NAME_NOT_FOUND);
    let r = el.await_pipe(6, "third".to_string());
    assert_eq!(word(&r, 0), STATUS_PENDING);
    el.pipes.socket_pairs.push((80, 81));
    let r = el.create_pipe(5, Some("third".to_string()));
    assert_eq!((word(&r, 0), word(&r, 12)), (0, 1));
    assert_eq!(el.listening_fd("third"), Some(81));
    assert_eq!(word(&el.await_pipe(6, "third".to_string()), 0), 0);
    el.pipes.socket_pairs.clear();
    assert_eq!(word(&el.create_pipe(5, None), 0), STATUS_NO_MEMORY);
}

#[test]
fn nobody_connects_to_a_pipe_that_is_not_there() {
    let (mut el, _) = with_pipe();
    assert!(el.try_connect_named_pipe(6, "other", 0, 0, None).is_none());
    assert_eq!(el.listening_fd("other"), None);
}

#[test]
fn a_call_sends_and_reads() {
    let (mut el, h) = with_pipe();
    let fd = el.handle_entry(100, h).unwrap().fd.unwrap();
    let mut buf = vec![0u8; 64];
    buf[8] = 100;
    let q = IoctlRequest { code: FSCTL_PIPE_TRANSCEIVE, async_data: async_of(h, 0, 0) };
    let (got, options, max) = match el.handle_ioctl(5, &buf, Some(q)) {
        IoctlStep::Transceive { fd, options, max } => (fd, options, max),
        IoctlStep::Done(_) => panic!("the pipe is there"),
    };
    assert_eq!((got, max), (fd, 100));
    match el.transceived(5, h, fd, options, max, Transceived::Data(vec![1, 2])) {
        TransceiveStep::Done(r) => {
            assert_eq!(word(&r, 4), 2);
            assert_eq!(bytes_of(&r)[64..], [1, 2]);
        }
        TransceiveStep::Poll => panic!("data came"),
    }
    match el.transceived(5, h, fd, options, max, Transceived::Closed) {
        TransceiveStep::Done(r) => assert_eq!(word(&r, 0), STATUS_PIPE_BROKEN),
        TransceiveStep::Poll => panic!("closed"),
    }
    match el.transceived(5, h, fd, options, max, Transceived::NotSent) {
        TransceiveStep::Done(r) => assert_eq!(word(&r, 0), STATUS_PIPE_BROKEN),
        TransceiveStep::Poll => panic!("not sent"),
    }
    match el.transceived(5, h, fd, options, max, Transceived::Empty) {
        TransceiveStep::Done(r) => assert_eq!(word(&r, 0), STATUS_PENDING),
        TransceiveStep::Poll => panic!("there are events"),
    }
    assert_eq!(el.pipes.reads.len(), 1);
    el.outbox.clear();
    el.complete_read(0, Some(vec![9]));
    assert!(el.pipes.reads.is_empty());
    assert_eq!(el.pipes.completed_reads.len(), 1);
    assert!(!el.outbox.is_empty());
    let q = IoctlRequest { code: FSCTL_PIPE_TRANSCEIVE, async_data: async_of(h + 40, 0, 0) };
    match el.handle_ioctl(5, &buf, Some(q)) {
        IoctlStep::Done(r) => assert_eq!(word(&r, 0), STATUS_INVALID_HANDLE),
        IoctlStep::Transceive { .. } => panic!("no such handle"),
    }
    assert_eq!(bytes_of(&transceive_polled(3, &vec![5]))[64..], [5]);
}

#[test]
fn every_pipe_handle_has_one_wait_handle() {
    let (mut el, h) = with_pipe();
    let a = el.get_pipe_wait_handle(100, h);
    let b = el.get_pipe_wait_handle(100, h);
    assert_eq!(a, b);
    assert_ne!(a, 0);
    assert_ne!(el.get_pipe_wait_handle(100, h + 4), a);
    let e = HandleEntry::bare(3);
    assert_eq!(el.allocate_in(999, e), 0);
}

#[test]
fn pending_reads_end_the_last_first() {
    let mut el = server();
    for i in 0..4 {
        el.pipes.reads.push(AsyncPipeRead {
            pipe_fd: 90 + i,
            max_bytes: 16,
            pid: 100,
            wait_handle: 0,
            client_fd: 5 + i,
        });
    }
    el.check_pending_pipe_reads(vec![
        PolledRead::Data(vec![1]),
        PolledRead::Waiting,
        PolledRead::Failed,
        PolledRead::Data(Vec::new()),
    ]);
    assert_eq!(el.pipes.reads.len(), 1);
    assert_eq!(el.pipes.reads[0].pipe_fd, 91);
    let done = &el.pipes.completed_reads;
    assert_eq!(done.len(), 2);
    assert_eq!((done[0].client_fd, done[0].data.len()), (8, 0));
    assert_eq!((done[1].client_fd, done[1].data.clone()), (5, vec![1]));
}
