use triskelion::boot::Boot;
use triskelion::objects::{HandleEntry, HandleTable, Process, Thread};
use triskelion::ports::AssignJobRequest;
use triskelion::state::{
    Action, Client, CompletionWaiter, EventLoop, ExitEvent, NtTimer, PendingWait, SyncObject, SYNC_EVENT,
};
use triskelion::wire::Reply;

fn bytes_of(r: &Reply) -> Vec<u8> {
    match r {
        Reply::Fixed { buf, len } => buf[..*len].to_vec(),
        Reply::Vararg(v) => v.clone(),
    }
}

fn word(r: &Reply, at: usize) -> u32 {
    let b = bytes_of(r);
    u32::from_le_bytes([b[at], b[at + 1], b[at + 2], b[at + 3]])
}

fn long(r: &Reply, at: usize) -> u64 {
    word(r, at) as u64 | (word(r, at + 4) as u64) << 32
}

/// A daemon with one process, 100, of one thread, 101, whose client is 5.
fn server() -> EventLoop {
    let (mut el, _) = EventLoop::new(Boot {
        user_sid: vec![1, 1, 0, 0, 0, 0, 0, 5, 18, 0, 0, 0],
        session_fd: None,
        session_mapped: false,
        sync_available: true,
        display_mutex: None,
        font_mutex: None,
        linger_hint: None,
        first_object_id: 1000,
        first_atom: 0xC000,
    });
    join(&mut el, 5, 100, 101);
    el.sync.eventfds = (700..740).collect();
    el.outbox.clear();
    el
}

fn join(el: &mut EventLoop, fd: i32, pid: u32, tid: u32) {
    let mut c = Client::new(fd + 1000);
    c.process_id = pid;
    c.thread_id = tid;
    c.reply_fd = Some(fd + 2000);
    c.wait_fd = Some(fd + 3000);
    el.clients.clients.insert(fd, c);
    if !el.objects.processes.contains_key(pid) {
        el.objects.processes.insert(
            pid,
            Process {
                handles: HandleTable::new(),
                threads: Vec::new(),
                exit_code: 0,
                startup_done: true,
                idle_signaled: false,
                exe_image_info: None,
            },
        );
    }
    el.objects.processes.get_mut(pid).unwrap().threads.push(tid);
    el.objects.threads.insert(tid, Thread { pid, suspend_count: 0 });
}

#[test]
fn a_thread_leaves_its_process() {
    let mut el = server();
    join(&mut el, 6, 100, 102);
    let c = el.disconnect_client(5, &vec![], 1000).unwrap();
    assert_eq!((c.process_id, c.thread_id), (100, 101));
    assert!(!el.clients.clients.contains_key(5));
    assert!(el.clients.clients.contains_key(6));
    assert!(el.objects.processes.contains_key(100));
    assert_eq!(el.objects.processes.get(100).unwrap().threads, vec![102]);
}

#[test]
fn a_process_goes_with_its_last_thread() {
    let mut el = server();
    join(&mut el, 6, 200, 201);
    let h = el.allocate_in(100, HandleEntry::with_fd(9, 30, 1, 0, 0));
    el.sync.objects.insert((100, h), SyncObject { fd: 31, kind: SYNC_EVENT });
    el.sync.objects.insert((200, 4), SyncObject { fd: 32, kind: SYNC_EVENT });
    el.ports.timers.push(NtTimer { pid: 100, handle: 4, deadline: 5, period_ms: 0 });
    el.sync.process_exit.insert(100, vec![ExitEvent { pid: 200, handle: 8, object: 70 }]);
    el.outbox.clear();
    el.disconnect_client(5, &vec![], 1000);
    assert!(!el.sync.objects.contains_key((100, h)));
    assert!(el.sync.objects.contains_key((200, 4)));
    assert!(el.ports.timers.is_empty());
    assert!(el.outbox.iter().any(|a| matches!(a, Action::SetEvent { object: 70 })));
    assert!(!el.objects.threads.contains_key(101));
    assert!(el.objects.threads.contains_key(201));
}

#[test]
fn a_job_is_told_of_an_exit() {
    let mut el = server();
    join(&mut el, 6, 200, 201);
    let job = word(&el.handle_create_job(6), 8);
    let port = word(&el.handle_create_completion(6), 8);
    let q = triskelion::ports::SetJobCompletionPortRequest { job, port, key: 5 };
    el.handle_set_job_completion_port(6, Some(q));
    let process = el.allocate_in(200, HandleEntry::bare(200));
    el.handle_assign_job(6, Some(AssignJobRequest { job, process }));
    el.handle_remove_completion(6, Some(port));
    let id = el.object_id(6, job).unwrap();
    assert_eq!(el.ports.jobs.get(id).unwrap().num_processes, 1);
    el.disconnect_client(6, &vec![], 1000);
    assert_eq!(el.ports.jobs.get(id).map(|j| j.num_processes).unwrap_or(0), 0);
}

#[test]
fn nothing_of_a_client_is_left() {
    let mut el = server();
    join(&mut el, 6, 100, 102);
    el.sync.waits.push(PendingWait { deadline: 9, client_fd: 5, cookie: 1 });
    el.ports.waiters.insert(4, vec![
        CompletionWaiter { client_fd: 5, pid: 100, wait_handle: 8 },
        CompletionWaiter { client_fd: 6, pid: 100, wait_handle: 12 },
    ]);
    el.sync.kernel_apcs.insert(5, vec![[0; 28]]);
    el.sync.deferred.insert(5, vec![(100, 4)]);
    el.clients.msg_fd_map.insert(1005, 5);
    el.disconnect_client(5, &vec![], 1000);
    assert!(!el.sync.kernel_apcs.contains_key(5));
    assert!(!el.sync.deferred.contains_key(5));
    let w = el.ports.waiters.get(4).unwrap();
    assert_eq!(w.len(), 1);
    assert_eq!(w[0].client_fd, 6);
}

#[test]
fn an_unknown_client_changes_nothing() {
    let mut el = server();
    assert!(el.disconnect_client(77, &vec![], 1000).is_none());
    assert_eq!(el.clients.clients.len(), 1);
    assert!(el.objects.processes.contains_key(100));
}

#[test]
fn senders_are_told_that_nobody_answers() {
    let mut el = server();
    join(&mut el, 6, 200, 201);
    let mut l = [0u8; 16];
    l[8..16].copy_from_slice(&0x0010_0000u64.to_le_bytes());
    el.clients.clients.get_mut(6).unwrap().queue_locator = l;
    el.session.mapped = true;
    el.outbox.clear();
    el.tell_senders(&vec![201]);
    assert!(el.outbox.iter().any(|a| matches!(a, Action::QueueBits { offset: 0x0010_0000, bits: 0x8000 })));
    el.outbox.clear();
    el.set_queue_bits_for_tid(999, 1);
    assert!(el.outbox.is_empty());
    el.clear_queue_bits_for_tid(999, 1);
    assert!(el.outbox.is_empty());
    el.clear_queue_bits_for_tid(201, 0x8000);
    assert_eq!(el.outbox.len(), 1);
    assert!(matches!(el.outbox[0], Action::ClearQueueBits { offset: 0x0010_0000, bits: 0x8000 }));
}
