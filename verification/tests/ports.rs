use triskelion::atoms::Atoms;
use triskelion::boot::Boot;
use triskelion::objects::{HandleEntry, HandleTable, Process, Thread};
use triskelion::ports::{
    fixed_reply, handle_continue_debug_event, handle_debug_process, handle_grab_kernel_object,
    handle_wait_debug_event, timer_deadline, AddCompletionRequest, AssignJobRequest,
    KernelObjectRequest, SetCompletionInfoRequest, SetJobCompletionPortRequest, SetJobLimitsRequest,
    SetTimerRequest,
};
use triskelion::state::{Action, Client, CompletionMsg, EventLoop, SyncObject, SYNC_EVENT};
use triskelion::wire::{
    Reply, STATUS_INVALID_HANDLE, STATUS_INVALID_PARAMETER, STATUS_OBJECT_NAME_NOT_FOUND, STATUS_PENDING,
};

fn bytes_of(r: &Reply) -> Vec<u8> {
    match r {
        Reply::Fixed { buf, len } => buf[..*len].to_vec(),
        Reply::Vararg(v) => v.clone(),
    }
}

fn word(r: &Reply, at: usize) -> u32 {
    let b = bytes_of(r);
    u32::from_le_bytes([b[at], b[at + 1], b[at + 2], b[at + 3]])
}

fn long(r: &Reply, at: usize) -> u64 {
    word(r, at) as u64 | (word(r, at + 4) as u64) << 32
}

/// A daemon with one process, 100, of one thread, 101, whose client is 5.
fn server() -> EventLoop {
    let (mut el, _) = EventLoop::new(Boot {
        user_sid: vec![1, 1, 0, 0, 0, 0, 0, 5, 18, 0, 0, 0],
        session_fd: None,
        session_mapped: false,
        sync_available: true,
        display_mutex: None,
        font_mutex: None,
        linger_hint: None,
        first_object_id: 1000,
        first_atom: 0xC000,
    });
    join(&mut el, 5, 100, 101);
    el.sync.eventfds = (700..740).collect();
    el.outbox.clear();
    el
}

fn join(el: &mut EventLoop, fd: i32, pid: u32, tid: u32) {
    let mut c = Client::new(fd + 1000);
    c.process_id = pid;
    c.thread_id = tid;
    c.reply_fd = Some(fd + 2000);
    c.wait_fd = Some(fd + 3000);
    el.clients.clients.insert(fd, c);
    if !el.objects.processes.contains_key(pid) {
        el.objects.processes.insert(
            pid,
            Process {
                handles: HandleTable::new(),
                threads: Vec::new(),
                exit_code: 0,
                startup_done: true,
                idle_signaled: false,
                exe_image_info: None,
            },
        );
    }
    el.objects.processes.get_mut(pid).unwrap().threads.push(tid);
    el.objects.threads.insert(tid, Thread { pid, suspend_count: 0 });
}

fn msg(ckey: u64) -> CompletionMsg {
    CompletionMsg { ckey, cvalue: ckey + 1, information: ckey + 2, status: 0 }
}

fn with_atom(name: &str) -> Vec<u8> {
    let mut b = vec![0u8; 64];
    b.extend(name.encode_utf16().flat_map(|u| u.to_le_bytes()));
    b
}

#[test]
fn messages_leave_a_port_in_order() {
    let mut el = server();
    let r = el.handle_create_completion(5);
    let port = word(&r, 8);
    assert_ne!(port, 0);
    for k in [10, 20] {
        let r = el.handle_add_completion(Some(AddCompletionRequest { handle: port, msg: msg(k) }));
        assert_eq!(word(&r, 0), 0);
    }
    assert_eq!(word(&el.handle_query_completion(Some(port)), 8), 2);
    let r = el.handle_remove_completion(5, Some(port));
    assert_eq!(word(&r, 0), 0);
    assert_eq!(long(&r, 8), 10);
    let r = el.handle_remove_completion(5, Some(port));
    assert_eq!(long(&r, 8), 20);
    assert_eq!(word(&el.handle_query_completion(Some(port)), 8), 0);
    assert_eq!(word(&el.handle_add_completion(None), 0), STATUS_INVALID_PARAMETER);
    assert_eq!(word(&el.handle_query_completion(None), 8), 0);
}

#[test]
fn a_waiter_is_served_first() {
    let mut el = server();
    el.sync.manual_events.push(60);
    let port = word(&el.handle_create_completion(5), 8);
    let r = el.handle_remove_completion(5, Some(port));
    assert_eq!(word(&r, 0), STATUS_PENDING);
    el.outbox.clear();
    el.handle_add_completion(Some(AddCompletionRequest { handle: port, msg: msg(7) }));
    assert!(el.outbox.iter().any(|a| matches!(a, Action::SetEvent { object: 60 })));
    assert_eq!(word(&el.handle_query_completion(Some(port)), 8), 0);
    let r = el.handle_get_thread_completion(5);
    assert_eq!(word(&r, 0), 0);
    assert_eq!(long(&r, 8), 7);
    let r = el.handle_get_thread_completion(5);
    assert_ne!(word(&r, 0), 0);
}

#[test]
fn a_file_is_bound_to_a_port() {
    let mut el = server();
    let r = el.handle_set_completion_info(5, Some(SetCompletionInfoRequest { handle: 4, chandle: 8, ckey: 9 }));
    assert_eq!(word(&r, 0), 0);
    assert_eq!(el.side_tables.completion_bindings.get((100, 4)), Some(&(8, 9)));
    assert_eq!(word(&el.handle_set_completion_info(5, None), 0), STATUS_INVALID_PARAMETER);
}

#[test]
fn a_job_counts_its_processes() {
    let mut el = server();
    join(&mut el, 6, 200, 201);
    let job = word(&el.handle_create_job(5), 8);
    let port = word(&el.handle_create_completion(5), 8);
    let r = el.handle_set_job_limits(5, Some(SetJobLimitsRequest { handle: job, limit_flags: 0x2000 }));
    assert_eq!(word(&r, 0), 0);
    let q = SetJobCompletionPortRequest { job, port, key: 77 };
    assert_eq!(word(&el.handle_set_job_completion_port(5, Some(q)), 0), 0);
    let process = el.allocate_in(100, HandleEntry::bare(100));
    let r = el.handle_assign_job(5, Some(AssignJobRequest { job, process }));
    assert_eq!(word(&r, 0), 0);
    let id = el.object_id(5, job).unwrap();
    let j = el.ports.jobs.get(id).unwrap();
    assert_eq!((j.num_processes, j.total_processes, j.limit_flags), (1, 1, 0x2000));
    assert_eq!(j.processes, vec![100]);
    let r = el.handle_remove_completion(5, Some(port));
    assert_eq!(long(&r, 8), 77);
    assert_eq!(word(&el.handle_assign_job(5, None), 0), STATUS_INVALID_PARAMETER);
}

#[test]
fn timers_fire_when_they_are_due() {
    let mut el = server();
    el.sync.manual_events.push(60);
    el.sync.auto_events.push(61);
    let t = word(&el.handle_create_timer(5), 8);
    let object = el.object_of(5, t).unwrap();
    let q = SetTimerRequest { handle: t, expire: -10, period: 5 };
    let r = el.handle_set_timer(5, Some(q), Some(0), 1000, 0);
    assert_eq!(word(&r, 0), 0);
    assert_eq!(el.ports.timers.len(), 1);
    assert_eq!(el.ports.timers[0].deadline, 2000);
    el.outbox.clear();
    el.check_nt_timers(1999);
    assert!(el.outbox.is_empty());
    el.check_nt_timers(2000);
    assert!(el.outbox.iter().any(|a| matches!(a, Action::SetEvent { object: o } if *o == object)));
    assert_eq!(el.ports.timers.len(), 1);
    assert!(el.ports.timers[0].deadline > 2000);
    let r = el.handle_cancel_timer(5, Some(t), Some(1));
    assert_eq!((word(&r, 0), word(&r, 8)), (0, 1));
    assert!(el.ports.timers.is_empty());
    assert_eq!(timer_deadline(-10, 1000, 0), 2000);
    assert_eq!(word(&EventLoop::handle_get_timer_info(false, None), 0), STATUS_INVALID_PARAMETER);
}

#[test]
fn kernel_objects_are_found_by_their_pointer() {
    let mut el = server();
    el.sync.manual_events.push(60);
    el.sync.auto_events.push(61);
    let m = word(&el.handle_create_device_manager(5), 8);
    let q = KernelObjectRequest { manager: m, handle: 44, user_ptr: 0xABCD };
    assert_eq!(word(&el.handle_set_kernel_object_ptr(5, Some(q)), 0), 0);
    assert_eq!(long(&el.handle_get_kernel_object_ptr(5, Some((m, 44))), 8), 0xABCD);
    assert_eq!(word(&el.handle_get_kernel_object_handle(5, Some((m, 0xABCD))), 8), 44);
    assert_eq!(word(&el.handle_release_kernel_object(5, Some((m, 0xABCD))), 0), 0);
    assert_ne!(word(&el.handle_get_kernel_object_handle(5, Some((m, 0xABCD))), 0), 0);
    assert_eq!(long(&el.handle_get_kernel_object_ptr(5, Some((m, 44))), 8), 0);
}

#[test]
fn debugging_and_fixed_answers() {
    let mut el = server();
    el.sync.manual_events.push(60);
    el.sync.auto_events.push(61);
    assert_ne!(word(&el.handle_create_debug_obj(5), 8), 0);
    assert_eq!(word(&handle_debug_process(false), 0), STATUS_INVALID_PARAMETER);
    assert_eq!(word(&handle_grab_kernel_object(true), 0), 0);
    assert_eq!(word(&handle_grab_kernel_object(false), 0), STATUS_INVALID_PARAMETER);
    assert_ne!(word(&handle_wait_debug_event(true), 0), STATUS_INVALID_PARAMETER);
    assert_eq!(word(&handle_continue_debug_event(None), 0), STATUS_INVALID_PARAMETER);
    let fixed = |name: &str| fixed_reply(name).map(|r| word(&r, 0));
    assert_eq!(fixed("flush"), Some(0));
    assert_eq!(fixed("add_mapping_committed_range"), Some(0));
    assert_eq!(fixed("open_timer"), Some(STATUS_OBJECT_NAME_NOT_FOUND));
    assert_eq!(fixed("get_next_device_request"), Some(STATUS_PENDING));
    assert_eq!(fixed("get_directory_cache_entry"), Some(0x8000_001A));
    assert_eq!(fixed("get_image_view_info"), Some(0xC000_0141));
    assert_eq!(fixed("select"), None);
}

#[test]
fn windows_get_their_first_state() {
    let mut el = server();
    let mut b = vec![0u8; 64];
    b[12] = 0x22;
    let before = el.desktop.window_states.len();
    let r = el.handle_init_window_info(&b);
    assert_eq!(word(&r, 0), 0);
    assert!(el.desktop.window_states.len() >= before);
}

#[test]
fn atoms_stand_for_names() {
    let mut a = Atoms::new(0xC000);
    let one = word(&a.handle_add_atom(&with_atom("One")), 8);
    let two = word(&a.handle_add_user_atom(&with_atom("Two")), 8);
    assert_ne!(one, two);
    assert_eq!(word(&a.handle_add_atom(&with_atom("One")), 8), one);
    assert_eq!(word(&a.handle_find_atom(&with_atom("One")), 8), one);
    assert_eq!(word(&a.handle_find_atom(&with_atom("Three")), 0), STATUS_OBJECT_NAME_NOT_FOUND);
    let mut q = vec![0u8; 64];
    q[8] = 4;
    let r = a.handle_get_atom_information(&q, Some(one));
    assert_eq!(word(&r, 4), 4);
    assert_eq!(word(&r, 8), 2);
    assert_eq!(word(&r, 16), 6);
    assert_eq!(bytes_of(&r)[64..], [b'O', 0, b'n', 0]);
    assert_eq!(word(&a.handle_delete_atom(Some(one)), 0), 0);
    assert_eq!(word(&a.handle_find_atom(&with_atom("One")), 8), one);
    assert_eq!(word(&a.handle_delete_atom(Some(one)), 0), 0);
    assert_eq!(word(&a.handle_find_atom(&with_atom("One")), 0), STATUS_OBJECT_NAME_NOT_FOUND);
    assert_eq!(word(&a.handle_find_atom(&with_atom("Two")), 8), two);
    assert_eq!(word(&a.handle_get_atom_information(&q, Some(one)), 0), STATUS_INVALID_HANDLE);
    assert_eq!(word(&a.handle_get_atom_information(&q, None), 0), STATUS_INVALID_PARAMETER);
    assert_eq!(word(&a.handle_delete_atom(None), 0), STATUS_INVALID_PARAMETER);
}

#[test]
fn fresh_events_come_from_their_stock() {
    let mut el = server();
    el.sync.auto_events.push(60);
    el.sync.manual_set_events.push(61);
    assert_eq!(el.get_or_create_event(true, true), Some(61));
    assert_eq!(el.get_or_create_event(true, true), None);
    assert_eq!(el.get_or_create_event(false, false), Some(60));
    el.insert_recyclable_event(100, 44, 60, SYNC_EVENT);
    assert!(el.sync.recyclable.contains_key((100, 44)));
    el.sync.objects.insert((100, 48), SyncObject { fd: 62, kind: SYNC_EVENT });
    el.outbox.clear();
    el.signal_all(&vec![(100, 44), (100, 48), (100, 52)]);
    assert_eq!(el.outbox.len(), 2);
}
