use triskelion::access::{map_file_access, FILE_ALL_ACCESS, FILE_GENERIC_READ, GENERIC_ALL, GENERIC_READ};
use triskelion::boot::Boot;
use triskelion::files::{
    file_object, handle_create_file, open_attempts, pipe_step, write_next, Attempt, CreateFileRequest, FileFacts, FileStat,
    FileStep, GotRead, ObjectToOpen, ReadStep, WriteGot, WriteNext, WriteStep, Wrote,
};
use triskelion::handles::{handle_query_symlink, DupHandleRequest, FdStep};
use triskelion::mappings::{
    handle_get_mapping_committed_range, handle_map_view, handle_unmap_view, nt_name_of,
    CreateMappingRequest, MadeMapping, MappingSource, OpenedMapping, SectionNeeds,
};
use triskelion::objects::{HandleEntry, HandleTable, Process, Thread, FD_TYPE_FILE, FD_TYPE_PIPE};
use triskelion::pe::{
    pe_clr_offset, pe_header_fits, pe_info_bytes, pe_is_image, pe_sections_fit, read_pe_image_info,
    shared_sections, HEAD_SIZE,
};
use triskelion::registry::{
    create_key_reply, created_notice, delete_key_reply, delete_key_value_reply, enum_key_reply,
    enum_key_value_reply, get_key_value_reply, handle_create_key, handle_delete_key,
    handle_delete_key_value, handle_enum_key, handle_enum_key_value, handle_get_key_value, handle_open_key,
    handle_set_key_value, open_key_reply, query_key_reply, set_key_value_reply, value_to_set, KeyFacts,
    RegistryStep, SetKeyValueRequest, Subkey, Value, NOTIFY_NAME, NOTIFY_VALUE,
};
use triskelion::state::{Action, Client, EventLoop, SyncObject, SYNC_EVENT};
use triskelion::token::{handle_access_check, handle_get_token_info};
use triskelion::wire::{
    Reply, STATUS_ACCESS_DENIED, STATUS_BUFFER_TOO_SMALL, STATUS_INVALID_HANDLE, STATUS_INVALID_PARAMETER,
    STATUS_NO_MORE_ENTRIES, STATUS_OBJECT_NAME_NOT_FOUND, STATUS_PENDING, STATUS_PIPE_BROKEN,
};

fn bytes_of(r: &Reply) -> Vec<u8> {
    match r {
        Reply::Fixed { buf, len } => buf[..*len].to_vec(),
        Reply::Vararg(v) => v.clone(),
    }
}

fn word(r: &Reply, at: usize) -> u32 {
    let b = bytes_of(r);
    u32::from_le_bytes([b[at], b[at + 1], b[at + 2], b[at + 3]])
}

fn long(r: &Reply, at: usize) -> u64 {
    word(r, at) as u64 | (word(r, at + 4) as u64) << 32
}

/// A daemon with one process, 100, of one thread, 101, whose client is 5.
fn server() -> EventLoop {
    let (mut el, _) = EventLoop::new(Boot {
        user_sid: vec![1, 1, 0, 0, 0, 0, 0, 5, 18, 0, 0, 0],
        session_fd: None,
        session_mapped: false,
        sync_available: true,
        display_mutex: None,
        font_mutex: None,
        linger_hint: None,
        first_object_id: 1000,
        first_atom: 0xC000,
    });
    join(&mut el, 5, 100, 101);
    el.sync.eventfds = (700..740).collect();
    el.outbox.clear();
    el
}

fn join(el: &mut EventLoop, fd: i32, pid: u32, tid: u32) {
    let mut c = Client::new(fd + 1000);
    c.process_id = pid;
    c.thread_id = tid;
    c.reply_fd = Some(fd + 2000);
    c.wait_fd = Some(fd + 3000);
    el.clients.clients.insert(fd, c);
    if !el.objects.processes.contains_key(pid) {
        el.objects.processes.insert(
            pid,
            Process {
                handles: HandleTable::new(),
                threads: Vec::new(),
                exit_code: 0,
                startup_done: true,
                idle_signaled: false,
                exe_image_info: None,
            },
        );
    }
    el.objects.processes.get_mut(pid).unwrap().threads.push(tid);
    el.objects.threads.insert(tid, Thread { pid, suspend_count: 0 });
}

fn async_of(handle: u32) -> [u8; 40] {
    let mut a = [0u8; 40];
    a[..4].copy_from_slice(&handle.to_le_bytes());
    a
}

/// A request with room for an answer and object attributes with a name, then a path.
fn opening(name: &str, path: &[u8], room: u32) -> Vec<u8> {
    let n: Vec<u8> = name.encode_utf16().flat_map(|u| u.to_le_bytes()).collect();
    let mut b = vec![0u8; 64 + 12];
    b[8..12].copy_from_slice(&room.to_le_bytes());
    b.extend_from_slice(&(n.len() as u32).to_le_bytes());
    b.extend_from_slice(&n);
    while (b.len() - 64) % 4 != 0 {
        b.push(0);
    }
    b.extend_from_slice(path);
    b
}

fn file(el: &mut EventLoop, fd: i32) -> u32 {
    word(&el.create_file_handle(5, fd, Some(0o100644), GENERIC_READ, 0x20), 8)
}

/// A 64-bit image with one section that is shared.
fn image() -> Vec<u8> {
    let mut b = vec![0u8; HEAD_SIZE];
    b[0] = b'M';
    b[1] = b'Z';
    b[0x3C] = 0x80;
    b[0x80] = b'P';
    b[0x81] = b'E';
    b[0x84..0x86].copy_from_slice(&0x8664u16.to_le_bytes());
    b[0x86] = 1;
    b[0x94..0x96].copy_from_slice(&240u16.to_le_bytes());
    b[0x96..0x98].copy_from_slice(&0x2022u16.to_le_bytes());
    let o = 0x98;
    b[o..o + 2].copy_from_slice(&0x20Bu16.to_le_bytes());
    b[o + 16..o + 20].copy_from_slice(&0x1234u32.to_le_bytes());
    b[o + 24..o + 32].copy_from_slice(&0x1_4000_0000u64.to_le_bytes());
    b[o + 32..o + 36].copy_from_slice(&0x1000u32.to_le_bytes());
    b[o + 56..o + 60].copy_from_slice(&0x5000u32.to_le_bytes());
    b[o + 60..o + 64].copy_from_slice(&0x400u32.to_le_bytes());
    b[o + 68..o + 70].copy_from_slice(&3u16.to_le_bytes());
    b[o + 72..o + 80].copy_from_slice(&0x10_0000u64.to_le_bytes());
    let s = o + 240;
    b[s + 8..s + 12].copy_from_slice(&0x1800u32.to_le_bytes());
    b[s + 12..s + 16].copy_from_slice(&0x1000u32.to_le_bytes());
    b[s + 16..s + 20].copy_from_slice(&0x200u32.to_le_bytes());
    b[s + 20..s + 24].copy_from_slice(&0x600u32.to_le_bytes());
    b[s + 36..s + 40].copy_from_slice(&0x9000_0000u32.to_le_bytes());
    b
}

#[test]
fn generic_rights_become_specific() {
    assert_eq!(map_file_access(GENERIC_READ), FILE_GENERIC_READ);
    assert_eq!(map_file_access(GENERIC_ALL), FILE_ALL_ACCESS);
    assert_eq!(map_file_access(0x0012_0089), 0x0012_0089);
    assert_eq!(map_file_access(0xF000_0000) >> 28, 0);
}

#[test]
fn the_header_of_an_image() {
    let b = image();
    assert!(pe_is_image(&b, 4096));
    assert!(pe_header_fits(&b, 4096));
    assert!(pe_sections_fit(&b, 4096));
    assert!(pe_sections_fit(&vec![0; HEAD_SIZE], 4096));
    let mut late = vec![0u8; HEAD_SIZE];
    late[..2].copy_from_slice(b"MZ");
    late[0x3C..0x40].copy_from_slice(&4060u32.to_le_bytes());
    late[4060..4062].copy_from_slice(b"PE");
    assert!(!pe_sections_fit(&late, 4096));
    assert!(!pe_is_image(&b, 100));
    assert!(!pe_is_image(&vec![0; HEAD_SIZE], 4096));
    assert_eq!(pe_clr_offset(&b, 4096), None);
    let (i, _) = read_pe_image_info(&b, 4096, &[], 0x800).unwrap();
    assert_eq!(i.base, 0x1_4000_0000);
    assert_eq!(i.machine, 0x8664);
    assert_eq!((i.entry_point, i.map_size, i.subsystem), (0x1234, 0x5000, 3));
    assert_eq!((i.header_size, i.header_map_size, i.file_size), (0x400, 0x1000, 0x800));
    assert_eq!(i.stack_size, 0x10_0000);
    assert_eq!(i.image_charact, 0x2022);
    let bytes = pe_info_bytes(&i);
    assert_eq!(bytes[..8], 0x1_4000_0000u64.to_le_bytes());
    assert!(read_pe_image_info(&vec![0; HEAD_SIZE], 4096, &[], 0).is_none());
}

#[test]
fn modules_of_wine_are_told_by_their_marks() {
    let flags = |mark: &[u8], n: usize| {
        let mut b = image();
        b[0x40..0x40 + mark.len()].copy_from_slice(mark);
        let (i, size) = read_pe_image_info(&b, n, &[], 0).unwrap();
        assert_eq!(size, i.map_size as u64);
        i.image_flags_byte
    };
    assert_eq!(flags(b"", 4096), 1);
    assert_eq!(flags(b"Wine builtin DLL", 4096), 3);
    assert_eq!(flags(b"Wine placeholder DLL", 4096), 5);
    assert_eq!(flags(b"Wine something else", 4096), 1);
}

#[test]
fn a_managed_image_is_told_by_its_flags() {
    let mut b = image();
    let o = 0x98;
    b[o + 108..o + 112].copy_from_slice(&16u32.to_le_bytes());
    let e = o + 112 + 112;
    b[e..e + 4].copy_from_slice(&0x1010u32.to_le_bytes());
    b[e + 4..e + 8].copy_from_slice(&72u32.to_le_bytes());
    assert_eq!(pe_clr_offset(&b, 4096), Some(0x610));
    let mut clr = vec![0u8; 20];
    clr[16] = 1;
    let (i, _) = read_pe_image_info(&b, 4096, &clr, 0x800).unwrap();
    assert_eq!(i.image_flags, 3);
    assert_eq!(i.loader_flags, 1);
}

#[test]
fn shared_sections_stand_in_one_memory() {
    let (parts, total) = shared_sections(&image(), 4096).unwrap();
    assert_eq!(parts.len(), 1);
    assert_eq!((parts[0].at, parts[0].raw_at, parts[0].size), (0, 0x600, 0x200));
    assert_eq!(total, 0x2000);
    let mut b = image();
    b[0x98 + 240 + 39] = 0x10;
    assert!(shared_sections(&b, 4096).is_none());
}

#[test]
fn a_path_is_opened_and_a_name_is_a_pipe() {
    let q = || Some(CreateFileRequest { access: 0x4000_0000, options: 0, create: 3 });
    match handle_create_file(&opening("x", b"/tmp/a\0\0", 0), q()) {
        FileStep::Open { path, write, create } => {
            assert_eq!(path, "/tmp/a");
            assert!(write && create);
        }
        _ => panic!("a file"),
    }
    let dir = Some(CreateFileRequest { access: 0, options: 1, create: 1 });
    match handle_create_file(&opening("x", b"/tmp", 0), dir) {
        FileStep::OpenDir { path, create } => {
            assert_eq!(path, "/tmp");
            assert!(!create);
        }
        _ => panic!("a directory"),
    }
    match handle_create_file(&opening("\\Device\\NamedPipe\\Lsass", b"", 0), q()) {
        FileStep::Pipe { name } => assert_eq!(name, "lsass"),
        _ => panic!("a pipe"),
    }
    match handle_create_file(&opening("", b"\xFF\xFE", 0), q()) {
        FileStep::Done(r) => assert_eq!(word(&r, 0), STATUS_OBJECT_NAME_NOT_FOUND),
        _ => panic!("no path"),
    }
    match handle_create_file(&[0; 64], None) {
        FileStep::Done(r) => assert_eq!(word(&r, 0), STATUS_INVALID_PARAMETER),
        _ => panic!("no request"),
    }
    assert_eq!(open_attempts(true, true), vec![Attempt::ReadWrite, Attempt::Create, Attempt::ReadOnly]);
    assert_eq!(open_attempts(false, false), vec![Attempt::ReadOnly, Attempt::ReadOnly]);
}

#[test]
fn an_opened_file_has_a_handle() {
    let mut el = server();
    let h = file(&mut el, 30);
    let e = el.handle_entry(100, h).unwrap();
    assert_eq!((e.fd, e.obj_type, e.access), (Some(30), FD_TYPE_FILE, FILE_GENERIC_READ));
    assert_eq!(el.fd_of_handle(5, h), Some(30));
    assert_eq!(el.fd_of_handle(5, h + 4), None);
    let r = el.file_opened(5, GENERIC_READ, 0, None);
    assert_eq!(word(&r, 0), STATUS_OBJECT_NAME_NOT_FOUND);
    let r = el.open_pipe(5, "nothing", 0, 0, None);
    assert_eq!(word(&r, 0), STATUS_OBJECT_NAME_NOT_FOUND);
    assert_eq!(word(&el.open_pipe_root(5, 0, 0), 0), 0);
    assert!(matches!(file_object(&[0; 64]), ObjectToOpen::Unknown));
    assert_eq!(word(&el.handle_open_file_object(5, &[0; 64], None, None), 0), STATUS_INVALID_PARAMETER);
    let r = el.handle_open_file_object(5, &[0; 64], Some((0, 0)), None);
    assert_eq!(word(&r, 0), STATUS_OBJECT_NAME_NOT_FOUND);
    let mut b = vec![0u8; 64];
    b.extend("\\??\\pipe\\".encode_utf16().flat_map(|u| u.to_le_bytes()));
    let r = el.handle_open_file_object(5, &b, Some((0, 0)), None);
    assert_eq!(word(&r, 0), 0);
    assert_ne!(word(&r, 8), 0);
    b.extend("none".encode_utf16().flat_map(|u| u.to_le_bytes()));
    let r = el.handle_open_file_object(5, &b, Some((0, 0)), None);
    assert_eq!(word(&r, 0), STATUS_OBJECT_NAME_NOT_FOUND);
}

#[test]
fn the_pipe_that_a_request_without_a_path_asks_for() {
    assert!(matches!(pipe_step("\\device\\namedpipe\\x"), FileStep::Pipe { name } if name == "x"));
    match pipe_step("\\device\\namedpipe\\") {
        FileStep::Done(r) => assert_eq!(word(&r, 0), STATUS_OBJECT_NAME_NOT_FOUND),
        _ => panic!("a pipe without a name"),
    }
}

#[test]
fn a_sent_descriptor_is_taken_once() {
    let mut el = server();
    el.deposit_fds(5, vec![(101, 7, 44)]);
    assert_eq!(el.take_inflight_fd(5, 8), None);
    assert_eq!(el.take_inflight_fd(5, 7), Some(44));
    assert_eq!(el.take_inflight_fd(5, 7), None);
    el.deposit_fds(5, vec![(101, 9, 45)]);
    let r = el.handle_alloc_file_handle(5, Some((9, GENERIC_READ)));
    assert_eq!(el.fd_of_handle(5, word(&r, 8)), Some(45));
    assert_eq!(word(&el.handle_alloc_file_handle(5, None), 0), STATUS_INVALID_PARAMETER);
}

#[test]
fn a_read_answers_with_its_data() {
    let mut el = server();
    let h = file(&mut el, 30);
    let mut buf = vec![0u8; 64];
    buf[8] = 16;
    match el.handle_read(5, &buf, Some(async_of(h))) {
        ReadStep::Read { fd, max, socket } => assert_eq!((fd, max, socket), (30, 16, false)),
        ReadStep::Done(_) => panic!("the file is open"),
    }
    let r = el.read_done(5, async_of(h), 16, GotRead::Data(vec![1, 2, 3]));
    assert_eq!((word(&r, 0), word(&r, 4)), (0, 3));
    assert_eq!(bytes_of(&r)[64..], [1, 2, 3]);
    match el.handle_read(5, &buf, Some(async_of(h + 40))) {
        ReadStep::Done(r) => assert_eq!(word(&r, 0), STATUS_INVALID_HANDLE),
        ReadStep::Read { .. } => panic!("no such handle"),
    }
    match el.handle_read(5, &buf, None) {
        ReadStep::Done(r) => assert_eq!(word(&r, 0), STATUS_INVALID_PARAMETER),
        ReadStep::Read { .. } => panic!("no request"),
    }
}

#[test]
fn a_pipe_without_data_is_read_later() {
    let mut el = server();
    el.sync.auto_events.push(60);
    let h = el.allocate_in(100, HandleEntry::with_fd(7, 31, FD_TYPE_PIPE, 0, 0));
    let r = el.read_done(5, async_of(h), 16, GotRead::Closed);
    assert_eq!(word(&r, 0), STATUS_PIPE_BROKEN);
    let r = el.read_done(5, async_of(h), 16, GotRead::Empty);
    assert_eq!(word(&r, 0), STATUS_PENDING);
    let r = el.read_done(5, async_of(h), 16, GotRead::Failed);
    assert_ne!(word(&r, 0), 0);
}

#[test]
fn a_write_tells_how_much_it_wrote() {
    let mut el = server();
    let h = file(&mut el, 30);
    match el.handle_write(5, &[0; 70], Some(async_of(h))) {
        WriteStep::Write { fd } => assert_eq!(fd, 30),
        WriteStep::Done(_) => panic!("the file is open"),
    }
    let (r, poll) = el.write_done(5, async_of(h), Wrote { bytes: 6, failed: false });
    assert_eq!((word(&r, 0), word(&r, 16), poll), (0, 6, false));
    let (r, _) = el.write_done(5, async_of(h), Wrote { bytes: 2, failed: true });
    assert_ne!(word(&r, 0), 0);
    assert_eq!(word(&r, 16), 2);
}

#[test]
fn facts_about_a_file() {
    let mut el = server();
    let h = file(&mut el, 30);
    let f = FileFacts {
        stat: Some(FileStat { size: 1000, blocks: 8, mode: 0o100644, links: 2 }),
        position: 77,
        path: None,
    };
    let mut buf = vec![0u8; 64];
    buf[8] = 100;
    let r = el.handle_get_file_info(5, &buf, Some((h, 5)), &f);
    let b = bytes_of(&r);
    assert_eq!(word(&r, 0), 0);
    assert_eq!(b[64..72], 4096u64.to_le_bytes());
    assert_eq!(b[72..80], 1000u64.to_le_bytes());
    assert_eq!(b[80..84], 2u32.to_le_bytes());
    let r = el.handle_get_file_info(5, &buf, Some((h, 8)), &f);
    assert_eq!(bytes_of(&r)[64..68], FILE_GENERIC_READ.to_le_bytes());
    let r = el.handle_get_file_info(5, &buf, Some((h, 14)), &f);
    assert_eq!(bytes_of(&r)[64..72], 77u64.to_le_bytes());
    let r = el.handle_get_file_info(5, &buf, None, &f);
    assert_eq!(word(&r, 0), STATUS_INVALID_PARAMETER);
    let r = el.handle_set_fd_eof_info(5, Some((h, 512)));
    assert_eq!(word(&r, 0), 0);
    assert!(el.outbox.iter().any(|a| matches!(a, Action::Truncate { fd: 30, len: 512 })));
}

#[test]
fn a_closed_handle_stands_for_nothing() {
    let mut el = server();
    let h = file(&mut el, 30);
    el.side_tables.fd_sent.insert((100, h), ());
    assert_eq!(word(&el.handle_close_handle(5, Some(h)), 0), 0);
    assert!(el.handle_entry(100, h).is_none());
    assert!(el.side_tables.fd_sent.get((100, h)).is_none());
    assert_eq!(word(&el.handle_close_handle(5, None), 0), 0);
}

#[test]
fn a_write_takes_all_or_fails() {
    let count = |bytes| WriteGot::Count { bytes };
    let end = |bytes, failed| WriteNext::End { wrote: Wrote { bytes, failed } };
    assert_eq!(write_next(0, 10, count(4)), WriteNext::Go { done: 4 });
    assert_eq!(write_next(4, 10, count(6)), end(10, false));
    assert_eq!(write_next(4, 10, WriteGot::Full), WriteNext::Again { done: 4 });
    assert_eq!(write_next(4, 10, count(0)), end(4, true));
    assert_eq!(write_next(4, 10, WriteGot::Failed), end(4, true));
    assert_eq!(write_next(10, 10, count(0)), end(10, false));
}

#[test]
fn a_descriptor_is_sent_for_a_handle() {
    let mut el = server();
    let h = file(&mut el, 30);
    assert!(matches!(el.handle_get_handle_fd(5, Some(h)), FdStep::Duplicate { fd: 30 }));
    let r = el.send_handle_fd(5, h, -1);
    assert_eq!(word(&r, 0), 0xC000_0017);
    assert_eq!(el.clients.clients.get(5).unwrap().pending_fd, None);
    assert!(!el.side_tables.fd_sent.contains_key((100, h)));
    let r = el.send_handle_fd(5, h, 90);
    assert_eq!(word(&r, 0), 0);
    assert_eq!(el.clients.clients.get(5).unwrap().pending_fd, Some((90, h)));
    match el.handle_get_handle_fd(5, Some(h + 400)) {
        FdStep::Done(r) => assert_ne!(word(&r, 0), 0),
        FdStep::Duplicate { .. } => panic!("no such handle"),
    }
}

#[test]
fn a_duplicate_stands_for_the_same_object() {
    let mut el = server();
    let h = file(&mut el, 30);
    let q = || DupHandleRequest { src_process: u32::MAX, src_handle: h, dst_process: u32::MAX, access: 0, options: 2 };
    let needs = el.handle_to_dup(5, q()).unwrap();
    assert_eq!(needs.fd, Some(30));
    let r = el.handle_dup_handle(5, Some(q()), 91, None);
    let d = word(&r, 8);
    assert_ne!(d, h);
    assert_eq!(el.handle_entry(100, d).unwrap().object_id, el.handle_entry(100, h).unwrap().object_id);
    assert_eq!(el.handle_entry(100, d).unwrap().fd, Some(91));
    assert_eq!(word(&el.handle_compare_objects(5, Some((h, d))), 0), 0);
    let other = file(&mut el, 32);
    assert_ne!(word(&el.handle_compare_objects(5, Some((h, other))), 0), 0);
    assert_eq!(word(&el.handle_dup_handle(5, None, -1, None), 0), STATUS_INVALID_PARAMETER);
}

#[test]
fn a_duplicate_without_room_is_no_handle() {
    let mut el = server();
    let h = file(&mut el, 30);
    el.sync.objects.insert((100, h), SyncObject { fd: 60, kind: SYNC_EVENT });
    let q = |dst_process| DupHandleRequest { src_process: u32::MAX, src_handle: h, dst_process, access: 0, options: 2 };
    let needs = el.handle_to_dup(5, q(u32::MAX)).unwrap();
    assert_eq!((needs.fd, needs.object), (Some(30), Some(60)));
    let nowhere = file(&mut el, 31);
    let needs = el.handle_to_dup(5, q(nowhere)).unwrap();
    assert_eq!((needs.fd, needs.object), (Some(30), None));
    el.outbox.clear();
    let r = el.handle_dup_handle(5, Some(q(nowhere)), 91, None);
    assert_eq!((word(&r, 0), word(&r, 8)), (0, 0));
    assert!(el.outbox.is_empty());
}

#[test]
fn names_of_objects() {
    let mut el = server();
    let h = file(&mut el, 30);
    let mut buf = vec![0u8; 64];
    buf[8] = 200;
    let r = el.handle_get_object_name(5, &buf, Some(h), &Some("/tmp/a".to_string()));
    assert_eq!(word(&r, 0), 0);
    assert!(bytes_of(&r).len() > 64);
    let r = el.handle_get_handle_unix_name(5, &buf, Some(h), &Some(b"/tmp/a".to_vec()));
    assert_eq!(bytes_of(&r)[64..], *b"/tmp/a");
    let r = el.handle_get_object_info(5, Some(h));
    assert_eq!(word(&r, 0), 0);
    assert_ne!(word(&el.handle_open_directory(5), 8), 0);
    assert_ne!(word(&el.handle_create_symlink(5), 8), 0);
    assert_ne!(word(&handle_query_symlink(), 0), 1);
    let a = long(&el.handle_allocate_locally_unique_id(), 8);
    let b = long(&el.handle_allocate_locally_unique_id(), 8);
    assert_ne!(a, b);
    let r = el.handle_set_handle_info(5, Some((h, 1, 1)));
    assert_eq!(word(&r, 0), 0);
}

#[test]
fn the_room_that_was_told_suffices() {
    let el = server();
    let mut buf = vec![0u8; 64];
    let r = el.handle_get_token_sid(&buf, true);
    assert_eq!(word(&r, 0), STATUS_BUFFER_TOO_SMALL);
    let n = word(&r, 8);
    buf[8..12].copy_from_slice(&n.to_le_bytes());
    let r = el.handle_get_token_sid(&buf, true);
    assert_eq!(word(&r, 0), 0);
    assert_eq!(bytes_of(&r)[64..], el.user_sid[..]);
    assert_eq!(word(&el.handle_get_token_sid(&buf, false), 0), STATUS_INVALID_PARAMETER);
    assert_eq!(word(&handle_get_token_info(), 0), 0);
    assert_eq!(word(&handle_access_check(), 0), 0);
    let mut el = server();
    assert_ne!(word(&el.handle_open_token(5), 8), 0);
}

#[test]
fn a_section_of_memory() {
    let mut el = server();
    let req = || CreateMappingRequest { access: 0, flags: 0x0800_0000, file_access: 0, size: 8192, file_handle: 0 };
    assert!(matches!(el.mapping_source(5, req()), MappingSource::Memory { size: 8192 }));
    let made = MadeMapping {
        fd: 50,
        file_size: Some(8192),
        image: None,
        nt_name: None,
        shared_fd: None,
        name_fd: 51,
        handle_fd: 52,
    };
    let r = el.handle_create_mapping(5, &opening("\\BaseNamedObjects\\Shared", b"", 0), Some(req()), made);
    assert_eq!(word(&r, 0), 0);
    let h = word(&r, 8);
    assert_ne!(h, 0);
    let mut open = vec![0u8; 64];
    open.extend("shared".encode_utf16().flat_map(|u| u.to_le_bytes()));
    assert!(matches!(el.mapping_to_open(&open), OpenedMapping::Known { .. }));
    assert!(matches!(el.mapping_to_open(&[0; 64]), OpenedMapping::Unknown));
    let nameless = MadeMapping {
        fd: 60,
        file_size: Some(8192),
        image: None,
        nt_name: None,
        shared_fd: None,
        name_fd: 61,
        handle_fd: 62,
    };
    el.outbox.clear();
    assert_eq!(word(&el.handle_create_mapping(5, &[0; 64], Some(req()), nameless), 0), 0);
    assert_eq!(el.outbox, vec![Action::Close { fd: 61 }]);
    assert!(matches!(el.mapping_named("\\kernelobjects\\__wine_user_shared_data"), OpenedMapping::UserSharedData));
    assert!(matches!(el.mapping_named("nothing"), OpenedMapping::Unknown));
    assert_eq!(word(&el.open_found(5, OpenedMapping::Unknown, 70, None), 0), STATUS_OBJECT_NAME_NOT_FOUND);
    let r = el.open_found(5, OpenedMapping::Known { object_id: 3, fd: 9 }, 70, None);
    let e = el.handle_entry(100, word(&r, 8)).unwrap();
    assert_eq!((e.object_id, e.fd), (3, Some(70)));
    assert!(matches!(el.mapping_info_needs(5, h), SectionNeeds::Nothing));
    let r = el.handle_get_mapping_info(5, &[0; 64], Some(h), 53, Some(8192));
    assert_eq!(word(&r, 0), 0);
    assert_eq!(word(&el.handle_create_mapping(5, &[0; 64], None, MadeMapping {
        fd: -1, file_size: None, image: None, nt_name: None, shared_fd: None, name_fd: -1, handle_fd: -1,
    }), 0), STATUS_INVALID_PARAMETER);
    assert_eq!(word(&handle_map_view(true), 0), 0);
    assert_eq!(word(&handle_unmap_view(false), 0), STATUS_INVALID_PARAMETER);
    assert_eq!(word(&handle_get_mapping_committed_range(None), 0), STATUS_INVALID_PARAMETER);
}

#[test]
fn images_keep_their_address() {
    let mut el = server();
    let r = el.handle_map_image_view(5, None);
    assert_eq!(word(&r, 0), STATUS_INVALID_PARAMETER);
    let r = el.handle_get_image_map_address(5, None);
    assert_eq!(word(&r, 0), STATUS_INVALID_PARAMETER);
    assert!(nt_name_of("/usr/lib/a.dll").is_some());
    assert_eq!(nt_name_of("pipe:[1]").unwrap()[..4], [b'p', 0, b'i', 0]);
    assert!(nt_name_of("").is_none());
}

#[test]
fn keys_of_the_registry() {
    let r = create_key_reply(7, true);
    assert_eq!((word(&r, 0), word(&r, 8)), (0, 7));
    let n = created_notice(3, true).unwrap();
    assert_eq!((n.hkey, n.change), (3, NOTIFY_NAME));
    assert!(created_notice(3, false).is_none());
    assert_eq!(word(&open_key_reply(Some(9)), 8), 9);
    assert_eq!(word(&open_key_reply(None), 0), STATUS_OBJECT_NAME_NOT_FOUND);
    let (r, n) = delete_key_reply(4, true);
    assert_eq!(word(&r, 0), 0);
    assert_eq!(n.unwrap().change, NOTIFY_NAME);
    let (r, n) = delete_key_value_reply(4, false);
    assert_eq!(word(&r, 0), STATUS_OBJECT_NAME_NOT_FOUND);
    assert!(n.is_none());
    let (_, n) = delete_key_value_reply(4, true);
    assert_eq!(n.unwrap().change, NOTIFY_VALUE);
}

/// The status of an answer that needs no look at the registry.
fn refused(step: RegistryStep) -> u32 {
    match step {
        RegistryStep::Done(r) => word(&r, 0),
        _ => panic!("the registry was asked"),
    }
}

#[test]
fn requests_to_the_registry() {
    let mut b = vec![0u8; 64];
    b[12..16].copy_from_slice(&7u32.to_le_bytes());
    b.extend_from_slice(&5u32.to_le_bytes());
    b.extend_from_slice(&[0; 8]);
    b.extend_from_slice(&4u32.to_le_bytes());
    b.extend_from_slice(b"k\0y\0");
    match handle_create_key(&b, true) {
        RegistryStep::Create { parent, name } => assert_eq!((parent, name), (5, b"k\0y\0".to_vec())),
        _ => panic!("no key is created"),
    }
    let mut b = vec![0u8; 64];
    b[12..16].copy_from_slice(&7u32.to_le_bytes());
    b.extend_from_slice(b"n\0v");
    match handle_open_key(&b, Some(3)) {
        RegistryStep::Open { parent, name } => assert_eq!((parent, name), (3, b"n\0v".to_vec())),
        _ => panic!("no key is opened"),
    }
    match handle_get_key_value(&b, Some(3)) {
        RegistryStep::Find { hkey, name } => assert_eq!((hkey, name), (3, b"n\0v".to_vec())),
        _ => panic!("no value is looked up"),
    }
    match handle_set_key_value(&b, Some(SetKeyValueRequest { hkey: 3, kind: 4, namelen: 2 })) {
        RegistryStep::Keep { hkey, value } => {
            assert_eq!((hkey, value.kind), (3, 4));
            assert_eq!((value.name, value.data), (b"n\0".to_vec(), b"v".to_vec()));
        },
        _ => panic!("no value is kept"),
    }
    let (r, n) = set_key_value_reply(3);
    assert_eq!((word(&r, 0), n.hkey, n.change), (0, 3, NOTIFY_VALUE));
    assert_eq!(refused(handle_set_key_value(&b, Some(SetKeyValueRequest { hkey: 3, kind: 4, namelen: 4 }))), 0);
    assert!(matches!(handle_enum_key_value(Some((3, 1))), RegistryStep::ValueAt { hkey: 3, index: 1 }));
    assert!(matches!(handle_enum_key(Some((3, 1))), RegistryStep::SubkeyAt { hkey: 3, index: 1 }));
    assert!(matches!(handle_enum_key(Some((3, -1))), RegistryStep::Query { hkey: 3 }));
    assert!(matches!(handle_delete_key(&b), RegistryStep::Delete { hkey: 7 }));
    match handle_delete_key_value(&b) {
        RegistryStep::DeleteValue { hkey, name } => assert_eq!((hkey, name), (7, b"n\0v".to_vec())),
        _ => panic!("no value is deleted"),
    }
}

#[test]
fn requests_to_the_registry_that_are_cut_short() {
    let b = vec![0u8; 64];
    assert_eq!(refused(handle_create_key(&b, false)), STATUS_INVALID_PARAMETER);
    assert_eq!(refused(handle_open_key(&b, None)), STATUS_INVALID_PARAMETER);
    assert_eq!(refused(handle_get_key_value(&b, None)), STATUS_INVALID_PARAMETER);
    assert_eq!(refused(handle_set_key_value(&b, None)), STATUS_INVALID_PARAMETER);
    assert_eq!(refused(handle_enum_key_value(None)), STATUS_INVALID_PARAMETER);
    assert_eq!(refused(handle_enum_key(None)), STATUS_INVALID_PARAMETER);
    assert_eq!(refused(handle_delete_key(&b)), STATUS_ACCESS_DENIED);
    assert_eq!(refused(handle_delete_key_value(&b)), STATUS_OBJECT_NAME_NOT_FOUND);
}

#[test]
fn values_of_the_registry() {
    let v = Some(Value { name: b"n\0".to_vec(), kind: 4, data: vec![1, 2, 3, 4] });
    let r = get_key_value_reply(&v, 10);
    assert_eq!((word(&r, 0), word(&r, 4), word(&r, 8)), (0, 4, 4));
    assert_eq!(bytes_of(&r)[64..], [1, 2, 3, 4]);
    assert_eq!(word(&get_key_value_reply(&None, 10), 0), STATUS_OBJECT_NAME_NOT_FOUND);
    assert_eq!(word(&enum_key_value_reply(&None, 10), 0), STATUS_NO_MORE_ENTRIES);
    assert_eq!(word(&enum_key_reply(&None, 10), 0), STATUS_NO_MORE_ENTRIES);
    let k = Some(Subkey { name: b"k\0".to_vec(), subkeys: 1, values: 2 });
    assert_eq!(bytes_of(&enum_key_reply(&k, 10))[64..], *b"k\0");
    let f = KeyFacts { subkeys: 1, values: 2, max_value: 3, max_data: 4, changed: 5 };
    assert_eq!(word(&query_key_reply(Some(f)), 0), 0);
    let mut b = vec![0u8; 64];
    b.extend_from_slice(b"ab\0\0data");
    let (name, data) = value_to_set(&b, 4).unwrap();
    assert_eq!((name, data), (b"ab\0\0".to_vec(), b"data".to_vec()));
    assert!(value_to_set(&b, 9).is_none());
}

#[test]
fn watchers_of_a_key_are_told() {
    let mut el = server();
    el.sync.objects.insert((100, 8), SyncObject { fd: 31, kind: SYNC_EVENT });
    el.outbox.clear();
    el.fire_registry_notifications(&vec![(100, 8), (100, 12)]);
    assert_eq!(el.outbox.len(), 1);
    assert!(matches!(el.outbox[0], Action::SetEvent { object: 31 }));
}
