//! The daemon at its start, and the display that it finds.
use crate::atoms::{atom_anew, Atoms};
use crate::bytes::{i32_bits, i32_bytes, lemma_read_back_u32, push_i32, u32_at, u32_bytes, zero_bytes, zeros};
use crate::display::{stores_view, DisplayData, Store};
use crate::names::NameTable;
use crate::session::{
    desktop_stores, guarded, handle_at, locator, object_stores, user_entry, window_data, Session,
    DESKTOP_LOCATOR_ID, NTUSER_OBJ_WINDOW, SESSION_SIZE, SHARED_OBJECT_STRIDE, USER_ENTRIES_SIZE,
};
use crate::side_tables::HandleSideTables;
use crate::state::{
    bumped, Clients, Desktop, EventLoop, MappingInfo, NamedObject, Objects, Pipes, Ports, Sync,
    SyncObject, WindowState, SYNC_MUTEX,
};
use crate::table::Table;
use crate::text::{
    byte_units, char_units, lemma_units_read_back, parse_u64, text_units, text_wire, u64_text, wire_of,
};
use vstd::prelude::*;

verus! {

/// A window that follows the resolution of its monitor.
pub const NTUSER_DPI_PER_MONITOR_AWARE: u32 = 0x12;

/// The style of the desktop's window.
pub const DESKTOP_STYLE: u32 = 0x9600_0000;

/// A mapping whose pages are there from the start.
pub const SEC_COMMIT: u32 = 0x0080_0000;

/// What the daemon starts with.
pub struct Boot {
    /// The security id of the user.
    pub user_sid: Vec<u8>,
    /// The session memory, where it could be made, and whether it is mapped.
    pub session_fd: Option<i32>,
    pub session_mapped: bool,
    /// The kernel has synchronisation objects.
    pub sync_available: bool,
    /// Mutexes that the display's and the fonts' start look for.
    pub display_mutex: Option<i32>,
    pub font_mutex: Option<i32>,
    /// The size of the program that will run, in bytes.
    pub linger_hint: Option<String>,
    pub first_object_id: u64,
    pub first_atom: u32,
}

/// The resolution without any display.
pub open spec fn default_size() -> (i32, i32) {
    (1920, 1080)
}

pub fn default_resolution() -> (r: (i32, i32))
    ensures
        r == default_size(),
{
    (1920, 1080)
}

/// How long the daemon lingers, in seconds: one for each MiB of the program, but at least 5 and at
/// most 30.
pub open spec fn linger_for(hint: Option<Seq<char>>) -> u64 {
    let bytes = match hint {
        Some(s) => match u64_text(s) {
            Some(n) => n,
            None => 0,
        },
        None => 0,
    };
    let mb = bytes / 1_048_576;
    if mb < 5 {
        5
    } else if mb > 30 {
        30
    } else {
        mb
    }
}

pub fn linger_seconds(hint: &Option<String>) -> (r: u64)
    ensures
        r == linger_for(
            match hint {
                Some(s) => Some(s@),
                None => None,
            },
        ),
        5 <= r <= 30,
{
    let bytes: u64 = match hint {
        Some(s) => match parse_u64(s.as_str()) {
            Some(n) => n,
            None => 0,
        },
        None => 0,
    };
    let mb: u64 = bytes / 1_048_576;
    if mb < 5 {
        5
    } else if mb > 30 {
        30
    } else {
        mb
    }
}

/// A rectangle from the origin to a size.
pub open spec fn rect_bytes(w: i32, h: i32) -> Seq<u8> {
    zeros(8) + i32_bytes(w) + i32_bytes(h)
}

fn rect_of(w: i32, h: i32) -> (r: [u8; 16])
    ensures
        r@ == rect_bytes(w, h),
{
    let mut v: Vec<u8> = zero_bytes(8);
    push_i32(&mut v, w);
    push_i32(&mut v, h);
    let mut r: [u8; 16] = [0u8; 16];
    let mut i: usize = 0;
    while i < 16
        invariant
            i <= 16,
            v@.len() == 16,
            forall|j: int| 0 <= j < i ==> r@[j] == v@[j],
        decreases 16 - i,
    {
        r[i] = v[i];
        i = i + 1;
    }
    assert(r@ =~= v@);
    r
}

/// A window of the daemon's own, with one rectangle for all purposes.
pub open spec fn own_window(w: WindowState, style: u32, rect: Seq<u8>) -> bool {
    &&& w.style == style
    &&& w.ex_style == 0
    &&& w.is_unicode == 1
    &&& w.owner == 0
    &&& w.parent == 0
    &&& w.tid == 0
    &&& w.id == 0
    &&& w.instance == 0
    &&& w.user_data == 0
    &&& w.dpi_context == NTUSER_DPI_PER_MONITOR_AWARE
    &&& w.window_rect@ == rect
    &&& w.client_rect@ == rect
    &&& w.visible_rect@ == rect
    &&& w.surface_rect@ == rect
    &&& w.paint_flags == 0
    &&& !w.needs_paint
    &&& w.window_text@.len() == 0
    &&& w.extra_bytes@.len() == 0
}

fn make_window(style: u32, rect: [u8; 16]) -> (w: WindowState)
    ensures
        own_window(w, style, rect@),
{
    WindowState {
        style,
        ex_style: 0,
        is_unicode: 1,
        owner: 0,
        parent: 0,
        tid: 0,
        id: 0,
        instance: 0,
        user_data: 0,
        dpi_context: NTUSER_DPI_PER_MONITOR_AWARE,
        window_rect: rect,
        client_rect: rect,
        visible_rect: rect,
        surface_rect: rect,
        paint_flags: 0,
        needs_paint: false,
        window_text: Vec::new(),
        extra_bytes: Vec::new(),
    }
}

/// Where the n-th object behind the desktop's stands.
pub open spec fn object_at(n: int) -> u64 {
    (USER_ENTRIES_SIZE + n * SHARED_OBJECT_STRIDE) as u64
}

/// What is stored for a window of the daemon's own: an object for its class, one for itself, its entry,
/// and then what its object holds. `n` is the number of the class's object, `index` its handle's place.
pub open spec fn window_stores(s: Session, n: int, index: int) -> Seq<(int, Seq<u8>)> {
    let class_at = object_at(n);
    let at = object_at(n + 1);
    let class_id = (DESKTOP_LOCATOR_ID + n) as u64;
    let id = (DESKTOP_LOCATOR_ID + n + 1) as u64;
    object_stores(s, class_at, class_id) + object_stores(s, at, id) + (if s.open {
        seq![(32 * index, user_entry(at, 0, 0, id, NTUSER_OBJ_WINDOW))]
    } else {
        Seq::empty()
    }) + (if s.mapped {
        guarded(
            at,
            0,
            window_data(at, locator(class_id, class_at), NTUSER_DPI_PER_MONITOR_AWARE),
        )
    } else {
        Seq::empty()
    })
}

/// What is stored for the desktop.
pub open spec fn screen_stores(s: Session) -> Seq<(int, Seq<u8>)> {
    if s.mapped {
        seq![
            (USER_ENTRIES_SIZE as int, crate::bytes::u64_bytes(0)),
            (USER_ENTRIES_SIZE + 8, crate::bytes::u64_bytes(DESKTOP_LOCATOR_ID)),
            (USER_ENTRIES_SIZE + 16, u32_bytes(0)),
            (USER_ENTRIES_SIZE + 40, u32_bytes(1920)),
            (USER_ENTRIES_SIZE + 44, u32_bytes(1080)),
            (USER_ENTRIES_SIZE + 304, crate::bytes::u64_bytes(1)),
        ]
    } else {
        Seq::empty()
    }
}

/// The display device that there is without a display.
pub open spec fn no_device() -> Seq<char> {
    "00000000-0000-0000-0000-000000000000"@
}

/// The property under which the desktop's window names its display device.
pub open spec fn device_property() -> Seq<char> {
    "__wine_display_device_guid"@
}

/// The objects at the start: the session memory, under its name.
pub open spec fn objects_at_start(o: Objects, boot: Boot) -> bool {
    let id = boot.first_object_id;
    &&& o.processes@.is_empty()
    &&& o.threads@.is_empty()
    &&& o.image_views@.is_empty()
    &&& o.info_handles@.is_empty()
    &&& o.kernel_objects@.is_empty()
    &&& match boot.session_fd {
        Some(fd) => {
            &&& o.next_object_id == bumped(bumped(id))
            &&& o.named_objects@ == Map::<Seq<char>, NamedObject>::empty().insert(
                "__wine_session"@,
                NamedObject { object_id: id, fd },
            )
            &&& o.mappings@ == Map::<u64, MappingInfo>::empty().insert(
                id,
                MappingInfo {
                    fd,
                    size: SESSION_SIZE,
                    flags: SEC_COMMIT,
                    pe_image_info: None,
                    nt_name: None,
                    shared_fd: None,
                },
            )
        },
        None => {
            &&& o.next_object_id == bumped(id)
            &&& o.named_objects@.is_empty()
            &&& o.mappings@.is_empty()
        },
    }
}

/// The synchronisation at the start: nothing but two mutexes under their names.
pub open spec fn sync_at_start(s: Sync, boot: Boot) -> bool {
    &&& s.available == boot.sync_available
    &&& s.auto_events@.len() == 0
    &&& s.auto_set_events@.len() == 0
    &&& s.manual_events@.len() == 0
    &&& s.manual_set_events@.len() == 0
    &&& s.eventfds@.len() == 0
    &&& s.objects@.is_empty()
    &&& s.recyclable@.is_empty()
    &&& s.created == 0
    &&& s.named@ == with_mutex(
        with_mutex(
            Map::empty(),
            "display_device_init"@,
            if boot.sync_available {
                boot.display_mutex
            } else {
                None
            },
        ),
        "__wine_font_mutex__"@,
        if boot.sync_available {
            boot.font_mutex
        } else {
            None
        },
    )
    &&& s.process_exit@.is_empty()
    &&& s.thread_exit@.is_empty()
    &&& s.alerts@.is_empty()
    &&& s.interrupts@.is_empty()
    &&& s.apc_flags@.is_empty()
    &&& s.deferred@.is_empty()
    &&& s.kernel_apcs@.is_empty()
    &&& s.idle_events@.is_empty()
    &&& s.pending_wakes@.is_empty()
    &&& s.shutdown_event is None
    &&& s.waits@.len() == 0
}

pub open spec fn with_mutex(m: Map<Seq<char>, SyncObject>, name: Seq<char>, fd: Option<i32>) -> Map<
    Seq<char>,
    SyncObject,
> {
    match fd {
        Some(fd) => m.insert(name, SyncObject { fd, kind: SYNC_MUTEX }),
        None => m,
    }
}

/// The desktop at the start: its window and its message window, which name no display device yet, and
/// the station of all processes that are not services.
pub open spec fn desktop_at_start(d: Desktop, boot: Boot) -> bool {
    let station = (if boot.session_fd is Some {
        bumped(boot.first_object_id)
    } else {
        boot.first_object_id
    }) as u32;
    let (top, msg) = (handle_at(0) as u32, handle_at(1) as u32);
    &&& d.desktop_top_window == top
    &&& d.desktop_msg_window == msg
    &&& d.window_states@.dom() == set![top, msg]
    &&& own_window(d.window_states@[top], DESKTOP_STYLE, rect_bytes(1920, 1080))
    &&& own_window(d.window_states@[msg], 0, zeros(16))
    &&& d.window_properties@ == Map::<(u32, u32), u64>::empty().insert(
        (top, (boot.first_atom + 1) as u32),
        boot.first_atom as u64,
    )
    &&& d.default_winstation == station
    &&& d.winstation_names@.dom() == set![station]
    &&& d.winstation_names@[station]@ == text_wire("WinSta0"@)
    &&& d.process_winstations@.is_empty()
    &&& d.clipboard_listeners@.is_empty()
    &&& d.timers_pending@.is_empty()
    &&& d.timers_expired@.is_empty()
    &&& d.caret_state@.is_empty()
    &&& d.next_timer_ids@.is_empty()
    &&& d.thread_quit_state@.is_empty()
    &&& d.desktop_ready
    &&& d.monitor_serial == 1
    &&& d.monitor_rect@ == rect_bytes(1920, 1080)
}

/// Ports, pipes and connections at the start: none.
pub open spec fn rest_at_start(e: EventLoop, boot: Boot) -> bool {
    &&& e.ports.queues@.is_empty()
    &&& e.ports.waiters@.is_empty()
    &&& e.ports.cache@.is_empty()
    &&& e.ports.jobs@.is_empty()
    &&& e.ports.process_job@.is_empty()
    &&& e.ports.timers@.len() == 0
    &&& e.pipes.named@.is_empty()
    &&& e.pipes.waiters@.is_empty()
    &&& e.pipes.unnamed_clients@.is_empty()
    &&& e.pipes.socket_pairs@.len() == 0
    &&& e.pipes.pending_reads@.is_empty()
    &&& e.pipes.completed_ioctls@.is_empty()
    &&& e.pipes.reads@.len() == 0
    &&& e.pipes.completed_reads@.len() == 0
    &&& e.side_tables.pipe_handles@.is_empty()
    &&& e.side_tables.io_wait_handles@.is_empty()
    &&& e.side_tables.fd_sent@.is_empty()
    &&& e.side_tables.completion_bindings@.is_empty()
    &&& e.clients.clients@.is_empty()
    &&& e.clients.msg_fd_map@.is_empty()
    &&& e.clients.inflight@.is_empty()
    &&& e.clients.pipe_watches@.len() == 0
    &&& e.clients.queue_watches@.len() == 0
    &&& e.clients.queue_rearms@.len() == 0
    &&& e.clients.system_pids@.is_empty()
    &&& e.clients.peak == 0
    &&& e.clients.total_requests == 0
    &&& e.clients.linger_deadline is None
    &&& e.clients.linger_secs == linger_for(
        match boot.linger_hint {
            Some(s) => Some(s@),
            None => None,
        },
    )
    &&& e.user_sid@ == boot.user_sid@
    &&& e.outbox@.len() == 0
}

/// The atoms at the start: the display device that there is not, and the property that names it.
pub open spec fn atoms_at_start(a: Atoms, first: u32) -> bool {
    &&& a.next == first + 2
    &&& a.atoms@.dom() == set![first, (first + 1) as u32]
    &&& a.atoms@[first].name@ == text_wire(no_device())
    &&& a.atoms@[first].count == 1
    &&& a.atoms@[(first + 1) as u32].name@ == text_wire(device_property())
    &&& a.atoms@[(first + 1) as u32].count == 1
    &&& a.find(byte_units(text_wire(no_device()))) == Some(first)
    &&& a.find(byte_units(text_wire(device_property()))) == Some((first + 1) as u32)
}

/// Two texts that end in different plain characters have different names on the wire.
proof fn lemma_ends_apart(a: Seq<char>, x: char, b: Seq<char>, y: char)
    requires
        x != y,
        (x as u32) < 0x1_0000,
        (y as u32) < 0x1_0000,
    ensures
        byte_units(text_wire(a.push(x))) != byte_units(text_wire(b.push(y))),
{
    lemma_units_read_back(text_units(a.push(x)));
    lemma_units_read_back(text_units(b.push(y)));
    assert(a.push(x).drop_last() =~= a);
    assert(b.push(y).drop_last() =~= b);
    assert(char_units(x) == seq![(x as u32) as u16]);
    assert(char_units(y) == seq![(y as u32) as u16]);
    assert(text_units(a.push(x)).last() == (x as u32) as u16);
    assert(text_units(b.push(y)).last() == (y as u32) as u16);
}

fn append_stores(out: &mut Vec<Store>, more: Vec<Store>)
    ensures
        stores_view(final(out)@) == stores_view(old(out)@) + stores_view(more@),
{
    let mut more = more;
    let ghost m = more@;
    out.append(&mut more);
    assert(stores_view(out@) =~= stores_view(old(out)@) + stores_view(m));
}

/// Makes a window of the daemon's own in the session memory: its handle, and what is stored.
fn own_handle(s: &mut Session, Ghost(n): Ghost<int>) -> (r: (u32, Vec<Store>))
    requires
        0 <= old(s).next_index < 100,
        old(s).free@.len() == 0,
        0 <= n < 100,
        old(s).next_offset == object_at(n),
        old(s).next_id == DESKTOP_LOCATOR_ID + n,
    ensures
        final(s).mapped == old(s).mapped,
        final(s).open == old(s).open,
        final(s).next_offset == object_at(n + 2),
        final(s).next_id == DESKTOP_LOCATOR_ID + n + 2,
        final(s).next_index == old(s).next_index + 1,
        final(s).free@.len() == 0,
        r.0 == handle_at(old(s).next_index),
        stores_view(r.1@) == window_stores(*old(s), n, old(s).next_index as int),
{
    let ghost s0 = *s;
    let (class, mut out) = s.alloc_shared_object();
    let at: u64 = s.next_offset;
    let (h, more) = s.alloc_user_handle(NTUSER_OBJ_WINDOW, 0, 0);
    append_stores(&mut out, more);
    let shm = s.set_window_shm(at, 0, class.as_slice(), NTUSER_DPI_PER_MONITOR_AWARE);
    append_stores(&mut out, shm);
    assert(stores_view(out@) =~= window_stores(s0, n, s0.next_index as int));
    (h, out)
}

fn start_sync(boot: &Boot) -> (s: Sync)
    ensures
        s.wf(),
        sync_at_start(s, *boot),
{
    let mut named: NameTable<SyncObject> = NameTable::new();
    if boot.sync_available {
        match boot.display_mutex {
            Some(fd) => {
                named.insert("display_device_init".to_string(), SyncObject { fd, kind: SYNC_MUTEX });
            },
            None => {},
        }
        match boot.font_mutex {
            Some(fd) => {
                named.insert("__wine_font_mutex__".to_string(), SyncObject { fd, kind: SYNC_MUTEX });
            },
            None => {},
        }
    }
    Sync {
        available: boot.sync_available,
        auto_events: Vec::new(),
        auto_set_events: Vec::new(),
        manual_events: Vec::new(),
        manual_set_events: Vec::new(),
        eventfds: Vec::new(),
        objects: Table::new(),
        recyclable: Table::new(),
        created: 0,
        named,
        process_exit: Table::new(),
        thread_exit: Table::new(),
        alerts: Table::new(),
        interrupts: Table::new(),
        apc_flags: Table::new(),
        deferred: Table::new(),
        kernel_apcs: Table::new(),
        idle_events: Table::new(),
        pending_wakes: Table::new(),
        shutdown_event: None,
        waits: Vec::new(),
    }
}

/// The objects at the start, and the number of the station's object.
fn start_objects(boot: &Boot) -> (r: (Objects, u64))
    ensures
        r.0.wf(),
        objects_at_start(r.0, *boot),
        r.1 == (if boot.session_fd is Some {
            bumped(boot.first_object_id)
        } else {
            boot.first_object_id
        }),
{
    let mut named_objects: NameTable<NamedObject> = NameTable::new();
    let mut mappings: Table<u64, MappingInfo> = Table::new();
    let mut next: u64 = boot.first_object_id;
    match boot.session_fd {
        Some(fd) => {
            let id: u64 = next;
            next = crate::state::bump(next);
            named_objects.insert("__wine_session".to_string(), NamedObject { object_id: id, fd });
            mappings.insert(
                id,
                MappingInfo {
                    fd,
                    size: SESSION_SIZE,
                    flags: SEC_COMMIT,
                    pe_image_info: None,
                    nt_name: None,
                    shared_fd: None,
                },
            );
        },
        None => {},
    }
    let station: u64 = next;
    next = crate::state::bump(next);
    (
        Objects {
            processes: Table::new(),
            threads: Table::new(),
            next_object_id: next,
            mappings,
            named_objects,
            image_views: Table::new(),
            info_handles: Table::new(),
            kernel_objects: Table::new(),
        },
        station,
    )
}

impl EventLoop {
    /// The daemon at its start, and what is to be stored in the session memory.
    #[verifier::rlimit(60)]
    pub fn new(boot: Boot) -> (r: (EventLoop, Vec<Store>))
        requires
            boot.first_atom < u32::MAX - 1,
        ensures
            r.0.wf(),
            objects_at_start(r.0.objects, boot),
            sync_at_start(r.0.sync, boot),
            desktop_at_start(r.0.desktop, boot),
            atoms_at_start(r.0.atoms, boot.first_atom),
            rest_at_start(r.0, boot),
            r.0.session.open == boot.session_fd is Some,
            r.0.session.mapped == (boot.session_fd is Some && boot.session_mapped),
            r.0.session.next_index == 2,
            r.0.session.next_offset == object_at(5),
            r.0.session.next_id == DESKTOP_LOCATOR_ID + 5,
            r.0.session.free@.len() == 0,
            stores_view(r.1@) == screen_stores(r.0.session) + window_stores(r.0.session, 1, 0)
                + window_stores(r.0.session, 3, 1),
    {
        let ghost b = boot;
        let sync = start_sync(&boot);
        let (objects, station) = start_objects(&boot);
        let linger_secs: u64 = linger_seconds(&boot.linger_hint);
        let open: bool = boot.session_fd.is_some();
        let mut session = Session::new(open, open && boot.session_mapped);
        let mut out: Vec<Store> = Vec::new();
        if session.mapped {
            out = desktop_stores(1920, 1080);
        }
        assert(stores_view(out@) =~= screen_stores(session));
        let ghost s0 = session;
        let (top, more) = own_handle(&mut session, Ghost(1int));
        append_stores(&mut out, more);
        let ghost s1 = session;
        let (msg, more) = own_handle(&mut session, Ghost(3int));
        append_stores(&mut out, more);
        assert(window_stores(s0, 1, 0) == window_stores(session, 1, 0));
        assert(window_stores(s1, 3, 1) == window_stores(session, 3, 1));
        let rect = rect_of(1920, 1080);
        let mut window_states: Table<u32, WindowState> = Table::new();
        let empty: [u8; 16] = [0u8; 16];
        assert(empty@ =~= zeros(16));
        window_states.insert(top, make_window(DESKTOP_STYLE, rect));
        window_states.insert(msg, make_window(0, empty));
        assert(window_states@.dom() =~= set![top, msg]);
        let mut atoms = Atoms::new(boot.first_atom);
        let ghost a0 = atoms;
        let device: u32 = atoms.add_anew(wire_of("00000000-0000-0000-0000-000000000000"));
        let ghost a1 = atoms;
        let property: u32 = atoms.add_anew(wire_of("__wine_display_device_guid"));
        assert(atoms.atoms@.dom() =~= set![device, property]);
        proof {
            reveal_strlit("00000000-0000-0000-0000-000000000000");
            reveal_strlit("__wine_display_device_guid");
            let (a, b) = (no_device().drop_last(), device_property().drop_last());
            lemma_ends_apart(a, '0', b, 'd');
            assert(a.push('0') =~= no_device());
            assert(b.push('d') =~= device_property());
        }
        let mut window_properties: Table<(u32, u32), u64> = Table::new();
        window_properties.insert((top, property), device as u64);
        let default_winstation: u32 = station as u32;
        let mut winstation_names: Table<u32, Vec<u8>> = Table::new();
        winstation_names.insert(default_winstation, wire_of("WinSta0"));
        assert(winstation_names@.dom() =~= set![default_winstation]);
        let e = EventLoop {
            objects,
            sync,
            ports: Ports {
                queues: Table::new(),
                waiters: Table::new(),
                cache: Table::new(),
                jobs: Table::new(),
                process_job: Table::new(),
                timers: Vec::new(),
            },
            pipes: Pipes {
                named: NameTable::new(),
                waiters: NameTable::new(),
                unnamed_clients: Table::new(),
                socket_pairs: Vec::new(),
                pending_reads: Table::new(),
                completed_ioctls: Table::new(),
                reads: Vec::new(),
                completed_reads: Vec::new(),
            },
            side_tables: HandleSideTables::new(),
            desktop: Desktop {
                window_states,
                window_properties,
                clipboard_listeners: Table::new(),
                timers_pending: Table::new(),
                timers_expired: Table::new(),
                caret_state: Table::new(),
                next_timer_ids: Table::new(),
                thread_quit_state: Table::new(),
                winstation_names,
                process_winstations: Table::new(),
                default_winstation,
                desktop_top_window: top,
                desktop_msg_window: msg,
                desktop_ready: true,
                monitor_serial: 1,
                monitor_rect: rect,
            },
            clients: Clients {
                clients: Table::new(),
                msg_fd_map: Table::new(),
                inflight: Table::new(),
                pipe_watches: Vec::new(),
                queue_watches: Vec::new(),
                queue_rearms: Vec::new(),
                system_pids: Table::new(),
                peak: 0,
                total_requests: 0,
                linger_deadline: None,
                linger_secs,
            },
            atoms,
            session,
            user_sid: boot.user_sid,
            outbox: Vec::new(),
        };
        (e, out)
    }

    /// Takes over the display that was found: the desktop's window has its size and names its device.
    /// The device's GUID and its driver's module go to the registry.
    pub fn apply_display_data(&mut self, dd: &DisplayData) -> (r: (String, &'static str))
        requires
            old(self).wf(),
            old(self).atoms.next < u32::MAX,
        ensures
            final(self).wf(),
            *final(self) == (EventLoop {
                desktop: Desktop {
                    window_states: final(self).desktop.window_states,
                    window_properties: final(self).desktop.window_properties,
                    ..old(self).desktop
                },
                atoms: final(self).atoms,
                ..*old(self)
            }),
            r.0@ == dd.guid(),
            r.1@ == (if dd.driver_choice == 2 {
                "winewayland.drv"@
            } else {
                "winex11.drv"@
            }),
            ({
                let (w, h) = dd.size();
                let top = old(self).desktop.desktop_top_window;
                let before = old(self).desktop.window_states@;
                let after = final(self).desktop.window_states@;
                if before.contains_key(top) {
                    &&& after.contains_key(top)
                    &&& after == before.insert(top, after[top])
                    &&& after[top] == (WindowState {
                        window_rect: after[top].window_rect,
                        client_rect: after[top].client_rect,
                        visible_rect: after[top].visible_rect,
                        surface_rect: after[top].surface_rect,
                        ..before[top]
                    })
                    &&& after[top].window_rect@ == rect_bytes(w, h)
                    &&& after[top].client_rect@ == rect_bytes(w, h)
                    &&& after[top].visible_rect@ == rect_bytes(w, h)
                    &&& after[top].surface_rect@ == rect_bytes(w, h)
                } else {
                    after == before
                }
            }),
            atom_anew(
                old(self).atoms,
                final(self).atoms,
                text_wire(dd.guid()),
                old(self).atoms.next,
            ),
            final(self).desktop.window_properties@ == (match final(self).atoms.find(
                byte_units(text_wire(device_property())),
            ) {
                Some(p) => old(self).desktop.window_properties@.insert(
                    (old(self).desktop.desktop_top_window, p),
                    old(self).atoms.next as u64,
                ),
                None => old(self).desktop.window_properties@,
            }),
    {
        let (w, h) = dd.primary_resolution();
        let rect = rect_of(w, h);
        let top: u32 = self.desktop.desktop_top_window;
        match self.desktop.window_states.get_mut(top) {
            Some(ws) => {
                ws.window_rect = rect;
                ws.client_rect = rect;
                ws.visible_rect = rect;
                ws.surface_rect = rect;
            },
            None => {},
        }
        let guid = dd.gpu_guid();
        let device: u32 = self.atoms.add_anew(wire_of(guid.as_str()));
        let property = wire_of("__wine_display_device_guid");
        let units = crate::text::vararg_to_u16(property.as_slice());
        match self.atoms.lookup(&units) {
            Some(p) => {
                self.desktop.window_properties.insert((top, p), device as u64);
            },
            None => {},
        }
        let (_, module) = dd.display_driver();
        (guid, module)
    }
}

/// The desktop's window names the display device that was found last: its property leads to the atom
/// of the device's GUID.
pub proof fn lemma_device_is_named(before: EventLoop, after: EventLoop, guid: Seq<char>, p: u32)
    requires
        before.atoms.find(byte_units(text_wire(device_property()))) == Some(p),
        byte_units(text_wire(guid)) != byte_units(text_wire(device_property())),
        atom_anew(before.atoms, after.atoms, text_wire(guid), before.atoms.next),
        after.desktop.window_properties@ == before.desktop.window_properties@.insert(
            (before.desktop.desktop_top_window, p),
            before.atoms.next as u64,
        ),
    ensures
        after.atoms.find(byte_units(text_wire(device_property()))) == Some(p),
        after.atoms.atoms@[after.desktop.window_properties@[(
            before.desktop.desktop_top_window,
            p,
        )] as u32].name@ == text_wire(guid),
{
}

/// The numbers of the daemon's own windows and of the session's memory.
pub proof fn lemma_numbers_at_start()
    ensures
        NTUSER_DPI_PER_MONITOR_AWARE == 0x12,
        DESKTOP_STYLE == 0x9600_0000,
        SEC_COMMIT == 0x0080_0000,
        default_size() == (1920i32, 1080i32),
{
}

/// The daemon lingers for five seconds for a program that is small or of unknown size, for thirty for one of
/// 30 MiB or more, and else for a second for each MiB that is full.
pub proof fn lemma_linger_by_size(text: Seq<char>, bytes: u64)
    requires
        u64_text(text) == Some(bytes),
    ensures
        bytes < 6 * 1024 * 1024 ==> linger_for(Some(text)) == 5,
        bytes >= 30 * 1024 * 1024 ==> linger_for(Some(text)) == 30,
        5 * 1024 * 1024 <= bytes < 31 * 1024 * 1024 ==> linger_for(Some(text)) * (1024 * 1024) <= bytes < (
        linger_for(Some(text)) + 1) * (1024 * 1024),
        linger_for(None) == 5,
{
    let mb = bytes / 1_048_576;
    assert(mb * 1_048_576 <= bytes < (mb + 1) * 1_048_576);
}

/// A rectangle starts at the origin and ends at the width and the height.
pub proof fn lemma_rectangle_reads_back(w: i32, h: i32)
    ensures
        rect_bytes(w, h).len() == 16,
        u32_at(rect_bytes(w, h), 0) == 0 && u32_at(rect_bytes(w, h), 4) == 0,
        w >= 0 ==> u32_at(rect_bytes(w, h), 8) == w,
        h >= 0 ==> u32_at(rect_bytes(w, h), 12) == h,
{
    let r = rect_bytes(w, h);
    assert(u32_bytes(0) =~= seq![0u8, 0u8, 0u8, 0u8]);
    assert(r.subrange(0, 4) =~= u32_bytes(0));
    lemma_read_back_u32(r, 0, 0);
    assert(r.subrange(4, 8) =~= u32_bytes(0));
    lemma_read_back_u32(r, 4, 0);
    assert(r.subrange(8, 12) =~= i32_bytes(w));
    lemma_read_back_u32(r, 8, i32_bits(w));
    assert(r.subrange(12, 16) =~= i32_bytes(h));
    lemma_read_back_u32(r, 12, i32_bits(h));
}

/// The objects stand behind the table of handles, 1024 bytes apart; the desktop's is the first.
pub proof fn lemma_objects_stand_apart(n: int)
    requires
        0 <= n < 1000,
    ensures
        object_at(0) == 32744 * 32,
        object_at(n + 1) == object_at(n) + 1024,
{
}

/// At the start the desktop is 1920 by 1080 at its origin, and its monitors have the first serial number.
pub proof fn lemma_screen_at_start(s: Session)
    ensures
        s.mapped ==> screen_stores(s) == seq![
            (1_047_808int, crate::bytes::u64_bytes(0)),
            (1_047_816int, crate::bytes::u64_bytes(256)),
            (1_047_824int, u32_bytes(0)),
            (1_047_848int, u32_bytes(1920)),
            (1_047_852int, u32_bytes(1080)),
            (1_048_112int, crate::bytes::u64_bytes(1)),
        ],
        !s.mapped ==> screen_stores(s).len() == 0,
{
}

/// The session's memory is found under its name, as one mapping that is whole from the start; without such
/// memory nothing has a name.
pub proof fn lemma_session_has_name(o: Objects, boot: Boot)
    requires
        objects_at_start(o, boot),
    ensures
        boot.session_fd matches Some(fd) ==> o.named_objects@.contains_key("__wine_session"@)
            && o.named_objects@["__wine_session"@].fd == fd && o.mappings@.contains_key(
            o.named_objects@["__wine_session"@].object_id,
        ) && ({
            let m = o.mappings@[o.named_objects@["__wine_session"@].object_id];
            m.fd == fd && m.size == 32744 * 32 + 4 * 1024 * 1024 && m.flags == 0x0080_0000
        }),
        boot.session_fd is None ==> !o.named_objects@.contains_key("__wine_session"@),
{
}

/// At the start the two mutexes that a start looks for are there under their names, where the kernel has
/// such things; nothing else that can be waited for is.
pub proof fn lemma_mutexes_at_start(s: Sync, boot: Boot)
    requires
        sync_at_start(s, boot),
    ensures
        boot.sync_available ==> (boot.display_mutex matches Some(fd) ==> boot.font_mutex is None
            ==> s.named@.contains_key("display_device_init"@) && s.named@["display_device_init"@].fd == fd
            && s.named@["display_device_init"@].kind == 3),
        boot.sync_available ==> (boot.font_mutex matches Some(fd) ==> s.named@.contains_key("__wine_font_mutex__"@)
            && s.named@["__wine_font_mutex__"@].fd == fd && s.named@["__wine_font_mutex__"@].kind == 3),
        !boot.sync_available ==> s.named@.is_empty(),
        s.objects@.is_empty() && s.waits@.len() == 0,
{
}

/// At the start there are two windows, the desktop's and the one for messages, with the first two handles;
/// the desktop's fills the screen.
pub proof fn lemma_windows_at_start(d: Desktop, boot: Boot)
    requires
        desktop_at_start(d, boot),
    ensures
        d.desktop_top_window == 32 && d.desktop_msg_window == 34,
        d.window_states@.contains_key(32) && d.window_states@.contains_key(34),
        d.window_states@[32].style == 0x9600_0000 && d.window_states@[34].style == 0,
        u32_at(d.window_states@[32].window_rect@, 8) == 1920 && u32_at(d.window_states@[32].window_rect@, 12)
            == 1080,
        d.window_states@[32].dpi_context == 0x12,
        d.desktop_ready && d.monitor_serial == 1,
{
    lemma_rectangle_reads_back(1920, 1080);
    assert(d.window_states@.dom().contains(32));
    assert(d.window_states@.dom().contains(34));
}

} // verus!
