use triskelion::boot::{default_resolution, linger_seconds, Boot};
use triskelion::display::{ConnectorData, DisplayData, GpuData, Store};
use triskelion::session::{
    desktop_stores, usd_stores, usd_time_stores, Session, NTUSER_OBJ_WINDOW, SESSION_SIZE,
    SHARED_OBJECT_STRIDE, USER_ENTRIES_SIZE,
};
use triskelion::state::EventLoop;

fn boot(session: bool) -> Boot {
    Boot {
        user_sid: vec![1, 2],
        session_fd: if session { Some(9) } else { None },
        session_mapped: session,
        sync_available: true,
        display_mutex: Some(20),
        font_mutex: None,
        linger_hint: Some("10485760".to_string()),
        first_object_id: 500,
        first_atom: 0xC000,
    }
}

fn apply(img: &mut Vec<u8>, s: &Store) {
    img[s.at as usize..s.at as usize + s.bytes.len()].copy_from_slice(&s.bytes);
}

fn word(img: &[u8], at: usize) -> u32 {
    u32::from_le_bytes([img[at], img[at + 1], img[at + 2], img[at + 3]])
}

#[test]
fn shared_objects_stand_one_after_another() {
    let mut s = Session::new(true, true);
    let (a, sa) = s.alloc_shared_object();
    let (b, _) = s.alloc_shared_object();
    let place = |l: &[u8]| u64::from_le_bytes(l[8..16].try_into().unwrap());
    let id = |l: &[u8]| u64::from_le_bytes(l[..8].try_into().unwrap());
    assert_eq!(place(&a), USER_ENTRIES_SIZE + SHARED_OBJECT_STRIDE);
    assert_eq!(place(&b), place(&a) + SHARED_OBJECT_STRIDE);
    assert_eq!((id(&a), id(&b)), (0x101, 0x102));
    assert_eq!(sa.len(), 2);
    assert_eq!(sa[0].bytes, vec![0; 8]);
    assert_eq!(sa[1].bytes, 0x101u64.to_le_bytes());
    let mut unmapped = Session::new(true, false);
    assert!(unmapped.alloc_shared_object().1.is_empty());
}

#[test]
fn user_handles_are_distinct_and_reused() {
    let mut s = Session::new(true, true);
    let (a, sa) = s.alloc_user_handle(NTUSER_OBJ_WINDOW, 7, 8);
    let (b, sb) = s.alloc_user_handle(NTUSER_OBJ_WINDOW, 7, 8);
    assert_eq!((a, b), (0x20, 0x22));
    let e = sa.last().unwrap();
    assert_eq!(e.at, 0);
    assert_eq!(e.bytes.len(), 32);
    assert_eq!((word(&e.bytes, 8), word(&e.bytes, 12)), (7, 8));
    assert_eq!(e.bytes[24..28], [1, 0, 0, 0]);
    assert_eq!(sb.last().unwrap().at, 32);
    s.next_index = 200_000;
    let (far, sf) = s.alloc_user_handle(NTUSER_OBJ_WINDOW, 7, 8);
    assert_eq!((far, sf.last().unwrap().at), (400_032, 6_400_000));
    s.free.push(0);
    assert_eq!(s.alloc_user_handle(NTUSER_OBJ_WINDOW, 1, 1).0, 0x20);
    let r = s.reassign_user_handle_owner(0x22, 5, 6).unwrap();
    assert_eq!(r.at, 40);
    assert_eq!(r.bytes, vec![5, 0, 0, 0, 6, 0, 0, 0]);
    assert!(s.reassign_user_handle_owner(0x1E, 5, 6).is_none());
    assert!(Session::new(false, false).reassign_user_handle_owner(0x22, 5, 6).is_none());
}

#[test]
fn writes_are_guarded_by_the_sequence() {
    let s = Session::new(true, true);
    let at = USER_ENTRIES_SIZE + SHARED_OBJECT_STRIDE;
    let w = s.set_window_shm(at, 4, &[9; 16], 96);
    assert_eq!(w[0].bytes, 5u64.to_le_bytes());
    assert_eq!(w[1].at as u64, at + 16);
    assert_eq!(w[1].bytes, vec![9; 16]);
    assert_eq!(w[2].bytes, 96u32.to_le_bytes());
    assert_eq!(w[3].bytes, 6u64.to_le_bytes());
    let w = s.set_window_shm(at, 5, &[9; 16], 96);
    assert_eq!(w[0].bytes, 5u64.to_le_bytes());
    assert_eq!(w[3].bytes, 6u64.to_le_bytes());
    assert!(s.set_window_shm(SESSION_SIZE, 4, &[9; 16], 96).is_empty());
}

#[test]
fn queue_bits_are_set_and_cleared() {
    let s = Session::new(true, true);
    let at = USER_ENTRIES_SIZE;
    let w = s.queue_bits(at, 0, 0b001, 0b100, 0b010, true);
    assert_eq!((w[1].at as u64, word(&w[1].bytes, 0)), (at + 28, 0b011));
    assert_eq!((w[2].at as u64, word(&w[2].bytes, 0)), (at + 36, 0b110));
    let w = s.queue_bits(at, 0, 0b011, 0b110, 0b010, false);
    assert_eq!((word(&w[1].bytes, 0), word(&w[2].bytes, 0)), (0b001, 0b100));
    assert!(Session::new(true, false).queue_bits(at, 0, 1, 1, 1, true).is_empty());
}

#[test]
fn the_bit_of_the_driver() {
    let s = Session::new(true, true);
    let at = USER_ENTRIES_SIZE;
    let w = s.driver_bit(at, 2, 0b101, true);
    assert_eq!(w.len(), 3);
    assert_eq!(w[0].bytes, 3u64.to_le_bytes());
    assert_eq!((w[1].at as u64, word(&w[1].bytes, 0)), (at + 40, 0x8000_0005));
    assert_eq!(w[2].bytes, 4u64.to_le_bytes());
    let w = s.driver_bit(at, 4, 0x8000_0005, false);
    assert_eq!(word(&w[1].bytes, 0), 0b101);
    assert!(s.driver_bit(SESSION_SIZE, 2, 0, true).is_empty());
}

#[test]
fn the_page_of_facts() {
    let mut img = vec![0u8; 0x1000];
    for s in usd_stores() {
        apply(&mut img, &s);
    }
    assert_eq!(word(&img, 0x26C), 10);
    assert_eq!(word(&img, 0x260), 0xFA64);
    assert_eq!(img[0x268], 1);
    let d = desktop_stores(2560, 1440);
    assert!(d.iter().any(|s| s.at as u64 == USER_ENTRIES_SIZE + 40 && s.bytes == 2560u32.to_le_bytes()));
}

#[test]
fn clocks_are_never_torn() {
    let mut img = vec![0u8; 0x1000];
    let was = 0xFFFF_FFFFu64 * 100;
    let now = 0x1_0000_0005u64 * 100;
    for s in usd_time_stores(was) {
        apply(&mut img, &s);
    }
    assert_eq!(word(&img, 0x008), 0xFFFF_FFFF);
    assert_eq!(word(&img, 0x000) as u64, was / 1_000_000);
    for s in usd_time_stores(now) {
        apply(&mut img, &s);
        if word(&img, 0x00C) == word(&img, 0x010) {
            let t = (word(&img, 0x00C) as u64) << 32 | word(&img, 0x008) as u64;
            assert!(t == was / 100 || t == now / 100);
        }
    }
    assert_eq!((word(&img, 0x008), word(&img, 0x00C), word(&img, 0x010)), (5, 1, 1));
}

#[test]
fn lingering_follows_the_size_of_the_program() {
    let secs = |s: &str| linger_seconds(&Some(s.to_string()));
    assert_eq!(linger_seconds(&None), 5);
    assert_eq!(secs("x"), 5);
    assert_eq!(secs("10485760"), 10);
    assert_eq!(secs("99999999999"), 30);
    assert_eq!(default_resolution(), (1920, 1080));
}

#[test]
fn the_daemon_starts_with_a_desktop() {
    let (el, stores) = EventLoop::new(boot(true));
    assert!(!stores.is_empty());
    assert!(el.desktop.desktop_ready);
    assert_ne!(el.desktop.desktop_top_window, el.desktop.desktop_msg_window);
    let top = el.desktop.window_states.get(el.desktop.desktop_top_window).unwrap();
    assert_eq!(word(&top.window_rect, 8), 1920);
    assert_eq!(word(&top.window_rect, 12), 1080);
    assert_eq!(el.clients.linger_secs, 10);
    assert_eq!(el.user_sid, vec![1, 2]);
    let (bare, _) = EventLoop::new(boot(false));
    assert_eq!(bare.clients.clients.len(), 0);
}

#[test]
fn the_desktop_takes_over_the_display() {
    let (mut el, _) = EventLoop::new(boot(true));
    let dd = DisplayData {
        gpu: GpuData {
            pci_vendor: 0x1002,
            pci_device: 0x73BF,
            pci_subsys_vendor: 0,
            pci_subsys_device: 0,
            pci_revision: 0,
            driver: "amdgpu".to_string(),
            bus_id: "".to_string(),
            gpu_name: "".to_string(),
            vram_bytes: 0,
        },
        connectors: vec![ConnectorData {
            name: "DP-1".to_string(),
            connector_type: 0,
            mm_width: 0,
            mm_height: 0,
            edid: vec![],
            modes: vec![],
            current_mode_index: 0,
            current_width: 2560,
            current_height: 1440,
            current_refresh: 144,
        }],
        driver_choice: 2,
        session_type: 2,
    };
    let atom = el.atoms.next;
    let (guid, module) = el.apply_display_data(&dd);
    assert_eq!(guid, "100273bf-0000-0000-0000-000000000000");
    assert_eq!(module, "winewayland.drv");
    let top = el.desktop.desktop_top_window;
    assert_eq!(word(&el.desktop.window_states.get(top).unwrap().window_rect, 8), 2560);
    let values: Vec<u64> = (0..el.desktop.window_properties.len())
        .map(|i| el.desktop.window_properties.at(i))
        .filter(|(k, _)| k.0 == top)
        .map(|(_, v)| *v)
        .collect();
    assert!(values.contains(&(atom as u64)));
}
