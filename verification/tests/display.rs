use triskelion::bytes::read_u32;
use triskelion::display::{
    compute_prefix_hash, read_parallax_shm, ConnectorInfo, DisplayData, DisplayHardware, DisplayShm,
    GpuInfo, ModeInfo, SHM_SIZE,
};

fn mode(width: u32, height: u32, refresh: u32) -> ModeInfo {
    ModeInfo { width, height, refresh, flags: 0 }
}

fn gpu(vendor: u32) -> GpuInfo {
    GpuInfo {
        pci_vendor: vendor,
        pci_device: 0x73BF,
        pci_subsys_vendor: 1,
        pci_subsys_device: 2,
        pci_revision: 3,
        driver: "amdgpu".to_string(),
        pci_bus_id: "0000:03:00.0".to_string(),
        gpu_name: "Radeon \u{E9}".to_string(),
        vram_bytes: 0x4_0000_0000,
    }
}

fn connector(name: &str, connected: bool, modes: Vec<ModeInfo>, current: Option<ModeInfo>) -> ConnectorInfo {
    ConnectorInfo {
        connected,
        connector_id: 9,
        connector_type: 10,
        connector_type_id: 1,
        mm_width: 600,
        mm_height: 340,
        modes,
        current_mode: current,
        edid: vec![0, 255, 255, 255, 255, 255, 255, 0, 0x1E, 0x6D, 0x07, 0x5B],
        name: name.to_string(),
    }
}

fn hardware(vendor: u32) -> DisplayHardware {
    DisplayHardware {
        gpus: vec![gpu(vendor)],
        connectors: vec![
            connector("HDMI-A-1", false, vec![mode(800, 600, 60)], None),
            connector(
                "DP-1",
                true,
                vec![mode(2560, 1440, 144), mode(1920, 1080, 60)],
                Some(mode(1920, 1080, 60)),
            ),
            connector("DP-2", true, vec![], None),
        ],
    }
}

fn written(hw: &DisplayHardware, wayland: bool, x11: bool, own: Option<&str>) -> DisplayShm {
    let mut shm = DisplayShm::create("ab").unwrap();
    shm.write_hardware(hw, wayland, x11, own.map(|s| s.to_string()));
    shm
}

fn read(shm: &DisplayShm) -> DisplayData {
    read_parallax_shm(shm.bytes()).unwrap()
}

#[test]
fn a_segment_has_a_name_and_is_empty() {
    let shm = DisplayShm::create("1a2b").unwrap();
    assert_eq!(shm.shm_name(), "/parallax-1a2b");
    assert_eq!(shm.bytes().len(), SHM_SIZE);
    assert!(shm.bytes().iter().all(|b| *b == 0));
    assert!(DisplayShm::create("a\0b").is_none());
    assert!(read_parallax_shm(shm.bytes()).is_none());
}

#[test]
fn the_segment_reads_back_what_was_written() {
    let shm = written(&hardware(0x1002), true, false, None);
    let d = read(&shm);
    assert_eq!(d.gpu.pci_vendor, 0x1002);
    assert_eq!(d.gpu.pci_device, 0x73BF);
    assert_eq!(d.gpu.driver, "amdgpu");
    assert_eq!(d.gpu.bus_id, "0000:03:00.0");
    assert_eq!(d.gpu.gpu_name, "Radeon \u{E9}");
    assert_eq!(d.gpu.vram_bytes, 0x4_0000_0000);
    assert_eq!(d.connectors.len(), 2);
    assert_eq!(d.connectors[0].name, "DP-1");
    assert_eq!(d.connectors[0].modes.len(), 2);
    assert_eq!((d.connectors[0].current_width, d.connectors[0].current_refresh), (1920, 60));
    assert_eq!(d.connectors[0].current_mode_index, 1);
    assert_eq!(d.connectors[0].edid.len(), 12);
    assert_eq!((d.connectors[1].current_width, d.connectors[1].current_height), (1920, 1080));
    assert_eq!(d.primary_resolution(), (1920, 1080));
}

#[test]
fn the_sequence_is_odd_while_entries_are_stored() {
    let mut shm = DisplayShm::create("ab").unwrap();
    let stores = shm.write_hardware(&hardware(0x1002), true, false, None);
    let numbers: Vec<u32> = stores.iter().filter(|s| s.at == 16).map(|s| read_u32(&s.bytes, 0)).collect();
    assert_eq!(numbers, vec![1, 2]);
    assert_eq!(stores.last().unwrap().at, 16);
    let first = stores.iter().position(|s| s.at == 16).unwrap();
    assert!(stores[..first].iter().all(|s| s.at < 64));
    assert_eq!(read_u32(shm.bytes(), 16), 2);
}

#[test]
fn long_names_are_cut() {
    let mut hw = hardware(0x1002);
    hw.gpus[0].driver = "x".repeat(70);
    hw.connectors[1].name = "\u{E9}".repeat(20);
    let d = read(&written(&hw, true, false, None));
    assert_eq!(d.gpu.driver, "x".repeat(63));
    assert_eq!(d.connectors[0].name, "\u{E9}".repeat(15) + "\u{FFFD}");
}

#[test]
fn at_most_eight_connectors_and_64_modes() {
    let mut hw = hardware(0x1002);
    hw.connectors = (0..10)
        .map(|i| connector(&format!("DP-{}", i), true, (0..70).map(|j| mode(j, j, 60)).collect(), None))
        .collect();
    let d = read(&written(&hw, true, false, None));
    assert_eq!(d.connectors.len(), 8);
    assert_eq!(d.connectors[7].name, "DP-7");
    assert_eq!(d.connectors[0].modes.len(), 64);
    assert_eq!(d.connectors[0].current_width, 0);
}

#[test]
fn the_driver_follows_session_and_vendor() {
    let driver = |vendor, w, x, own| read(&written(&hardware(vendor), w, x, own)).display_driver();
    assert_eq!(driver(0x1002, true, true, None), ("wayland", "winewayland.drv"));
    assert_eq!(driver(0x10DE, true, true, None), ("x11", "winex11.drv"));
    assert_eq!(driver(0x1002, false, true, None), ("x11", "winex11.drv"));
    assert_eq!(driver(0x1002, false, false, None), ("x11", "winex11.drv"));
    assert_eq!(driver(0x10DE, true, true, Some("wayland")), ("wayland", "winewayland.drv"));
    assert_eq!(driver(0x1002, true, true, Some("winex11.drv")), ("x11", "winex11.drv"));
    assert_eq!(driver(0x1002, true, true, Some("other")), ("wayland", "winewayland.drv"));
}

#[test]
fn no_card_no_display() {
    let hw = DisplayHardware { gpus: vec![], connectors: vec![] };
    assert!(read_parallax_shm(written(&hw, true, true, None).bytes()).is_none());
    let hw = DisplayHardware { gpus: vec![gpu(1)], connectors: vec![] };
    assert_eq!(read(&written(&hw, true, true, None)).primary_resolution(), (1920, 1080));
}

#[test]
fn codes_of_a_monitor_and_a_card() {
    let d = read(&written(&hardware(0x10DE), true, true, None));
    assert_eq!(d.gpu_guid(), "10de73bf-0000-0000-0000-000000000000");
    let edid = &d.connectors[0].edid;
    assert_eq!(DisplayData::edid_manufacturer(edid), "GSM");
    assert_eq!(DisplayData::edid_product(edid), 0x5B07);
    assert_eq!(DisplayData::edid_manufacturer(&edid[..9]), "UNK");
    assert_eq!(DisplayData::edid_manufacturer(&[0; 12]), "@@@");
    assert_eq!(DisplayData::edid_product(&edid[..11]), 0);
}

#[test]
fn the_prefix_is_told_by_device_and_inode() {
    assert_eq!(compute_prefix_hash(Some((0xAB, 0x10))), "ab10");
    assert_eq!(compute_prefix_hash(None), "");
}
