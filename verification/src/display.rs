//! The display segment: one program writes what hardware there is, the daemon reads it.
use crate::bytes::{
    clipped, copy_clipped, copy_range, lemma_read_back_u32, push_u32, push_u64, put_bytes, read_u32, read_u64, splice,
    u32_at, u32_bytes, u64_at, u64_bytes, zero_bytes, zeros,
};
use crate::text::{hex_fixed, hexadecimal, push_hex, push_hex_fixed, same};
use vstd::prelude::*;
use vstd::string::StringSliceAdditionalSpecFns;
use vstd::utf8::{decode_utf8, encode_utf8, encode_utf8_decode_utf8, encode_utf8_valid_utf8, valid_utf8};

verus! {

pub const SHM_MAGIC: u32 = 0x5359424C;

pub const SHM_VERSION: u32 = 1;

pub const MAX_CONNECTORS: usize = 8;

pub const MAX_MODES_PER_CONNECTOR: usize = 64;

pub const HEADER_SIZE: usize = 64;

pub const GPU_ENTRY_SIZE: usize = 256;

pub const MODE_ENTRY_SIZE: usize = 16;

pub const CONNECTOR_HEADER_SIZE: usize = 128;

pub const CONNECTOR_ENTRY_SIZE: usize = 1152;

pub const SHM_SIZE: usize = 16384;

/// A display mode that a connector offers.
#[derive(Clone, Copy)]
pub struct ModeInfo {
    pub width: u32,
    pub height: u32,
    pub refresh: u32,
    pub flags: u32,
}

pub struct GpuInfo {
    pub pci_vendor: u32,
    pub pci_device: u32,
    pub pci_subsys_vendor: u32,
    pub pci_subsys_device: u32,
    pub pci_revision: u32,
    pub driver: String,
    pub pci_bus_id: String,
    pub gpu_name: String,
    pub vram_bytes: u64,
}

pub struct ConnectorInfo {
    pub connected: bool,
    pub connector_id: u32,
    pub connector_type: u32,
    pub connector_type_id: u32,
    pub mm_width: u32,
    pub mm_height: u32,
    pub modes: Vec<ModeInfo>,
    pub current_mode: Option<ModeInfo>,
    pub edid: Vec<u8>,
    pub name: String,
}

/// What an enumeration of the display hardware found.
pub struct DisplayHardware {
    pub gpus: Vec<GpuInfo>,
    pub connectors: Vec<ConnectorInfo>,
}

/// The start of the segment, as plain values.
#[derive(Clone, Copy)]
pub struct DisplayShmHeader {
    pub magic: u32,
    pub version: u32,
    pub gpu_count: u32,
    pub connector_count: u32,
    pub sequence: u32,
    pub driver_choice: u8,
    pub session_type: u32,
}

/// Bytes to store in the segment from a position on.
pub struct Store {
    pub at: u64,
    pub bytes: Vec<u8>,
}

/// A store as position and bytes.
pub open spec fn store_view(s: Store) -> (int, Seq<u8>) {
    (s.at as int, s.bytes@)
}

pub open spec fn stores_view(s: Seq<Store>) -> Seq<(int, Seq<u8>)> {
    s.map_values(|x: Store| store_view(x))
}

/// The bytes after stores were made one after the other.
pub open spec fn stored(img: Seq<u8>, stores: Seq<(int, Seq<u8>)>) -> Seq<u8>
    decreases stores.len(),
{
    if stores.len() == 0 {
        img
    } else {
        splice(stored(img, stores.drop_last()), stores.last().0, stores.last().1)
    }
}

/// The session that the environment shows: 2 with Wayland, 1 with X11 alone, 0 with neither.
pub open spec fn session_kind(has_wayland: bool, has_x11: bool) -> u32 {
    if has_wayland {
        2
    } else if has_x11 {
        1
    } else {
        0
    }
}

/// The display driver: 1 is winex11.drv, 2 is winewayland.drv.
///
/// The user's override decides. Without one, NVIDIA takes X11, and another vendor takes Wayland
/// where the session has it.
pub open spec fn driver_kind(override_name: Option<Seq<char>>, vendor: u32, session: u32) -> u8 {
    if override_name == Some("winex11.drv"@) || override_name == Some("x11"@) {
        1
    } else if override_name == Some("winewayland.drv"@) || override_name == Some("wayland"@) {
        2
    } else if vendor == 0x10de || session != 2 {
        1
    } else {
        2
    }
}

/// The connectors that have a monitor, in order, no more than fit.
pub open spec fn connected(c: Seq<ConnectorInfo>) -> Seq<ConnectorInfo>
    decreases c.len(),
{
    if c.len() == 0 {
        Seq::empty()
    } else {
        let before = connected(c.drop_last());
        if c.last().connected && before.len() < 8 {
            before.push(c.last())
        } else {
            before
        }
    }
}

pub open spec fn mode_bytes(m: ModeInfo) -> Seq<u8> {
    u32_bytes(m.width) + u32_bytes(m.height) + u32_bytes(m.refresh) + u32_bytes(m.flags)
}

/// The entries of the first `n` modes.
pub open spec fn modes_bytes(m: Seq<ModeInfo>, n: nat) -> Seq<u8>
    decreases n,
{
    if n == 0 {
        Seq::empty()
    } else {
        modes_bytes(m, (n - 1) as nat) + mode_bytes(m[n - 1])
    }
}

pub open spec fn mode_count(c: ConnectorInfo) -> nat {
    if c.modes@.len() <= 64 {
        c.modes@.len()
    } else {
        64
    }
}

pub open spec fn same_mode(a: ModeInfo, b: ModeInfo) -> bool {
    a.width == b.width && a.height == b.height && a.refresh == b.refresh
}

/// The first position in `m` that shows the mode `cur`, or `m.len()` where none does.
pub open spec fn mode_position(m: Seq<ModeInfo>, cur: ModeInfo) -> nat
    decreases m.len(),
{
    if m.len() == 0 {
        0
    } else if mode_position(m.drop_last(), cur) < m.len() - 1 {
        mode_position(m.drop_last(), cur)
    } else if same_mode(m.last(), cur) {
        (m.len() - 1) as nat
    } else {
        m.len()
    }
}

/// The index of the current mode among the modes, or `0xFFFF_FFFF`.
pub open spec fn current_index(c: ConnectorInfo) -> u32 {
    match c.current_mode {
        Some(cur) if mode_position(c.modes@, cur) < c.modes@.len() => mode_position(
            c.modes@,
            cur,
        ) as u32,
        _ => 0xFFFF_FFFF,
    }
}

/// The length of the EDID that is stored.
pub open spec fn edid_len(c: ConnectorInfo) -> u32 {
    if c.edid@.len() <= 128 {
        c.edid@.len() as u32
    } else {
        128
    }
}

pub open spec fn connector_at(index: int) -> int {
    320 + index * 1152
}

/// The stores that write one connector entry.
pub open spec fn connector_stores(index: int, c: ConnectorInfo) -> Seq<(int, Seq<u8>)> {
    let at = connector_at(index);
    seq![
        (
            at,
            u32_bytes(c.connector_id) + u32_bytes(c.connector_type) + u32_bytes(
                c.connector_type_id,
            ) + u32_bytes(c.mm_width) + u32_bytes(c.mm_height) + u32_bytes(mode_count(c) as u32)
                + u32_bytes(current_index(c)) + u32_bytes(edid_len(c)),
        ),
        (at + 32, clipped(encode_utf8(c.name@), 31)),
        (at + 64, clipped(c.edid@, 128)),
        (at + 128, modes_bytes(c.modes@, mode_count(c))),
    ]
}

/// The stores that write the entries of connectors.
pub open spec fn connectors_stores(c: Seq<ConnectorInfo>) -> Seq<(int, Seq<u8>)>
    decreases c.len(),
{
    if c.len() == 0 {
        Seq::empty()
    } else {
        connectors_stores(c.drop_last()) + connector_stores(c.len() - 1, c.last())
    }
}

/// The stores that write the entry of the graphics processor.
pub open spec fn gpu_stores(g: GpuInfo) -> Seq<(int, Seq<u8>)> {
    seq![
        (
            64int,
            u32_bytes(g.pci_vendor) + u32_bytes(g.pci_device) + u32_bytes(g.pci_subsys_vendor)
                + u32_bytes(g.pci_subsys_device) + u32_bytes(g.pci_revision),
        ),
        (84int, clipped(encode_utf8(g.driver@), 63)),
        (148int, clipped(encode_utf8(g.pci_bus_id@), 63)),
        (212int, clipped(encode_utf8(g.gpu_name@), 63)),
        (276int, u64_bytes(g.vram_bytes)),
    ]
}

/// The header that describes some hardware, before the sequence number turns odd.
pub open spec fn header_stores(
    gpus: Seq<GpuInfo>,
    count: nat,
    session: u32,
    driver: u8,
) -> Seq<(int, Seq<u8>)> {
    seq![
        (
            0int,
            u32_bytes(SHM_MAGIC) + u32_bytes(SHM_VERSION) + u32_bytes(
                if gpus.len() == 0 {
                    0
                } else {
                    1
                },
            ) + u32_bytes(count as u32),
        ),
        (24int, u32_bytes(session)),
        (20int, seq![driver]),
    ]
}

/// The stores between the odd and the even sequence number.
pub open spec fn payload_stores(hw: DisplayHardware) -> Seq<(int, Seq<u8>)> {
    (if hw.gpus@.len() == 0 {
        Seq::empty()
    } else {
        gpu_stores(hw.gpus@[0])
    }) + connectors_stores(connected(hw.connectors@))
}

/// All stores for some hardware in the order in which they are made.
pub open spec fn hardware_stores(hw: DisplayHardware, session: u32, driver: u8) -> Seq<
    (int, Seq<u8>),
> {
    header_stores(hw.gpus@, connected(hw.connectors@).len(), session, driver).push(
        (16int, u32_bytes(1)),
    ) + payload_stores(hw).push((16int, u32_bytes(2)))
}

/// The vendor that decides the driver.
pub open spec fn first_vendor(gpus: Seq<GpuInfo>) -> u32 {
    if gpus.len() == 0 {
        0
    } else {
        gpus[0].pci_vendor
    }
}

proof fn lemma_stored_len(img: Seq<u8>, stores: Seq<(int, Seq<u8>)>)
    ensures
        stored(img, stores).len() == img.len(),
    decreases stores.len(),
{
    if stores.len() > 0 {
        lemma_stored_len(img, stores.drop_last());
    }
}

proof fn lemma_stored_add(img: Seq<u8>, a: Seq<(int, Seq<u8>)>, b: Seq<(int, Seq<u8>)>)
    ensures
        stored(img, a + b) == stored(stored(img, a), b),
    decreases b.len(),
{
    if b.len() == 0 {
        assert(a + b =~= a);
    } else {
        assert((a + b).drop_last() =~= a + b.drop_last());
        lemma_stored_add(img, a, b.drop_last());
    }
}

proof fn lemma_modes_bytes(m: Seq<ModeInfo>, n: nat)
    requires
        n <= m.len(),
    ensures
        modes_bytes(m, n).len() == 16 * n,
        forall|j: int|
            #![trigger m[j]]
            0 <= j < n ==> modes_bytes(m, n).subrange(16 * j, 16 * j + 16) == mode_bytes(m[j]),
    decreases n,
{
    if n > 0 {
        lemma_modes_bytes(m, (n - 1) as nat);
        let b = modes_bytes(m, n);
        let a = modes_bytes(m, (n - 1) as nat);
        assert forall|j: int| #![trigger m[j]] 0 <= j < n implies b.subrange(16 * j, 16 * j + 16)
            == mode_bytes(m[j]) by {
            if j < n - 1 {
                assert(b.subrange(16 * j, 16 * j + 16) =~= a.subrange(16 * j, 16 * j + 16));
            } else {
                assert(b.subrange(16 * j, 16 * j + 16) =~= mode_bytes(m[j]));
            }
        }
    }
}

/// The display segment of one prefix.
pub struct DisplayShm {
    image: Vec<u8>,
    shm_name: String,
}

impl DisplayShm {
    /// The segment's bytes.
    pub closed spec fn image(&self) -> Seq<u8> {
        self.image@
    }

    /// The segment's name.
    pub closed spec fn name(&self) -> Seq<char> {
        self.shm_name@
    }

    /// A segment of zeros for a prefix; a hash that holds NUL names none.
    pub fn create(prefix_hash: &str) -> (r: Option<Self>)
        ensures
            r is None <==> prefix_hash@.contains('\0'),
            r matches Some(shm) ==> shm.image() == zeros(SHM_SIZE as nat) && shm.name()
                == "/parallax-"@ + prefix_hash@,
    {
        let c: Vec<char> = crate::text::chars_of(prefix_hash);
        let mut i: usize = 0;
        while i < c.len()
            invariant
                i <= c@.len(),
                c@ == prefix_hash@,
                forall|j: int| 0 <= j < i ==> c@[j] != '\0',
            decreases c@.len() - i,
        {
            if c[i] == '\0' {
                return None;
            }
            i = i + 1;
        }
        let mut name = "/parallax-".to_string();
        name.append(prefix_hash);
        Some(DisplayShm { image: zero_bytes(SHM_SIZE), shm_name: name })
    }

    pub fn shm_name(&self) -> (r: &str)
        ensures
            r@ == self.name(),
    {
        self.shm_name.as_str()
    }

    /// The segment's bytes, for the mapping that holds them.
    pub fn bytes(&self) -> (r: &Vec<u8>)
        ensures
            r@ == self.image(),
    {
        &self.image
    }

    fn store(&mut self, out: &mut Vec<Store>, at: usize, bytes: Vec<u8>)
        requires
            at + bytes@.len() <= old(self).image().len(),
        ensures
            final(self).image() == splice(old(self).image(), at as int, bytes@),
            final(self).name() == old(self).name(),
            stores_view(final(out)@) == stores_view(old(out)@).push((at as int, bytes@)),
    {
        put_bytes(&mut self.image, at, bytes.as_slice());
        out.push(Store { at: at as u64, bytes });
        assert(stores_view(out@) =~= stores_view(old(out)@).push((at as int, bytes@)));
    }

    /// Writes what an enumeration found, and returns the stores in order.
    pub fn write_hardware(
        &mut self,
        hw: &DisplayHardware,
        has_wayland: bool,
        has_x11: bool,
        override_name: Option<String>,
    ) -> (r: Vec<Store>)
        requires
            old(self).image().len() == SHM_SIZE,
        ensures
            stores_view(r@) == hardware_stores(
                *hw,
                session_kind(has_wayland, has_x11),
                driver_kind(
                    crate::wire::opt_view(override_name),
                    first_vendor(hw.gpus@),
                    session_kind(has_wayland, has_x11),
                ),
            ),
            final(self).image() == stored(old(self).image(), stores_view(r@)),
            final(self).image().len() == SHM_SIZE,
            final(self).name() == old(self).name(),
    {
        let live: Vec<usize> = connected_indices(&hw.connectors);
        let session: u32 = if has_wayland {
            2
        } else if has_x11 {
            1
        } else {
            0
        };
        let vendor: u32 = if hw.gpus.len() == 0 {
            0
        } else {
            hw.gpus[0].pci_vendor
        };
        let driver: u8 = choose_driver(override_name, vendor, session);
        let ghost start = self.image();
        let mut out: Vec<Store> = Vec::new();
        assert(stores_view(out@) =~= Seq::empty());
        let mut head: Vec<u8> = Vec::new();
        push_u32(&mut head, SHM_MAGIC);
        push_u32(&mut head, SHM_VERSION);
        push_u32(
            &mut head,
            if hw.gpus.len() == 0 {
                0
            } else {
                1
            },
        );
        push_u32(&mut head, live.len() as u32);
        let ghost hs = header_stores(hw.gpus@, connected(hw.connectors@).len(), session, driver);
        assert(head@ =~= hs[0].1);
        self.store(&mut out, 0, head);
        let mut s: Vec<u8> = Vec::new();
        push_u32(&mut s, session);
        assert(s@ =~= u32_bytes(session));
        self.store(&mut out, 24, s);
        let mut d: Vec<u8> = Vec::new();
        d.push(driver);
        assert(d@ =~= seq![driver]);
        self.store(&mut out, 20, d);
        assert(stores_view(out@) =~= hs);
        assert(self.image() == stored(start, hs)) by {
            reveal_with_fuel(stored, 4);
            assert(hs.drop_last().drop_last().drop_last() =~= Seq::empty());
            assert(hs.drop_last().drop_last().last() == hs[0]);
            assert(hs.drop_last().last() == hs[1]);
        }
        let mut odd: Vec<u8> = Vec::new();
        push_u32(&mut odd, 1);
        assert(odd@ =~= u32_bytes(1));
        self.store(&mut out, 16, odd);
        let ghost h1 = hs.push((16int, u32_bytes(1)));
        assert(h1.drop_last() =~= hs);
        assert(stores_view(out@) == h1);
        if hw.gpus.len() > 0 {
            self.write_gpu(&mut out, &hw.gpus[0]);
        }
        let ghost gs = if hw.gpus@.len() == 0 {
            Seq::empty()
        } else {
            gpu_stores(hw.gpus@[0])
        };
        proof {
            lemma_stored_add(start, h1, gs);
            assert(h1 + Seq::<(int, Seq<u8>)>::empty() =~= h1);
        }
        let mut i: usize = 0;
        let ghost c = connected(hw.connectors@);
        assert(c.take(0) =~= Seq::empty());
        assert(h1 + gs + connectors_stores(c.take(0)) =~= h1 + gs);
        while i < live.len()
            invariant
                i <= live@.len() <= 8,
                c == connected(hw.connectors@),
                live@.len() == c.len(),
                forall|j: int|
                    #![trigger live@[j]]
                    0 <= j < live@.len() ==> live@[j] < hw.connectors@.len()
                        && hw.connectors@[live@[j] as int] == c[j],
                stores_view(out@) == h1 + gs + connectors_stores(c.take(i as int)),
                self.image() == stored(start, stores_view(out@)),
                self.image().len() == SHM_SIZE,
                self.name() == old(self).name(),
            decreases live@.len() - i,
        {
            let k: usize = live[i];
            let ghost before = stores_view(out@);
            self.write_connector(&mut out, i, &hw.connectors[k]);
            proof {
                lemma_stored_add(start, before, connector_stores(i as int, c[i as int]));
                assert(c.take(i + 1).drop_last() =~= c.take(i as int));
                assert(h1 + gs + connectors_stores(c.take(i as int)) + connector_stores(
                    i as int,
                    c[i as int],
                ) =~= h1 + gs + connectors_stores(c.take(i + 1)));
            }
            i = i + 1;
        }
        assert(c.take(c.len() as int) =~= c);
        let mut even: Vec<u8> = Vec::new();
        push_u32(&mut even, 2);
        assert(even@ =~= u32_bytes(2));
        let ghost before = stores_view(out@);
        self.store(&mut out, 16, even);
        assert(stores_view(out@).drop_last() =~= before);
        assert(stores_view(out@) =~= h1 + payload_stores(*hw).push((16int, u32_bytes(2))));
        out
    }

    fn write_gpu(&mut self, out: &mut Vec<Store>, gpu: &GpuInfo)
        requires
            old(self).image().len() == SHM_SIZE,
        ensures
            stores_view(final(out)@) == stores_view(old(out)@) + gpu_stores(*gpu),
            final(self).image() == stored(old(self).image(), gpu_stores(*gpu)),
            final(self).image().len() == SHM_SIZE,
            final(self).name() == old(self).name(),
    {
        let ghost gs = gpu_stores(*gpu);
        let ghost start = self.image();
        let mut ids: Vec<u8> = Vec::new();
        push_u32(&mut ids, gpu.pci_vendor);
        push_u32(&mut ids, gpu.pci_device);
        push_u32(&mut ids, gpu.pci_subsys_vendor);
        push_u32(&mut ids, gpu.pci_subsys_device);
        push_u32(&mut ids, gpu.pci_revision);
        assert(ids@ =~= gs[0].1);
        self.store(out, HEADER_SIZE, ids);
        let driver: Vec<u8> = copy_clipped(gpu.driver.as_str().as_bytes(), 63);
        self.store(out, HEADER_SIZE + 20, driver);
        let bus: Vec<u8> = copy_clipped(gpu.pci_bus_id.as_str().as_bytes(), 63);
        self.store(out, HEADER_SIZE + 84, bus);
        let name: Vec<u8> = copy_clipped(gpu.gpu_name.as_str().as_bytes(), 63);
        self.store(out, HEADER_SIZE + 148, name);
        let mut vram: Vec<u8> = Vec::new();
        push_u64(&mut vram, gpu.vram_bytes);
        assert(vram@ =~= gs[4].1);
        self.store(out, HEADER_SIZE + 212, vram);
        assert(stores_view(out@) =~= stores_view(old(out)@) + gs);
        proof {
            reveal_with_fuel(stored, 6);
            assert(gs.drop_last().drop_last().drop_last().drop_last().drop_last()
                =~= Seq::empty());
            assert(gs.drop_last().drop_last().drop_last().drop_last().last() == gs[0]);
            assert(gs.drop_last().drop_last().drop_last().last() == gs[1]);
            assert(gs.drop_last().drop_last().last() == gs[2]);
            assert(gs.drop_last().last() == gs[3]);
        }
    }

    fn write_connector(&mut self, out: &mut Vec<Store>, index: usize, conn: &ConnectorInfo)
        requires
            old(self).image().len() == SHM_SIZE,
            index < MAX_CONNECTORS,
        ensures
            stores_view(final(out)@) == stores_view(old(out)@) + connector_stores(
                index as int,
                *conn,
            ),
            final(self).image() == stored(
                old(self).image(),
                connector_stores(index as int, *conn),
            ),
            final(self).image().len() == SHM_SIZE,
            final(self).name() == old(self).name(),
    {
        let ghost cs = connector_stores(index as int, *conn);
        let at: usize = HEADER_SIZE + GPU_ENTRY_SIZE + index * CONNECTOR_ENTRY_SIZE;
        let count: usize = if conn.modes.len() <= MAX_MODES_PER_CONNECTOR {
            conn.modes.len()
        } else {
            MAX_MODES_PER_CONNECTOR
        };
        let edid: Vec<u8> = copy_clipped(conn.edid.as_slice(), 128);
        let cur: u32 = find_current(conn);
        let mut ids: Vec<u8> = Vec::new();
        push_u32(&mut ids, conn.connector_id);
        push_u32(&mut ids, conn.connector_type);
        push_u32(&mut ids, conn.connector_type_id);
        push_u32(&mut ids, conn.mm_width);
        push_u32(&mut ids, conn.mm_height);
        push_u32(&mut ids, count as u32);
        push_u32(&mut ids, cur);
        push_u32(&mut ids, edid.len() as u32);
        assert(ids@ =~= cs[0].1);
        self.store(out, at, ids);
        let name: Vec<u8> = copy_clipped(conn.name.as_str().as_bytes(), 31);
        self.store(out, at + 32, name);
        self.store(out, at + 64, edid);
        let mut modes: Vec<u8> = Vec::new();
        let mut j: usize = 0;
        while j < count
            invariant
                j <= count <= conn.modes@.len(),
                modes@ == modes_bytes(conn.modes@, j as nat),
            decreases count - j,
        {
            let m: ModeInfo = conn.modes[j];
            let ghost before = modes@;
            push_u32(&mut modes, m.width);
            push_u32(&mut modes, m.height);
            push_u32(&mut modes, m.refresh);
            push_u32(&mut modes, m.flags);
            assert(modes@ =~= before + mode_bytes(m));
            j = j + 1;
        }
        proof {
            lemma_modes_bytes(conn.modes@, count as nat);
        }
        self.store(out, at + CONNECTOR_HEADER_SIZE, modes);
        assert(stores_view(out@) =~= stores_view(old(out)@) + cs);
        proof {
            reveal_with_fuel(stored, 5);
            assert(cs.drop_last().drop_last().drop_last().drop_last() =~= Seq::empty());
            assert(cs.drop_last().drop_last().drop_last().last() == cs[0]);
            assert(cs.drop_last().drop_last().last() == cs[1]);
            assert(cs.drop_last().last() == cs[2]);
        }
    }
}

fn find_current(conn: &ConnectorInfo) -> (r: u32)
    ensures
        r == current_index(*conn),
{
    match conn.current_mode {
        None => 0xFFFF_FFFF,
        Some(cur) => {
            let mut i: usize = 0;
            assert(conn.modes@.take(0) =~= Seq::empty());
            while i < conn.modes.len()
                invariant
                    i <= conn.modes@.len(),
                    conn.current_mode == Some(cur),
                    mode_position(conn.modes@.take(i as int), cur) == i,
                decreases conn.modes@.len() - i,
            {
                assert(conn.modes@.take(i + 1).drop_last() =~= conn.modes@.take(i as int));
                let m: ModeInfo = conn.modes[i];
                if m.width == cur.width && m.height == cur.height && m.refresh == cur.refresh {
                    proof {
                        lemma_position_found(conn.modes@, i as int, cur);
                    }
                    return i as u32;
                }
                i = i + 1;
            }
            assert(conn.modes@.take(conn.modes@.len() as int) =~= conn.modes@);
            0xFFFF_FFFF
        },
    }
}

proof fn lemma_position_found(m: Seq<ModeInfo>, i: int, cur: ModeInfo)
    requires
        0 <= i < m.len(),
        mode_position(m.take(i + 1), cur) == i,
    ensures
        mode_position(m, cur) == i,
    decreases m.len(),
{
    if i + 1 == m.len() {
        assert(m.take(i + 1) =~= m);
    } else {
        assert(m.drop_last().take(i + 1) =~= m.take(i + 1));
        lemma_position_found(m.drop_last(), i, cur);
    }
}

fn choose_driver(override_name: Option<String>, vendor: u32, session: u32) -> (r: u8)
    ensures
        r == driver_kind(crate::wire::opt_view(override_name), vendor, session),
{
    match override_name {
        Some(name) => {
            if same(name.as_str(), "winex11.drv") || same(name.as_str(), "x11") {
                return 1;
            }
            if same(name.as_str(), "winewayland.drv") || same(name.as_str(), "wayland") {
                return 2;
            }
        },
        None => {},
    }
    if vendor == 0x10de || session != 2 {
        1
    } else {
        2
    }
}

fn connected_indices(c: &Vec<ConnectorInfo>) -> (r: Vec<usize>)
    ensures
        r@.len() == connected(c@).len() <= 8,
        forall|j: int|
            #![trigger r@[j]]
            0 <= j < r@.len() ==> r@[j] < c@.len() && c@[r@[j] as int] == connected(c@)[j],
{
    let mut out: Vec<usize> = Vec::new();
    let mut i: usize = 0;
    assert(c@.take(0) =~= Seq::empty());
    while i < c.len()
        invariant
            i <= c@.len(),
            out@.len() == connected(c@.take(i as int)).len() <= 8,
            forall|j: int|
                #![trigger out@[j]]
                0 <= j < out@.len() ==> out@[j] < c@.len() && c@[out@[j] as int] == connected(
                    c@.take(i as int),
                )[j],
        decreases c@.len() - i,
    {
        assert(c@.take(i + 1).drop_last() =~= c@.take(i as int));
        if c[i].connected && out.len() < MAX_CONNECTORS {
            out.push(i);
        }
        i = i + 1;
    }
    assert(c@.take(c@.len() as int) =~= c@);
    out
}


/// The text that bytes hold, where sequences that are not UTF-8 show as U+FFFD.
pub uninterp spec fn utf8_lossy(b: Seq<u8>) -> Seq<char>;

/// `String::from_utf8_lossy`: bytes that are UTF-8 give the text that they encode. How many
/// characters stand for bytes that are not is left to the name.
#[verifier::external_body]
fn text_from_utf8_lossy(b: &[u8]) -> (r: String)
    ensures
        r@ == utf8_lossy(b@),
        valid_utf8(b@) ==> r@ == decode_utf8(b@),
{
    String::from_utf8_lossy(b).into_owned()
}

pub struct ModeData {
    pub width: u32,
    pub height: u32,
    pub refresh: u32,
}

pub struct GpuData {
    pub pci_vendor: u32,
    pub pci_device: u32,
    pub pci_subsys_vendor: u32,
    pub pci_subsys_device: u32,
    pub pci_revision: u32,
    pub driver: String,
    pub bus_id: String,
    pub gpu_name: String,
    pub vram_bytes: u64,
}

pub struct ConnectorData {
    pub name: String,
    pub connector_type: u32,
    pub mm_width: u32,
    pub mm_height: u32,
    pub edid: Vec<u8>,
    pub modes: Vec<ModeData>,
    pub current_mode_index: usize,
    pub current_width: u32,
    pub current_height: u32,
    pub current_refresh: u32,
}

/// The display hardware as the daemon uses it.
pub struct DisplayData {
    pub gpu: GpuData,
    pub connectors: Vec<ConnectorData>,
    pub driver_choice: u8,
    pub session_type: u32,
}

/// The bytes at `at` up to the first zero, no more than `max`.
pub open spec fn c_bytes(img: Seq<u8>, at: int, max: nat) -> Seq<u8>
    decreases max,
{
    if max == 0 || img[at] == 0 {
        Seq::empty()
    } else {
        seq![img[at]] + c_bytes(img, at + 1, (max - 1) as nat)
    }
}

/// A text that stands for bytes: the text that they encode, where they are UTF-8.
pub open spec fn shows(text: Seq<char>, b: Seq<u8>) -> bool {
    text == utf8_lossy(b) && (valid_utf8(b) ==> text == decode_utf8(b))
}

/// The entry of the graphics processor in a segment.
pub open spec fn gpu_read(g: GpuData, img: Seq<u8>) -> bool {
    &&& g.pci_vendor == u32_at(img, 64)
    &&& g.pci_device == u32_at(img, 68)
    &&& g.pci_subsys_vendor == u32_at(img, 72)
    &&& g.pci_subsys_device == u32_at(img, 76)
    &&& g.pci_revision == u32_at(img, 80)
    &&& shows(g.driver@, c_bytes(img, 84, 63))
    &&& shows(g.bus_id@, c_bytes(img, 148, 63))
    &&& shows(g.gpu_name@, c_bytes(img, 212, 63))
    &&& g.vram_bytes == u64_at(img, 276)
}

/// A mode entry in a segment.
pub open spec fn mode_read(m: ModeData, img: Seq<u8>, at: int) -> bool {
    m.width == u32_at(img, at) && m.height == u32_at(img, at + 4) && m.refresh == u32_at(
        img,
        at + 8,
    )
}

pub open spec fn at_most(n: u32, max: int) -> int {
    if n <= max {
        n as int
    } else {
        max
    }
}

/// The connector entry with some index in a segment. The current mode is the one that the entry
/// names, else the first, else 1920 by 1080 at 60 Hz.
pub open spec fn connector_read(c: ConnectorData, img: Seq<u8>, index: int) -> bool {
    let at = connector_at(index);
    let n = at_most(u32_at(img, at + 20), 64);
    let cur = u32_at(img, at + 24);
    &&& c.connector_type == u32_at(img, at + 4)
    &&& c.mm_width == u32_at(img, at + 12)
    &&& c.mm_height == u32_at(img, at + 16)
    &&& c.current_mode_index == cur
    &&& shows(c.name@, c_bytes(img, at + 32, 31))
    &&& c.edid@ == img.subrange(at + 64, at + 64 + at_most(u32_at(img, at + 28), 128))
    &&& c.modes@.len() == n
    &&& forall|j: int|
        #![trigger c.modes@[j]]
        0 <= j < n ==> mode_read(c.modes@[j], img, at + 128 + 16 * j)
    &&& if n == 0 {
        c.current_width == 1920 && c.current_height == 1080 && c.current_refresh == 60
    } else {
        let m = c.modes@[if cur < n { cur as int } else { 0 }];
        c.current_width == m.width && c.current_height == m.height && c.current_refresh
            == m.refresh
    }
}

/// What a segment says of the hardware.
pub open spec fn data_read(d: DisplayData, img: Seq<u8>) -> bool {
    &&& gpu_read(d.gpu, img)
    &&& d.driver_choice == img[20]
    &&& d.session_type == u32_at(img, 24)
    &&& d.connectors@.len() == at_most(u32_at(img, 12), 8)
    &&& forall|i: int|
        #![trigger d.connectors@[i]]
        0 <= i < d.connectors@.len() ==> connector_read(d.connectors@[i], img, i)
}

/// A segment says something only under its magic number and with a graphics processor.
pub open spec fn segment_live(img: Seq<u8>) -> bool {
    u32_at(img, 0) == SHM_MAGIC && u32_at(img, 8) != 0
}

fn read_cstr(img: &[u8], at: usize, max: usize) -> (r: String)
    requires
        at + max <= img@.len(),
    ensures
        shows(r@, c_bytes(img@, at as int, max as nat)),
{
    let len: usize = img.len();
    let mut n: usize = 0;
    while n < max && img[at + n] != 0
        invariant
            n <= max,
            len == img@.len(),
            at + max <= len,
            c_bytes(img@, at as int, max as nat) == img@.subrange(at as int, at + n) + c_bytes(
                img@,
                at + n,
                (max - n) as nat,
            ),
        decreases max - n,
    {
        assert(img@.subrange(at as int, at + n) + (seq![img@[at + n]] + c_bytes(
            img@,
            at + n + 1,
            (max - n - 1) as nat,
        )) =~= img@.subrange(at as int, at + n + 1) + c_bytes(
            img@,
            at + n + 1,
            (max - n - 1) as nat,
        ));
        n = n + 1;
    }
    let b: Vec<u8> = copy_range(img, at, at + n);
    assert(c_bytes(img@, at as int, max as nat) =~= b@);
    text_from_utf8_lossy(b.as_slice())
}

fn read_gpu(img: &[u8]) -> (g: GpuData)
    requires
        img@.len() == SHM_SIZE,
    ensures
        gpu_read(g, img@),
{
    GpuData {
        pci_vendor: read_u32(img, HEADER_SIZE),
        pci_device: read_u32(img, HEADER_SIZE + 4),
        pci_subsys_vendor: read_u32(img, HEADER_SIZE + 8),
        pci_subsys_device: read_u32(img, HEADER_SIZE + 12),
        pci_revision: read_u32(img, HEADER_SIZE + 16),
        driver: read_cstr(img, HEADER_SIZE + 20, 63),
        bus_id: read_cstr(img, HEADER_SIZE + 84, 63),
        gpu_name: read_cstr(img, HEADER_SIZE + 148, 63),
        vram_bytes: read_u64(img, HEADER_SIZE + 212),
    }
}

fn read_connector(img: &[u8], index: usize) -> (c: ConnectorData)
    requires
        img@.len() == SHM_SIZE,
        index < MAX_CONNECTORS,
    ensures
        connector_read(c, img@, index as int),
{
    let at: usize = HEADER_SIZE + GPU_ENTRY_SIZE + index * CONNECTOR_ENTRY_SIZE;
    let announced: usize = read_u32(img, at + 20) as usize;
    let count: usize = if announced <= MAX_MODES_PER_CONNECTOR {
        announced
    } else {
        MAX_MODES_PER_CONNECTOR
    };
    let cur: usize = read_u32(img, at + 24) as usize;
    let edid_announced: usize = read_u32(img, at + 28) as usize;
    let edid_len: usize = if edid_announced <= 128 {
        edid_announced
    } else {
        128
    };
    let name = read_cstr(img, at + 32, 31);
    let edid: Vec<u8> = copy_range(img, at + 64, at + 64 + edid_len);
    let mut modes: Vec<ModeData> = Vec::new();
    let mut j: usize = 0;
    while j < count
        invariant
            j <= count <= 64,
            at + 1152 <= 16384,
            img@.len() == SHM_SIZE,
            modes@.len() == j,
            forall|l: int|
                #![trigger modes@[l]]
                0 <= l < j ==> mode_read(modes@[l], img@, at + 128 + 16 * l),
        decreases count - j,
    {
        let m: usize = at + CONNECTOR_HEADER_SIZE + j * MODE_ENTRY_SIZE;
        modes.push(
            ModeData {
                width: read_u32(img, m),
                height: read_u32(img, m + 4),
                refresh: read_u32(img, m + 8),
            },
        );
        j = j + 1;
    }
    let (w, h, r): (u32, u32, u32) = if cur < modes.len() {
        (modes[cur].width, modes[cur].height, modes[cur].refresh)
    } else if modes.len() > 0 {
        (modes[0].width, modes[0].height, modes[0].refresh)
    } else {
        (1920, 1080, 60)
    };
    ConnectorData {
        name,
        connector_type: read_u32(img, at + 4),
        mm_width: read_u32(img, at + 12),
        mm_height: read_u32(img, at + 16),
        edid,
        modes,
        current_mode_index: cur,
        current_width: w,
        current_height: h,
        current_refresh: r,
    }
}

/// Reads a segment that was copied out of shared memory.
pub fn read_parallax_shm(img: &[u8]) -> (r: Option<DisplayData>)
    requires
        img@.len() == SHM_SIZE,
    ensures
        r is Some <==> segment_live(img@),
        r matches Some(d) ==> data_read(d, img@),
{
    if read_u32(img, 0) != SHM_MAGIC || read_u32(img, 8) == 0 {
        return None;
    }
    let announced: usize = read_u32(img, 12) as usize;
    let count: usize = if announced <= MAX_CONNECTORS {
        announced
    } else {
        MAX_CONNECTORS
    };
    let mut connectors: Vec<ConnectorData> = Vec::new();
    let mut i: usize = 0;
    while i < count
        invariant
            i <= count <= 8,
            img@.len() == SHM_SIZE,
            connectors@.len() == i,
            forall|j: int|
                #![trigger connectors@[j]]
                0 <= j < i ==> connector_read(connectors@[j], img@, j),
        decreases count - i,
    {
        connectors.push(read_connector(img, i));
        i = i + 1;
    }
    Some(
        DisplayData {
            gpu: read_gpu(img),
            connectors,
            driver_choice: img[20],
            session_type: read_u32(img, 24),
        },
    )
}

/// The name of the segment for a prefix on some device and inode.
pub open spec fn prefix_hash_of(id: Option<(u64, u64)>) -> Seq<char> {
    match id {
        Some((dev, ino)) => hexadecimal(dev as nat) + hexadecimal(ino as nat),
        None => Seq::empty(),
    }
}

/// The hash that names a prefix's segment: its device and inode in hexadecimal, or nothing where
/// the prefix has no metadata.
pub fn compute_prefix_hash(id: Option<(u64, u64)>) -> (r: String)
    ensures
        r@ == prefix_hash_of(id),
{
    let mut out = String::new();
    match id {
        Some((dev, ino)) => {
            push_hex(&mut out, dev);
            push_hex(&mut out, ino);
            assert(out@ =~= prefix_hash_of(id));
        },
        None => {},
    }
    out
}

/// Five bits of a manufacturer code as a letter: 1 is `A`.
pub open spec fn letter(n: int) -> char {
    (64 + n) as char
}

/// The number that two bytes stand for, the higher first.
pub open spec fn big16(hi: u8, lo: u8) -> int {
    hi * 256 + lo
}

fn letter_char(n: u8) -> (c: char)
    requires
        n < 32,
    ensures
        c == letter(n as int),
{
    (64 + n) as char
}

impl DisplayData {
    /// The size of the first connector's current mode, or 1920 by 1080 without one.
    pub open spec fn size(&self) -> (i32, i32) {
        if self.connectors@.len() == 0 {
            (1920i32, 1080i32)
        } else {
            (
                crate::bytes::i32_of_bits(self.connectors@[0].current_width),
                crate::bytes::i32_of_bits(self.connectors@[0].current_height),
            )
        }
    }

    /// The display device's GUID, made of the PCI ids.
    pub open spec fn guid(&self) -> Seq<char> {
        hex_padded(self.gpu.pci_vendor as nat, 4) + hex_padded(self.gpu.pci_device as nat, 4)
            + "-0000-0000-0000-000000000000"@
    }

    /// The size of the first connector's current mode, or 1920 by 1080 without one.
    pub fn primary_resolution(&self) -> (r: (i32, i32))
        ensures
            r == self.size(),
    {
        if self.connectors.len() == 0 {
            (1920, 1080)
        } else {
            let c = &self.connectors[0];
            (
                crate::bytes::i32_from_bits(c.current_width),
                crate::bytes::i32_from_bits(c.current_height),
            )
        }
    }

    /// The driver's short name and its module.
    pub fn display_driver(&self) -> (r: (&'static str, &'static str))
        ensures
            self.driver_choice == 2 ==> r.0@ == "wayland"@ && r.1@ == "winewayland.drv"@,
            self.driver_choice != 2 ==> r.0@ == "x11"@ && r.1@ == "winex11.drv"@,
    {
        if self.driver_choice == 2 {
            ("wayland", "winewayland.drv")
        } else {
            ("x11", "winex11.drv")
        }
    }

    /// The display device's GUID, made of the PCI ids.
    pub fn gpu_guid(&self) -> (r: String)
        ensures
            r@ == self.guid(),
    {
        let mut out = String::new();
        push_hex_padded(&mut out, self.gpu.pci_vendor as u64);
        push_hex_padded(&mut out, self.gpu.pci_device as u64);
        out.append("-0000-0000-0000-000000000000");
        assert(out@ =~= hex_padded(self.gpu.pci_vendor as nat, 4) + hex_padded(
            self.gpu.pci_device as nat,
            4,
        ) + "-0000-0000-0000-000000000000"@);
        out
    }

    /// The manufacturer's three letters in an EDID, or `UNK` where it is too short.
    pub fn edid_manufacturer(edid: &[u8]) -> (r: String)
        ensures
            edid@.len() < 10 ==> r@ == "UNK"@,
            edid@.len() >= 10 ==> r@ == seq![
                letter(big16(edid@[8], edid@[9]) / 1024 % 32),
                letter(big16(edid@[8], edid@[9]) / 32 % 32),
                letter(big16(edid@[8], edid@[9]) % 32),
            ],
    {
        if edid.len() < 10 {
            return "UNK".to_string();
        }
        let raw: u16 = edid[8] as u16 * 256 + edid[9] as u16;
        let mut out = String::new();
        out.push(letter_char((raw / 1024 % 32) as u8));
        out.push(letter_char((raw / 32 % 32) as u8));
        out.push(letter_char((raw % 32) as u8));
        assert(out@ =~= seq![
            letter(big16(edid@[8], edid@[9]) / 1024 % 32),
            letter(big16(edid@[8], edid@[9]) / 32 % 32),
            letter(big16(edid@[8], edid@[9]) % 32),
        ]);
        out
    }

    /// The product code in an EDID, or 0 where it is too short.
    pub fn edid_product(edid: &[u8]) -> (r: u16)
        ensures
            edid@.len() < 12 ==> r == 0,
            edid@.len() >= 12 ==> r == crate::bytes::u16_at(edid@, 10),
    {
        if edid.len() < 12 {
            0
        } else {
            crate::bytes::read_u16(edid, 10)
        }
    }
}

/// A number in hexadecimal with zeros in front up to some width.
pub open spec fn hex_padded(n: nat, width: nat) -> Seq<char> {
    if hexadecimal(n).len() >= width {
        hexadecimal(n)
    } else {
        hex_fixed(n, width)
    }
}

proof fn lemma_hex_len(n: nat)
    ensures
        hexadecimal(n).len() >= 1,
        hexadecimal(n).len() >= 4 <==> n >= 0x1000,
{
    reveal_with_fuel(hexadecimal, 5);
}

fn push_hex_padded(out: &mut String, n: u64)
    ensures
        final(out)@ == old(out)@ + hex_padded(n as nat, 4),
{
    proof {
        lemma_hex_len(n as nat);
    }
    if n >= 0x1000 {
        push_hex(out, n);
    } else {
        push_hex_fixed(out, n, 4);
    }
}


/// All stores lie within a range.
pub open spec fn stores_within(stores: Seq<(int, Seq<u8>)>, lo: int, hi: int) -> bool {
    forall|k: int|
        #![trigger stores[k]]
        0 <= k < stores.len() ==> lo <= stores[k].0 && stores[k].0 + stores[k].1.len() <= hi
}

/// Two images agree on a range.
pub open spec fn agree(a: Seq<u8>, b: Seq<u8>, lo: int, hi: int) -> bool {
    forall|i: int| lo <= i < hi ==> #[trigger] a[i] == b[i]
}

proof fn lemma_stored_elsewhere(img: Seq<u8>, stores: Seq<(int, Seq<u8>)>, lo: int, hi: int, a: int, b: int)
    requires
        stores_within(stores, a, b),
        hi <= a || b <= lo,
        0 <= lo,
        hi <= img.len(),
    ensures
        agree(stored(img, stores), img, lo, hi),
    decreases stores.len(),
{
    lemma_stored_len(img, stores);
    if stores.len() > 0 {
        let st = stores.drop_last();
        assert forall|k: int| #![trigger st[k]] 0 <= k < st.len() implies a <= st[k].0 && st[k].0
            + st[k].1.len() <= b by {
            assert(st[k] == stores[k]);
        }
        lemma_stored_elsewhere(img, st, lo, hi, a, b);
        lemma_stored_len(img, st);
        assert(stores.last() == stores[stores.len() - 1]);
    }
}

proof fn lemma_connector_within(index: int, c: ConnectorInfo)
    ensures
        stores_within(connector_stores(index, c), connector_at(index), connector_at(index) + 1152),
{
    lemma_modes_bytes(c.modes@, mode_count(c));
}

proof fn lemma_connectors_within(c: Seq<ConnectorInfo>)
    ensures
        stores_within(connectors_stores(c), 320, connector_at(c.len() as int)),
    decreases c.len(),
{
    if c.len() > 0 {
        let a = connectors_stores(c.drop_last());
        let b = connector_stores(c.len() - 1, c.last());
        lemma_connectors_within(c.drop_last());
        lemma_connector_within(c.len() - 1, c.last());
        assert forall|k: int| #![trigger (a + b)[k]] 0 <= k < (a + b).len() implies 320 <= (a
            + b)[k].0 && (a + b)[k].0 + (a + b)[k].1.len() <= connector_at(c.len() as int) by {
            if k < a.len() {
                assert((a + b)[k] == a[k]);
            } else {
                assert((a + b)[k] == b[k - a.len()]);
            }
        }
    }
}

/// A name that survives storing: short enough for its field, and without a zero byte.
pub open spec fn fits(name: Seq<char>, max: int) -> bool {
    encode_utf8(name).len() <= max && !encode_utf8(name).contains(0)
}

proof fn lemma_c_bytes(img: Seq<u8>, at: int, max: nat, b: Seq<u8>)
    requires
        0 <= at,
        at + max <= img.len(),
        b.len() <= max,
        !b.contains(0),
        agree_bytes(img, at, b),
        b.len() < max ==> img[at + b.len()] == 0,
    ensures
        c_bytes(img, at, max) == b,
    decreases max,
{
    if max > 0 && b.len() > 0 {
        assert(b[0] == img[at + 0]);
        let t = b.skip(1);
        assert forall|i: int| 0 <= i < t.len() implies t[i] != 0 by {
            assert(b[i + 1] == t[i]);
        }
        assert(agree_bytes(img, at + 1, t)) by {
            assert forall|i: int| 0 <= i < t.len() implies #[trigger] img[at + 1 + i] == t[i] by {
                assert(img[at + (i + 1)] == b[i + 1]);
            }
        }
        assert(b.len() < max ==> img[at + 1 + t.len()] == 0);
        lemma_c_bytes(img, at + 1, (max - 1) as nat, t);
        assert(seq![b[0]] + t =~= b);
    } else {
        assert(b =~= Seq::<u8>::empty());
    }
}

/// The bytes of `b` stand in an image at `at`.
pub open spec fn agree_bytes(img: Seq<u8>, at: int, b: Seq<u8>) -> bool {
    forall|i: int| 0 <= i < b.len() ==> #[trigger] img[at + i] == b[i]
}

/// What the daemon learns of a connector is what the enumeration found. Of an EDID longer than 64
/// bytes the rest is certain only where no mode entry lies over it.
pub open spec fn connector_kept(d: ConnectorData, c: ConnectorInfo) -> bool {
    &&& d.connector_type == c.connector_type
    &&& d.mm_width == c.mm_width
    &&& d.mm_height == c.mm_height
    &&& d.modes@.len() == mode_count(c)
    &&& forall|j: int|
        #![trigger d.modes@[j]]
        0 <= j < d.modes@.len() ==> d.modes@[j].width == c.modes@[j].width && d.modes@[j].height
            == c.modes@[j].height && d.modes@[j].refresh == c.modes@[j].refresh
    &&& d.current_mode_index == current_index(c)
    &&& d.edid@.len() == edid_len(c)
    &&& clipped(d.edid@, 64) == clipped(c.edid@, 64)
    &&& c.modes@.len() == 0 ==> d.edid@ == clipped(c.edid@, 128)
    &&& fits(c.name@, 31) ==> d.name@ == c.name@
}

/// The bytes of a connector entry as they stand once written.
pub open spec fn connector_stands(img: Seq<u8>, at: int, index: int, c: ConnectorInfo) -> bool {
    let cs = connector_stores(index, c);
    &&& agree_bytes(img, at, cs[0].1)
    &&& agree_bytes(img, at + 32, cs[1].1)
    &&& cs[1].1.len() < 31 ==> img[at + 32 + cs[1].1.len()] == 0
    &&& forall|i: int|
        0 <= i < cs[2].1.len() && (i < 64 || c.modes@.len() == 0) ==> #[trigger] img[at + 64 + i]
            == cs[2].1[i]
    &&& agree_bytes(img, at + 128, cs[3].1)
}

proof fn lemma_connector_stands(pre: Seq<u8>, img: Seq<u8>, index: int, c: ConnectorInfo)
    requires
        0 <= index < 8,
        pre.len() == SHM_SIZE,
        img.len() == SHM_SIZE,
        agree(pre, zeros(SHM_SIZE as nat), connector_at(index), connector_at(index) + 1152),
        agree(
            img,
            stored(pre, connector_stores(index, c)),
            connector_at(index),
            connector_at(index) + 1152,
        ),
    ensures
        connector_stands(img, connector_at(index), index, c),
{
    let at = connector_at(index);
    let cs = connector_stores(index, c);
    lemma_modes_bytes(c.modes@, mode_count(c));
    let b0 = cs[0].1;
    let b1 = cs[1].1;
    let b2 = cs[2].1;
    let b3 = cs[3].1;
    let s0 = splice(pre, at, b0);
    let s1 = splice(s0, at + 32, b1);
    let s2 = splice(s1, at + 64, b2);
    let s3 = splice(s2, at + 128, b3);
    assert(stored(pre, cs) == s3) by {
        reveal_with_fuel(stored, 5);
        assert(cs.drop_last().drop_last().drop_last().drop_last() =~= Seq::empty());
        assert(cs.drop_last().drop_last().drop_last().last() == cs[0]);
        assert(cs.drop_last().drop_last().last() == cs[1]);
        assert(cs.drop_last().last() == cs[2]);
    }
    assert(b0.len() == 32);
    assert(b1.len() <= 31);
    assert(b2.len() <= 128);
    assert(b3.len() == 16 * mode_count(c) <= 1024);
    assert forall|i: int| 0 <= i < 32 implies #[trigger] img[at + i] == b0[i] by {
        assert(img[at + i] == s3[at + i]);
    }
    assert forall|i: int| 0 <= i < b1.len() implies #[trigger] img[at + 32 + i] == b1[i] by {
        assert(img[at + 32 + i] == s3[at + 32 + i]);
    }
    if b1.len() < 31 {
        let q = at + 32 + b1.len();
        assert(img[q] == s3[q]);
        assert(pre[q] == zeros(SHM_SIZE as nat)[q]);
    }
    assert forall|i: int|
        0 <= i < b2.len() && (i < 64 || c.modes@.len() == 0) implies #[trigger] img[at + 64 + i]
        == b2[i] by {
        assert(img[at + 64 + i] == s3[at + 64 + i]);
    }
    assert forall|i: int| 0 <= i < b3.len() implies #[trigger] img[at + 128 + i] == b3[i] by {
        assert(img[at + 128 + i] == s3[at + 128 + i]);
    }
}

/// A number whose bytes stand within other bytes is read back there.
proof fn lemma_field(img: Seq<u8>, at: int, b: Seq<u8>, k: int, x: u32)
    requires
        0 <= at,
        0 <= k,
        k + 4 <= b.len(),
        at + b.len() <= img.len(),
        agree_bytes(img, at, b),
        b.subrange(k, k + 4) == u32_bytes(x),
    ensures
        u32_at(img, at + k) == x,
{
    let t = b.subrange(k, k + 4);
    assert forall|i: int| 0 <= i < 4 implies img.subrange(at + k, at + k + 4)[i] == t[i] by {
        assert(img[at + (k + i)] == b[k + i]);
    }
    assert(img.subrange(at + k, at + k + 4) =~= t);
    crate::bytes::lemma_read_back_u32(img, at + k, x);
}

proof fn lemma_connector_head(img: Seq<u8>, at: int, index: int, c: ConnectorInfo)
    requires
        0 <= at,
        at + 1152 <= img.len(),
        connector_stands(img, at, index, c),
    ensures
        u32_at(img, at + 4) == c.connector_type,
        u32_at(img, at + 12) == c.mm_width,
        u32_at(img, at + 16) == c.mm_height,
        u32_at(img, at + 20) == mode_count(c),
        u32_at(img, at + 24) == current_index(c),
        u32_at(img, at + 28) == edid_len(c),
{
    let b = connector_stores(index, c)[0].1;
    assert(b.subrange(4, 8) =~= u32_bytes(c.connector_type));
    lemma_field(img, at, b, 4, c.connector_type);
    assert(b.subrange(12, 16) =~= u32_bytes(c.mm_width));
    lemma_field(img, at, b, 12, c.mm_width);
    assert(b.subrange(16, 20) =~= u32_bytes(c.mm_height));
    lemma_field(img, at, b, 16, c.mm_height);
    assert(b.subrange(20, 24) =~= u32_bytes(mode_count(c) as u32));
    lemma_field(img, at, b, 20, mode_count(c) as u32);
    assert(b.subrange(24, 28) =~= u32_bytes(current_index(c)));
    lemma_field(img, at, b, 24, current_index(c));
    assert(b.subrange(28, 32) =~= u32_bytes(edid_len(c)));
    lemma_field(img, at, b, 28, edid_len(c));
}

proof fn lemma_connector_mode(img: Seq<u8>, at: int, index: int, c: ConnectorInfo, j: int)
    requires
        0 <= at,
        at + 1152 <= img.len(),
        connector_stands(img, at, index, c),
        0 <= j < mode_count(c),
    ensures
        u32_at(img, at + 128 + 16 * j) == c.modes@[j].width,
        u32_at(img, at + 128 + 16 * j + 4) == c.modes@[j].height,
        u32_at(img, at + 128 + 16 * j + 8) == c.modes@[j].refresh,
{
    let b = connector_stores(index, c)[3].1;
    lemma_modes_bytes(c.modes@, mode_count(c));
    let m = c.modes@[j];
    let t = b.subrange(16 * j, 16 * j + 16);
    assert(t == mode_bytes(m));
    assert(b.subrange(16 * j, 16 * j + 4) =~= t.subrange(0, 4));
    assert(t.subrange(0, 4) =~= u32_bytes(m.width));
    lemma_field(img, at + 128, b, 16 * j, m.width);
    assert(b.subrange(16 * j + 4, 16 * j + 8) =~= t.subrange(4, 8));
    assert(t.subrange(4, 8) =~= u32_bytes(m.height));
    lemma_field(img, at + 128, b, 16 * j + 4, m.height);
    assert(b.subrange(16 * j + 8, 16 * j + 12) =~= t.subrange(8, 12));
    assert(t.subrange(8, 12) =~= u32_bytes(m.refresh));
    lemma_field(img, at + 128, b, 16 * j + 8, m.refresh);
}

proof fn lemma_connector_kept(pre: Seq<u8>, img: Seq<u8>, index: int, c: ConnectorInfo, d: ConnectorData)
    requires
        0 <= index < 8,
        pre.len() == SHM_SIZE,
        img.len() == SHM_SIZE,
        agree(pre, zeros(SHM_SIZE as nat), connector_at(index), connector_at(index) + 1152),
        agree(
            img,
            stored(pre, connector_stores(index, c)),
            connector_at(index),
            connector_at(index) + 1152,
        ),
        connector_read(d, img, index),
    ensures
        connector_kept(d, c),
{
    let at = connector_at(index);
    lemma_connector_stands(pre, img, index, c);
    lemma_connector_head(img, at, index, c);
    assert forall|j: int| #![trigger d.modes@[j]] 0 <= j < d.modes@.len() implies d.modes@[j].width
        == c.modes@[j].width && d.modes@[j].height == c.modes@[j].height && d.modes@[j].refresh
        == c.modes@[j].refresh by {
        assert(mode_read(d.modes@[j], img, at + 128 + 16 * j));
        lemma_connector_mode(img, at, index, c, j);
    }
    let e = clipped(c.edid@, 128);
    assert(connector_stores(index, c)[2].1 == e);
    assert(d.edid@.len() == e.len());
    assert forall|i: int| 0 <= i < e.len() && (i < 64 || c.modes@.len() == 0) implies d.edid@[i]
        == e[i] by {
        assert(img[at + 64 + i] == e[i]);
    }
    assert(clipped(d.edid@, 64) =~= clipped(c.edid@, 64));
    if c.modes@.len() == 0 {
        assert(d.edid@ =~= e);
    }
    if fits(c.name@, 31) {
        let b = encode_utf8(c.name@);
        assert(connector_stores(index, c)[1].1 == b);
        lemma_text_kept(img, at + 32, 31, c.name@, d.name@);
    }
}

/// The graphics processor that the daemon learns of is the one that was found.
pub open spec fn gpu_kept(d: GpuData, g: GpuInfo) -> bool {
    &&& d.pci_vendor == g.pci_vendor
    &&& d.pci_device == g.pci_device
    &&& d.pci_subsys_vendor == g.pci_subsys_vendor
    &&& d.pci_subsys_device == g.pci_subsys_device
    &&& d.pci_revision == g.pci_revision
    &&& d.vram_bytes == g.vram_bytes
    &&& fits(g.driver@, 63) ==> d.driver@ == g.driver@
    &&& fits(g.pci_bus_id@, 63) ==> d.bus_id@ == g.pci_bus_id@
    &&& fits(g.gpu_name@, 63) ==> d.gpu_name@ == g.gpu_name@
}

proof fn lemma_text_kept(img: Seq<u8>, at: int, max: nat, name: Seq<char>, text: Seq<char>)
    requires
        0 <= at,
        at + max <= img.len(),
        fits(name, max as int),
        agree_bytes(img, at, encode_utf8(name)),
        encode_utf8(name).len() < max ==> img[at + encode_utf8(name).len()] == 0,
        shows(text, c_bytes(img, at, max)),
    ensures
        text == name,
{
    lemma_c_bytes(img, at, max, encode_utf8(name));
    encode_utf8_valid_utf8(name);
    encode_utf8_decode_utf8(name);
}

#[verifier::spinoff_prover]
#[verifier::rlimit(60)]
proof fn lemma_gpu_kept(pre: Seq<u8>, img: Seq<u8>, g: GpuInfo, d: GpuData)
    requires
        pre.len() == SHM_SIZE,
        img.len() == SHM_SIZE,
        agree(pre, zeros(SHM_SIZE as nat), 64, 320),
        agree(img, stored(pre, gpu_stores(g)), 64, 320),
        gpu_read(d, img),
    ensures
        gpu_kept(d, g),
{
    let gs = gpu_stores(g);
    reveal_with_fuel(stored, 6);
    assert(gs.drop_last().drop_last().drop_last().drop_last().drop_last() =~= Seq::empty());
    assert(gs.drop_last().drop_last().drop_last().drop_last().last() == gs[0]);
    assert(gs.drop_last().drop_last().drop_last().last() == gs[1]);
    assert(gs.drop_last().drop_last().last() == gs[2]);
    assert(gs.drop_last().last() == gs[3]);
    let s0 = splice(pre, gs[0].0, gs[0].1);
    let s1 = splice(s0, gs[1].0, gs[1].1);
    let s2 = splice(s1, gs[2].0, gs[2].1);
    let s3 = splice(s2, gs[3].0, gs[3].1);
    let s4 = splice(s3, gs[4].0, gs[4].1);
    assert(stored(pre, gs) == s4);
    assert forall|i: int| 64 <= i < 84 implies img[i] == gs[0].1[i - 64] by {
        assert(img[i] == s4[i]);
    }
    assert(img.subrange(64, 68) =~= u32_bytes(g.pci_vendor));
    crate::bytes::lemma_read_back_u32(img, 64, g.pci_vendor);
    assert(img.subrange(68, 72) =~= u32_bytes(g.pci_device));
    crate::bytes::lemma_read_back_u32(img, 68, g.pci_device);
    assert(img.subrange(72, 76) =~= u32_bytes(g.pci_subsys_vendor));
    crate::bytes::lemma_read_back_u32(img, 72, g.pci_subsys_vendor);
    assert(img.subrange(76, 80) =~= u32_bytes(g.pci_subsys_device));
    crate::bytes::lemma_read_back_u32(img, 76, g.pci_subsys_device);
    assert(img.subrange(80, 84) =~= u32_bytes(g.pci_revision));
    crate::bytes::lemma_read_back_u32(img, 80, g.pci_revision);
    assert forall|i: int| 276 <= i < 284 implies img[i] == gs[4].1[i - 276] by {
        assert(img[i] == s4[i]);
    }
    assert(img.subrange(276, 284) =~= u64_bytes(g.vram_bytes));
    crate::bytes::lemma_read_back_u64(img, 276, g.vram_bytes);
    if fits(g.driver@, 63) {
        let b = encode_utf8(g.driver@);
        assert forall|i: int| 0 <= i < b.len() implies #[trigger] img[84 + i] == b[i] by {
            assert(img[84 + i] == s4[84 + i]);
        }
        assert(img[84int + b.len()] == s4[84int + b.len()]);
        assert(pre[84int + b.len()] == zeros(SHM_SIZE as nat)[84int + b.len()]);
        lemma_text_kept(img, 84, 63, g.driver@, d.driver@);
    }
    if fits(g.pci_bus_id@, 63) {
        let b = encode_utf8(g.pci_bus_id@);
        assert forall|i: int| 0 <= i < b.len() implies #[trigger] img[148 + i] == b[i] by {
            assert(img[148 + i] == s4[148 + i]);
        }
        assert(img[148int + b.len()] == s4[148int + b.len()]);
        assert(pre[148int + b.len()] == zeros(SHM_SIZE as nat)[148int + b.len()]);
        lemma_text_kept(img, 148, 63, g.pci_bus_id@, d.bus_id@);
    }
    if fits(g.gpu_name@, 63) {
        let b = encode_utf8(g.gpu_name@);
        assert forall|i: int| 0 <= i < b.len() implies #[trigger] img[212 + i] == b[i] by {
            assert(img[212 + i] == s4[212 + i]);
        }
        assert(img[212int + b.len()] == s4[212int + b.len()]);
        assert(pre[212int + b.len()] == zeros(SHM_SIZE as nat)[212int + b.len()]);
        lemma_text_kept(img, 212, 63, g.gpu_name@, d.gpu_name@);
    }
}

proof fn lemma_connected_len(c: Seq<ConnectorInfo>)
    ensures
        connected(c).len() <= 8,
    decreases c.len(),
{
    if c.len() > 0 {
        lemma_connected_len(c.drop_last());
    }
}

proof fn lemma_connectors_kept(pre: Seq<u8>, c: Seq<ConnectorInfo>, k: int, img: Seq<u8>, d: ConnectorData)
    requires
        c.len() <= 8,
        0 <= k < c.len(),
        pre.len() == SHM_SIZE,
        img.len() == SHM_SIZE,
        agree(pre, zeros(SHM_SIZE as nat), 320, SHM_SIZE as int),
        agree(img, stored(pre, connectors_stores(c)), 320, connector_at(c.len() as int)),
        connector_read(d, img, k),
    ensures
        connector_kept(d, c[k]),
    decreases c.len(),
{
    let n = c.len() - 1;
    let a = connectors_stores(c.drop_last());
    let b = connector_stores(n, c.last());
    lemma_stored_add(pre, a, b);
    lemma_connectors_within(c.drop_last());
    lemma_connector_within(n, c.last());
    lemma_stored_len(pre, a);
    lemma_stored_len(stored(pre, a), b);
    if k == n {
        lemma_stored_elsewhere(pre, a, connector_at(n), connector_at(n) + 1152, 320, connector_at(n));
        lemma_connector_kept(stored(pre, a), img, n, c.last(), d);
    } else {
        lemma_stored_elsewhere(
            stored(pre, a),
            b,
            320,
            connector_at(n),
            connector_at(n),
            connector_at(n) + 1152,
        );
        lemma_connectors_kept(pre, c.drop_last(), k, img, d);
    }
}

proof fn lemma_header_stands(
    img: Seq<u8>,
    gpus: Seq<GpuInfo>,
    count: nat,
    session: u32,
    driver: u8,
)
    requires
        img.len() == SHM_SIZE,
    ensures
        ({
            let hs = header_stores(gpus, count, session, driver);
            let h1 = hs.push((16int, u32_bytes(1)));
            let r = stored(img, h1);
            &&& r.len() == SHM_SIZE
            &&& stores_within(h1, 0, 64)
            &&& agree_bytes(r, 0, hs[0].1)
            &&& agree_bytes(r, 24, u32_bytes(session))
            &&& r[20] == driver
        }),
{
    let hs = header_stores(gpus, count, session, driver);
    let h1 = hs.push((16int, u32_bytes(1)));
    reveal_with_fuel(stored, 5);
    assert(h1.drop_last() =~= hs);
    assert(hs.drop_last().drop_last().drop_last() =~= Seq::empty());
    assert(hs.drop_last().drop_last().last() == hs[0]);
    assert(hs.drop_last().last() == hs[1]);
    let f0 = splice(img, 0, hs[0].1);
    let f1 = splice(f0, 24, hs[1].1);
    let f2 = splice(f1, 20, hs[2].1);
    let f3 = splice(f2, 16, u32_bytes(1));
    assert(stored(img, h1) == f3);
    assert(hs[0].1.len() == 16);
}

proof fn lemma_header_kept(
    a1: Seq<u8>,
    img: Seq<u8>,
    gpus: Seq<GpuInfo>,
    count: nat,
    session: u32,
    driver: u8,
)
    requires
        a1.len() == SHM_SIZE,
        img.len() == SHM_SIZE,
        count <= 8,
        gpus.len() > 0,
        agree_bytes(a1, 0, header_stores(gpus, count, session, driver)[0].1),
        agree_bytes(a1, 24, u32_bytes(session)),
        a1[20] == driver,
        agree(img, a1, 0, 16),
        agree(img, a1, 20, 64),
    ensures
        u32_at(img, 0) == SHM_MAGIC,
        u32_at(img, 8) == 1,
        u32_at(img, 12) == count,
        u32_at(img, 24) == session,
        img[20] == driver,
{
    let b = header_stores(gpus, count, session, driver)[0].1;
    assert forall|i: int| 0 <= i < b.len() implies #[trigger] img[0 + i] == b[i] by {
        assert(a1[0 + i] == b[i]);
        assert(img[i] == a1[i]);
    }
    assert(b.subrange(0, 4) =~= u32_bytes(SHM_MAGIC));
    lemma_field(img, 0, b, 0, SHM_MAGIC);
    assert(b.subrange(8, 12) =~= u32_bytes(1));
    lemma_field(img, 0, b, 8, 1);
    assert(b.subrange(12, 16) =~= u32_bytes(count as u32));
    lemma_field(img, 0, b, 12, count as u32);
    let t = u32_bytes(session);
    assert forall|i: int| 0 <= i < t.len() implies #[trigger] img[24 + i] == t[i] by {
        assert(a1[24 + i] == t[i]);
        assert(img[24 + i] == a1[24 + i]);
    }
    assert(t.subrange(0, 4) =~= t);
    lemma_field(img, 24, t, 0, session);
    assert(img[20] == a1[20]);
}

proof fn lemma_gpu_within(g: GpuInfo)
    ensures
        stores_within(gpu_stores(g), 64, 320),
{
}

/// What the daemon reads from a fresh segment is the hardware that was written to it: the first
/// graphics processor and the connectors with a monitor, in order, at most eight.
pub proof fn lemma_segment_reads_back(hw: DisplayHardware, session: u32, driver: u8, d: DisplayData)
    requires
        hw.gpus@.len() > 0,
        data_read(d, stored(zeros(SHM_SIZE as nat), hardware_stores(hw, session, driver))),
    ensures
        segment_live(stored(zeros(SHM_SIZE as nat), hardware_stores(hw, session, driver))),
        gpu_kept(d.gpu, hw.gpus@[0]),
        d.driver_choice == driver,
        d.session_type == session,
        d.connectors@.len() == connected(hw.connectors@).len(),
        forall|k: int|
            #![trigger d.connectors@[k]]
            0 <= k < d.connectors@.len() ==> connector_kept(
                d.connectors@[k],
                connected(hw.connectors@)[k],
            ),
{
    let z = zeros(SHM_SIZE as nat);
    let c = connected(hw.connectors@);
    let hs = header_stores(hw.gpus@, c.len(), session, driver);
    let h1 = hs.push((16int, u32_bytes(1)));
    let gs = gpu_stores(hw.gpus@[0]);
    let cs = connectors_stores(c);
    let e: (int, Seq<u8>) = (16int, u32_bytes(2));
    let all = hardware_stores(hw, session, driver);
    lemma_connected_len(hw.connectors@);
    assert(all =~= (h1 + gs) + cs.push(e));
    let a1 = stored(z, h1);
    let a2 = stored(a1, gs);
    let a3 = stored(a2, cs);
    let img = stored(z, all);
    lemma_stored_add(z, h1, gs);
    lemma_stored_add(z, h1 + gs, cs.push(e));
    assert(cs.push(e).drop_last() =~= cs);
    assert(img == splice(a3, 16, u32_bytes(2)));
    lemma_stored_len(a1, gs);
    lemma_stored_len(a2, cs);
    lemma_connectors_within(c);
    lemma_gpu_within(hw.gpus@[0]);
    lemma_header_stands(z, hw.gpus@, c.len(), session, driver);
    lemma_stored_elsewhere(z, h1, 64, SHM_SIZE as int, 0, 64);
    lemma_stored_elsewhere(a1, gs, 320, SHM_SIZE as int, 64, 320);
    lemma_stored_elsewhere(a1, gs, 0, 64, 64, 320);
    lemma_stored_elsewhere(a2, cs, 0, 320, 320, connector_at(c.len() as int));
    assert(agree(img, a3, 0, 16) && agree(img, a3, 20, SHM_SIZE as int));
    assert(agree(img, a2, 64, 320)) by {
        assert forall|i: int| 64 <= i < 320 implies #[trigger] img[i] == a2[i] by {
            assert(img[i] == a3[i]);
            assert(a3[i] == a2[i]);
        }
    }
    lemma_gpu_kept(a1, img, hw.gpus@[0], d.gpu);
    assert forall|i: int| 0 <= i < 64 && !(16 <= i < 20) implies img[i] == a1[i] by {
        assert(img[i] == a3[i]);
        assert(a3[i] == a2[i]);
        assert(a2[i] == a1[i]);
    }
    lemma_header_kept(a1, img, hw.gpus@, c.len(), session, driver);
    assert(agree(a2, z, 320, SHM_SIZE as int)) by {
        assert forall|i: int| 320 <= i < SHM_SIZE implies #[trigger] a2[i] == z[i] by {
            assert(a2[i] == a1[i]);
            assert(a1[i] == z[i]);
        }
    }
    assert forall|k: int| #![trigger d.connectors@[k]] 0 <= k
        < d.connectors@.len() implies connector_kept(d.connectors@[k], c[k]) by {
        assert(connector_read(d.connectors@[k], img, k));
        lemma_connectors_kept(a2, c, k, img, d.connectors@[k]);
    }
}

/// The sequence number is odd while entries are being stored and even once all stores are made.
pub proof fn lemma_sequence_guards_entries(
    img: Seq<u8>,
    hw: DisplayHardware,
    session: u32,
    driver: u8,
    n: int,
)
    requires
        img.len() == SHM_SIZE,
        0 <= n <= hardware_stores(hw, session, driver).len(),
    ensures
        4 <= n < hardware_stores(hw, session, driver).len() ==> u32_at(
            stored(img, hardware_stores(hw, session, driver).take(n)),
            16,
        ) == 1,
        n == hardware_stores(hw, session, driver).len() ==> u32_at(
            stored(img, hardware_stores(hw, session, driver).take(n)),
            16,
        ) == 2,
        n < 4 ==> agree(
            stored(img, hardware_stores(hw, session, driver).take(n)),
            img,
            64,
            SHM_SIZE as int,
        ),
{
    let c = connected(hw.connectors@);
    let hs = header_stores(hw.gpus@, c.len(), session, driver);
    let h1 = hs.push((16int, u32_bytes(1)));
    let ps = payload_stores(hw);
    let all = hardware_stores(hw, session, driver);
    lemma_connected_len(hw.connectors@);
    lemma_connectors_within(c);
    assert(stores_within(h1, 0, 64));
    assert(stores_within(ps, 64, SHM_SIZE as int)) by {
        let gs = if hw.gpus@.len() == 0 {
            Seq::empty()
        } else {
            gpu_stores(hw.gpus@[0])
        };
        assert forall|k: int| #![trigger ps[k]] 0 <= k < ps.len() implies 64 <= ps[k].0 && ps[k].0
            + ps[k].1.len() <= SHM_SIZE by {
            if k < gs.len() {
                assert(ps[k] == gs[k]);
            } else {
                assert(ps[k] == connectors_stores(c)[k - gs.len()]);
            }
        }
    }
    lemma_stored_len(img, all.take(n));
    if n < 4 {
        assert(all.take(n) =~= h1.take(n));
        assert(stores_within(h1.take(n), 0, 64)) by {
            assert forall|k: int| #![trigger h1.take(n)[k]] 0 <= k < n implies 0 <= h1.take(n)[k].0
                && h1.take(n)[k].0 + h1.take(n)[k].1.len() <= 64 by {
                assert(h1.take(n)[k] == h1[k]);
            }
        }
        lemma_stored_elsewhere(img, h1.take(n), 64, SHM_SIZE as int, 0, 64);
    } else if n < all.len() {
        let t = ps.take(n - 4);
        assert(all.take(n) =~= h1 + t);
        lemma_stored_add(img, h1, t);
        let a1 = stored(img, h1);
        lemma_stored_len(img, h1);
        assert(stores_within(t, 64, SHM_SIZE as int)) by {
            assert forall|k: int| #![trigger t[k]] 0 <= k < t.len() implies 64 <= t[k].0 && t[k].0
                + t[k].1.len() <= SHM_SIZE by {
                assert(t[k] == ps[k]);
            }
        }
        lemma_stored_elsewhere(a1, t, 16, 20, 64, SHM_SIZE as int);
        let r = stored(img, all.take(n));
        assert(h1.drop_last() =~= hs);
        lemma_stored_len(img, hs);
        assert(r.subrange(16, 20) =~= u32_bytes(1));
        crate::bytes::lemma_read_back_u32(r, 16, 1);
    } else {
        assert(all.take(n) =~= all);
        let r = stored(img, all);
        assert(all.last() == (16int, u32_bytes(2)));
        lemma_stored_len(img, all.drop_last());
        assert(r.subrange(16, 20) =~= u32_bytes(2));
        crate::bytes::lemma_read_back_u32(r, 16, 2);
    }
}

/// The numbers of the segment: its mark, its version, and how much stands where.
pub proof fn lemma_segment_numbers()
    ensures
        SHM_MAGIC == 0x5359_424C && SHM_VERSION == 1,
        MAX_CONNECTORS == 8 && MAX_MODES_PER_CONNECTOR == 64,
        HEADER_SIZE == 64 && GPU_ENTRY_SIZE == 256,
        MODE_ENTRY_SIZE == 16 && CONNECTOR_HEADER_SIZE == 128 && CONNECTOR_ENTRY_SIZE == 128 + 64 * 16,
        SHM_SIZE == 16384,
        connector_at(0) == 64 + 256,
        forall|i: int| #[trigger] connector_at(i + 1) == connector_at(i) + 1152,
{
}

/// Wayland counts before X11. The user's word decides on the driver; without one NVIDIA's cards take X11, and
/// others Wayland exactly where the session has it.
pub proof fn lemma_drivers(has_wayland: bool, has_x11: bool, vendor: u32, session: u32)
    ensures
        session_kind(true, has_x11) == 2 && session_kind(false, true) == 1 && session_kind(false, false) == 0,
        driver_kind(Some("winex11.drv"@), vendor, session) == 1,
        driver_kind(Some("x11"@), vendor, session) == 1,
        driver_kind(Some("winewayland.drv"@), vendor, session) == 2,
        driver_kind(Some("wayland"@), vendor, session) == 2,
        driver_kind(None, 0x10de, session) == 1,
        vendor != 0x10de ==> driver_kind(None, vendor, 2) == 2,
        session != 2 ==> driver_kind(None, vendor, session) == 1,
{
    reveal_strlit("winex11.drv");
    reveal_strlit("x11");
    reveal_strlit("winewayland.drv");
    reveal_strlit("wayland");
    assert("winex11.drv"@.len() == 11 && "x11"@.len() == 3 && "winewayland.drv"@.len() == 15 && "wayland"@.len()
        == 7);
}

/// Every connector that is kept has a monitor; and where no more than eight have one all of them are kept.
pub proof fn lemma_connectors_with_monitors(c: Seq<ConnectorInfo>, x: ConnectorInfo)
    ensures
        connected(c).contains(x) ==> c.contains(x) && x.connected,
        connected(c).len() < 8 && c.contains(x) && x.connected ==> connected(c).contains(x),
        connected(c).len() <= 8,
    decreases c.len(),
{
    let all = connected(c);
    if c.len() > 0 {
        let d = c.drop_last();
        let before = connected(d);
        lemma_connectors_with_monitors(d, x);
        assert(c[c.len() - 1] == c.last());
        if d.contains(x) {
            let i = choose|i: int| 0 <= i < d.len() && d[i] == x;
            assert(c[i] == x);
        }
        if c.contains(x) && x != c.last() {
            let i = choose|i: int| 0 <= i < c.len() && c[i] == x;
            assert(d[i] == x);
        }
        if before.contains(x) {
            let i = choose|i: int| 0 <= i < before.len() && before[i] == x;
            assert(all[i] == x);
        }
        if c.last().connected && before.len() < 8 {
            assert(all[all.len() - 1] == c.last());
            if all.contains(x) && x != c.last() {
                let i = choose|i: int| 0 <= i < all.len() && all[i] == x;
                assert(before[i] == x);
            }
        }
    }
}

/// The current mode of a connector is the first of its modes with the same width, height and rate.
pub proof fn lemma_current_mode(c: ConnectorInfo, cur: ModeInfo, k: int)
    requires
        c.current_mode == Some(cur),
        0 <= k < c.modes@.len(),
        c.modes@.len() < 0xFFFF_FFFF,
        c.modes@[k].width == cur.width && c.modes@[k].height == cur.height && c.modes@[k].refresh == cur.refresh,
        forall|i: int|
            0 <= i < k ==> (#[trigger] c.modes@[i]).width != cur.width || c.modes@[i].height != cur.height
                || c.modes@[i].refresh != cur.refresh,
    ensures
        current_index(c) == k,
{
    lemma_first_mode(c.modes@, cur, k);
}

proof fn lemma_first_mode(m: Seq<ModeInfo>, cur: ModeInfo, k: int)
    requires
        0 <= k <= m.len(),
        k < m.len() ==> same_mode(m[k], cur),
        forall|i: int| 0 <= i < k ==> !same_mode(#[trigger] m[i], cur),
    ensures
        mode_position(m, cur) == k,
    decreases m.len(),
{
    if m.len() > 0 {
        let d = m.drop_last();
        let n = if k < d.len() {
            k
        } else {
            d.len() as int
        };
        assert forall|i: int| 0 <= i < n implies !same_mode(#[trigger] d[i], cur) by {
            assert(d[i] == m[i]);
        }
        if n < d.len() {
            assert(d[n] == m[n]);
        }
        lemma_first_mode(d, cur, n);
        if k == m.len() {
            assert(!same_mode(m[m.len() - 1], cur));
        }
    }
}

/// A connector without a current mode among its modes says so with all bits set.
pub proof fn lemma_no_current_mode(c: ConnectorInfo)
    ensures
        c.current_mode is None ==> current_index(c) == 0xFFFF_FFFF,
        c.modes@.len() == 0 ==> current_index(c) == 0xFFFF_FFFF,
{
}

/// The header: its mark at 0, its version at 4, how many graphics processors at 8 and connectors at 12; the
/// driver at 20, the session at 24, and the number that guards all at 16.
pub proof fn lemma_header_places(gpus: Seq<GpuInfo>, count: nat, session: u32, driver: u8)
    requires
        count <= 8,
    ensures
        ({
            let h = header_stores(gpus, count, session, driver);
            &&& h.len() == 3
            &&& h[0].0 == 0 && h[0].1.len() == 16
            &&& u32_at(h[0].1, 0) == 0x5359_424C
            &&& u32_at(h[0].1, 4) == 1
            &&& u32_at(h[0].1, 8) == (if gpus.len() == 0 {
                0u32
            } else {
                1u32
            })
            &&& u32_at(h[0].1, 12) == count
            &&& h[1] == (24int, u32_bytes(session))
            &&& h[2] == (20int, seq![driver])
        }),
{
    let b = header_stores(gpus, count, session, driver)[0].1;
    let n = if gpus.len() == 0 {
        0u32
    } else {
        1u32
    };
    assert(b.subrange(0, 4) =~= u32_bytes(0x5359_424C));
    lemma_read_back_u32(b, 0, 0x5359_424C);
    assert(b.subrange(4, 8) =~= u32_bytes(1));
    lemma_read_back_u32(b, 4, 1);
    assert(b.subrange(8, 12) =~= u32_bytes(n));
    lemma_read_back_u32(b, 8, n);
    assert(b.subrange(12, 16) =~= u32_bytes(count as u32));
    lemma_read_back_u32(b, 12, count as u32);
}

/// The entry of a graphics processor: its five numbers from 64 on, its driver at 84, its bus at 148, its name at
/// 212 and its memory at 276.
pub proof fn lemma_processor_places(g: GpuInfo)
    ensures
        ({
            let s = gpu_stores(g);
            &&& s.len() == 5
            &&& s[0].0 == 64
            &&& u32_at(s[0].1, 0) == g.pci_vendor
            &&& u32_at(s[0].1, 4) == g.pci_device
            &&& u32_at(s[0].1, 8) == g.pci_subsys_vendor
            &&& u32_at(s[0].1, 12) == g.pci_subsys_device
            &&& u32_at(s[0].1, 16) == g.pci_revision
            &&& s[1] == (84int, clipped(encode_utf8(g.driver@), 63))
            &&& s[2] == (148int, clipped(encode_utf8(g.pci_bus_id@), 63))
            &&& s[3] == (212int, clipped(encode_utf8(g.gpu_name@), 63))
            &&& s[4] == (276int, u64_bytes(g.vram_bytes))
        }),
{
    let b = gpu_stores(g)[0].1;
    assert(b.subrange(0, 4) =~= u32_bytes(g.pci_vendor));
    lemma_read_back_u32(b, 0, g.pci_vendor);
    assert(b.subrange(4, 8) =~= u32_bytes(g.pci_device));
    lemma_read_back_u32(b, 4, g.pci_device);
    assert(b.subrange(8, 12) =~= u32_bytes(g.pci_subsys_vendor));
    lemma_read_back_u32(b, 8, g.pci_subsys_vendor);
    assert(b.subrange(12, 16) =~= u32_bytes(g.pci_subsys_device));
    lemma_read_back_u32(b, 12, g.pci_subsys_device);
    assert(b.subrange(16, 20) =~= u32_bytes(g.pci_revision));
    lemma_read_back_u32(b, 16, g.pci_revision);
}

/// The entry of a connector: its number at 0, its kind at 4, its number among that kind at 8, its width and
/// height in millimetres at 12 and 16, how many modes at 20, which is current at 24, the length of its EDID at
/// 28; its name at 32, its EDID at 64, its modes from 128 on.
#[verifier::spinoff_prover]
#[verifier::rlimit(40)]
pub proof fn lemma_connector_places(index: int, c: ConnectorInfo)
    ensures
        ({
            let s = connector_stores(index, c);
            let at = 320 + index * 1152;
            &&& s.len() == 4
            &&& s[0].0 == at && s[1].0 == at + 32 && s[2].0 == at + 64 && s[3].0 == at + 128
            &&& u32_at(s[0].1, 0) == c.connector_id
            &&& u32_at(s[0].1, 4) == c.connector_type
            &&& u32_at(s[0].1, 8) == c.connector_type_id
            &&& u32_at(s[0].1, 12) == c.mm_width
            &&& u32_at(s[0].1, 16) == c.mm_height
            &&& c.modes@.len() <= 64 ==> u32_at(s[0].1, 20) == c.modes@.len()
            &&& c.modes@.len() > 64 ==> u32_at(s[0].1, 20) == 64
            &&& u32_at(s[0].1, 24) == current_index(c)
            &&& c.edid@.len() <= 128 ==> u32_at(s[0].1, 28) == c.edid@.len() && s[2].1 == c.edid@
            &&& c.edid@.len() > 128 ==> u32_at(s[0].1, 28) == 128 && s[2].1 == c.edid@.take(128)
        }),
{
    let b = connector_stores(index, c)[0].1;
    assert(b.len() == 32);
    assert(b.subrange(0, 4) =~= u32_bytes(c.connector_id));
    lemma_read_back_u32(b, 0, c.connector_id);
    assert(b.subrange(4, 8) =~= u32_bytes(c.connector_type));
    lemma_read_back_u32(b, 4, c.connector_type);
    assert(b.subrange(8, 12) =~= u32_bytes(c.connector_type_id));
    lemma_read_back_u32(b, 8, c.connector_type_id);
    assert(b.subrange(12, 16) =~= u32_bytes(c.mm_width));
    lemma_read_back_u32(b, 12, c.mm_width);
    assert(b.subrange(16, 20) =~= u32_bytes(c.mm_height));
    lemma_read_back_u32(b, 16, c.mm_height);
    assert(b.subrange(20, 24) =~= u32_bytes(mode_count(c) as u32));
    lemma_read_back_u32(b, 20, mode_count(c) as u32);
    assert(b.subrange(24, 28) =~= u32_bytes(current_index(c)));
    lemma_read_back_u32(b, 24, current_index(c));
    assert(b.subrange(28, 32) =~= u32_bytes(edid_len(c)));
    lemma_read_back_u32(b, 28, edid_len(c));
}

/// The entry of a mode: its width, its height, its rate and its flags.
pub proof fn lemma_mode_places(m: ModeInfo)
    ensures
        mode_bytes(m).len() == 16,
        u32_at(mode_bytes(m), 0) == m.width,
        u32_at(mode_bytes(m), 4) == m.height,
        u32_at(mode_bytes(m), 8) == m.refresh,
        u32_at(mode_bytes(m), 12) == m.flags,
{
    let b = mode_bytes(m);
    assert(b.subrange(0, 4) =~= u32_bytes(m.width));
    lemma_read_back_u32(b, 0, m.width);
    assert(b.subrange(4, 8) =~= u32_bytes(m.height));
    lemma_read_back_u32(b, 4, m.height);
    assert(b.subrange(8, 12) =~= u32_bytes(m.refresh));
    lemma_read_back_u32(b, 8, m.refresh);
    assert(b.subrange(12, 16) =~= u32_bytes(m.flags));
    lemma_read_back_u32(b, 12, m.flags);
}

/// Without modes a connector shows 1920 by 1080 at 60 Hz; with a current mode it shows that, and with an
/// unknown one its first.
pub proof fn lemma_shown_mode(c: ConnectorData, img: Seq<u8>, index: int)
    requires
        connector_read(c, img, index),
    ensures
        c.modes@.len() == 0 ==> c.current_width == 1920 && c.current_height == 1080 && c.current_refresh == 60,
        c.current_mode_index < c.modes@.len() ==> c.current_width == c.modes@[c.current_mode_index as int].width
            && c.current_height == c.modes@[c.current_mode_index as int].height && c.current_refresh
            == c.modes@[c.current_mode_index as int].refresh,
        0 < c.modes@.len() <= c.current_mode_index ==> c.current_width == c.modes@[0].width && c.current_height
            == c.modes@[0].height && c.current_refresh == c.modes@[0].refresh,
        c.modes@.len() <= 64,
{
}

/// A segment is believed only under its mark and with a graphics processor in it.
pub proof fn lemma_live_segments(img: Seq<u8>)
    ensures
        segment_live(img) ==> u32_at(img, 0) == 0x5359_424C && u32_at(img, 8) > 0,
        u32_at(img, 0) == 0x5359_424C && u32_at(img, 8) > 0 ==> segment_live(img),
{
}

/// A display is as large as its first connector says, and 1920 by 1080 without one; its identity starts with
/// the maker and the device of its graphics processor.
pub proof fn lemma_display_identity(d: DisplayData)
    ensures
        d.connectors@.len() == 0 ==> d.size() == (1920i32, 1080i32),
        d.connectors@.len() > 0 && d.connectors@[0].current_width < 0x8000_0000
            && d.connectors@[0].current_height < 0x8000_0000 ==> d.size().0 == d.connectors@[0].current_width
            && d.size().1 == d.connectors@[0].current_height,
        d.guid() == hex_padded(d.gpu.pci_vendor as nat, 4) + hex_padded(d.gpu.pci_device as nat, 4)
            + "-0000-0000-0000-000000000000"@,
{
}

} // verus!
