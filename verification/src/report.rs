//! What the daemon tells of its objects, and what it ends when it ends.
use crate::state::{
    EventLoop, SYNC_EVENT, SYNC_INTERNAL, SYNC_MUTEX, SYNC_SEMAPHORE,
};
use crate::text::{decimal, hex_fixed, hexadecimal, push_decimal, push_hex, push_hex_fixed, views};
use vstd::prelude::*;

verus! {

/// What was read of an object.
pub type Reading = Option<(u32, u32)>;

/// Two numbers with their names.
pub open spec fn named_pair(a: Seq<char>, x: u32, b: Seq<char>, y: u32) -> Seq<char> {
    a + decimal(x as nat) + b + decimal(y as nat)
}

/// The state of an object in words.
pub open spec fn state_text(kind: u32, read: Reading) -> Seq<char> {
    if kind < SYNC_INTERNAL || kind > SYNC_SEMAPHORE {
        "?"@
    } else {
        match read {
            Some((x, y)) => if kind == SYNC_MUTEX {
                named_pair("owner="@, x, " count="@, y)
            } else if kind == SYNC_SEMAPHORE {
                named_pair("count="@, x, " max="@, y)
            } else {
                named_pair("manual="@, x, " signaled="@, y)
            },
            None => "read_err"@,
        }
    }
}

/// The short name of a kind of object.
pub open spec fn kind_name(kind: u32) -> Seq<char> {
    if kind == SYNC_INTERNAL {
        "INT"@
    } else if kind == SYNC_EVENT {
        "EVT"@
    } else if kind == SYNC_MUTEX {
        "MUT"@
    } else if kind == SYNC_SEMAPHORE {
        "SEM"@
    } else {
        "?"@
    }
}

/// A number in hexadecimal digits, four at least.
pub open spec fn handle_text(handle: u32) -> Seq<char> {
    "0x"@ + (if handle < 0x1000 {
        hex_fixed(handle as nat, 4)
    } else {
        hexadecimal(handle as nat)
    })
}

/// The line about an object.
pub open spec fn object_line(handle: u32, kind: u32, read: Reading) -> Seq<char> {
    "  "@ + handle_text(handle) + " "@ + kind_name(kind) + " ["@ + state_text(kind, read) + "]"@
}

/// The daemon's own events are told of only where they are not set, which they should be.
pub open spec fn worth_telling(kind: u32, read: Reading) -> bool {
    kind != SYNC_INTERNAL || match read {
        Some((_, signaled)) => signaled == 0,
        None => true,
    }
}

/// Whether an object is told of.
pub fn is_worth_telling(kind: u32, read: Reading) -> (r: bool)
    ensures
        r == worth_telling(kind, read),
{
    kind != SYNC_INTERNAL || match read {
        Some((_, signaled)) => signaled == 0,
        None => true,
    }
}

fn push_pair(out: &mut String, a: &str, x: u32, b: &str, y: u32)
    ensures
        final(out)@ == old(out)@ + named_pair(a@, x, b@, y),
{
    out.append(a);
    push_decimal(out, x as u64);
    out.append(b);
    push_decimal(out, y as u64);
    assert(out@ =~= old(out)@ + named_pair(a@, x, b@, y));
}

fn push_state(out: &mut String, kind: u32, read: Reading)
    ensures
        final(out)@ == old(out)@ + state_text(kind, read),
{
    if kind < SYNC_INTERNAL || kind > SYNC_SEMAPHORE {
        out.append("?");
        return;
    }
    match read {
        Some((x, y)) => {
            if kind == SYNC_MUTEX {
                push_pair(out, "owner=", x, " count=", y);
            } else if kind == SYNC_SEMAPHORE {
                push_pair(out, "count=", x, " max=", y);
            } else {
                push_pair(out, "manual=", x, " signaled=", y);
            }
        },
        None => {
            out.append("read_err");
        },
    }
}

/// The line about an object.
pub fn sync_line(handle: u32, kind: u32, read: Reading) -> (r: String)
    ensures
        r@ == object_line(handle, kind, read),
{
    let mut s = "  ".to_string();
    s.append("0x");
    if handle < 0x1000 {
        push_hex_fixed(&mut s, handle as u64, 4);
    } else {
        push_hex(&mut s, handle as u64);
    }
    s.append(" ");
    if kind == SYNC_INTERNAL {
        s.append("INT");
    } else if kind == SYNC_EVENT {
        s.append("EVT");
    } else if kind == SYNC_MUTEX {
        s.append("MUT");
    } else if kind == SYNC_SEMAPHORE {
        s.append("SEM");
    } else {
        s.append("?");
    }
    s.append(" [");
    push_state(&mut s, kind, read);
    s.append("]");
    assert(s@ =~= object_line(handle, kind, read));
    s
}

/// The lines about the objects of a process: at most twenty, and how many more there are.
pub open spec fn process_lines(pid: u32, lines: Seq<Seq<char>>) -> Seq<Seq<char>> {
    let head = "  pid="@ + decimal(pid as nat) + " ("@ + decimal(lines.len()) + " interesting):"@;
    if lines.len() <= 20 {
        seq![head] + lines
    } else {
        seq![head] + lines.take(20) + seq![
            "  ... and "@ + decimal((lines.len() - 20) as nat) + " more"@,
        ]
    }
}

/// The lines about the objects of a process.
pub fn process_report(pid: u32, lines: &Vec<String>) -> (r: Vec<String>)
    ensures
        views(r@) == process_lines(pid, views(lines@)),
{
    let n: usize = lines.len();
    let mut head = "  pid=".to_string();
    push_decimal(&mut head, pid as u64);
    head.append(" (");
    push_decimal(&mut head, n as u64);
    head.append(" interesting):");
    let ghost hv = "  pid="@ + decimal(pid as nat) + " ("@ + decimal(n as nat) + " interesting):"@;
    assert(head@ =~= hv);
    let mut out: Vec<String> = Vec::new();
    out.push(head);
    let shown: usize = if n <= 20 {
        n
    } else {
        20
    };
    let mut i: usize = 0;
    assert(views(out@) =~= seq![hv] + views(lines@).take(0));
    while i < shown
        invariant
            i <= shown <= lines@.len(),
            views(out@) == seq![hv] + views(lines@).take(i as int),
        decreases shown - i,
    {
        let ghost before = out@;
        out.push(lines[i].clone());
        i = i + 1;
        assert(views(out@) =~= views(before).push(lines@[i - 1]@));
        assert(views(out@) =~= seq![hv] + views(lines@).take(i as int));
    }
    if n > 20 {
        let mut more = "  ... and ".to_string();
        push_decimal(&mut more, (n - 20) as u64);
        more.append(" more");
        let ghost mv = "  ... and "@ + decimal((n - 20) as nat) + " more"@;
        assert(more@ =~= mv);
        let ghost before = out@;
        out.push(more);
        assert(views(out@) =~= views(before).push(mv));
    }
    assert(views(out@) =~= process_lines(pid, views(lines@)));
    out
}

/// The line above the lines about all objects.
pub open spec fn report_head(objects: nat) -> Seq<char> {
    "NTSYNC STATE DUMP ("@ + decimal(objects) + " objects):"@
}

/// The line above the lines about all objects.
pub fn report_title(objects: usize) -> (r: String)
    ensures
        r@ == report_head(objects as nat),
{
    let mut s = "NTSYNC STATE DUMP (".to_string();
    push_decimal(&mut s, objects as u64);
    s.append(" objects):");
    assert(s@ =~= report_head(objects as nat));
    s
}

/// A named object, and what was read of it as of an event.
pub struct NamedReading {
    pub name: String,
    pub read: Reading,
}

/// The line about a named object, which is read as an event whatever it is.
pub open spec fn named_line(name: Seq<char>, read: Reading) -> Seq<char> {
    "  \""@ + name + "\" ["@ + state_text(SYNC_EVENT, read) + "]"@
}

/// The lines about the named objects: how many there are, then one for each.
pub open spec fn named_lines(names: Seq<NamedReading>) -> Seq<Seq<char>> {
    seq!["NAMED SYNC ("@ + decimal(names.len()) + "):"@] + names.map_values(
        |n: NamedReading| named_line(n.name@, n.read),
    )
}

/// The lines about the named objects.
pub fn named_report(names: &Vec<NamedReading>) -> (r: Vec<String>)
    ensures
        views(r@) == named_lines(names@),
{
    let mut head = "NAMED SYNC (".to_string();
    push_decimal(&mut head, names.len() as u64);
    head.append("):");
    assert(head@ =~= named_lines(names@)[0]);
    let mut out: Vec<String> = Vec::new();
    out.push(head);
    let mut i: usize = 0;
    assert(views(out@) =~= named_lines(names@).take(1));
    while i < names.len()
        invariant
            i <= names@.len(),
            views(out@) == named_lines(names@).take(i + 1),
        decreases names@.len() - i,
    {
        let mut s = "  \"".to_string();
        s.append(names[i].name.as_str());
        s.append("\" [");
        push_state(&mut s, SYNC_EVENT, names[i].read);
        s.append("]");
        assert(s@ =~= named_line(names@[i as int].name@, names@[i as int].read));
        let ghost before = out@;
        out.push(s);
        i = i + 1;
        assert(views(out@) =~= views(before).push(named_lines(names@)[i as int]));
        assert(views(out@) =~= named_lines(names@).take(i + 1));
    }
    assert(named_lines(names@).take(i + 1) =~= named_lines(names@));
    out
}

impl EventLoop {
    /// The processes that are ended with the daemon, each once: without it they would try to connect for
    /// ever.
    pub fn processes_to_end(&self) -> (r: Vec<i32>)
        requires
            self.wf(),
        ensures
            r@.no_duplicates(),
            forall|p: i32|
                r@.contains(p) <==> p > 0 && exists|fd: i32| #[trigger]
                    self.clients.clients@.contains_key(fd) && self.clients.clients@[fd].unix_pid
                        == p,
    {
        let mut out: Vec<i32> = Vec::new();
        let ghost w = self.clients.clients.walk();
        proof {
            self.clients.clients.lemma_walk();
        }
        let mut i: usize = 0;
        while i < self.clients.clients.len()
            invariant
                self.wf(),
                i <= w.len(),
                w == self.clients.clients.walk(),
                out@.no_duplicates(),
                forall|p: i32|
                    out@.contains(p) <==> p > 0 && exists|j: int|
                        0 <= j < i && (#[trigger] w[j]).1.unix_pid == p,
            decreases w.len() - i,
        {
            let (_, c) = self.clients.clients.at(i);
            let pid: i32 = c.unix_pid;
            let ghost before = out@;
            if pid > 0 && !listed(&out, pid) {
                out.push(pid);
                assert(out@[out@.len() - 1] == pid);
            }
            proof {
                assert forall|p: i32|
                    out@.contains(p) <==> p > 0 && exists|j: int|
                        0 <= j < i + 1 && (#[trigger] w[j]).1.unix_pid == p by {
                    if before.contains(p) {
                        let k = choose|k: int| 0 <= k < before.len() && before[k] == p;
                        assert(out@[k] == p);
                        let j = choose|j: int| 0 <= j < i && (#[trigger] w[j]).1.unix_pid == p;
                        assert(0 <= j < i + 1 && w[j].1.unix_pid == p);
                    }
                    if out@.contains(p) && !before.contains(p) {
                        let k = choose|k: int| 0 <= k < out@.len() && out@[k] == p;
                        if k < before.len() {
                            assert(before[k] == p);
                        }
                        assert(w[i as int].1.unix_pid == p);
                    }
                    if p > 0 && exists|j: int|
                        0 <= j < i + 1 && (#[trigger] w[j]).1.unix_pid == p {
                        let j = choose|j: int| 0 <= j < i + 1 && (#[trigger] w[j]).1.unix_pid == p;
                        if j < i {
                            assert(before.contains(p));
                        }
                    }
                }
            }
            i = i + 1;
        }
        proof {
            assert forall|p: i32|
                out@.contains(p) <==> p > 0 && exists|fd: i32| #[trigger]
                    self.clients.clients@.contains_key(fd) && self.clients.clients@[fd].unix_pid
                        == p by {
                if out@.contains(p) {
                    let j = choose|j: int| 0 <= j < w.len() && (#[trigger] w[j]).1.unix_pid == p;
                    assert(self.clients.clients@.contains_key(w[j].0));
                }
                if p > 0 && exists|fd: i32| #[trigger]
                    self.clients.clients@.contains_key(fd) && self.clients.clients@[fd].unix_pid
                        == p {
                    let fd = choose|fd: i32| #[trigger]
                        self.clients.clients@.contains_key(fd) && self.clients.clients@[fd].unix_pid
                            == p;
                    let j = choose|j: int| 0 <= j < w.len() && #[trigger] w[j].0 == fd;
                    assert(w[j].1.unix_pid == p);
                }
            }
        }
        out
    }
}

fn listed(v: &Vec<i32>, x: i32) -> (r: bool)
    ensures
        r == v@.contains(x),
{
    let mut i: usize = 0;
    while i < v.len()
        invariant
            i <= v@.len(),
            forall|j: int| 0 <= j < i ==> v@[j] != x,
        decreases v@.len() - i,
    {
        if v[i] == x {
            return true;
        }
        i = i + 1;
    }
    false
}

/// What is told of an object by its kind: of a mutex its owner and how often it is held, of a semaphore its
/// count and its limit, of an event whether it stays set and whether it is.
pub proof fn lemma_state_is_told(x: u32, y: u32, kind: u32)
    ensures
        state_text(3, Some((x, y))) == "owner="@ + decimal(x as nat) + " count="@ + decimal(y as nat),
        state_text(4, Some((x, y))) == "count="@ + decimal(x as nat) + " max="@ + decimal(y as nat),
        state_text(2, Some((x, y))) == "manual="@ + decimal(x as nat) + " signaled="@ + decimal(y as nat),
        state_text(1, Some((x, y))) == "manual="@ + decimal(x as nat) + " signaled="@ + decimal(y as nat),
        1 <= kind <= 4 ==> state_text(kind, None) == "read_err"@,
        kind == 0 || kind > 4 ==> state_text(kind, Some((x, y))) == "?"@,
        kind_name(1) == "INT"@ && kind_name(2) == "EVT"@ && kind_name(3) == "MUT"@ && kind_name(4) == "SEM"@,
        kind == 0 || kind > 4 ==> kind_name(kind) == "?"@,
{
}

/// Of the daemon's own events only those are told of that are not set, or cannot be read; of all others each.
pub proof fn lemma_what_is_told(kind: u32, x: u32, y: u32)
    ensures
        kind != 1 ==> worth_telling(kind, Some((x, y))) && worth_telling(kind, None),
        worth_telling(1, Some((x, y))) <==> y == 0,
        worth_telling(1, None),
{
}

/// Of a process at most twenty objects are told of, in their order, and behind them how many more there are.
pub proof fn lemma_twenty_lines(pid: u32, lines: Seq<Seq<char>>, k: int)
    ensures
        ({
            let r = process_lines(pid, lines);
            &&& r[0] == "  pid="@ + decimal(pid as nat) + " ("@ + decimal(lines.len()) + " interesting):"@
            &&& 0 <= k < lines.len() && k < 20 ==> r[k + 1] == lines[k]
            &&& lines.len() <= 20 ==> r.len() == lines.len() + 1
            &&& lines.len() > 20 ==> r.len() == 22 && r[21] == "  ... and "@ + decimal((lines.len() - 20) as nat)
                + " more"@
        }),
{
}

/// The line about an object: its handle in hexadecimal, its kind, and its state in brackets.
pub proof fn lemma_line_of_object(handle: u32, kind: u32, read: Reading)
    ensures
        object_line(handle, kind, read) == "  "@ + handle_text(handle) + " "@ + kind_name(kind) + " ["@ + state_text(
            kind,
            read,
        ) + "]"@,
        handle < 0x1000 ==> handle_text(handle) == "0x"@ + hex_fixed(handle as nat, 4),
        handle >= 0x1000 ==> handle_text(handle) == "0x"@ + hexadecimal(handle as nat),
{
}

/// Of each named object there is one line behind the one that counts them.
pub proof fn lemma_lines_of_names(names: Seq<NamedReading>, k: int)
    ensures
        named_lines(names).len() == names.len() + 1,
        named_lines(names)[0] == "NAMED SYNC ("@ + decimal(names.len()) + "):"@,
        0 <= k < names.len() ==> named_lines(names)[k + 1] == "  \""@ + names[k].name@ + "\" ["@ + state_text(
            2,
            names[k].read,
        ) + "]"@,
        report_head(names.len()) == "NTSYNC STATE DUMP ("@ + decimal(names.len()) + " objects):"@,
{
}

} // verus!
