//! Which kernel objects are still held. An object that several tables hold is closed with the last.
use crate::names::NameTable;
use crate::state::{EventLoop, ExitEvent, SyncObject};
use crate::table::{wanted, Key, Picks, Table};
use vstd::prelude::*;

verus! {

/// Some entry of `m` satisfies `p`.
pub open spec fn some_entry<K, V>(m: Map<K, V>, p: spec_fn(K, V) -> bool) -> bool {
    exists|k: K| #[trigger] m.contains_key(k) && p(k, m[k])
}

/// Some event of a list is the object.
pub open spec fn among(list: Seq<ExitEvent>, object: i32) -> bool {
    exists|i: int| 0 <= i < list.len() && #[trigger] list[i].object == object
}

/// A table of the daemon holds the object.
pub open spec fn object_held(el: EventLoop, object: i32) -> bool {
    ||| some_entry(el.sync.objects@, |k: (u32, u32), v: SyncObject| v.fd == object)
    ||| some_entry(el.sync.named@, |n: Seq<char>, v: SyncObject| v.fd == object)
    ||| some_entry(el.sync.process_exit@, |k: u32, v: Vec<ExitEvent>| among(v@, object))
    ||| some_entry(el.sync.thread_exit@, |k: i32, v: Vec<ExitEvent>| among(v@, object))
    ||| some_entry(el.sync.alerts@, |k: i32, v: i32| v == object)
    ||| some_entry(el.sync.interrupts@, |k: i32, v: i32| v == object)
    ||| some_entry(el.sync.idle_events@, |k: u32, v: i32| v == object)
    ||| el.sync.shutdown_event == Some(object)
}

/// The entries that hold an object.
pub struct Holding {
    pub object: i32,
}

impl Picks<(u32, u32), SyncObject> for Holding {
    open spec fn wants(&self, k: (u32, u32), v: SyncObject) -> bool {
        v.fd == self.object
    }

    fn pick(&self, k: &(u32, u32), v: &SyncObject) -> (r: bool) {
        v.fd == self.object
    }
}

impl Picks<i32, i32> for Holding {
    open spec fn wants(&self, k: i32, v: i32) -> bool {
        v == self.object
    }

    fn pick(&self, k: &i32, v: &i32) -> (r: bool) {
        *v == self.object
    }
}

impl Picks<u32, i32> for Holding {
    open spec fn wants(&self, k: u32, v: i32) -> bool {
        v == self.object
    }

    fn pick(&self, k: &u32, v: &i32) -> (r: bool) {
        *v == self.object
    }
}

impl Picks<u32, Vec<ExitEvent>> for Holding {
    open spec fn wants(&self, k: u32, v: Vec<ExitEvent>) -> bool {
        among(v@, self.object)
    }

    fn pick(&self, k: &u32, v: &Vec<ExitEvent>) -> (r: bool) {
        is_among(v, self.object)
    }
}

impl Picks<i32, Vec<ExitEvent>> for Holding {
    open spec fn wants(&self, k: i32, v: Vec<ExitEvent>) -> bool {
        among(v@, self.object)
    }

    fn pick(&self, k: &i32, v: &Vec<ExitEvent>) -> (r: bool) {
        is_among(v, self.object)
    }
}

fn is_among(list: &Vec<ExitEvent>, object: i32) -> (r: bool)
    ensures
        r == among(list@, object),
{
    let mut i: usize = 0;
    while i < list.len()
        invariant
            i <= list@.len(),
            forall|j: int| 0 <= j < i ==> #[trigger] list@[j].object != object,
        decreases list@.len() - i,
    {
        if list[i].object == object {
            assert(list@[i as int].object == object);
            return true;
        }
        i = i + 1;
    }
    false
}

/// Whether a table has an entry of a kind.
pub fn any_entry<K: Key, V, P: Picks<K, V>>(t: &Table<K, V>, choice: &P) -> (r: bool)
    requires
        t.wf(),
    ensures
        r == some_entry(t@, wanted::<K, V, P>(*choice)),
{
    proof {
        t.lemma_walk();
    }
    let n: usize = t.len();
    let mut i: usize = 0;
    while i < n
        invariant
            t.wf(),
            i <= n == t.walk().len(),
            forall|j: int|
                #![trigger t.walk()[j]]
                0 <= j < i ==> !choice.wants(t.walk()[j].0, t.walk()[j].1),
            forall|j: int|
                #![trigger t.walk()[j]]
                0 <= j < t.walk().len() ==> t@.contains_key(t.walk()[j].0) && t@[t.walk()[j].0]
                    == t.walk()[j].1,
        decreases n - i,
    {
        let (k, v) = t.at(i);
        if choice.pick(k, v) {
            assert(t@.contains_key(t.walk()[i as int].0));
            return true;
        }
        i = i + 1;
    }
    false
}

/// Whether a named object is the one.
fn any_named(t: &NameTable<SyncObject>, object: i32) -> (r: bool)
    requires
        t.wf(),
    ensures
        r == some_entry(t@, |n: Seq<char>, v: SyncObject| v.fd == object),
{
    proof {
        t.lemma_walk();
    }
    let n: usize = t.len();
    let mut i: usize = 0;
    while i < n
        invariant
            t.wf(),
            i <= n == t.walk().len(),
            forall|j: int| #![trigger t.walk()[j]] 0 <= j < i ==> t.walk()[j].1.fd != object,
            forall|j: int|
                #![trigger t.walk()[j]]
                0 <= j < t.walk().len() ==> t@.contains_key(t.walk()[j].0@)
                    && t@[t.walk()[j].0@] == t.walk()[j].1,
        decreases n - i,
    {
        if t.at(i).1.fd == object {
            assert(t@.contains_key(t.walk()[i as int].0@));
            return true;
        }
        i = i + 1;
    }
    false
}

impl EventLoop {
    /// Whether a table still holds an object, so that it must stay open.
    pub fn holds_object(&self, object: i32) -> (r: bool)
        requires
            self.wf(),
        ensures
            r == object_held(*self, object),
    {
        let choice = Holding { object };
        proof {
            assert(wanted::<(u32, u32), SyncObject, Holding>(choice)
                =~= |k: (u32, u32), v: SyncObject| v.fd == object);
            assert(wanted::<u32, Vec<ExitEvent>, Holding>(choice)
                =~= |k: u32, v: Vec<ExitEvent>| among(v@, object));
            assert(wanted::<i32, Vec<ExitEvent>, Holding>(choice)
                =~= |k: i32, v: Vec<ExitEvent>| among(v@, object));
            assert(wanted::<i32, i32, Holding>(choice) =~= |k: i32, v: i32| v == object);
            assert(wanted::<u32, i32, Holding>(choice) =~= |k: u32, v: i32| v == object);
        }
        let shut: bool = match self.sync.shutdown_event {
            Some(e) => e == object,
            None => false,
        };
        any_entry(&self.sync.objects, &choice) || any_named(&self.sync.named, object) || any_entry(
            &self.sync.process_exit,
            &choice,
        ) || any_entry(&self.sync.thread_exit, &choice) || any_entry(&self.sync.alerts, &choice)
            || any_entry(&self.sync.interrupts, &choice) || any_entry(
            &self.sync.idle_events,
            &choice,
        ) || shut
    }
}

/// An object is held as long as any table has it: behind a handle, under a name, for those that wait for an
/// end, for a client, for a process to be idle, or to stop the system's processes.
pub proof fn lemma_who_holds(
    el: EventLoop,
    key: (u32, u32),
    name: Seq<char>,
    pid: u32,
    fd: i32,
    i: int,
)
    ensures
        el.sync.objects@.contains_key(key) ==> object_held(el, el.sync.objects@[key].fd),
        el.sync.named@.contains_key(name) ==> object_held(el, el.sync.named@[name].fd),
        el.sync.process_exit@.contains_key(pid) && 0 <= i < el.sync.process_exit@[pid]@.len() ==> object_held(
            el,
            el.sync.process_exit@[pid]@[i].object,
        ),
        el.sync.thread_exit@.contains_key(fd) && 0 <= i < el.sync.thread_exit@[fd]@.len() ==> object_held(
            el,
            el.sync.thread_exit@[fd]@[i].object,
        ),
        el.sync.alerts@.contains_key(fd) ==> object_held(el, el.sync.alerts@[fd]),
        el.sync.interrupts@.contains_key(fd) ==> object_held(el, el.sync.interrupts@[fd]),
        el.sync.idle_events@.contains_key(pid) ==> object_held(el, el.sync.idle_events@[pid]),
        el.sync.shutdown_event matches Some(o) ==> object_held(el, o),
{
    if el.sync.process_exit@.contains_key(pid) && 0 <= i < el.sync.process_exit@[pid]@.len() {
        assert(among(el.sync.process_exit@[pid]@, el.sync.process_exit@[pid]@[i].object));
    }
    if el.sync.thread_exit@.contains_key(fd) && 0 <= i < el.sync.thread_exit@[fd]@.len() {
        assert(among(el.sync.thread_exit@[fd]@, el.sync.thread_exit@[fd]@[i].object));
    }
}

/// An object that no table has is not held.
pub proof fn lemma_who_does_not_hold(el: EventLoop, object: i32)
    requires
        el.sync.objects@.is_empty(),
        el.sync.named@.is_empty(),
        el.sync.process_exit@.is_empty(),
        el.sync.thread_exit@.is_empty(),
        el.sync.alerts@.is_empty(),
        el.sync.interrupts@.is_empty(),
        el.sync.idle_events@.is_empty(),
        el.sync.shutdown_event != Some(object),
    ensures
        !object_held(el, object),
{
}

} // verus!
