//! Requests about the registry: what they ask of it, who is told of a change, and how its answers are
//! written.
use crate::bytes::{
    clipped, copy_clipped, copy_range, lemma_read_back_u32, lemma_read_back_u64, push_all, push_u32, push_u64,
    read_u32, u32_at, u32_bytes, u64_at, u64_bytes,
};
use crate::state::{pid_of, with_signals, Action, EventLoop};
use crate::wire::{
    block, handle_answer, head, header, lemma_answer_told, lemma_fields_told, lemma_word_told, objattr_name_range, reply_fixed, reply_handle, reply_status,
    reply_two, reply_vararg, status, vararg, vararg_of, Reply, STATUS_ACCESS_DENIED,
    STATUS_INVALID_HANDLE, STATUS_INVALID_PARAMETER, STATUS_NO_MORE_ENTRIES,
    STATUS_OBJECT_NAME_EXISTS, STATUS_OBJECT_NAME_NOT_FOUND, STATUS_PENDING,
};
use vstd::prelude::*;

verus! {

/// A key has other subkeys than before.
pub const NOTIFY_NAME: u32 = 1;

/// A key has other values than before.
pub const NOTIFY_VALUE: u32 = 4;

/// A change of the registry that somebody may wait for.
#[derive(Clone, Copy, Debug, PartialEq, Eq)]
pub struct Notice {
    pub hkey: u32,
    pub change: u32,
}

/// The directory of a request's attributes; 0 where they are cut short.
pub open spec fn attr_root(v: Seq<u8>) -> u32 {
    if v.len() >= 16 {
        u32_at(v, 0)
    } else {
        0
    }
}

/// The name of a request's attributes; empty where there is none.
pub open spec fn attr_name(v: Seq<u8>) -> Seq<u8> {
    match objattr_name_range(v) {
        Some((from, to)) => v.subrange(from, to),
        None => Seq::empty(),
    }
}

/// The key below which a request creates one, and the name of the new one.
fn key_to_create(buf: &[u8]) -> (r: (u32, Vec<u8>))
    ensures
        r.0 == attr_root(vararg_of(buf@)),
        r.1@ == attr_name(vararg_of(buf@)),
{
    let v = vararg(buf);
    let n: usize = v.len();
    if n < 16 {
        return (0, Vec::new());
    }
    let root: u32 = read_u32(v.as_slice(), 0);
    let sd_len: u64 = read_u32(v.as_slice(), 8) as u64;
    let name_len: u64 = read_u32(v.as_slice(), 12) as u64;
    if name_len == 0 || 16 + sd_len + name_len > n as u64 {
        return (root, Vec::new());
    }
    let from: usize = 16 + sd_len as usize;
    (root, copy_range(v.as_slice(), from, from + name_len as usize))
}

/// Who is told of a key that was created.
pub fn created_notice(parent: u32, created: bool) -> (r: Option<Notice>)
    ensures
        r == (if created && parent != 0 {
            Some(Notice { hkey: parent, change: NOTIFY_NAME })
        } else {
            None
        }),
{
    if created && parent != 0 {
        Some(Notice { hkey: parent, change: NOTIFY_NAME })
    } else {
        None
    }
}

/// The answer that gives a key which was created or which was there before.
pub fn create_key_reply(hkey: u32, created: bool) -> (r: Reply)
    ensures
        r@ == handle_answer(
            if created {
                0
            } else {
                STATUS_OBJECT_NAME_EXISTS
            },
            hkey,
        ),
{
    if created {
        reply_handle(0, hkey)
    } else {
        reply_handle(STATUS_OBJECT_NAME_EXISTS, hkey)
    }
}

/// The answer that gives a key which was looked for.
pub fn open_key_reply(found: Option<u32>) -> (r: Reply)
    ensures
        r@ == (match found {
            Some(hkey) => handle_answer(0, hkey),
            None => status(STATUS_OBJECT_NAME_NOT_FOUND),
        }),
{
    match found {
        Some(hkey) => reply_handle(0, hkey),
        None => reply_status(STATUS_OBJECT_NAME_NOT_FOUND),
    }
}

/// A value of a key.
pub struct Value {
    pub name: Vec<u8>,
    pub kind: u32,
    pub data: Vec<u8>,
}

/// The answer that gives a value, as far as there is room.
pub fn get_key_value_reply(found: &Option<Value>, room: u32) -> (r: Reply)
    ensures
        r@ == (match *found {
            Some(x) => {
                let v = clipped(x.data@, room as int);
                block(
                    head(0, v.len() as u32) + u32_bytes(x.kind) + u32_bytes(x.data@.len() as u32),
                ) + v
            },
            None => block(
                head(STATUS_OBJECT_NAME_NOT_FOUND, 0) + u32_bytes(0xFFFF_FFFF) + u32_bytes(0),
            ),
        }),
        match *found {
            Some(x) => u32_at(r@, 0) == 0 && u32_at(r@, 8) == x.kind && u32_at(r@, 12) == x.data@.len() as u32
                && r@.skip(64) == clipped(x.data@, room as int),
            None => u32_at(r@, 0) == 0xC000_0034 && u32_at(r@, 8) == 0xFFFF_FFFF && u32_at(r@, 12) == 0,
        },
{
    proof {
        if *found is Some {
            let x = (*found)->Some_0;
            let v = clipped(x.data@, room as int);
            lemma_fields_told(0, v.len() as u32, x.kind, x.data@.len() as u32, v);
        } else {
            let r = block(head(STATUS_OBJECT_NAME_NOT_FOUND, 0) + u32_bytes(0xFFFF_FFFF) + u32_bytes(0));
            lemma_fields_told(STATUS_OBJECT_NAME_NOT_FOUND, 0, 0xFFFF_FFFF, 0, Seq::empty());
            assert(r + Seq::<u8>::empty() =~= r);
        }
    }
    match found {
        Some(x) => {
            let v = copy_clipped(x.data.as_slice(), room as usize);
            let mut body = header(0, v.len() as u32);
            push_u32(&mut body, x.kind);
            push_u32(&mut body, x.data.len() as u32);
            reply_vararg(body.as_slice(), v.as_slice())
        },
        None => reply_two(STATUS_OBJECT_NAME_NOT_FOUND, 0xFFFF_FFFF, 0),
    }
}

/// The name and the data of a value that is set: the variable part of a request holds one after the other.
pub fn value_to_set(buf: &[u8], namelen: u32) -> (r: Option<(Vec<u8>, Vec<u8>)>)
    ensures
        ({
            let v = vararg_of(buf@);
            match r {
                Some((name, data)) => namelen <= v.len() && name@ == v.take(namelen as int)
                    && data@ == v.skip(namelen as int),
                None => namelen > v.len(),
            }
        }),
{
    let v = vararg(buf);
    let n: usize = v.len();
    if namelen as usize > n {
        return None;
    }
    let name = copy_range(v.as_slice(), 0, namelen as usize);
    let data = copy_range(v.as_slice(), namelen as usize, n);
    assert(name@ =~= v@.take(namelen as int));
    assert(data@ =~= v@.skip(namelen as int));
    Some((name, data))
}

/// What is set is what the request holds, split after the name.
pub proof fn lemma_value_split(v: Seq<u8>, namelen: u32)
    requires
        namelen <= v.len(),
    ensures
        v.take(namelen as int) + v.skip(namelen as int) == v,
{
    assert(v.take(namelen as int) + v.skip(namelen as int) =~= v);
}

/// The answer that lists a value: its name and then its data, as far as there is room.
pub fn enum_key_value_reply(found: &Option<Value>, room: u32) -> (r: Reply)
    ensures
        r@ == (match *found {
            Some(x) => {
                let v = clipped(x.name@ + x.data@, room as int);
                block(
                    head(0, v.len() as u32) + u32_bytes(x.kind) + u32_bytes(x.data@.len() as u32)
                        + u32_bytes(x.name@.len() as u32),
                ) + v
            },
            None => status(STATUS_NO_MORE_ENTRIES),
        }),
        match *found {
            Some(x) => u32_at(r@, 0) == 0 && u32_at(r@, 8) == x.kind && u32_at(r@, 12) == x.data@.len() as u32
                && u32_at(r@, 16) == x.name@.len() as u32,
            None => u32_at(r@, 0) == 0x8000_001A,
        },
{
    proof {
        lemma_answer_told(STATUS_NO_MORE_ENTRIES, 0);
        if *found is Some {
            let x = (*found)->Some_0;
            let v = clipped(x.name@ + x.data@, room as int);
            lemma_listed_value_told(v, x.kind, x.data@.len() as u32, x.name@.len() as u32);
        }
    }
    match found {
        Some(x) => {
            let mut all: Vec<u8> = Vec::new();
            push_all(&mut all, x.name.as_slice());
            push_all(&mut all, x.data.as_slice());
            assert(all@ =~= x.name@ + x.data@);
            let v = copy_clipped(all.as_slice(), room as usize);
            let mut body = header(0, v.len() as u32);
            push_u32(&mut body, x.kind);
            push_u32(&mut body, x.data.len() as u32);
            push_u32(&mut body, x.name.len() as u32);
            reply_vararg(body.as_slice(), v.as_slice())
        },
        None => reply_status(STATUS_NO_MORE_ENTRIES),
    }
}

/// How many subkeys and values a key has, how long they get, and when it last changed.
#[derive(Clone, Copy, Debug, PartialEq, Eq)]
pub struct KeyFacts {
    pub subkeys: u32,
    pub values: u32,
    pub max_value: u32,
    pub max_data: u32,
    pub changed: u64,
}

/// A subkey, and how many subkeys and values it has.
pub struct Subkey {
    pub name: Vec<u8>,
    pub subkeys: u32,
    pub values: u32,
}

/// The fixed part of an answer about a key.
pub open spec fn key_fields(f: KeyFacts, name_len: u32) -> Seq<u8> {
    u32_bytes(f.subkeys) + u32_bytes(0) + u32_bytes(0) + u32_bytes(f.values) + u32_bytes(f.max_value)
        + u32_bytes(f.max_data) + u64_bytes(f.changed) + u32_bytes(name_len) + u32_bytes(name_len)
}

fn push_key_fields(out: &mut Vec<u8>, f: KeyFacts, name_len: u32)
    ensures
        final(out)@ == old(out)@ + key_fields(f, name_len),
{
    push_u32(out, f.subkeys);
    push_u32(out, 0);
    push_u32(out, 0);
    push_u32(out, f.values);
    push_u32(out, f.max_value);
    push_u32(out, f.max_data);
    push_u64(out, f.changed);
    push_u32(out, name_len);
    push_u32(out, name_len);
    assert(out@ =~= old(out)@ + key_fields(f, name_len));
}

/// The answer that tells of a key itself.
pub fn query_key_reply(found: Option<KeyFacts>) -> (r: Reply)
    ensures
        r@ == (match found {
            Some(f) => block(head(0, 0) + key_fields(f, 0)),
            None => status(STATUS_INVALID_HANDLE),
        }),
{
    match found {
        Some(f) => {
            let mut body = header(0, 0);
            push_key_fields(&mut body, f, 0);
            reply_fixed(body.as_slice())
        },
        None => reply_status(STATUS_INVALID_HANDLE),
    }
}

/// What is told of a subkey beside its name.
pub open spec fn subkey_facts(x: Subkey) -> KeyFacts {
    KeyFacts { subkeys: x.subkeys, values: x.values, max_value: 0, max_data: 0, changed: 0 }
}

/// The answer that lists a subkey, with as much of its name as there is room for.
pub fn enum_key_reply(found: &Option<Subkey>, room: u32) -> (r: Reply)
    ensures
        r@ == (match *found {
            Some(x) => {
                let v = clipped(x.name@, room as int);
                block(
                    head(0, v.len() as u32) + key_fields(subkey_facts(x), x.name@.len() as u32),
                ) + v
            },
            None => status(STATUS_NO_MORE_ENTRIES),
        }),
{
    match found {
        Some(x) => {
            let v = copy_clipped(x.name.as_slice(), room as usize);
            let mut body = header(0, v.len() as u32);
            push_key_fields(
                &mut body,
                KeyFacts {
                    subkeys: x.subkeys,
                    values: x.values,
                    max_value: 0,
                    max_data: 0,
                    changed: 0,
                },
                x.name.len() as u32,
            );
            reply_vararg(body.as_slice(), v.as_slice())
        },
        None => reply_status(STATUS_NO_MORE_ENTRIES),
    }
}

/// The key that a request deletes, or of which it deletes a value; 0 where the request is cut short.
pub open spec fn deleted_key(buf: Seq<u8>) -> u32 {
    if buf.len() >= 16 {
        u32_at(buf, 12)
    } else {
        0
    }
}

fn key_to_delete(buf: &[u8]) -> (r: u32)
    ensures
        r == deleted_key(buf@),
{
    if buf.len() >= 16 {
        read_u32(buf, 12)
    } else {
        0
    }
}

/// The answer to a request that deletes a key. `gone` tells whether the registry deleted it.
pub fn delete_key_reply(hkey: u32, gone: bool) -> (r: (Reply, Option<Notice>))
    ensures
        if hkey != 0 && gone {
            r.0@ == status(0) && r.1 == Some(Notice { hkey, change: NOTIFY_NAME })
        } else {
            r.0@ == status(STATUS_ACCESS_DENIED) && r.1 is None
        },
{
    if hkey != 0 && gone {
        (reply_status(0), Some(Notice { hkey, change: NOTIFY_NAME }))
    } else {
        (reply_status(STATUS_ACCESS_DENIED), None)
    }
}

/// The answer to a request that deletes a value. `gone` tells whether the registry deleted it.
pub fn delete_key_value_reply(hkey: u32, gone: bool) -> (r: (Reply, Option<Notice>))
    ensures
        if hkey != 0 && gone {
            r.0@ == status(0) && r.1 == Some(Notice { hkey, change: NOTIFY_VALUE })
        } else {
            r.0@ == status(STATUS_OBJECT_NAME_NOT_FOUND) && r.1 is None
        },
{
    if hkey != 0 && gone {
        (reply_status(0), Some(Notice { hkey, change: NOTIFY_VALUE }))
    } else {
        (reply_status(STATUS_OBJECT_NAME_NOT_FOUND), None)
    }
}

/// How a request about the registry goes on.
pub enum RegistryStep {
    Done(Reply),
    /// Open the key below another, and make it where it is missing.
    Create { parent: u32, name: Vec<u8> },
    /// Open the key below another.
    Open { parent: u32, name: Vec<u8> },
    /// Look up a value.
    Find { hkey: u32, name: Vec<u8> },
    /// Keep a value.
    Keep { hkey: u32, value: Value },
    /// Look up the value at a place.
    ValueAt { hkey: u32, index: i32 },
    /// Look up the key itself.
    Query { hkey: u32 },
    /// Look up the subkey at a place.
    SubkeyAt { hkey: u32, index: i32 },
    /// Delete a key that has no subkeys.
    Delete { hkey: u32 },
    /// Delete a value.
    DeleteValue { hkey: u32, name: Vec<u8> },
}

/// The step is an answer, and which.
pub open spec fn answers(step: RegistryStep, reply: Seq<u8>) -> bool {
    step matches RegistryStep::Done(r) && r@ == reply
}

/// Opens a key, or makes it: below the directory and under the name of the request's attributes.
pub fn handle_create_key(buf: &[u8], complete: bool) -> (step: RegistryStep)
    ensures
        if complete {
            step matches RegistryStep::Create { parent, name } && parent == attr_root(vararg_of(buf@))
                && name@ == attr_name(vararg_of(buf@))
        } else {
            answers(step, status(STATUS_INVALID_PARAMETER))
        },
{
    if !complete {
        return RegistryStep::Done(reply_status(STATUS_INVALID_PARAMETER));
    }
    let (parent, name) = key_to_create(buf);
    RegistryStep::Create { parent, name }
}

/// Opens a key.
pub fn handle_open_key(buf: &[u8], parent: Option<u32>) -> (step: RegistryStep)
    ensures
        match parent {
            Some(p) => step matches RegistryStep::Open { parent, name } && parent == p && name@
                == vararg_of(buf@),
            None => answers(step, status(STATUS_INVALID_PARAMETER)),
        },
{
    match parent {
        Some(parent) => RegistryStep::Open { parent, name: vararg(buf) },
        None => RegistryStep::Done(reply_status(STATUS_INVALID_PARAMETER)),
    }
}

/// Asks for a value.
pub fn handle_get_key_value(buf: &[u8], hkey: Option<u32>) -> (step: RegistryStep)
    ensures
        match hkey {
            Some(h) => step matches RegistryStep::Find { hkey, name } && hkey == h && name@ == vararg_of(
                buf@,
            ),
            None => answers(step, status(STATUS_INVALID_PARAMETER)),
        },
{
    match hkey {
        Some(hkey) => RegistryStep::Find { hkey, name: vararg(buf) },
        None => RegistryStep::Done(reply_status(STATUS_INVALID_PARAMETER)),
    }
}

/// A request to set a value.
#[derive(Clone, Copy, Debug, PartialEq, Eq)]
pub struct SetKeyValueRequest {
    pub hkey: u32,
    pub kind: u32,
    pub namelen: u32,
}

/// Sets a value. One whose name is said to be longer than what was sent is not set, and nobody is told.
pub fn handle_set_key_value(buf: &[u8], req: Option<SetKeyValueRequest>) -> (step: RegistryStep)
    ensures
        match req {
            Some(q) => {
                let v = vararg_of(buf@);
                if q.namelen <= v.len() {
                    step matches RegistryStep::Keep { hkey, value } && hkey == q.hkey && value.kind
                        == q.kind && value.name@ == v.take(q.namelen as int) && value.data@ == v.skip(
                        q.namelen as int,
                    )
                } else {
                    answers(step, status(0))
                }
            },
            None => answers(step, status(STATUS_INVALID_PARAMETER)),
        },
{
    match req {
        Some(q) => match value_to_set(buf, q.namelen) {
            Some((name, data)) => RegistryStep::Keep {
                hkey: q.hkey,
                value: Value { name, kind: q.kind, data },
            },
            None => RegistryStep::Done(reply_status(0)),
        },
        None => RegistryStep::Done(reply_status(STATUS_INVALID_PARAMETER)),
    }
}

/// Ends a request to set a value: those who wait for that are told.
pub fn set_key_value_reply(hkey: u32) -> (r: (Reply, Notice))
    ensures
        r.0@ == status(0),
        r.1 == (Notice { hkey, change: NOTIFY_VALUE }),
{
    (reply_status(0), Notice { hkey, change: NOTIFY_VALUE })
}

/// Asks for the value at a place.
pub fn handle_enum_key_value(req: Option<(u32, i32)>) -> (step: RegistryStep)
    ensures
        match req {
            Some((h, i)) => step == (RegistryStep::ValueAt { hkey: h, index: i }),
            None => answers(step, status(STATUS_INVALID_PARAMETER)),
        },
{
    match req {
        Some((hkey, index)) => RegistryStep::ValueAt { hkey, index },
        None => RegistryStep::Done(reply_status(STATUS_INVALID_PARAMETER)),
    }
}

/// Asks for the subkey at a place, or at place -1 for the key itself.
pub fn handle_enum_key(req: Option<(u32, i32)>) -> (step: RegistryStep)
    ensures
        match req {
            Some((h, i)) => step == (if i == -1 {
                RegistryStep::Query { hkey: h }
            } else {
                RegistryStep::SubkeyAt { hkey: h, index: i }
            }),
            None => answers(step, status(STATUS_INVALID_PARAMETER)),
        },
{
    match req {
        Some((hkey, index)) => if index == -1 {
            RegistryStep::Query { hkey }
        } else {
            RegistryStep::SubkeyAt { hkey, index }
        },
        None => RegistryStep::Done(reply_status(STATUS_INVALID_PARAMETER)),
    }
}

/// Deletes a key.
pub fn handle_delete_key(buf: &[u8]) -> (step: RegistryStep)
    ensures
        if deleted_key(buf@) == 0 {
            answers(step, status(STATUS_ACCESS_DENIED))
        } else {
            step == (RegistryStep::Delete { hkey: deleted_key(buf@) })
        },
{
    let hkey = key_to_delete(buf);
    if hkey == 0 {
        return RegistryStep::Done(reply_status(STATUS_ACCESS_DENIED));
    }
    RegistryStep::Delete { hkey }
}

/// Deletes a value.
pub fn handle_delete_key_value(buf: &[u8]) -> (step: RegistryStep)
    ensures
        if deleted_key(buf@) == 0 {
            answers(step, status(STATUS_OBJECT_NAME_NOT_FOUND))
        } else {
            step matches RegistryStep::DeleteValue { hkey, name } && hkey == deleted_key(buf@) && name@
                == vararg_of(buf@)
        },
{
    let hkey = key_to_delete(buf);
    if hkey == 0 {
        return RegistryStep::Done(reply_status(STATUS_OBJECT_NAME_NOT_FOUND));
    }
    RegistryStep::DeleteValue { hkey, name: vararg(buf) }
}

impl EventLoop {
    /// Wakes those who wait for a change: the events of `fired`, each by process and handle.
    pub fn fire_registry_notifications(&mut self, fired: &Vec<(u32, u32)>)
        requires
            old(self).wf(),
        ensures
            final(self).wf(),
            *final(self) == (EventLoop { outbox: final(self).outbox, ..*old(self) }),
            final(self).outbox@ == with_signals(
                old(self).sync.objects@,
                old(self).outbox@,
                fired@,
            ),
    {
        self.signal_all(fired);
    }

    /// Lets a client wait for a change through an event, which is reset for that. `known` tells whether the
    /// registry has the key.
    pub fn handle_set_registry_notification(
        &mut self,
        client_fd: i32,
        event: Option<u32>,
        known: bool,
    ) -> (r: Reply)
        requires
            old(self).wf(),
        ensures
            final(self).wf(),
            *final(self) == (EventLoop { outbox: final(self).outbox, ..*old(self) }),
            match event {
                None => final(self).outbox@ == old(self).outbox@ && r@ == status(
                    STATUS_INVALID_PARAMETER,
                ),
                Some(e) => {
                    let key = (pid_of(old(self).clients.clients@, client_fd), e);
                    &&& final(self).outbox@ == (if old(self).sync.objects@.contains_key(key) {
                        old(self).outbox@.push(
                            Action::ResetEvent { object: old(self).sync.objects@[key].fd },
                        )
                    } else {
                        old(self).outbox@
                    })
                    &&& r@ == status(
                        if known {
                            STATUS_PENDING
                        } else {
                            STATUS_INVALID_HANDLE
                        },
                    )
                },
            },
    {
        let e: u32 = match event {
            Some(e) => e,
            None => {
                return reply_status(STATUS_INVALID_PARAMETER);
            },
        };
        let pid: u32 = self.client_pid(client_fd);
        match self.sync.objects.get((pid, e)) {
            Some(o) => {
                let object: i32 = o.fd;
                self.outbox.push(Action::ResetEvent { object });
            },
            None => {},
        }
        if known {
            reply_status(STATUS_PENDING)
        } else {
            reply_status(STATUS_INVALID_HANDLE)
        }
    }
}

proof fn lemma_listed_value_told(v: Seq<u8>, kind: u32, data_len: u32, name_len: u32)
    ensures
        ({
            let r = block(
                head(0, v.len() as u32) + u32_bytes(kind) + u32_bytes(data_len) + u32_bytes(name_len),
            ) + v;
            u32_at(r, 0) == 0 && u32_at(r, 8) == kind && u32_at(r, 12) == data_len && u32_at(r, 16) == name_len
        }),
{
    let body = head(0, v.len() as u32) + u32_bytes(kind) + u32_bytes(data_len) + u32_bytes(name_len);
    assert(body.subrange(0, 4) =~= u32_bytes(0));
    lemma_word_told(body, v, 0, 0);
    assert(body.subrange(8, 12) =~= u32_bytes(kind));
    lemma_word_told(body, v, 8, kind);
    assert(body.subrange(12, 16) =~= u32_bytes(data_len));
    lemma_word_told(body, v, 12, data_len);
    assert(body.subrange(16, 20) =~= u32_bytes(name_len));
    lemma_word_told(body, v, 16, name_len);
}

/// The numbers of the changes that somebody may wait for.
pub proof fn lemma_change_numbers()
    ensures
        NOTIFY_NAME == 1,
        NOTIFY_VALUE == 4,
{
}

/// What is told of a key: how many subkeys it has at 8 and values at 20, how long names and data of values get
/// at 24 and 28, when it last changed at 32, and the length of its name at 40 and 44.
#[verifier::spinoff_prover]
#[verifier::rlimit(40)]
pub proof fn lemma_key_told(f: KeyFacts, size: u32, name_len: u32, more: Seq<u8>)
    ensures
        ({
            let r = block(head(0, size) + key_fields(f, name_len)) + more;
            &&& u32_at(r, 0) == 0
            &&& u32_at(r, 4) == size
            &&& u32_at(r, 8) == f.subkeys
            &&& u32_at(r, 12) == 0
            &&& u32_at(r, 16) == 0
            &&& u32_at(r, 20) == f.values
            &&& u32_at(r, 24) == f.max_value
            &&& u32_at(r, 28) == f.max_data
            &&& u64_at(r, 32) == f.changed
            &&& u32_at(r, 40) == name_len
            &&& u32_at(r, 44) == name_len
            &&& r.skip(64) == more
        }),
{
    let body = head(0, size) + key_fields(f, name_len);
    assert(body.len() == 48);
    assert(body.subrange(0, 4) =~= u32_bytes(0));
    lemma_word_told(body, more, 0, 0);
    assert(body.subrange(4, 8) =~= u32_bytes(size));
    lemma_word_told(body, more, 4, size);
    assert(body.subrange(8, 12) =~= u32_bytes(f.subkeys));
    lemma_word_told(body, more, 8, f.subkeys);
    assert(body.subrange(12, 16) =~= u32_bytes(0));
    lemma_word_told(body, more, 12, 0);
    assert(body.subrange(16, 20) =~= u32_bytes(0));
    lemma_word_told(body, more, 16, 0);
    assert(body.subrange(20, 24) =~= u32_bytes(f.values));
    lemma_word_told(body, more, 20, f.values);
    assert(body.subrange(24, 28) =~= u32_bytes(f.max_value));
    lemma_word_told(body, more, 24, f.max_value);
    assert(body.subrange(28, 32) =~= u32_bytes(f.max_data));
    lemma_word_told(body, more, 28, f.max_data);
    let r = block(body) + more;
    assert(r.subrange(32, 40) =~= u64_bytes(f.changed));
    lemma_read_back_u64(r, 32, f.changed);
    assert(body.subrange(40, 44) =~= u32_bytes(name_len));
    lemma_word_told(body, more, 40, name_len);
    assert(body.subrange(44, 48) =~= u32_bytes(name_len));
    lemma_word_told(body, more, 44, name_len);
}

/// A key below another is made under the name that follows the attributes and what they say of rights; the
/// key above it is the first word of the attributes.
pub proof fn lemma_key_attributes(root: u32, flags: u32, rights: Seq<u8>, name: Seq<u8>)
    requires
        0 < name.len(),
        16 + rights.len() + name.len() <= u32::MAX,
    ensures
        ({
            let v = u32_bytes(root) + u32_bytes(flags) + u32_bytes(rights.len() as u32) + u32_bytes(
                name.len() as u32,
            ) + rights + name;
            attr_root(v) == root && attr_name(v) == name
        }),
{
    let v = u32_bytes(root) + u32_bytes(flags) + u32_bytes(rights.len() as u32) + u32_bytes(name.len() as u32)
        + rights + name;
    assert(v.subrange(0, 4) =~= u32_bytes(root));
    lemma_read_back_u32(v, 0, root);
    assert(v.subrange(8, 12) =~= u32_bytes(rights.len() as u32));
    lemma_read_back_u32(v, 8, rights.len() as u32);
    assert(v.subrange(12, 16) =~= u32_bytes(name.len() as u32));
    lemma_read_back_u32(v, 12, name.len() as u32);
    let at = 16 + rights.len();
    assert(v.subrange(at as int, (at + name.len()) as int) =~= name);
}

/// The key that a request deletes is the first word behind its header.
pub proof fn lemma_deleted_key(head: Seq<u8>, hkey: u32, rest: Seq<u8>)
    requires
        head.len() == 12,
    ensures
        deleted_key(head + u32_bytes(hkey) + rest) == hkey,
{
    let b = head + u32_bytes(hkey) + rest;
    assert(b.subrange(12, 16) =~= u32_bytes(hkey));
    lemma_read_back_u32(b, 12, hkey);
}

} // verus!
