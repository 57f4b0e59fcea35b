//! Sections: memory and images that processes map.
use crate::bytes::{
    clipped, copy_clipped, lemma_read_back_u64, push_all, push_u32, push_u64, read_u32, u32_at, u32_bytes,
    u64_at, u64_bytes,
};
use crate::objects::{allocated, entry_in, HandleEntry, Process, FD_TYPE_FILE};
use crate::paths::{nt_path, to_nt_path};
use crate::ports::object_id_of;
use crate::state::{bumped, pid_of, Action, EventLoop, MappingInfo, NamedObject, Objects};
use crate::text::{
    after_last, byte_units, char_with_code, contains_text, has_sub, is_scalar, lowercase, starts_with_text, tail_after,
    text_wire, to_lowercase, utf16_text, utf16le_to_string, vararg_to_u16, wire_of,
};
use crate::wire::{
    block, handle_answer, head, header, lemma_answer_told, lemma_word_told, max_reply_vararg, objattr_name_range, reply_fixed, reply_handle,
    reply_room, reply_status, reply_vararg, status, vararg, vararg_of, Reply, STATUS_INVALID_HANDLE,
    STATUS_INVALID_PARAMETER, STATUS_NO_MEMORY, STATUS_OBJECT_NAME_NOT_FOUND,
};
use vstd::prelude::*;

verus! {

/// A section that is an image.
pub const SEC_IMAGE: u32 = 0x0100_0000;

/// A section whose pages are there from the start.
pub const SEC_COMMIT: u32 = 0x0080_0000;

/// Rights to map a section.
pub const SECTION_ACCESS: u32 = 0x000F_001F;

#[derive(Clone, Copy, Debug, PartialEq, Eq)]
pub struct CreateMappingRequest {
    pub access: u32,
    pub flags: u32,
    pub file_access: u32,
    pub size: u64,
    pub file_handle: u32,
}

/// What backs a new section.
#[derive(Clone, Copy, Debug, PartialEq, Eq)]
pub enum MappingSource {
    /// A duplicate of this descriptor.
    Duplicate { fd: i32 },
    /// New memory of a size.
    Memory { size: u64 },
}

/// What was made for a new section.
pub struct MadeMapping {
    /// The section's descriptor; negative where none could be made.
    pub fd: i32,
    /// The size of what stands behind the descriptor, where it is known.
    pub file_size: Option<u64>,
    /// The description of an image, and its size.
    pub image: Option<(Vec<u8>, u64)>,
    /// The path of an image.
    pub nt_name: Option<Vec<u8>>,
    /// The memory of an image's shared sections.
    pub shared_fd: Option<i32>,
    /// A duplicate to be kept under the section's name; negative where none could be made.
    pub name_fd: i32,
    /// A duplicate for the new handle.
    pub handle_fd: i32,
}

/// The section that a request opens.
#[derive(Clone, Copy, Debug, PartialEq, Eq)]
pub enum OpenedMapping {
    /// One that has the name.
    Known { object_id: u64, fd: i32 },
    /// The page of facts about the system, which is to be made.
    UserSharedData,
    Unknown,
}

/// The name in a request to open a section, in lower case.
pub open spec fn opened_name(buf: Seq<u8>) -> Seq<char> {
    lowercase(utf16_text(byte_units(vararg_of(buf))))
}

/// The section that a request opens: by the last component of the name, or by all of it.
pub open spec fn opened_mapping(m: Map<Seq<char>, NamedObject>, name: Seq<char>) -> OpenedMapping {
    let short = after_last(name, '\\');
    if m.contains_key(short) {
        OpenedMapping::Known { object_id: m[short].object_id, fd: m[short].fd }
    } else if m.contains_key(name) {
        OpenedMapping::Known { object_id: m[name].object_id, fd: m[name].fd }
    } else if has_sub(short, "__wine_user_shared_data"@) {
        OpenedMapping::UserSharedData
    } else {
        OpenedMapping::Unknown
    }
}

/// A client's process was given a handle to an object with a descriptor; 0 where that failed.
pub open spec fn handle_given(
    before: EventLoop,
    after: EventLoop,
    client_fd: i32,
    e: HandleEntry,
    handle: u32,
) -> bool {
    let pid = pid_of(before.clients.clients@, client_fd);
    &&& after == (EventLoop {
        objects: Objects { processes: after.objects.processes, ..before.objects },
        ..before
    })
    &&& if pid != 0 {
        allocated(before.objects.processes@, after.objects.processes@, pid, e, handle)
    } else {
        handle == 0 && after.objects.processes@ == before.objects.processes@
    }
}

/// The entry of a handle to a section.
pub open spec fn section_entry(object_id: u64, fd: i32, access: u32) -> HandleEntry {
    HandleEntry { object_id, fd: Some(fd), obj_type: FD_TYPE_FILE, access, options: 0 }
}

/// The page of facts about the system was made.
pub open spec fn usd_made(before: EventLoop, after: EventLoop, fd: i32) -> bool {
    let id = before.objects.next_object_id;
    &&& after == (EventLoop {
        objects: Objects {
            next_object_id: bumped(id),
            named_objects: after.objects.named_objects,
            mappings: after.objects.mappings,
            ..before.objects
        },
        ..before
    })
    &&& after.objects.named_objects@ == before.objects.named_objects@.insert(
        "__wine_user_shared_data"@,
        NamedObject { object_id: id, fd },
    )
    &&& after.objects.mappings@ == before.objects.mappings@.insert(
        id,
        MappingInfo {
            fd,
            size: 0x1000,
            flags: SEC_COMMIT,
            pe_image_info: None,
            nt_name: None,
            shared_fd: None,
        },
    )
}

/// A unit of a name as a character; a unit that is none by itself is a zero.
pub open spec fn unit_char(u: u16) -> char {
    if is_scalar(u as u32) {
        u as char
    } else {
        '\0'
    }
}

/// The name under which a new section is kept: the last component in lower case.
pub open spec fn section_name(v: Seq<u8>) -> Option<Seq<char>> {
    match objattr_name_range(v) {
        None => None,
        Some((from, to)) => Some(
            after_last(
                lowercase(byte_units(v.subrange(from, to)).map_values(|u: u16| unit_char(u))),
                '\\',
            ),
        ),
    }
}

/// The size of a new section: that of the image, or what was asked for, or that of the file.
pub open spec fn section_size(req: CreateMappingRequest, made: MadeMapping) -> u64 {
    if req.flags & SEC_IMAGE != 0 && made.image is Some {
        made.image->Some_0.1
    } else if req.size != 0 {
        req.size
    } else {
        match made.file_size {
            Some(n) => n,
            None => 0,
        }
    }
}

/// What is kept of a new section.
pub open spec fn section_kept(m: MappingInfo, req: CreateMappingRequest, made: MadeMapping) -> bool {
    let image = req.flags & SEC_IMAGE != 0;
    &&& m.fd == made.fd
    &&& m.size == section_size(req, made)
    &&& m.flags == req.flags
    &&& m.pe_image_info == (match made.image {
        Some((info, _)) => if image {
            Some(info)
        } else {
            None
        },
        None => None,
    })
    &&& m.nt_name == (if image {
        made.nt_name
    } else {
        None
    })
    &&& m.shared_fd == (if image {
        made.shared_fd
    } else {
        None
    })
}

/// A section was opened by its name, as far as it was found.
pub open spec fn mapping_opened(
    before: EventLoop,
    after: EventLoop,
    client_fd: i32,
    found: OpenedMapping,
    dup_fd: i32,
    usd_fd: Option<i32>,
    r: Seq<u8>,
) -> bool {
    match (found, usd_fd) {
        (OpenedMapping::Known { object_id, fd: _ }, _) => exists|h: u32| #[trigger]
            handle_given(
                before,
                after,
                client_fd,
                section_entry(object_id, dup_fd, SECTION_ACCESS),
                h,
            ) && r == handle_answer(0, h),
        (OpenedMapping::UserSharedData, Some(fd)) => exists|mid: EventLoop, h: u32|
            #![trigger usd_made(before, mid, fd), handle_given(mid, after, client_fd, section_entry(before.objects.next_object_id, dup_fd, SECTION_ACCESS), h)]
            usd_made(before, mid, fd) && handle_given(
                mid,
                after,
                client_fd,
                section_entry(before.objects.next_object_id, dup_fd, SECTION_ACCESS),
                h,
            ) && r == handle_answer(0, h),
        _ => after == before && r == status(STATUS_OBJECT_NAME_NOT_FOUND),
    }
}

/// A new section is kept, under its name too. A duplicate for a name that it does not have is closed.
pub open spec fn section_made(
    before: EventLoop,
    after: EventLoop,
    name: Option<Seq<char>>,
    req: CreateMappingRequest,
    made: MadeMapping,
) -> bool {
    let id = before.objects.next_object_id;
    &&& after == (EventLoop {
        objects: Objects {
            next_object_id: bumped(id),
            mappings: after.objects.mappings,
            named_objects: after.objects.named_objects,
            ..before.objects
        },
        outbox: after.outbox,
        ..before
    })
    &&& after.outbox@ == (if name is None && made.name_fd >= 0 {
        before.outbox@.push(Action::Close { fd: made.name_fd })
    } else {
        before.outbox@
    })
    &&& after.objects.mappings@.contains_key(id)
    &&& after.objects.mappings@ == before.objects.mappings@.insert(id, after.objects.mappings@[id])
    &&& section_kept(after.objects.mappings@[id], req, made)
    &&& after.objects.named_objects@ == (match name {
        Some(n) => if made.name_fd >= 0 {
            before.objects.named_objects@.insert(
                n,
                NamedObject { object_id: id, fd: made.name_fd },
            )
        } else {
            before.objects.named_objects@
        },
        None => before.objects.named_objects@,
    })
}

/// The rights of a handle to a new section: those on the file, where they are given.
pub open spec fn section_access(req: CreateMappingRequest) -> u32 {
    if req.file_access != 0 {
        req.file_access
    } else {
        req.access
    }
}

/// A section was created for a client; a handle that could not be given is no reason to forget it.
pub open spec fn mapping_created(
    before: EventLoop,
    after: EventLoop,
    client_fd: i32,
    name: Option<Seq<char>>,
    req: CreateMappingRequest,
    made: MadeMapping,
    r: Seq<u8>,
) -> bool {
    if made.fd < 0 {
        &&& r == status(STATUS_NO_MEMORY)
        &&& after == (EventLoop {
            objects: Objects {
                next_object_id: bumped(before.objects.next_object_id),
                ..before.objects
            },
            ..before
        })
    } else {
        exists|s1: EventLoop, s2: EventLoop, h: u32|
            #![trigger section_made(before, s1, name, req, made), handle_given(s1, s2, client_fd, section_entry(before.objects.next_object_id, made.handle_fd, section_access(req)), h)]
            section_made(before, s1, name, req, made) && handle_given(
                s1,
                s2,
                client_fd,
                section_entry(
                    before.objects.next_object_id,
                    made.handle_fd,
                    section_access(req),
                ),
                h,
            ) && if h == 0 {
                &&& r == status(STATUS_INVALID_HANDLE)
                &&& after == (EventLoop { outbox: after.outbox, ..s2 })
                &&& after.outbox@ == s2.outbox@.push(Action::Close { fd: made.handle_fd })
            } else {
                after == s2 && r == handle_answer(0, h)
            }
    }
}

/// The path of a file as the client's system writes it.
pub open spec fn image_path(path: Seq<char>) -> Seq<char> {
    if path.len() > 0 && path[0] == '/' {
        nt_path(path)
    } else {
        path
    }
}

/// The bytes of an image's path; nothing for an empty one.
pub fn nt_name_of(path: &str) -> (r: Option<Vec<u8>>)
    ensures
        match r {
            Some(b) => path@.len() > 0 && b@ == text_wire(image_path(path@)),
            None => path@.len() == 0,
        },
{
    if path.is_empty() {
        return None;
    }
    proof {
        reveal_strlit("/");
        assert(path@.take(1) =~= seq![path@[0]]);
        assert("/"@ =~= seq!['/']);
        assert(seq![path@[0]][0] == path@[0]);
    }
    if starts_with_text(path, "/") {
        let p = to_nt_path(path);
        Some(wire_of(p.as_str()))
    } else {
        Some(wire_of(path))
    }
}

fn name_text(v: &[u8]) -> (r: Vec<char>)
    ensures
        r@ == byte_units(v@).map_values(|u: u16| unit_char(u)),
{
    let units = vararg_to_u16(v);
    let mut r: Vec<char> = Vec::new();
    let mut i: usize = 0;
    while i < units.len()
        invariant
            i <= units@.len(),
            units@ == byte_units(v@),
            r@ == units@.take(i as int).map_values(|u: u16| unit_char(u)),
        decreases units@.len() - i,
    {
        let c: char = match char_with_code(units[i] as u32) {
            Some(c) => c,
            None => '\0',
        };
        r.push(c);
        proof {
            assert(units@.take(i + 1).map_values(|u: u16| unit_char(u)) =~= units@.take(
                i as int,
            ).map_values(|u: u16| unit_char(u)).push(c));
        }
        i = i + 1;
    }
    assert(units@.take(i as int) =~= units@);
    r
}

fn read_section_name(v: &[u8]) -> (r: Option<String>)
    ensures
        crate::wire::opt_view(r) == section_name(v@),
{
    let n: usize = v.len();
    if n < 16 {
        return None;
    }
    let sd_len: u64 = read_u32(v, 8) as u64;
    let name_len: u64 = read_u32(v, 12) as u64;
    if name_len == 0 || 16 + sd_len + name_len > n as u64 {
        return None;
    }
    let from: usize = 16 + sd_len as usize;
    let raw = crate::bytes::copy_range(v, from, from + name_len as usize);
    let chars = name_text(raw.as_slice());
    let name = crate::text::string_of(&chars);
    let lower = to_lowercase(name.as_str());
    Some(tail_after(lower.as_str(), '\\'))
}

impl EventLoop {
    /// Gives a client's process a handle to an object with a descriptor.
    pub fn give_handle(&mut self, client_fd: i32, e: HandleEntry) -> (handle: u32)
        requires
            old(self).wf(),
        ensures
            final(self).wf(),
            handle_given(*old(self), *final(self), client_fd, e, handle),
    {
        let pid: u32 = self.client_pid(client_fd);
        if pid != 0 {
            self.allocate_in(pid, e)
        } else {
            0
        }
    }

    /// Which section a request opens.
    pub fn mapping_to_open(&self, buf: &[u8]) -> (r: OpenedMapping)
        requires
            self.wf(),
        ensures
            r == opened_mapping(self.objects.named_objects@, opened_name(buf@)),
    {
        let v = vararg(buf);
        let text = utf16le_to_string(v.as_slice());
        let name = to_lowercase(text.as_str());
        self.mapping_named(name.as_str())
    }

    /// Which section a name in lower case stands for.
    pub fn mapping_named(&self, name: &str) -> (r: OpenedMapping)
        requires
            self.wf(),
        ensures
            r == opened_mapping(self.objects.named_objects@, name@),
    {
        let short = tail_after(name, '\\');
        match self.objects.named_objects.get(short.as_str()) {
            Some(n) => {
                return OpenedMapping::Known { object_id: n.object_id, fd: n.fd };
            },
            None => {},
        }
        match self.objects.named_objects.get(name) {
            Some(n) => {
                return OpenedMapping::Known { object_id: n.object_id, fd: n.fd };
            },
            None => {},
        }
        if contains_text(short.as_str(), "__wine_user_shared_data") {
            OpenedMapping::UserSharedData
        } else {
            OpenedMapping::Unknown
        }
    }

    /// Opens a section. `dup_fd` is a duplicate of the section's descriptor; for the page of facts about
    /// the system `usd_fd` is its descriptor, where it could be made.
    pub fn handle_open_mapping(
        &mut self,
        client_fd: i32,
        buf: &[u8],
        complete: bool,
        dup_fd: i32,
        usd_fd: Option<i32>,
    ) -> (r: Reply)
        requires
            old(self).wf(),
        ensures
            final(self).wf(),
            if !complete {
                *final(self) == *old(self) && r@ == status(STATUS_INVALID_PARAMETER)
            } else {
                mapping_opened(
                    *old(self),
                    *final(self),
                    client_fd,
                    opened_mapping(old(self).objects.named_objects@, opened_name(buf@)),
                    dup_fd,
                    usd_fd,
                    r@,
                )
            },
    {
        if !complete {
            return reply_status(STATUS_INVALID_PARAMETER);
        }
        let found = self.mapping_to_open(buf);
        self.open_found(client_fd, found, dup_fd, usd_fd)
    }

    /// Gives a client a handle to a section that was found.
    pub fn open_found(
        &mut self,
        client_fd: i32,
        found: OpenedMapping,
        dup_fd: i32,
        usd_fd: Option<i32>,
    ) -> (r: Reply)
        requires
            old(self).wf(),
        ensures
            final(self).wf(),
            mapping_opened(*old(self), *final(self), client_fd, found, dup_fd, usd_fd, r@),
    {
        match found {
            OpenedMapping::Known { object_id, fd } => {
                let e = HandleEntry::with_fd(object_id, dup_fd, FD_TYPE_FILE, SECTION_ACCESS, 0);
                let h: u32 = self.give_handle(client_fd, e);
                return reply_handle(0, h);
            },
            OpenedMapping::UserSharedData => {
                match usd_fd {
                    Some(fd) => {
                        let id: u64 = self.alloc_object_id();
                        self.objects.named_objects.insert(
                            "__wine_user_shared_data".to_string(),
                            NamedObject { object_id: id, fd },
                        );
                        self.objects.mappings.insert(
                            id,
                            MappingInfo {
                                fd,
                                size: 0x1000,
                                flags: SEC_COMMIT,
                                pe_image_info: None,
                                nt_name: None,
                                shared_fd: None,
                            },
                        );
                        let ghost mid = *self;
                        assert(usd_made(*old(self), mid, fd));
                        let e = HandleEntry::with_fd(id, dup_fd, FD_TYPE_FILE, SECTION_ACCESS, 0);
                        let h: u32 = self.give_handle(client_fd, e);
                        return reply_handle(0, h);
                    },
                    None => {},
                }
            },
            OpenedMapping::Unknown => {},
        }
        reply_status(STATUS_OBJECT_NAME_NOT_FOUND)
    }

    /// What backs the section of a request: the file of a handle, or new memory.
    pub fn mapping_source(&self, client_fd: i32, req: CreateMappingRequest) -> (r: MappingSource)
        requires
            self.wf(),
        ensures
            r == ({
                let pid = pid_of(self.clients.clients@, client_fd);
                match entry_in(self.objects.processes@, pid, req.file_handle) {
                    Some(HandleEntry { fd: Some(fd), .. }) => if req.file_handle != 0 && pid != 0 {
                        MappingSource::Duplicate { fd }
                    } else {
                        MappingSource::Memory { size: req.size }
                    },
                    _ => MappingSource::Memory { size: req.size },
                }
            }),
    {
        let pid: u32 = self.client_pid(client_fd);
        if req.file_handle != 0 && pid != 0 {
            match self.handle_entry(pid, req.file_handle) {
                Some(e) => match e.fd {
                    Some(fd) => {
                        return MappingSource::Duplicate { fd };
                    },
                    None => {},
                },
                None => {},
            }
        }
        MappingSource::Memory { size: req.size }
    }

    /// Creates a section from what was made for it.
    pub fn handle_create_mapping(
        &mut self,
        client_fd: i32,
        buf: &[u8],
        req: Option<CreateMappingRequest>,
        made: MadeMapping,
    ) -> (r: Reply)
        requires
            old(self).wf(),
        ensures
            final(self).wf(),
            match req {
                None => *final(self) == *old(self) && r@ == status(STATUS_INVALID_PARAMETER),
                Some(q) => mapping_created(
                    *old(self),
                    *final(self),
                    client_fd,
                    section_name(vararg_of(buf@)),
                    q,
                    made,
                    r@,
                ),
            },
    {
        let q = match req {
            Some(q) => q,
            None => {
                return reply_status(STATUS_INVALID_PARAMETER);
            },
        };
        let v = vararg(buf);
        let name = read_section_name(v.as_slice());
        self.create_section(client_fd, name, q, made)
    }

    /// Keeps a new section, under its name where it has one, and gives the client a handle to it.
    pub fn create_section(
        &mut self,
        client_fd: i32,
        name: Option<String>,
        q: CreateMappingRequest,
        made: MadeMapping,
    ) -> (r: Reply)
        requires
            old(self).wf(),
        ensures
            final(self).wf(),
            mapping_created(
                *old(self),
                *final(self),
                client_fd,
                crate::wire::opt_view(name),
                q,
                made,
                r@,
            ),
    {
        let ghost m0 = made;
        let id: u64 = self.alloc_object_id();
        if made.fd < 0 {
            return reply_status(STATUS_NO_MEMORY);
        }
        let image: bool = q.flags & SEC_IMAGE != 0;
        let fd: i32 = made.fd;
        let (name_fd, handle_fd): (i32, i32) = (made.name_fd, made.handle_fd);
        let mut size: u64 = q.size;
        if size == 0 {
            match made.file_size {
                Some(n) => {
                    size = n;
                },
                None => {},
            }
        }
        let mut pe_image_info: Option<Vec<u8>> = None;
        let mut nt_name: Option<Vec<u8>> = None;
        let mut shared_fd: Option<i32> = None;
        if image {
            match made.image {
                Some((info, image_size)) => {
                    pe_image_info = Some(info);
                    size = image_size;
                },
                None => {},
            }
            nt_name = made.nt_name;
            shared_fd = made.shared_fd;
        }
        self.objects.mappings.insert(
            id,
            MappingInfo { fd, size, flags: q.flags, pe_image_info, nt_name, shared_fd },
        );
        let ghost nv = crate::wire::opt_view(name);
        match name {
            Some(n) => {
                if name_fd >= 0 {
                    self.objects.named_objects.insert(n, NamedObject { object_id: id, fd: name_fd });
                }
            },
            None => {
                if name_fd >= 0 {
                    self.outbox.push(Action::Close { fd: name_fd });
                }
            },
        }
        let ghost s1 = *self;
        assert(section_made(*old(self), s1, nv, q, m0));
        let access: u32 = if q.file_access != 0 {
            q.file_access
        } else {
            q.access
        };
        let e = HandleEntry::with_fd(id, handle_fd, FD_TYPE_FILE, access, 0);
        let h: u32 = self.give_handle(client_fd, e);
        let ghost s2 = *self;
        assert(handle_given(
            s1,
            s2,
            client_fd,
            section_entry(old(self).objects.next_object_id, m0.handle_fd, section_access(q)),
            h,
        ));
        if h == 0 {
            self.outbox.push(Action::Close { fd: handle_fd });
            return reply_status(STATUS_INVALID_HANDLE);
        }
        reply_handle(0, h)
    }
}

/// The entry of a handle, where the client has a process.
pub open spec fn entry_of(s: EventLoop, client_fd: i32, handle: u32) -> Option<HandleEntry> {
    let pid = pid_of(s.clients.clients@, client_fd);
    if pid != 0 {
        entry_in(s.objects.processes@, pid, handle)
    } else {
        None
    }
}

/// The section that a client's handle stands for.
pub open spec fn section_of(s: EventLoop, client_fd: i32, handle: u32) -> Option<MappingInfo> {
    match entry_of(s, client_fd, handle) {
        Some(e) => if s.objects.mappings@.contains_key(e.object_id) {
            Some(s.objects.mappings@[e.object_id])
        } else {
            None
        },
        None => None,
    }
}

/// What an answer about a section needs from outside.
#[derive(Clone, Copy, Debug, PartialEq, Eq)]
pub enum SectionNeeds {
    /// A duplicate of the memory of the shared sections.
    Duplicate { fd: i32 },
    /// The size of the file behind a handle that is no section.
    Size { fd: i32 },
    Nothing,
}

pub open spec fn section_needs(s: EventLoop, client_fd: i32, handle: u32) -> SectionNeeds {
    match (section_of(s, client_fd, handle), entry_of(s, client_fd, handle)) {
        (Some(MappingInfo { shared_fd: Some(fd), .. }), _) => SectionNeeds::Duplicate { fd },
        (Some(_), _) => SectionNeeds::Nothing,
        (None, Some(HandleEntry { fd: Some(fd), .. })) => SectionNeeds::Size { fd },
        (None, _) => SectionNeeds::Nothing,
    }
}

/// The bytes that an optional vector holds.
pub open spec fn bytes_in(v: Option<Vec<u8>>) -> Seq<u8> {
    match v {
        Some(b) => b@,
        None => Seq::empty(),
    }
}

/// The fixed part of an answer about a section.
pub open spec fn section_fields(
    size: u64,
    flags: u32,
    shared_file: u32,
    name_len: u32,
    total: u32,
) -> Seq<u8> {
    u64_bytes(size) + u32_bytes(flags) + u32_bytes(shared_file) + u32_bytes(name_len) + u32_bytes(0)
        + u32_bytes(total) + u32_bytes(0)
}

/// The answer about a section: for an image its description and then its path, as far as there is room.
pub open spec fn section_answer(m: MappingInfo, shared_file: u32, room: u32) -> Seq<u8> {
    match m.pe_image_info {
        None => block(head(0, 0) + section_fields(m.size, m.flags, shared_file, 0, 0)),
        Some(pe) => {
            let all = pe@ + bytes_in(m.nt_name);
            let v = clipped(all, room as int);
            block(
                head(0, v.len() as u32) + section_fields(
                    m.size,
                    m.flags,
                    shared_file,
                    (v.len() - clipped(pe@, room as int).len()) as u32,
                    all.len() as u32,
                ),
            ) + v
        },
    }
}

/// The entry of a handle to the memory of shared sections.
pub open spec fn shared_entry(fd: i32) -> HandleEntry {
    HandleEntry { object_id: 0, fd: Some(fd), obj_type: FD_TYPE_FILE, access: 0x12019F, options: 0 }
}

/// A client was given a handle to the memory of an image's shared sections; 0 where there is none.
pub open spec fn shared_file_given(
    before: EventLoop,
    after: EventLoop,
    client_fd: i32,
    m: MappingInfo,
    dup_fd: i32,
    handle: u32,
) -> bool {
    if m.shared_fd is Some && dup_fd >= 0 {
        exists|mid: EventLoop| #[trigger]
            handle_given(before, mid, client_fd, shared_entry(dup_fd), handle) && after
                == (EventLoop { outbox: after.outbox, ..mid }) && after.outbox@ == (if handle == 0 {
                mid.outbox@.push(Action::Close { fd: dup_fd })
            } else {
                mid.outbox@
            })
    } else {
        after == before && handle == 0
    }
}

fn push_section_fields(
    out: &mut Vec<u8>,
    size: u64,
    flags: u32,
    shared_file: u32,
    name_len: u32,
    total: u32,
)
    ensures
        final(out)@ == old(out)@ + section_fields(size, flags, shared_file, name_len, total),
{
    push_u64(out, size);
    push_u32(out, flags);
    push_u32(out, shared_file);
    push_u32(out, name_len);
    push_u32(out, 0);
    push_u32(out, total);
    push_u32(out, 0);
    assert(out@ =~= old(out)@ + section_fields(size, flags, shared_file, name_len, total));
}

fn answer_section(m: &MappingInfo, shared_file: u32, room: u32) -> (r: Reply)
    ensures
        r@ == section_answer(*m, shared_file, room),
{
    match &m.pe_image_info {
        None => {
            let mut body = header(0, 0);
            push_section_fields(&mut body, m.size, m.flags, shared_file, 0, 0);
            reply_fixed(body.as_slice())
        },
        Some(pe) => {
            let mut v = copy_clipped(pe.as_slice(), room as usize);
            let kept: usize = v.len();
            let mut total: u128 = pe.len() as u128;
            let ghost all = pe@ + bytes_in(m.nt_name);
            match &m.nt_name {
                Some(n) => {
                    total = total + n.len() as u128;
                    let rest = copy_clipped(n.as_slice(), room as usize - kept);
                    push_all(&mut v, rest.as_slice());
                    assert(v@ =~= clipped(all, room as int));
                },
                None => {
                    assert(all =~= pe@);
                },
            }
            let mut body = header(0, v.len() as u32);
            push_section_fields(
                &mut body,
                m.size,
                m.flags,
                shared_file,
                (v.len() - kept) as u32,
                total as u32,
            );
            reply_vararg(body.as_slice(), v.as_slice())
        },
    }
}

/// The process's program: the first image that it maps.
pub open spec fn view_noted(
    before: EventLoop,
    after: EventLoop,
    pid: u32,
    object_id: u64,
    base: u64,
) -> bool {
    let p = before.objects.processes@;
    let m = before.objects.mappings@;
    &&& after == (EventLoop {
        objects: Objects {
            image_views: after.objects.image_views,
            processes: after.objects.processes,
            ..before.objects
        },
        ..before
    })
    &&& after.objects.image_views@ == before.objects.image_views@.insert((pid, object_id), base)
    &&& if p.contains_key(pid) && p[pid].exe_image_info is None && m.contains_key(object_id)
        && m[object_id].pe_image_info is Some {
        &&& after.objects.processes@ == p.insert(pid, after.objects.processes@[pid])
        &&& after.objects.processes@[pid] == (Process {
            exe_image_info: after.objects.processes@[pid].exe_image_info,
            ..p[pid]
        })
        &&& after.objects.processes@[pid].exe_image_info is Some
        &&& after.objects.processes@[pid].exe_image_info->0@ == m[object_id].pe_image_info->0@
    } else {
        after.objects.processes@ == p
    }
}

impl EventLoop {
    /// What the answer about a section needs from outside.
    pub fn mapping_info_needs(&self, client_fd: i32, handle: u32) -> (r: SectionNeeds)
        requires
            self.wf(),
        ensures
            r == section_needs(*self, client_fd, handle),
    {
        let pid: u32 = self.client_pid(client_fd);
        if pid == 0 {
            return SectionNeeds::Nothing;
        }
        match self.handle_entry(pid, handle) {
            Some(e) => match self.objects.mappings.get(e.object_id) {
                Some(m) => match m.shared_fd {
                    Some(fd) => SectionNeeds::Duplicate { fd },
                    None => SectionNeeds::Nothing,
                },
                None => match e.fd {
                    Some(fd) => SectionNeeds::Size { fd },
                    None => SectionNeeds::Nothing,
                },
            },
            None => SectionNeeds::Nothing,
        }
    }

    /// Answers about the section of a handle. `dup_fd` is the duplicate and `file_size` the size that the
    /// answer needs.
    pub fn handle_get_mapping_info(
        &mut self,
        client_fd: i32,
        buf: &[u8],
        handle: Option<u32>,
        dup_fd: i32,
        file_size: Option<u64>,
    ) -> (r: Reply)
        requires
            old(self).wf(),
        ensures
            final(self).wf(),
            match handle {
                None => *final(self) == *old(self) && r@ == status(STATUS_INVALID_PARAMETER),
                Some(h) => match (
                    section_of(*old(self), client_fd, h),
                    section_needs(*old(self), client_fd, h),
                ) {
                    (Some(m), _) => exists|shared: u32| #[trigger]
                        shared_file_given(
                            *old(self),
                            *final(self),
                            client_fd,
                            m,
                            dup_fd,
                            shared,
                        ) && r@ == section_answer(m, shared, reply_room(buf@)),
                    (None, SectionNeeds::Size { fd: _ }) => *final(self) == *old(self) && r@
                        == block(
                        head(0, 0) + section_fields(
                            match file_size {
                                Some(n) => n,
                                None => 0x1000,
                            },
                            SEC_COMMIT,
                            0,
                            0,
                            0,
                        ),
                    ),
                    (None, _) => *final(self) == *old(self) && r@ == status(STATUS_INVALID_HANDLE),
                },
            },
    {
        let h: u32 = match handle {
            Some(h) => h,
            None => {
                return reply_status(STATUS_INVALID_PARAMETER);
            },
        };
        let room: u32 = max_reply_vararg(buf);
        let pid: u32 = self.client_pid(client_fd);
        if pid == 0 {
            return reply_status(STATUS_INVALID_HANDLE);
        }
        let e = match self.handle_entry(pid, h) {
            Some(e) => e,
            None => {
                return reply_status(STATUS_INVALID_HANDLE);
            },
        };
        let shared_fd: Option<i32> = match self.objects.mappings.get(e.object_id) {
            Some(m) => m.shared_fd,
            None => {
                if e.fd.is_none() {
                    return reply_status(STATUS_INVALID_HANDLE);
                }
                let size: u64 = match file_size {
                    Some(n) => n,
                    None => 0x1000,
                };
                let mut body = header(0, 0);
                push_section_fields(&mut body, size, SEC_COMMIT, 0, 0, 0);
                return reply_fixed(body.as_slice());
            },
        };
        let mut shared: u32 = 0;
        if shared_fd.is_some() && dup_fd >= 0 {
            shared = self.give_handle(
                client_fd,
                HandleEntry::with_fd(0, dup_fd, FD_TYPE_FILE, 0x12019F, 0),
            );
            let ghost mid = *self;
            assert(handle_given(*old(self), mid, client_fd, shared_entry(dup_fd), shared));
            if shared == 0 {
                self.outbox.push(Action::Close { fd: dup_fd });
            }
        }
        let ghost m0 = section_of(*old(self), client_fd, h)->0;
        assert(shared_file_given(*old(self), *self, client_fd, m0, dup_fd, shared));
        match self.objects.mappings.get(e.object_id) {
            Some(m) => answer_section(m, shared, room),
            None => reply_status(STATUS_INVALID_HANDLE),
        }
    }

    /// Notes where a process mapped an image.
    pub fn handle_map_image_view(
        &mut self,
        client_fd: i32,
        req: Option<(u32, u64)>,
    ) -> (r: Reply)
        requires
            old(self).wf(),
        ensures
            final(self).wf(),
            match req {
                None => *final(self) == *old(self) && r@ == status(STATUS_INVALID_PARAMETER),
                Some((mapping, base)) => r@ == status(0) && match object_id_of(
                    *old(self),
                    client_fd,
                    mapping,
                ) {
                    Some(id) => if id != 0 {
                        view_noted(
                            *old(self),
                            *final(self),
                            pid_of(old(self).clients.clients@, client_fd),
                            id,
                            base,
                        )
                    } else {
                        *final(self) == *old(self)
                    },
                    None => *final(self) == *old(self),
                },
            },
    {
        let (mapping, base): (u32, u64) = match req {
            Some(q) => q,
            None => {
                return reply_status(STATUS_INVALID_PARAMETER);
            },
        };
        let pid: u32 = self.client_pid(client_fd);
        let id: u64 = match self.handle_entry(pid, mapping) {
            Some(e) => e.object_id,
            None => 0,
        };
        if id != 0 {
            self.objects.image_views.insert((pid, id), base);
            match self.objects.mappings.get(id) {
                Some(m) => match &m.pe_image_info {
                    Some(pe) => {
                        let info = copy_clipped(pe.as_slice(), pe.len());
                        let first: bool = match self.objects.processes.get(pid) {
                            Some(p) => p.exe_image_info.is_none(),
                            None => false,
                        };
                        if first {
                            match self.objects.processes.get_mut(pid) {
                                Some(p) => {
                                    p.exe_image_info = Some(info);
                                },
                                None => {},
                            }
                        }
                    },
                    None => {},
                },
                None => {},
            }
        }
        reply_status(0)
    }

    /// Where a process mapped an image; 0 where it did not.
    pub fn handle_get_image_map_address(&self, client_fd: i32, handle: Option<u32>) -> (r: Reply)
        requires
            self.wf(),
        ensures
            match handle {
                None => r@ == status(STATUS_INVALID_PARAMETER),
                Some(h) => r@ == block(
                    head(0, 0) + u64_bytes(
                        ({
                            let key = (
                                pid_of(self.clients.clients@, client_fd),
                                match object_id_of(*self, client_fd, h) {
                                    Some(id) => id,
                                    None => 0,
                                },
                            );
                            if self.objects.image_views@.contains_key(key) {
                                self.objects.image_views@[key]
                            } else {
                                0
                            }
                        }),
                    ),
                ),
            },
    {
        let h: u32 = match handle {
            Some(h) => h,
            None => {
                return reply_status(STATUS_INVALID_PARAMETER);
            },
        };
        let pid: u32 = self.client_pid(client_fd);
        let id: u64 = match self.handle_entry(pid, h) {
            Some(e) => e.object_id,
            None => 0,
        };
        let addr: u64 = match self.objects.image_views.get((pid, id)) {
            Some(a) => *a,
            None => 0,
        };
        let mut body = header(0, 0);
        push_u64(&mut body, addr);
        reply_fixed(body.as_slice())
    }
}

/// Views are the client's own affair: mapping one is only acknowledged.
pub fn handle_map_view(complete: bool) -> (r: Reply)
    ensures
        r@ == status(
            if complete {
                0
            } else {
                STATUS_INVALID_PARAMETER
            },
        ),
{
    if complete {
        reply_status(0)
    } else {
        reply_status(STATUS_INVALID_PARAMETER)
    }
}

/// Views are the client's own affair: unmapping one is only acknowledged.
pub fn handle_unmap_view(complete: bool) -> (r: Reply)
    ensures
        r@ == status(
            if complete {
                0
            } else {
                STATUS_INVALID_PARAMETER
            },
        ),
{
    handle_map_view(complete)
}

/// The pages of a section from an offset on: all of them are there.
pub fn handle_get_mapping_committed_range(offset: Option<u64>) -> (r: Reply)
    ensures
        match offset {
            None => r@ == status(STATUS_INVALID_PARAMETER),
            Some(at) => r@ == block(
                head(0, 0) + u64_bytes(
                    if at <= 0x7FFF_FFFF_FFFF {
                        (0x7FFF_FFFF_FFFF - at) as u64
                    } else {
                        0
                    },
                ) + u32_bytes(1) + u32_bytes(0),
            ),
        },
{
    match offset {
        None => reply_status(STATUS_INVALID_PARAMETER),
        Some(at) => {
            let rest: u64 = if at <= 0x7FFF_FFFF_FFFF {
                0x7FFF_FFFF_FFFF - at
            } else {
                0
            };
            let mut body = header(0, 0);
            push_u64(&mut body, rest);
            push_u32(&mut body, 1);
            push_u32(&mut body, 0);
            reply_fixed(body.as_slice())
        },
    }
}

/// A client that creates a section finds it again behind its handle: on the descriptor that was made, with
/// the flags that it asked for. An image (0x1000000) has the size of the image, its description, its path
/// and its shared memory; any other section has the size that was asked for, or that of its file where none
/// was, and none of those.
pub proof fn lemma_section_is_found_again(
    before: EventLoop,
    after: EventLoop,
    client_fd: i32,
    name: Option<Seq<char>>,
    req: CreateMappingRequest,
    made: MadeMapping,
    r: Seq<u8>,
)
    requires
        mapping_created(before, after, client_fd, name, req, made, r),
    ensures
        made.fd < 0 <==> u32_at(r, 0) == 0xC000_0017,
        made.fd >= 0 ==> u32_at(r, 0) == 0 || u32_at(r, 0) == 0xC000_0008,
        u32_at(r, 0) == 0 ==> u32_at(r, 8) != 0 && (section_of(after, client_fd, u32_at(r, 8)) matches Some(m)
            && {
            &&& m.fd == made.fd
            &&& m.flags == req.flags
            &&& req.flags & 0x0100_0000 != 0 && made.image is Some ==> m.size == made.image->Some_0.1
                && m.pe_image_info == Some(made.image->Some_0.0) && m.nt_name == made.nt_name && m.shared_fd
                == made.shared_fd
            &&& req.flags & 0x0100_0000 == 0 && req.size != 0 ==> m.size == req.size
            &&& req.flags & 0x0100_0000 == 0 && req.size == 0 ==> made.file_size == Some(m.size) || (
            made.file_size is None && m.size == 0)
            &&& req.flags & 0x0100_0000 == 0 ==> m.pe_image_info is None && m.nt_name is None && m.shared_fd
                is None
        }),
        u32_at(r, 0) == 0 ==> (entry_of(after, client_fd, u32_at(r, 8)) matches Some(e) && e.fd == Some(
            made.handle_fd,
        ) && e.access == (if req.file_access != 0 {
            req.file_access
        } else {
            req.access
        })),
        u32_at(r, 0) == 0xC000_0008 ==> after.outbox@.last() == (Action::Close { fd: made.handle_fd }),
{
    lemma_answer_told(STATUS_NO_MEMORY, 0);
    lemma_answer_told(STATUS_INVALID_HANDLE, 0);
    if made.fd >= 0 {
        let e = section_entry(before.objects.next_object_id, made.handle_fd, section_access(req));
        let (s1, s2, h) = choose|s1: EventLoop, s2: EventLoop, h: u32|
            #![trigger section_made(before, s1, name, req, made), handle_given(s1, s2, client_fd, e, h)]
            section_made(before, s1, name, req, made) && handle_given(s1, s2, client_fd, e, h) && if h == 0 {
                &&& r == status(STATUS_INVALID_HANDLE)
                &&& after == (EventLoop { outbox: after.outbox, ..s2 })
                &&& after.outbox@ == s2.outbox@.push(Action::Close { fd: made.handle_fd })
            } else {
                after == s2 && r == handle_answer(0, h)
            };
        lemma_answer_told(0, h);
    }
}

/// A section that was created under a name is the one that is opened by that name: by the name alone, and
/// by any path that ends in it.
pub proof fn lemma_section_is_opened_by_name(
    before: EventLoop,
    after: EventLoop,
    name: Seq<char>,
    req: CreateMappingRequest,
    made: MadeMapping,
    path: Seq<char>,
)
    requires
        section_made(before, after, Some(name), req, made),
        made.name_fd >= 0,
        after_last(path, '\\') == name,
    ensures
        opened_mapping(after.objects.named_objects@, path) == (OpenedMapping::Known {
            object_id: before.objects.next_object_id,
            fd: made.name_fd,
        }),
{
}

/// A name that nothing has stands for no section, but for the page of facts about the system, which is made
/// when it is asked for and found from then on.
pub proof fn lemma_facts_made_once(before: EventLoop, after: EventLoop, fd: i32)
    requires
        usd_made(before, after, fd),
        after_last("__wine_user_shared_data"@, '\\') == "__wine_user_shared_data"@,
    ensures
        opened_mapping(after.objects.named_objects@, "__wine_user_shared_data"@) == (OpenedMapping::Known {
            object_id: before.objects.next_object_id,
            fd,
        }),
        after.objects.mappings@[before.objects.next_object_id].size == 4096,
        after.objects.mappings@[before.objects.next_object_id].fd == fd,
{
}

/// What is answered about a section: its size at 8, its flags at 16, the handle to its shared memory at 20,
/// the length of the path at 24 and that of all there is to tell at 32; behind the block the description of
/// an image and its path, as far as the client has room.
#[verifier::spinoff_prover]
#[verifier::rlimit(40)]
pub proof fn lemma_section_told(m: MappingInfo, shared_file: u32, room: u32)
    requires
        m.pe_image_info matches Some(pe) ==> pe@.len() + bytes_in(m.nt_name).len() <= u32::MAX,
    ensures
        ({
            let r = section_answer(m, shared_file, room);
            &&& u32_at(r, 0) == 0
            &&& u64_at(r, 8) == m.size
            &&& u32_at(r, 16) == m.flags
            &&& u32_at(r, 20) == shared_file
            &&& m.pe_image_info is None ==> r.len() == 64 && u32_at(r, 4) == 0 && u32_at(r, 24) == 0
            &&& m.pe_image_info matches Some(pe) ==> {
                let all = pe@ + bytes_in(m.nt_name);
                &&& u32_at(r, 32) == all.len()
                &&& u32_at(r, 4) == r.len() - 64
                &&& all.len() <= room ==> r.skip(64) == all && u32_at(r, 24) == bytes_in(m.nt_name).len()
                &&& all.len() > room ==> r.skip(64) == all.take(room as int)
            }
        }),
{
    let r = section_answer(m, shared_file, room);
    let (v, n, total) = match m.pe_image_info {
        None => (Seq::<u8>::empty(), 0u32, 0u32),
        Some(pe) => {
            let all = pe@ + bytes_in(m.nt_name);
            let v = clipped(all, room as int);
            (v, (v.len() - clipped(pe@, room as int).len()) as u32, all.len() as u32)
        },
    };
    let f = section_fields(m.size, m.flags, shared_file, n, total);
    let body = head(0, v.len() as u32) + f;
    assert(r =~= block(body) + v);
    lemma_section_fields_told(m.size, m.flags, shared_file, n, total, v.len() as u32);
    lemma_word_told(body, v, 0, 0);
    lemma_word_told(body, v, 4, v.len() as u32);
    lemma_word_told(body, v, 16, m.flags);
    lemma_word_told(body, v, 20, shared_file);
    lemma_word_told(body, v, 24, n);
    lemma_word_told(body, v, 32, total);
    assert(r.subrange(8, 16) =~= body.subrange(8, 16));
    lemma_read_back_u64(r, 8, m.size);
}

proof fn lemma_section_fields_told(size: u64, flags: u32, shared: u32, n: u32, total: u32, len: u32)
    ensures
        ({
            let b = head(0, len) + section_fields(size, flags, shared, n, total);
            &&& b.len() == 40
            &&& b.subrange(0, 4) == u32_bytes(0)
            &&& b.subrange(4, 8) == u32_bytes(len)
            &&& b.subrange(8, 16) == u64_bytes(size)
            &&& b.subrange(16, 20) == u32_bytes(flags)
            &&& b.subrange(20, 24) == u32_bytes(shared)
            &&& b.subrange(24, 28) == u32_bytes(n)
            &&& b.subrange(32, 36) == u32_bytes(total)
        }),
{
    let b = head(0, len) + section_fields(size, flags, shared, n, total);
    assert(b.subrange(0, 4) =~= u32_bytes(0));
    assert(b.subrange(4, 8) =~= u32_bytes(len));
    assert(b.subrange(8, 16) =~= u64_bytes(size));
    assert(b.subrange(16, 20) =~= u32_bytes(flags));
    assert(b.subrange(20, 24) =~= u32_bytes(shared));
    assert(b.subrange(24, 28) =~= u32_bytes(n));
    assert(b.subrange(32, 36) =~= u32_bytes(total));
}

/// Where a process mapped an image is told again, and only to that process; the first image that it maps is
/// its program, whose description is kept.
pub proof fn lemma_view_is_noted(before: EventLoop, after: EventLoop, pid: u32, object_id: u64, base: u64)
    requires
        view_noted(before, after, pid, object_id, base),
    ensures
        after.objects.image_views@[(pid, object_id)] == base,
        forall|p: u32, o: u64|
            p != pid || o != object_id ==> after.objects.image_views@.contains_key((p, o))
                == #[trigger] before.objects.image_views@.contains_key((p, o)) && after.objects.image_views@[(
                p,
                o,
            )] == before.objects.image_views@[(p, o)],
        before.objects.processes@.contains_key(pid) && before.objects.processes@[pid].exe_image_info is Some
            ==> after.objects.processes@[pid].exe_image_info
            == before.objects.processes@[pid].exe_image_info,
        before.objects.processes@.contains_key(pid) && before.objects.processes@[pid].exe_image_info is None
            && before.objects.mappings@.contains_key(object_id) && before.objects.mappings@[object_id].pe_image_info
            is Some ==> after.objects.processes@[pid].exe_image_info->0@
            == before.objects.mappings@[object_id].pe_image_info->0@,
{
}

/// The memory of an image's shared sections is given to a client under a handle of its own; where none can
/// be given, the duplicate is closed.
pub proof fn lemma_shared_memory_given(
    before: EventLoop,
    after: EventLoop,
    client_fd: i32,
    m: MappingInfo,
    dup_fd: i32,
    handle: u32,
)
    requires
        shared_file_given(before, after, client_fd, m, dup_fd, handle),
    ensures
        m.shared_fd is None || dup_fd < 0 ==> handle == 0 && after == before,
        handle != 0 ==> (entry_in(
            after.objects.processes@,
            pid_of(before.clients.clients@, client_fd),
            handle,
        ) matches Some(e) && e.fd == Some(dup_fd) && e.access == 0x12019F),
        m.shared_fd is Some && dup_fd >= 0 && handle == 0 ==> after.outbox@.last() == (Action::Close {
            fd: dup_fd,
        }),
{
}

} // verus!
