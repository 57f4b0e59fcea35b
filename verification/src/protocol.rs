//! The server protocol as its definition file lays it out: requests, their fields and where those stand.
use crate::bytes::{copy_range, read_u16, read_u32, read_u64, u16_at, u32_at, u64_at};
use crate::paths::{join_path, path_join};
use crate::prefix::str_views;
use crate::settings::{
    is_space, lemma_decimal_read_back, lemma_trimmed_same, parts_of, space, split, trim, trimmed, trimmed_end,
    trimmed_start,
};
use crate::text::{
    chars_of, decimal, ends_in, ends_with_text, parse_u64, same, same_at, starts_in, starts_with_text,
    string_range, sub_at, u64_text, views,
};
use vstd::prelude::*;

verus! {

/// The types of four bytes.
pub open spec fn word_types() -> Seq<Seq<char>> {
    seq![
        "int"@,
        "unsigned int"@,
        "data_size_t"@,
        "obj_handle_t"@,
        "atom_t"@,
        "process_id_t"@,
        "thread_id_t"@,
        "ioctl_code_t"@,
        "user_handle_t"@,
        "d3dkmt_handle_t"@,
        "desktop_shm_t"@,
        "queue_shm_t"@,
        "input_shm_t"@,
        "object_shm_t"@,
    ]
}

/// The types of eight bytes.
pub open spec fn long_types() -> Seq<Seq<char>> {
    seq![
        "unsigned __int64"@,
        "timeout_t"@,
        "abstime_t"@,
        "lparam_t"@,
        "apc_param_t"@,
        "mem_size_t"@,
        "file_pos_t"@,
        "client_ptr_t"@,
        "affinity_t"@,
        "mod_handle_t"@,
        "object_id_t"@,
    ]
}

/// The size and the alignment of a compound type.
pub open spec fn compound_size(name: Seq<char>) -> Option<(u32, u32)> {
    if name == "union apc_call"@ {
        Some((64, 8))
    } else if name == "union apc_result"@ || name == "struct async_data"@ || name
        == "union hw_input"@ || name == "struct process_info"@ || name == "struct thread_info"@
        || name == "struct user_apc"@ {
        Some((40, 8))
    } else if name == "struct context_data"@ {
        Some((1720, 8))
    } else if name == "struct cursor_pos"@ {
        Some((24, 8))
    } else if name == "union debug_event_data"@ {
        Some((160, 8))
    } else if name == "struct filesystem_event"@ || name == "struct luid_attr"@ || name
        == "struct rawinput_device"@ {
        Some((12, 4))
    } else if name == "struct generic_map"@ || name == "struct object_attributes"@ || name
        == "struct rectangle"@ {
        Some((16, 4))
    } else if name == "struct handle_info"@ || name == "union irp_params"@ {
        Some((32, 8))
    } else if name == "struct luid"@ {
        Some((8, 4))
    } else if name == "union message_data"@ {
        Some((48, 8))
    } else if name == "struct object_type_info"@ {
        Some((44, 4))
    } else if name == "struct obj_locator"@ || name == "struct property_data"@ {
        Some((16, 8))
    } else if name == "struct pe_image_info"@ {
        Some((88, 8))
    } else if name == "union select_op"@ {
        Some((264, 8))
    } else if name == "struct startup_info_data"@ {
        Some((96, 4))
    } else if name == "union tcp_connection"@ {
        Some((60, 4))
    } else if name == "union udp_endpoint"@ {
        Some((32, 4))
    } else {
        None
    }
}

/// The size and the alignment of a type.
pub open spec fn type_size(name: Seq<char>) -> Option<(u32, u32)> {
    if name == "char"@ || name == "unsigned char"@ {
        Some((1, 1))
    } else if name == "short int"@ || name == "unsigned short"@ {
        Some((2, 2))
    } else if word_types().contains(name) {
        Some((4, 4))
    } else if long_types().contains(name) {
        Some((8, 8))
    } else {
        compound_size(name)
    }
}

/// Whether a name is one of some.
pub(crate) fn one_of(name: &str, names: &[&str]) -> (r: bool)
    ensures
        r == str_views(names@).contains(name@),
{
    let mut i: usize = 0;
    while i < names.len()
        invariant
            i <= names@.len(),
            forall|j: int| 0 <= j < i ==> #[trigger] str_views(names@)[j] != name@,
        decreases names@.len() - i,
    {
        if same(name, names[i]) {
            assert(str_views(names@)[i as int] == name@);
            return true;
        }
        i = i + 1;
    }
    false
}

fn compound_size_of(name: &str) -> (r: Option<(u32, u32)>)
    ensures
        r == compound_size(name@),
{
    if same(name, "union apc_call") {
        Some((64, 8))
    } else if same(name, "union apc_result") || same(name, "struct async_data") || same(
        name,
        "union hw_input",
    ) || same(name, "struct process_info") || same(name, "struct thread_info") || same(
        name,
        "struct user_apc",
    ) {
        Some((40, 8))
    } else if same(name, "struct context_data") {
        Some((1720, 8))
    } else if same(name, "struct cursor_pos") {
        Some((24, 8))
    } else if same(name, "union debug_event_data") {
        Some((160, 8))
    } else if same(name, "struct filesystem_event") || same(name, "struct luid_attr") || same(
        name,
        "struct rawinput_device",
    ) {
        Some((12, 4))
    } else if same(name, "struct generic_map") || same(name, "struct object_attributes") || same(
        name,
        "struct rectangle",
    ) {
        Some((16, 4))
    } else if same(name, "struct handle_info") || same(name, "union irp_params") {
        Some((32, 8))
    } else if same(name, "struct luid") {
        Some((8, 4))
    } else if same(name, "union message_data") {
        Some((48, 8))
    } else if same(name, "struct object_type_info") {
        Some((44, 4))
    } else if same(name, "struct obj_locator") || same(name, "struct property_data") {
        Some((16, 8))
    } else if same(name, "struct pe_image_info") {
        Some((88, 8))
    } else if same(name, "union select_op") {
        Some((264, 8))
    } else if same(name, "struct startup_info_data") {
        Some((96, 4))
    } else if same(name, "union tcp_connection") {
        Some((60, 4))
    } else if same(name, "union udp_endpoint") {
        Some((32, 4))
    } else {
        None
    }
}

/// The size and the alignment of a type of the definition file, where it is known.
pub fn size_of_type(name: &str) -> (r: Option<(u32, u32)>)
    ensures
        r == type_size(name@),
{
    if same(name, "char") || same(name, "unsigned char") {
        return Some((1, 1));
    }
    if same(name, "short int") || same(name, "unsigned short") {
        return Some((2, 2));
    }
    let words = [
        "int",
        "unsigned int",
        "data_size_t",
        "obj_handle_t",
        "atom_t",
        "process_id_t",
        "thread_id_t",
        "ioctl_code_t",
        "user_handle_t",
        "d3dkmt_handle_t",
        "desktop_shm_t",
        "queue_shm_t",
        "input_shm_t",
        "object_shm_t",
    ];
    assert(str_views(words@) =~= word_types());
    if one_of(name, &words) {
        return Some((4, 4));
    }
    let longs = [
        "unsigned __int64",
        "timeout_t",
        "abstime_t",
        "lparam_t",
        "apc_param_t",
        "mem_size_t",
        "file_pos_t",
        "client_ptr_t",
        "affinity_t",
        "mod_handle_t",
        "object_id_t",
    ];
    assert(str_views(longs@) =~= long_types());
    if one_of(name, &longs) {
        return Some((8, 8));
    }
    compound_size_of(name)
}

/// The position of the first `pat` from `from` on, or the length where there is none.
pub open spec fn found_from(s: Seq<char>, pat: Seq<char>, from: int) -> int
    decreases s.len() - from,
{
    if from >= s.len() || sub_at(s, pat, from) {
        from
    } else {
        found_from(s, pat, from + 1)
    }
}

/// A text up to the first `pat`.
pub open spec fn before(s: Seq<char>, pat: Seq<char>) -> Seq<char> {
    s.take(found_from(s, pat, 0))
}

/// Where the first `pat` of a text stands, or the text's length.
fn find_from(s: &Vec<char>, pat: &Vec<char>) -> (r: usize)
    ensures
        r == found_from(s@, pat@, 0),
        r <= s@.len(),
{
    let mut i: usize = 0;
    while i < s.len()
        invariant
            i <= s@.len(),
            found_from(s@, pat@, i as int) == found_from(s@, pat@, 0),
        decreases s@.len() - i,
    {
        if same_at(s, i, pat) {
            return i;
        }
        i = i + 1;
    }
    i
}

fn cut(s: &str, pat: &str) -> (r: String)
    ensures
        r@ == before(s@, pat@),
{
    let x = chars_of(s);
    let p = chars_of(pat);
    let n: usize = find_from(&x, &p);
    let out = string_range(&x, 0, n);
    assert(out@ =~= s@.take(n as int));
    out
}

/// A text without the semicolons at its end.
pub open spec fn unended(s: Seq<char>) -> Seq<char>
    decreases s.len(),
{
    if s.len() > 0 && s.last() == ';' {
        unended(s.drop_last())
    } else {
        s
    }
}

fn drop_ends(s: &str) -> (r: String)
    ensures
        r@ == unended(s@),
{
    let x = chars_of(s);
    let mut n: usize = x.len();
    assert(x@.take(n as int) =~= x@);
    while n > 0 && x[n - 1] == ';'
        invariant
            n <= x@.len(),
            unended(x@.take(n as int)) == unended(x@),
        decreases n,
    {
        assert(x@.take(n as int).drop_last() =~= x@.take(n - 1));
        n = n - 1;
    }
    let out = string_range(&x, 0, n);
    assert(out@ =~= x@.take(n as int));
    out
}

/// The position of the first white space from `from` on, or the length where there is none.
pub open spec fn space_from(s: Seq<char>, from: int) -> int
    decreases s.len() - from,
{
    if from >= s.len() || is_space(s[from]) {
        from
    } else {
        space_from(s, from + 1)
    }
}

/// A text in two at its first white space.
pub open spec fn halves(s: Seq<char>) -> Option<(Seq<char>, Seq<char>)> {
    let at = space_from(s, 0);
    if at < s.len() {
        Some((s.take(at), s.skip(at + 1)))
    } else {
        None
    }
}

fn halve(s: &str) -> (r: Option<(String, String)>)
    ensures
        match r {
            Some(p) => halves(s@) == Some((p.0@, p.1@)),
            None => halves(s@) is None,
        },
{
    let x = chars_of(s);
    let mut i: usize = 0;
    while i < x.len() && !space(x[i])
        invariant
            i <= x@.len(),
            space_from(x@, i as int) == space_from(x@, 0),
        decreases x@.len() - i,
    {
        i = i + 1;
    }
    if i == x.len() {
        return None;
    }
    let a = string_range(&x, 0, i);
    let b = string_range(&x, i + 1, x.len());
    assert(a@ =~= x@.take(i as int));
    assert(b@ =~= x@.skip(i + 1));
    Some((a, b))
}

/// A field of a request or of a reply.
pub struct Field {
    pub name: String,
    pub size: u32,
    pub align: u32,
}

/// A field in the model.
pub struct FieldView {
    pub name: Seq<char>,
    pub size: u32,
    pub align: u32,
}

impl View for Field {
    type V = FieldView;

    open spec fn view(&self) -> FieldView {
        FieldView { name: self.name@, size: self.size, align: self.align }
    }
}

pub open spec fn field_views(v: Seq<Field>) -> Seq<FieldView> {
    v.map_values(|f: Field| f@)
}

/// The field names that are words of the language and can be written with a mark in front.
pub open spec fn marked_names() -> Seq<Seq<char>> {
    seq![
        "type"@,
        "async"@,
        "move"@,
        "ref"@,
        "mod"@,
        "match"@,
        "return"@,
        "where"@,
        "while"@,
        "for"@,
        "loop"@,
        "if"@,
        "else"@,
        "fn"@,
        "use"@,
        "in"@,
    ]
}

/// The name under which a field goes: a word of the language has a mark in front, and three that
/// cannot have one are renamed.
pub open spec fn field_name(name: Seq<char>) -> Seq<char> {
    if name == "self"@ || name == "super"@ || name == "crate"@ {
        "is_"@ + name
    } else if marked_names().contains(name) {
        "r#"@ + name
    } else {
        name
    }
}

/// The name under which a field goes, as an identifier of Rust.
pub fn sanitize_field_name(name: &str) -> (r: String)
    ensures
        r@ == field_name(name@),
{
    if same(name, "self") || same(name, "super") || same(name, "crate") {
        let mut out = "is_".to_string();
        out.append(name);
        return out;
    }
    let marked = [
        "type",
        "async",
        "move",
        "ref",
        "mod",
        "match",
        "return",
        "where",
        "while",
        "for",
        "loop",
        "if",
        "else",
        "fn",
        "use",
        "in",
    ];
    assert(str_views(marked@) =~= marked_names());
    if one_of(name, &marked) {
        let mut out = "r#".to_string();
        out.append(name);
        return out;
    }
    name.to_string()
}

/// The field with a type and a name, where the type is known.
pub open spec fn typed(kind: Seq<char>, name: Seq<char>) -> Option<FieldView> {
    match type_size(kind) {
        Some((size, align)) => Some(FieldView { name: field_name(trimmed(name)), size, align }),
        None => None,
    }
}

/// What a line declares: the text in front of its comment and its semicolon.
pub open spec fn declared(line: Seq<char>) -> Seq<char> {
    trimmed(unended(trimmed(before(line, "/*"@))))
}

/// The first two words of a text and what follows them.
pub open spec fn thirds(s: Seq<char>) -> Option<(Seq<char>, Seq<char>, Seq<char>)> {
    match halves(s) {
        Some((a, rest)) => match halves(rest) {
            Some((b, c)) => Some((a, b, c)),
            None => None,
        },
        None => None,
    }
}

/// The field that a line declares: a type, which may be of two words, and a name.
pub open spec fn field_of(line: Seq<char>) -> Option<FieldView> {
    let l = declared(line);
    if (starts_in(l, "struct "@) || starts_in(l, "union "@)) && thirds(l) is Some {
        let (a, b, c) = thirds(l)->0;
        typed(a + " "@ + b, c)
    } else if starts_in(l, "unsigned "@) {
        match halves(l.skip("unsigned "@.len() as int)) {
            Some((a, b)) => typed("unsigned "@ + a, b),
            None => None,
        }
    } else if starts_in(l, "short "@) {
        match halves(l.skip("short "@.len() as int)) {
            Some((a, b)) => typed("short "@ + a, b),
            None => None,
        }
    } else {
        match halves(l) {
            Some((a, b)) => typed(a, b),
            None => None,
        }
    }
}

/// An optional field in the model.
pub open spec fn field_view(f: Option<Field>) -> Option<FieldView> {
    match f {
        Some(f) => Some(f@),
        None => None,
    }
}

fn field_with(kind: &str, name: &str) -> (r: Option<Field>)
    ensures
        field_view(r) == typed(kind@, name@),
{
    match size_of_type(kind) {
        Some((size, align)) => {
            let plain = trim(name);
            Some(Field { name: sanitize_field_name(plain.as_str()), size, align })
        },
        None => None,
    }
}

fn prefixed(word: &str, l: &str) -> (r: Option<Field>)
    requires
        starts_in(l@, word@),
    ensures
        field_view(r) == match halves(l@.skip(word@.len() as int)) {
            Some((a, b)) => typed(word@ + a, b),
            None => None,
        },
{
    let x = chars_of(l);
    let w = chars_of(word);
    let rest = string_range(&x, w.len(), x.len());
    assert(rest@ =~= l@.skip(word@.len() as int));
    match halve(rest.as_str()) {
        Some((a, b)) => {
            let mut kind = word.to_string();
            kind.append(a.as_str());
            field_with(kind.as_str(), b.as_str())
        },
        None => None,
    }
}

/// Reads a line such as `obj_handle_t  handle;  /* comment */`.
pub fn parse_field(line: &str) -> (r: Option<Field>)
    ensures
        field_view(r) == field_of(line@),
{
    let a = cut(line, "/*");
    let b = trim(a.as_str());
    let c = drop_ends(b.as_str());
    let d = trim(c.as_str());
    let l = d.as_str();
    if starts_with_text(l, "struct ") || starts_with_text(l, "union ") {
        if let Some((a, rest)) = halve(l) {
            if let Some((b, c)) = halve(rest.as_str()) {
                let mut kind = a;
                kind.append(" ");
                kind.append(b.as_str());
                return field_with(kind.as_str(), c.as_str());
            }
        }
    }
    if starts_with_text(l, "unsigned ") {
        return prefixed("unsigned ", l);
    }
    if starts_with_text(l, "short ") {
        return prefixed("short ", l);
    }
    match halve(l) {
        Some((a, b)) => field_with(a.as_str(), b.as_str()),
        None => None,
    }
}

/// A request of the protocol. Its opcode is its place among the requests.
pub struct RequestDef {
    pub name: String,
    pub req_fields: Vec<Field>,
    pub reply_fields: Vec<Field>,
    pub has_reply: bool,
    pub has_vararg_request: bool,
    pub has_vararg_reply: bool,
}

/// A request in the model.
#[verifier::ext_equal]
pub struct DefView {
    pub name: Seq<char>,
    pub req_fields: Seq<FieldView>,
    pub reply_fields: Seq<FieldView>,
    pub has_reply: bool,
    pub has_vararg_request: bool,
    pub has_vararg_reply: bool,
}

impl View for RequestDef {
    type V = DefView;

    open spec fn view(&self) -> DefView {
        DefView {
            name: self.name@,
            req_fields: field_views(self.req_fields@),
            reply_fields: field_views(self.reply_fields@),
            has_reply: self.has_reply,
            has_vararg_request: self.has_vararg_request,
            has_vararg_reply: self.has_vararg_reply,
        }
    }
}

pub open spec fn def_views(v: Seq<RequestDef>) -> Seq<DefView> {
    v.map_values(|d: RequestDef| d@)
}

/// The request that a line opens: `@REQ(name)`.
pub open spec fn opened(t: Seq<char>) -> Option<Seq<char>> {
    if starts_in(t, "@REQ("@) && ends_in(t.skip("@REQ("@.len() as int), ")"@) {
        Some(t.skip("@REQ("@.len() as int).drop_last())
    } else {
        None
    }
}

/// A line that declares nothing.
pub open spec fn is_comment(t: Seq<char>) -> bool {
    t.len() == 0 || starts_in(t, "/*"@) || starts_in(t, "*"@) || starts_in(t, "//"@)
}

/// A request after one more line of its block.
pub open spec fn extended(d: DefView, t: Seq<char>) -> DefView {
    if t == "@REPLY"@ {
        DefView { has_reply: true, ..d }
    } else if is_comment(t) {
        d
    } else if starts_in(t, "VARARG("@) {
        if d.has_reply {
            DefView { has_vararg_reply: true, ..d }
        } else {
            DefView { has_vararg_request: true, ..d }
        }
    } else {
        match field_of(t) {
            Some(f) => if d.has_reply {
                DefView { reply_fields: d.reply_fields.push(f), ..d }
            } else {
                DefView { req_fields: d.req_fields.push(f), ..d }
            },
            None => d,
        }
    }
}

/// A request of which only the name is known.
pub open spec fn named_def(name: Seq<char>) -> DefView {
    DefView {
        name,
        req_fields: Seq::empty(),
        reply_fields: Seq::empty(),
        has_reply: false,
        has_vararg_request: false,
        has_vararg_reply: false,
    }
}

/// The requests that lines have closed, and the one that is open.
pub open spec fn read_lines(lines: Seq<Seq<char>>) -> (Seq<DefView>, Option<DefView>)
    decreases lines.len(),
{
    if lines.len() == 0 {
        (Seq::empty(), None)
    } else {
        let (done, open) = read_lines(lines.drop_last());
        let t = trimmed(lines.last());
        match open {
            None => (done, match opened(t) {
                Some(name) => Some(named_def(name)),
                None => None,
            }),
            Some(d) => if t == "@END"@ {
                (done.push(d), None)
            } else {
                (done, Some(extended(d, t)))
            },
        }
    }
}

/// The requests of a definition file, in the order of their opcodes. A block that the file does not
/// close ends with the file.
pub open spec fn requests_of(content: Seq<char>) -> Seq<DefView> {
    let (done, open) = read_lines(parts_of(content, '\n'));
    match open {
        Some(d) => done.push(d),
        None => done,
    }
}

/// An optional request in the model.
pub open spec fn def_view(d: Option<RequestDef>) -> Option<DefView> {
    match d {
        Some(d) => Some(d@),
        None => None,
    }
}

fn open_request(t: &str) -> (r: Option<RequestDef>)
    ensures
        def_view(r) == (match opened(t@) {
            Some(name) => Some(named_def(name)),
            None => None,
        }),
{
    if !starts_with_text(t, "@REQ(") {
        return None;
    }
    let x = chars_of(t);
    let p = chars_of("@REQ(");
    let rest = string_range(&x, p.len(), x.len());
    assert(rest@ =~= t@.skip("@REQ("@.len() as int));
    if !ends_with_text(rest.as_str(), ")") {
        return None;
    }
    proof {
        reveal_strlit(")");
    }
    let y = chars_of(rest.as_str());
    let name = string_range(&y, 0, y.len() - 1);
    assert(name@ =~= rest@.drop_last());
    let d = RequestDef {
        name,
        req_fields: Vec::new(),
        reply_fields: Vec::new(),
        has_reply: false,
        has_vararg_request: false,
        has_vararg_reply: false,
    };
    assert(d@ =~= named_def(name@));
    Some(d)
}

fn extend_request(d: &mut RequestDef, t: &str)
    ensures
        final(d)@ == extended(old(d)@, t@),
{
    if same(t, "@REPLY") {
        d.has_reply = true;
        return;
    }
    if t.is_empty() || starts_with_text(t, "/*") || starts_with_text(t, "*") || starts_with_text(
        t,
        "//",
    ) {
        return;
    }
    if starts_with_text(t, "VARARG(") {
        if d.has_reply {
            d.has_vararg_reply = true;
        } else {
            d.has_vararg_request = true;
        }
        return;
    }
    if let Some(f) = parse_field(t) {
        if d.has_reply {
            d.reply_fields.push(f);
            assert(d@ =~= extended(old(d)@, t@)) by {
                assert(field_views(d.reply_fields@) =~= field_views(old(d).reply_fields@).push(f@));
            }
        } else {
            d.req_fields.push(f);
            assert(d@ =~= extended(old(d)@, t@)) by {
                assert(field_views(d.req_fields@) =~= field_views(old(d).req_fields@).push(f@));
            }
        }
    }
}

/// Reads the requests of a definition file: `@REQ(name)`, fields, `@REPLY`, fields, `@END`.
pub fn parse_protocol_def_full(content: &str) -> (r: Vec<RequestDef>)
    ensures
        def_views(r@) == requests_of(content@),
        forall|i: int| 0 <= i < r@.len() ==> def_ok((#[trigger] r@[i])@),
{
    let lines = split(content, '\n');
    let mut done: Vec<RequestDef> = Vec::new();
    let mut open: Option<RequestDef> = None;
    let mut i: usize = 0;
    assert(def_views(done@) =~= read_lines(views(lines@).take(0)).0);
    while i < lines.len()
        invariant
            i <= lines@.len(),
            read_lines(views(lines@).take(i as int)) == (def_views(done@), def_view(open)),
        decreases lines@.len() - i,
    {
        assert(views(lines@).take(i + 1).drop_last() =~= views(lines@).take(i as int));
        let t = trim(lines[i].as_str());
        let ghost d0 = def_views(done@);
        match open {
            None => {
                open = open_request(t.as_str());
            },
            Some(mut d) => {
                if same(t.as_str(), "@END") {
                    let ghost v = d@;
                    done.push(d);
                    assert(def_views(done@) =~= d0.push(v));
                    open = None;
                } else {
                    extend_request(&mut d, t.as_str());
                    open = Some(d);
                }
            },
        }
        i = i + 1;
    }
    assert(views(lines@).take(lines@.len() as int) =~= views(lines@));
    let ghost d0 = def_views(done@);
    if let Some(d) = open {
        let ghost v = d@;
        done.push(d);
        assert(def_views(done@) =~= d0.push(v));
    }
    proof {
        lemma_requests_ok(content@);
        assert forall|i: int| 0 <= i < done@.len() implies def_ok((#[trigger] done@[i])@) by {
            assert(def_views(done@)[i] == done@[i]@);
            assert(def_ok(requests_of(content@)[i]));
        }
    }
    done
}

/// The size of the header of a request.
pub const REQUEST_HEADER: u32 = 12;

/// The size of the header of a reply.
pub const REPLY_HEADER: u32 = 8;

/// The alignments that types have.
pub open spec fn is_align(n: u32) -> bool {
    n == 1 || n == 2 || n == 4 || n == 8
}

/// Fields whose types have one of the known alignments.
pub open spec fn fields_ok(f: Seq<FieldView>) -> bool {
    forall|i: int| 0 <= i < f.len() ==> is_align(#[trigger] f[i].align)
}

/// The first place from `n` on with an alignment.
pub open spec fn aligned(n: int, align: int) -> int {
    if n % align == 0 {
        n
    } else {
        n + (align - n % align)
    }
}

/// Where the fields end that follow a header.
pub open spec fn fields_end(f: Seq<FieldView>, header: int) -> int
    decreases f.len(),
{
    if f.len() == 0 {
        header
    } else {
        aligned(fields_end(f.drop_last(), header), f.last().align as int) + f.last().size
    }
}

/// Where a field stands.
pub open spec fn field_place(f: Seq<FieldView>, header: int, i: int) -> int {
    aligned(fields_end(f.take(i), header), f[i].align as int)
}

/// The size of what follows the header, filled up to a multiple of eight with it.
pub open spec fn body_size(f: Seq<FieldView>, header: int) -> int {
    aligned(fields_end(f, header), 8) - header
}

proof fn lemma_aligned(n: int, align: u32)
    requires
        n >= 0,
        is_align(align),
    ensures
        n <= aligned(n, align as int) < n + align,
        aligned(n, align as int) % (align as int) == 0,
{
    if align == 1 {
    } else if align == 2 {
        assert(aligned(n, 2) % 2 == 0);
    } else if align == 4 {
        assert(aligned(n, 4) % 4 == 0);
    } else {
        assert(aligned(n, 8) % 8 == 0);
    }
}

proof fn lemma_end_grows(f: Seq<FieldView>, header: int, n: int)
    requires
        fields_ok(f),
        header >= 0,
        0 <= n <= f.len(),
    ensures
        header <= fields_end(f.take(n), header) <= fields_end(f, header),
    decreases f.len(),
{
    if n == f.len() {
        assert(f.take(n) =~= f);
        if f.len() > 0 {
            let d = f.drop_last();
            assert forall|i: int| 0 <= i < d.len() implies is_align(#[trigger] d[i].align) by {
                assert(d[i] == f[i]);
            }
            lemma_end_grows(d, header, d.len() as int);
            assert(d.take(d.len() as int) =~= d);
            assert(is_align(f[f.len() - 1].align));
            lemma_aligned(fields_end(d, header), f.last().align);
        }
    } else {
        let d = f.drop_last();
        assert forall|i: int| 0 <= i < d.len() implies is_align(#[trigger] d[i].align) by {
            assert(d[i] == f[i]);
        }
        assert(d.take(n) =~= f.take(n));
        lemma_end_grows(d, header, n);
        assert(is_align(f[f.len() - 1].align));
        lemma_aligned(fields_end(d, header), f.last().align);
    }
}

/// Every field stands behind the header, at a place that its type can have, with less padding in front of
/// it than its alignment.
pub proof fn lemma_fields_aligned(f: Seq<FieldView>, header: int, i: int)
    requires
        fields_ok(f),
        header >= 0,
        0 <= i < f.len(),
    ensures
        field_place(f, header, i) % (f[i].align as int) == 0,
        header <= fields_end(f.take(i), header) <= field_place(f, header, i) < fields_end(
            f.take(i),
            header,
        ) + f[i].align,
{
    lemma_end_grows(f, header, i);
    assert(is_align(f[i].align));
    lemma_aligned(fields_end(f.take(i), header), f[i].align);
}

/// A field ends before the next ones start, and inside the body.
pub proof fn lemma_fields_apart(f: Seq<FieldView>, header: int, i: int, j: int)
    requires
        fields_ok(f),
        header >= 0,
        0 <= i < f.len(),
    ensures
        i < j < f.len() ==> field_place(f, header, i) + f[i].size <= field_place(f, header, j),
        field_place(f, header, i) + f[i].size <= header + body_size(f, header),
{
    let t = f.take(i + 1);
    assert(t.drop_last() =~= f.take(i));
    assert(fields_end(t, header) == field_place(f, header, i) + f[i].size);
    lemma_end_grows(f, header, i + 1);
    lemma_aligned(fields_end(f, header), 8);
    if i < j < f.len() {
        let g = f.take(j);
        assert forall|k: int| 0 <= k < g.len() implies is_align(#[trigger] g[k].align) by {
            assert(g[k] == f[k]);
        }
        assert(g.take(i + 1) =~= t);
        lemma_end_grows(g, header, i + 1);
        lemma_fields_aligned(f, header, j);
    }
}

/// A header and its body fill a multiple of eight bytes.
pub proof fn lemma_body_filled(f: Seq<FieldView>, header: int)
    requires
        fields_ok(f),
        header >= 0,
    ensures
        body_size(f, header) >= 0,
        (header + body_size(f, header)) % 8 == 0,
{
    lemma_end_grows(f, header, f.len() as int);
    lemma_aligned(fields_end(f, header), 8);
}

/// A request whose fields have known alignments.
pub open spec fn def_ok(d: DefView) -> bool {
    fields_ok(d.req_fields) && fields_ok(d.reply_fields)
}

proof fn lemma_read_ok(lines: Seq<Seq<char>>)
    ensures
        forall|i: int|
            0 <= i < read_lines(lines).0.len() ==> def_ok(#[trigger] read_lines(lines).0[i]),
        read_lines(lines).1 matches Some(d) ==> def_ok(d),
    decreases lines.len(),
{
    if lines.len() > 0 {
        lemma_read_ok(lines.drop_last());
        let (done, open) = read_lines(lines.drop_last());
        let t = trimmed(lines.last());
        if let Some(d) = open {
            if let Some(f) = field_of(t) {
                assert(is_align(f.align));
                let q = d.req_fields.push(f);
                assert forall|i: int| 0 <= i < q.len() implies is_align(#[trigger] q[i].align) by {
                    if i < d.req_fields.len() {
                        assert(is_align(d.req_fields[i].align));
                    }
                }
                let q = d.reply_fields.push(f);
                assert forall|i: int| 0 <= i < q.len() implies is_align(#[trigger] q[i].align) by {
                    if i < d.reply_fields.len() {
                        assert(is_align(d.reply_fields[i].align));
                    }
                }
            }
        }
    }
}

/// Whatever the definition file holds, the fields of its requests have known alignments.
pub proof fn lemma_requests_ok(content: Seq<char>)
    ensures
        forall|i: int| 0 <= i < requests_of(content).len() ==> def_ok(#[trigger] requests_of(content)[i]),
{
    let lines = parts_of(content, '\n');
    lemma_read_ok(lines);
    let (done, open) = read_lines(lines);
    assert forall|i: int| 0 <= i < requests_of(content).len() implies def_ok(
        #[trigger] requests_of(content)[i],
    ) by {
        if i < done.len() {
            assert(def_ok(done[i]));
        }
    }
}

/// Where a field stands and how long it is.
pub struct Place {
    pub name: String,
    pub at: u32,
    pub size: u32,
}

/// A place in the model.
pub struct PlaceView {
    pub name: Seq<char>,
    pub at: int,
    pub size: int,
}

impl View for Place {
    type V = PlaceView;

    open spec fn view(&self) -> PlaceView {
        PlaceView { name: self.name@, at: self.at as int, size: self.size as int }
    }
}

pub open spec fn place_views(v: Seq<Place>) -> Seq<PlaceView> {
    v.map_values(|p: Place| p@)
}

/// The places of fields behind a header.
pub open spec fn places_of(f: Seq<FieldView>, header: int) -> Seq<PlaceView> {
    Seq::new(
        f.len(),
        |i: int| PlaceView { name: f[i].name, at: field_place(f, header, i), size: f[i].size as int },
    )
}

/// The places of fields and the size of the body that they make, where that fits in 16 bits.
pub fn lay_out(fields: &Vec<Field>, header: u32) -> (r: Option<(Vec<Place>, u16)>)
    requires
        fields_ok(field_views(fields@)),
        header <= 16,
    ensures
        match r {
            Some(p) => place_views(p.0@) == places_of(field_views(fields@), header as int) && p.1
                == body_size(field_views(fields@), header as int),
            None => body_size(field_views(fields@), header as int) > u16::MAX,
        },
{
    let ghost f = field_views(fields@);
    let mut out: Vec<Place> = Vec::new();
    let mut end: u32 = header;
    let mut i: usize = 0;
    assert(f.take(0) =~= Seq::<FieldView>::empty());
    while i < fields.len()
        invariant
            i <= fields@.len(),
            f == field_views(fields@),
            fields_ok(f),
            header <= 16,
            header <= end <= 0x1_0000 + 16,
            end == fields_end(f.take(i as int), header as int),
            out@.len() == i,
            forall|j: int|
                0 <= j < i ==> (#[trigger] out@[j])@ == places_of(f, header as int)[j],
        decreases fields@.len() - i,
    {
        let align: u32 = fields[i].align;
        let size: u32 = fields[i].size;
        assert(f[i as int] == fields@[i as int]@);
        assert(is_align(f[i as int].align));
        let over: u32 = end % align;
        let at: u32 = if over == 0 { end } else { end + (align - over) };
        assert(at == field_place(f, header as int, i as int));
        proof {
            lemma_fields_apart(f, header as int, i as int, i as int);
        }
        if size > u16::MAX as u32 || at + size > u16::MAX as u32 + header {
            return None;
        }
        assert(f.take(i + 1).drop_last() =~= f.take(i as int));
        out.push(Place { name: fields[i].name.clone(), at, size });
        end = at + size;
        i = i + 1;
    }
    assert(f.take(i as int) =~= f);
    let over: u32 = end % 8;
    let to: u32 = if over == 0 { end } else { end + (8 - over) };
    assert(to == aligned(end as int, 8));
    if to - header > u16::MAX as u32 {
        return None;
    }
    assert(place_views(out@) =~= places_of(f, header as int));
    Some((out, (to - header) as u16))
}

/// The size of the body that fields make behind a header, where it fits in 16 bits.
pub fn compute_body_size(fields: &Vec<Field>, header_size: u32) -> (r: Option<u16>)
    requires
        fields_ok(field_views(fields@)),
        header_size <= 16,
    ensures
        match r {
            Some(n) => n == body_size(field_views(fields@), header_size as int),
            None => body_size(field_views(fields@), header_size as int) > u16::MAX,
        },
{
    match lay_out(fields, header_size) {
        Some((_, n)) => Some(n),
        None => None,
    }
}

/// The first place with a name.
pub open spec fn place_named(p: Seq<PlaceView>, name: Seq<char>) -> Option<PlaceView>
    decreases p.len(),
{
    if p.len() == 0 {
        None
    } else if p[0].name == name {
        Some(p[0])
    } else {
        place_named(p.skip(1), name)
    }
}

/// Where the field with a name stands and how long it is.
pub fn find_place(places: &Vec<Place>, name: &str) -> (r: Option<(u32, u32)>)
    ensures
        match r {
            Some((at, size)) => place_named(place_views(places@), name@) == Some(
                PlaceView { name: name@, at: at as int, size: size as int },
            ),
            None => place_named(place_views(places@), name@) is None,
        },
{
    let ghost p = place_views(places@);
    let mut i: usize = 0;
    assert(p.skip(0) =~= p);
    while i < places.len()
        invariant
            i <= places@.len(),
            p == place_views(places@),
            place_named(p.skip(i as int), name@) == place_named(p, name@),
        decreases places@.len() - i,
    {
        assert(p.skip(i as int)[0] == places@[i as int]@);
        if same(places[i].name.as_str(), name) {
            return Some((places[i].at, places[i].size));
        }
        assert(p.skip(i as int).skip(1) =~= p.skip(i + 1));
        i = i + 1;
    }
    None
}

/// What is known of an opcode.
pub struct OpcodeMetadata {
    pub name: String,
    pub request_body_size: u16,
    pub reply_body_size: u16,
    pub has_vararg_request: bool,
    pub has_vararg_reply: bool,
    pub reply_field_count: u8,
}

/// The size of a reply's body: a request without a reply section has none.
pub open spec fn reply_body(d: DefView) -> int {
    if d.has_reply {
        body_size(d.reply_fields, REPLY_HEADER as int)
    } else {
        0
    }
}

/// What is known of a request, where its sizes fit in 16 bits and its reply has at most 255 fields.
pub fn opcode_metadata(d: &RequestDef) -> (r: Option<OpcodeMetadata>)
    requires
        def_ok(d@),
    ensures
        r is Some <==> body_size(d@.req_fields, REQUEST_HEADER as int) <= u16::MAX && reply_body(d@)
            <= u16::MAX && d@.reply_fields.len() <= u8::MAX,
        r matches Some(m) ==> m.name@ == d@.name && m.request_body_size == body_size(
            d@.req_fields,
            REQUEST_HEADER as int,
        ) && m.reply_body_size == reply_body(d@) && m.has_vararg_request == d@.has_vararg_request
            && m.has_vararg_reply == d@.has_vararg_reply && m.reply_field_count
            == d@.reply_fields.len(),
{
    let request_body_size: u16 = match compute_body_size(&d.req_fields, REQUEST_HEADER) {
        Some(n) => n,
        None => {
            return None;
        },
    };
    let reply_body_size: u16 = if d.has_reply {
        match compute_body_size(&d.reply_fields, REPLY_HEADER) {
            Some(n) => n,
            None => {
                return None;
            },
        }
    } else {
        0
    };
    if d.reply_fields.len() > 255 {
        return None;
    }
    Some(
        OpcodeMetadata {
            name: d.name.clone(),
            request_body_size,
            reply_body_size,
            has_vararg_request: d.has_vararg_request,
            has_vararg_reply: d.has_vararg_reply,
            reply_field_count: d.reply_fields.len() as u8,
        },
    )
}

/// The first request with a name, by its opcode.
pub open spec fn opcode_of(d: Seq<DefView>, name: Seq<char>) -> Option<int> {
    if first_named(d, name, 0) < d.len() {
        Some(first_named(d, name, 0))
    } else {
        None
    }
}

/// The place of the first request with a name from `from` on.
pub open spec fn first_named(d: Seq<DefView>, name: Seq<char>, from: int) -> int
    decreases d.len() - from,
{
    if from >= d.len() || d[from].name == name {
        from
    } else {
        first_named(d, name, from + 1)
    }
}

/// The opcode of the request with a name.
pub fn find_opcode(defs: &Vec<RequestDef>, name: &str) -> (r: Option<usize>)
    ensures
        match r {
            Some(i) => opcode_of(def_views(defs@), name@) == Some(i as int) && i < defs@.len(),
            None => opcode_of(def_views(defs@), name@) is None,
        },
{
    let ghost d = def_views(defs@);
    let mut i: usize = 0;
    while i < defs.len()
        invariant
            i <= defs@.len(),
            d == def_views(defs@),
            first_named(d, name@, i as int) == first_named(d, name@, 0),
        decreases defs@.len() - i,
    {
        assert(d[i as int] == defs@[i as int]@);
        if same(defs[i].name.as_str(), name) {
            return Some(i);
        }
        i = i + 1;
    }
    None
}

/// The names of an enumeration of a C header, each without a prefix, in their order. The entry that
/// counts the others is none of them.
pub open spec fn enum_names(body: Seq<Seq<char>>, prefix: Seq<char>) -> Seq<Seq<char>>
    decreases body.len(),
{
    if body.len() == 0 {
        Seq::empty()
    } else {
        let done = enum_names(body.drop_last(), prefix);
        let t = enum_token(body.last());
        if t.len() == 0 || ends_in(t, "nb_requests"@) {
            done
        } else if starts_in(t, prefix) {
            done.push(t.skip(prefix.len() as int))
        } else {
            done.push(t)
        }
    }
}

/// An entry of an enumeration without its comments.
pub open spec fn enum_token(entry: Seq<char>) -> Seq<char> {
    trimmed(before(trimmed(before(trimmed(entry), "/*"@)), "//"@))
}

/// What stands between the braces that follow the first `pattern`.
pub open spec fn braced(content: Seq<char>, pattern: Seq<char>) -> Option<Seq<char>> {
    let from = found_from(content, pattern, 0);
    if from >= content.len() {
        None
    } else {
        let tail = content.skip(from);
        let open = found_from(tail, "{"@, 0);
        if open >= tail.len() {
            None
        } else {
            let rest = tail.skip(open + 1);
            let close = found_from(rest, "}"@, 0);
            if close >= rest.len() {
                None
            } else {
                Some(rest.take(close))
            }
        }
    }
}

/// The names of the enumeration with a name, in the order of their values.
pub open spec fn enum_of(content: Seq<char>, name: Seq<char>, prefix: Seq<char>) -> Seq<Seq<char>> {
    match braced(content, "enum "@ + name) {
        Some(body) => enum_names(parts_of(body, ','), prefix),
        None => Seq::empty(),
    }
}

fn braces_after(content: &str, pattern: &str) -> (r: Option<String>)
    ensures
        crate::wire::opt_view(r) == braced(content@, pattern@),
{
    let x = chars_of(content);
    let n: usize = x.len();
    let from: usize = find_from(&x, &chars_of(pattern));
    if from >= n {
        return None;
    }
    let tail = chars_of(string_range(&x, from, n).as_str());
    assert(tail@ =~= content@.skip(from as int));
    let open: usize = find_from(&tail, &chars_of("{"));
    if open >= tail.len() {
        return None;
    }
    let rest = chars_of(string_range(&tail, open + 1, tail.len()).as_str());
    assert(rest@ =~= tail@.skip(open + 1));
    let close: usize = find_from(&rest, &chars_of("}"));
    if close >= rest.len() {
        return None;
    }
    let body = string_range(&rest, 0, close);
    assert(body@ =~= rest@.take(close as int));
    Some(body)
}

/// Reads the enumeration with a name out of a C header. The value of a name is its place.
pub fn parse_enum(content: &str, enum_name: &str, prefix: &str) -> (r: Vec<String>)
    ensures
        views(r@) == enum_of(content@, enum_name@, prefix@),
{
    let mut pattern = "enum ".to_string();
    pattern.append(enum_name);
    let mut out: Vec<String> = Vec::new();
    let body = match braces_after(content, pattern.as_str()) {
        Some(b) => b,
        None => {
            assert(views(out@) =~= Seq::<Seq<char>>::empty());
            return out;
        },
    };
    let entries = split(body.as_str(), ',');
    let mut i: usize = 0;
    assert(views(out@) =~= enum_names(views(entries@).take(0), prefix@));
    while i < entries.len()
        invariant
            i <= entries@.len(),
            views(out@) == enum_names(views(entries@).take(i as int), prefix@),
        decreases entries@.len() - i,
    {
        assert(views(entries@).take(i + 1).drop_last() =~= views(entries@).take(i as int));
        let ghost done = views(out@);
        let a = trim(entries[i].as_str());
        let b = cut(a.as_str(), "/*");
        let c = trim(b.as_str());
        let d = cut(c.as_str(), "//");
        let t = trim(d.as_str());
        if !t.as_str().is_empty() && !ends_with_text(t.as_str(), "nb_requests") {
            if starts_with_text(t.as_str(), prefix) {
                let x = chars_of(t.as_str());
                let p = chars_of(prefix);
                let name = string_range(&x, p.len(), x.len());
                assert(name@ =~= t@.skip(prefix@.len() as int));
                out.push(name);
                assert(views(out@) =~= done.push(name@));
            } else {
                let ghost v = t@;
                out.push(t);
                assert(views(out@) =~= done.push(v));
            }
        }
        i = i + 1;
    }
    assert(views(entries@).take(entries@.len() as int) =~= views(entries@));
    out
}

/// What follows a prefix.
pub open spec fn behind(s: Seq<char>, prefix: Seq<char>) -> Option<Seq<char>> {
    if starts_in(s, prefix) {
        Some(s.skip(prefix.len() as int))
    } else {
        None
    }
}

fn rest_behind(s: &str, prefix: &str) -> (r: Option<String>)
    ensures
        crate::wire::opt_view(r) == behind(s@, prefix@),
{
    if !starts_with_text(s, prefix) {
        return None;
    }
    let x = chars_of(s);
    let p = chars_of(prefix);
    let rest = string_range(&x, p.len(), x.len());
    assert(rest@ =~= s@.skip(prefix@.len() as int));
    Some(rest)
}

/// What stands in front of the first `pat`, and behind it.
pub open spec fn around(s: Seq<char>, pat: Seq<char>) -> Option<(Seq<char>, Seq<char>)> {
    let at = found_from(s, pat, 0);
    if at < s.len() {
        Some((s.take(at), s.skip(at + pat.len())))
    } else {
        None
    }
}

fn cut_around(s: &str, pat: &str) -> (r: Option<(String, String)>)
    ensures
        match r {
            Some(p) => around(s@, pat@) == Some((p.0@, p.1@)),
            None => around(s@, pat@) is None,
        },
{
    let x = chars_of(s);
    let p = chars_of(pat);
    let at: usize = find_from(&x, &p);
    if at >= x.len() {
        return None;
    }
    proof {
        lemma_found(x@, p@, 0);
    }
    let a = string_range(&x, 0, at);
    let b = string_range(&x, at + p.len(), x.len());
    assert(a@ =~= s@.take(at as int));
    assert(b@ =~= s@.skip(at + pat@.len()));
    Some((a, b))
}

proof fn lemma_found(s: Seq<char>, pat: Seq<char>, from: int)
    requires
        0 <= from <= s.len(),
    ensures
        from <= found_from(s, pat, from) <= s.len(),
        found_from(s, pat, from) < s.len() ==> sub_at(s, pat, found_from(s, pat, from)),
    decreases s.len() - from,
{
    if from < s.len() && !sub_at(s, pat, from) {
        lemma_found(s, pat, from + 1);
    }
}

/// A character that may follow the number of an assertion.
pub open spec fn is_tail(c: char) -> bool {
    c == ')' || c == ';' || is_space(c)
}

/// A number without what follows it in an assertion.
pub open spec fn untailed(s: Seq<char>) -> Seq<char>
    decreases s.len(),
{
    if s.len() > 0 && is_tail(s.last()) {
        untailed(s.drop_last())
    } else {
        s
    }
}

fn drop_tail(s: &str) -> (r: String)
    ensures
        r@ == untailed(s@),
{
    let x = chars_of(s);
    let mut n: usize = x.len();
    assert(x@.take(n as int) =~= x@);
    while n > 0 && (x[n - 1] == ')' || x[n - 1] == ';' || space(x[n - 1]))
        invariant
            n <= x@.len(),
            untailed(x@.take(n as int)) == untailed(x@),
        decreases n,
    {
        assert(x@.take(n as int).drop_last() =~= x@.take(n - 1));
        n = n - 1;
    }
    let out = string_range(&x, 0, n);
    assert(out@ =~= x@.take(n as int));
    out
}

/// The structure that an assertion is about: a `struct` by its bare name, others with their keyword.
pub open spec fn asserted_name(s: Seq<char>) -> Seq<char> {
    match behind(trimmed(s), "struct "@) {
        Some(rest) => trimmed(rest),
        None => trimmed(trimmed(s)),
    }
}

/// The size that a line such as `C_ASSERT( sizeof(struct x) == 8 );` gives.
pub open spec fn asserted_size(line: Seq<char>) -> Option<(Seq<char>, u64)> {
    match behind(trimmed(line), "C_ASSERT("@) {
        Some(a) => match behind(a, " sizeof("@) {
            Some(b) => match around(asserted_name(b), ")"@) {
                Some((name, after)) => match around(after, "=="@) {
                    Some((_, number)) => match u64_text(untailed(trimmed(number))) {
                        Some(n) => Some((trimmed(name), n)),
                        None => None,
                    },
                    None => None,
                },
                None => None,
            },
            None => None,
        },
        None => None,
    }
}

/// The sizes that lines give, in their order.
pub open spec fn asserted_sizes(lines: Seq<Seq<char>>) -> Seq<(Seq<char>, u64)>
    decreases lines.len(),
{
    if lines.len() == 0 {
        Seq::empty()
    } else {
        let done = asserted_sizes(lines.drop_last());
        match asserted_size(lines.last()) {
            Some(p) => done.push(p),
            None => done,
        }
    }
}

/// Sizes by name in the model.
pub open spec fn size_views(v: Seq<(String, u64)>) -> Seq<(Seq<char>, u64)> {
    v.map_values(|p: (String, u64)| (p.0@, p.1))
}

fn read_asserted(line: &str) -> (r: Option<(String, u64)>)
    ensures
        match r {
            Some(p) => asserted_size(line@) == Some((p.0@, p.1)),
            None => asserted_size(line@) is None,
        },
{
    let l = trim(line);
    let a = match rest_behind(l.as_str(), "C_ASSERT(") {
        Some(a) => a,
        None => {
            return None;
        },
    };
    let b = match rest_behind(a.as_str(), " sizeof(") {
        Some(b) => b,
        None => {
            return None;
        },
    };
    let c = trim(b.as_str());
    let d = match rest_behind(c.as_str(), "struct ") {
        Some(rest) => trim(rest.as_str()),
        None => trim(c.as_str()),
    };
    match cut_around(d.as_str(), ")") {
        Some((name, after)) => match cut_around(after.as_str(), "==") {
            Some((_, number)) => {
                let number = trim(number.as_str());
                let number = drop_tail(number.as_str());
                match parse_u64(number.as_str()) {
                    Some(n) => Some((trim(name.as_str()), n)),
                    None => None,
                }
            },
            None => None,
        },
        None => None,
    }
}

/// Reads the sizes that a C header asserts of its structures.
pub fn parse_struct_sizes(content: &str) -> (r: Vec<(String, u64)>)
    ensures
        size_views(r@) == asserted_sizes(parts_of(content@, '\n')),
{
    let lines = split(content, '\n');
    let mut out: Vec<(String, u64)> = Vec::new();
    let mut i: usize = 0;
    assert(size_views(out@) =~= asserted_sizes(views(lines@).take(0)));
    while i < lines.len()
        invariant
            i <= lines@.len(),
            size_views(out@) == asserted_sizes(views(lines@).take(i as int)),
        decreases lines@.len() - i,
    {
        assert(views(lines@).take(i + 1).drop_last() =~= views(lines@).take(i as int));
        let ghost done = size_views(out@);
        if let Some(p) = read_asserted(lines[i].as_str()) {
            let ghost v = (p.0@, p.1);
            out.push(p);
            assert(size_views(out@) =~= done.push(v));
        }
        i = i + 1;
    }
    assert(views(lines@).take(lines@.len() as int) =~= views(lines@));
    out
}

/// The last size that is given for a name.
pub open spec fn size_given(sizes: Seq<(Seq<char>, u64)>, name: Seq<char>) -> Option<u64>
    decreases sizes.len(),
{
    if sizes.len() == 0 {
        None
    } else if sizes.last().0 == name {
        Some(sizes.last().1)
    } else {
        size_given(sizes.drop_last(), name)
    }
}

fn given_size(sizes: &Vec<(String, u64)>, name: &str) -> (r: Option<u64>)
    ensures
        r == size_given(size_views(sizes@), name@),
{
    let ghost s = size_views(sizes@);
    let mut n: usize = sizes.len();
    assert(s.take(n as int) =~= s);
    while n > 0
        invariant
            n <= sizes@.len(),
            s == size_views(sizes@),
            size_given(s.take(n as int), name@) == size_given(s, name@),
        decreases n,
    {
        assert(s.take(n as int).last() == (sizes@[n - 1].0@, sizes@[n - 1].1));
        if same(sizes[n - 1].0.as_str(), name) {
            return Some(sizes[n - 1].1);
        }
        assert(s.take(n as int).drop_last() =~= s.take(n - 1));
        n = n - 1;
    }
    None
}

/// A size agrees with the one that the header asserts, where it asserts one.
pub open spec fn size_agrees(sizes: Seq<(Seq<char>, u64)>, name: Seq<char>, size: int) -> bool {
    match size_given(sizes, name) {
        Some(n) => n == size,
        None => true,
    }
}

/// Whether the layout of a request and of its reply agree with the sizes that the header asserts.
pub fn sizes_agree(m: &OpcodeMetadata, sizes: &Vec<(String, u64)>) -> (r: bool)
    ensures
        r == (size_agrees(
            size_views(sizes@),
            m.name@ + "_request"@,
            REQUEST_HEADER + m.request_body_size,
        ) && size_agrees(
            size_views(sizes@),
            m.name@ + "_reply"@,
            REPLY_HEADER + m.reply_body_size,
        )),
{
    let mut request = m.name.clone();
    request.append("_request");
    let mut reply = m.name.clone();
    reply.append("_reply");
    let a: bool = match given_size(sizes, request.as_str()) {
        Some(n) => n == REQUEST_HEADER as u64 + m.request_body_size as u64,
        None => true,
    };
    let b: bool = match given_size(sizes, reply.as_str()) {
        Some(n) => n == REPLY_HEADER as u64 + m.reply_body_size as u64,
        None => true,
    };
    a && b
}

/// A text without the white space around it, up to the first white space in it.
pub open spec fn first_word(s: Seq<char>) -> Seq<char> {
    let t = trimmed(s);
    t.take(space_from(t, 0))
}

/// The protocol version that the first line of a header with its name defines.
pub open spec fn version_in(lines: Seq<Seq<char>>) -> Option<u32>
    decreases lines.len(),
{
    if lines.len() == 0 {
        None
    } else {
        match behind(trimmed_start(lines[0]), "#define SERVER_PROTOCOL_VERSION"@) {
            Some(rest) => match u64_text(first_word(rest)) {
                Some(n) => if n <= u32::MAX {
                    Some(n as u32)
                } else {
                    None
                },
                None => None,
            },
            None => version_in(lines.skip(1)),
        }
    }
}

fn trim_left(s: &str) -> (r: String)
    ensures
        r@ == trimmed_start(s@),
{
    let x = chars_of(s);
    let mut i: usize = 0;
    assert(x@.skip(0) =~= x@);
    while i < x.len() && space(x[i])
        invariant
            i <= x@.len(),
            trimmed_start(x@.skip(i as int)) == trimmed_start(x@),
        decreases x@.len() - i,
    {
        assert(x@.skip(i as int).skip(1) =~= x@.skip(i + 1));
        i = i + 1;
    }
    let out = string_range(&x, i, x.len());
    assert(out@ =~= x@.skip(i as int));
    out
}

fn word_of(s: &str) -> (r: String)
    ensures
        r@ == first_word(s@),
{
    let t = trim(s);
    let x = chars_of(t.as_str());
    let mut i: usize = 0;
    while i < x.len() && !space(x[i])
        invariant
            i <= x@.len(),
            space_from(x@, i as int) == space_from(x@, 0),
        decreases x@.len() - i,
    {
        i = i + 1;
    }
    let out = string_range(&x, 0, i);
    assert(out@ =~= t@.take(i as int));
    out
}

/// Reads `#define SERVER_PROTOCOL_VERSION N` out of a C header.
pub fn parse_server_protocol_version(content: &str) -> (r: Option<u32>)
    ensures
        r == version_in(parts_of(content@, '\n')),
{
    let lines = split(content, '\n');
    let ghost all = views(lines@);
    let mut i: usize = 0;
    assert(all.skip(0) =~= all);
    while i < lines.len()
        invariant
            i <= lines@.len(),
            all == views(lines@),
            all == parts_of(content@, '\n'),
            version_in(all.skip(i as int)) == version_in(all),
        decreases lines@.len() - i,
    {
        assert(all.skip(i as int)[0] == lines@[i as int]@);
        let l = trim_left(lines[i].as_str());
        if let Some(rest) = rest_behind(l.as_str(), "#define SERVER_PROTOCOL_VERSION") {
            let word = word_of(rest.as_str());
            return match parse_u64(word.as_str()) {
                Some(n) => if n <= u32::MAX as u64 {
                    Some(n as u32)
                } else {
                    None
                },
                None => None,
            };
        }
        assert(all.skip(i as int).skip(1) =~= all.skip(i + 1));
        i = i + 1;
    }
    None
}

/// The places where the sources of Wine may stand, the first first.
pub open spec fn source_places(own: Option<Seq<char>>, home: Option<Seq<char>>) -> Seq<Seq<char>> {
    let first = match own {
        Some(p) => p,
        None => Seq::empty(),
    };
    let third = match home {
        Some(h) => path_join(h, ".local/share/quark/wine-src"@),
        None => Seq::empty(),
    };
    seq![first, "/tmp/quark-wine-build/wine-src"@, third, "/tmp/proton-wine"@]
}

/// Where the sources of Wine may stand: the user's own place, and those that the installer uses.
pub fn wine_src_candidates(own: Option<&str>, home: Option<&str>) -> (r: Vec<String>)
    ensures
        views(r@) == source_places(str_opt(own), str_opt(home)),
{
    let first = match own {
        Some(p) => p.to_string(),
        None => String::new(),
    };
    let third = match home {
        Some(h) => join_path(h, ".local/share/quark/wine-src"),
        None => String::new(),
    };
    let mut out: Vec<String> = Vec::new();
    out.push(first);
    out.push("/tmp/quark-wine-build/wine-src".to_string());
    out.push(third);
    out.push("/tmp/proton-wine".to_string());
    assert(views(out@) =~= source_places(str_opt(own), str_opt(home)));
    out
}

/// A request of which only the name is known.
pub open spec fn bare_def(name: Seq<char>) -> DefView {
    DefView {
        name,
        req_fields: Seq::empty(),
        reply_fields: Seq::empty(),
        has_reply: false,
        has_vararg_request: false,
        has_vararg_reply: false,
    }
}

/// The requests that are known from the definition file; from the C header, which has only their names,
/// where there is no such file; and none without either.
pub open spec fn known_requests(def: Option<Seq<char>>, header: Option<Seq<char>>) -> Seq<DefView> {
    match (def, header) {
        (Some(d), _) => requests_of(d),
        (None, Some(h)) => enum_of(h, "request"@, "REQ_"@).map_values(
            |name: Seq<char>| bare_def(name),
        ),
        (None, None) => Seq::empty(),
    }
}

/// Reads the requests from the definition file or, where there is none, from the C header.
pub fn read_requests(def: Option<&str>, header: Option<&str>) -> (r: Vec<RequestDef>)
    ensures
        def_views(r@) == known_requests(str_opt(def), str_opt(header)),
        forall|i: int| 0 <= i < r@.len() ==> def_ok((#[trigger] r@[i])@),
{
    match def {
        Some(d) => {
            return parse_protocol_def_full(d);
        },
        None => {},
    }
    let mut out: Vec<RequestDef> = Vec::new();
    let names = match header {
        Some(h) => parse_enum(h, "request", "REQ_"),
        None => Vec::new(),
    };
    let ghost all = known_requests(str_opt(def), str_opt(header));
    assert(all =~= views(names@).map_values(|name: Seq<char>| bare_def(name)));
    let mut i: usize = 0;
    assert(def_views(out@) =~= all.take(0));
    while i < names.len()
        invariant
            i <= names@.len(),
            all == views(names@).map_values(|name: Seq<char>| bare_def(name)),
            def_views(out@) == all.take(i as int),
            forall|j: int| 0 <= j < out@.len() ==> def_ok((#[trigger] out@[j])@),
        decreases names@.len() - i,
    {
        let d = RequestDef {
            name: names[i].clone(),
            req_fields: Vec::new(),
            reply_fields: Vec::new(),
            has_reply: false,
            has_vararg_request: false,
            has_vararg_reply: false,
        };
        assert(d@ =~= bare_def(names@[i as int]@));
        let ghost before = out@;
        out.push(d);
        i = i + 1;
        assert(def_views(out@) =~= def_views(before).push(all[i - 1]));
        assert(def_views(out@) =~= all.take(i as int));
    }
    assert(all.take(i as int) =~= all);
    out
}

/// The version of the protocol that the C header tells, or 0.
pub open spec fn known_version(header: Option<Seq<char>>) -> u32 {
    match header {
        Some(h) => match version_in(parts_of(h, '\n')) {
            Some(v) => v,
            None => 0,
        },
        None => 0,
    }
}

/// Reads the version of the protocol, 0 where the header does not tell it.
pub fn read_version(header: Option<&str>) -> (r: u32)
    ensures
        r == known_version(str_opt(header)),
{
    match header {
        Some(h) => match parse_server_protocol_version(h) {
            Some(v) => v,
            None => 0,
        },
        None => 0,
    }
}

/// An optional text in the model.
pub open spec fn str_opt(s: Option<&str>) -> Option<Seq<char>> {
    match s {
        Some(s) => Some(s@),
        None => None,
    }
}

/// The number of one, two, four or eight bytes at a place of a request, where the request reaches so far.
pub open spec fn number_at(buf: Seq<u8>, at: int, size: int) -> Option<u64> {
    if at < 0 || at + size > buf.len() {
        None
    } else if size == 1 {
        Some(buf[at] as u64)
    } else if size == 2 {
        Some(u16_at(buf, at) as u64)
    } else if size == 4 {
        Some(u32_at(buf, at) as u64)
    } else if size == 8 {
        Some(u64_at(buf, at))
    } else {
        None
    }
}

/// The number that a field of a request holds.
pub open spec fn field_number(p: Seq<PlaceView>, buf: Seq<u8>, name: Seq<char>) -> Option<u64> {
    match place_named(p, name) {
        Some(x) => number_at(buf, x.at, x.size),
        None => None,
    }
}

/// Reads a field of a request.
pub fn read_field(places: &Vec<Place>, buf: &[u8], name: &str) -> (r: Option<u64>)
    ensures
        r == field_number(place_views(places@), buf@, name@),
{
    let (at, size): (u32, u32) = match find_place(places, name) {
        Some(p) => p,
        None => {
            return None;
        },
    };
    if at as u64 + size as u64 > buf.len() as u64 {
        return None;
    }
    let from: usize = at as usize;
    if size == 1 {
        Some(buf[from] as u64)
    } else if size == 2 {
        Some(read_u16(buf, from) as u64)
    } else if size == 4 {
        Some(read_u32(buf, from) as u64)
    } else if size == 8 {
        Some(read_u64(buf, from))
    } else {
        None
    }
}

/// Reads a field of a request that is no number.
pub fn read_field_bytes(places: &Vec<Place>, buf: &[u8], name: &str) -> (r: Option<Vec<u8>>)
    ensures
        match place_named(place_views(places@), name@) {
            Some(x) => if x.at + x.size <= buf@.len() {
                r matches Some(b) && b@ == buf@.subrange(x.at, x.at + x.size)
            } else {
                r is None
            },
            None => r is None,
        },
{
    let (at, size): (u32, u32) = match find_place(places, name) {
        Some(p) => p,
        None => {
            return None;
        },
    };
    if at as u64 + size as u64 > buf.len() as u64 {
        return None;
    }
    let from: usize = at as usize;
    Some(copy_range(buf, from, from + size as usize))
}

/// Whether a request is as long as its fixed fields.
pub fn is_complete(buf: &[u8], body: u16) -> (r: bool)
    ensures
        r == (buf@.len() >= REQUEST_HEADER + body),
{
    buf.len() as u64 >= REQUEST_HEADER as u64 + body as u64
}

proof fn lemma_found_is_first(s: Seq<char>, pat: Seq<char>, from: int)
    requires
        0 <= from <= s.len(),
    ensures
        from <= found_from(s, pat, from) <= s.len(),
        found_from(s, pat, from) < s.len() ==> sub_at(s, pat, found_from(s, pat, from)),
        forall|i: int| from <= i < found_from(s, pat, from) ==> !#[trigger] sub_at(s, pat, i),
    decreases s.len() - from,
{
    if from < s.len() && !sub_at(s, pat, from) {
        lemma_found_is_first(s, pat, from + 1);
    }
}

/// What stands before a mark is all up to the first of them, and the whole text where there is none.
pub proof fn lemma_before_first(a: Seq<char>, pat: Seq<char>, b: Seq<char>)
    requires
        pat.len() > 0,
        forall|i: int| 0 <= i < a.len() ==> #[trigger] a[i] != pat[0],
    ensures
        before(a + pat + b, pat) == a,
        before(a, pat) == a,
        around(a + pat + b, pat) == Some((a, b)),
        around(a, pat) is None,
{
    let s = a + pat + b;
    lemma_found_is_first(s, pat, 0);
    lemma_found_is_first(a, pat, 0);
    let n = a.len() as int;
    assert(s.subrange(n, n + pat.len()) =~= pat);
    assert(sub_at(s, pat, n));
    let f = found_from(s, pat, 0);
    if f < n {
        assert(s.subrange(f, f + pat.len())[0] == pat[0]);
        assert(s[f] == a[f]);
    }
    let g = found_from(a, pat, 0);
    if g < n {
        assert(a.subrange(g, g + pat.len())[0] == pat[0]);
    }
    assert(s.take(n) =~= a);
    assert(a.take(n) =~= a);
    assert(s.skip(n + pat.len()) =~= b);
}

/// The sizes of the headers of requests and replies.
pub proof fn lemma_header_sizes()
    ensures
        REQUEST_HEADER == 12,
        REPLY_HEADER == 8,
{
}

/// The sizes of the plain types, each of which stands at a multiple of its size.
#[verifier::spinoff_prover]
#[verifier::rlimit(60)]
pub proof fn lemma_plain_sizes()
    ensures
        type_size("char"@) == Some((1u32, 1u32)),
        type_size("unsigned char"@) == Some((1u32, 1u32)),
        type_size("short int"@) == Some((2u32, 2u32)),
        type_size("unsigned short"@) == Some((2u32, 2u32)),
        type_size("int"@) == Some((4u32, 4u32)),
        type_size("unsigned int"@) == Some((4u32, 4u32)),
        type_size("data_size_t"@) == Some((4u32, 4u32)),
        type_size("obj_handle_t"@) == Some((4u32, 4u32)),
        type_size("atom_t"@) == Some((4u32, 4u32)),
        type_size("process_id_t"@) == Some((4u32, 4u32)),
        type_size("thread_id_t"@) == Some((4u32, 4u32)),
        type_size("ioctl_code_t"@) == Some((4u32, 4u32)),
        type_size("user_handle_t"@) == Some((4u32, 4u32)),
        type_size("d3dkmt_handle_t"@) == Some((4u32, 4u32)),
        type_size("desktop_shm_t"@) == Some((4u32, 4u32)),
        type_size("queue_shm_t"@) == Some((4u32, 4u32)),
        type_size("input_shm_t"@) == Some((4u32, 4u32)),
        type_size("object_shm_t"@) == Some((4u32, 4u32)),
        type_size("unsigned __int64"@) == Some((8u32, 8u32)),
        type_size("timeout_t"@) == Some((8u32, 8u32)),
        type_size("abstime_t"@) == Some((8u32, 8u32)),
        type_size("lparam_t"@) == Some((8u32, 8u32)),
        type_size("apc_param_t"@) == Some((8u32, 8u32)),
        type_size("mem_size_t"@) == Some((8u32, 8u32)),
        type_size("file_pos_t"@) == Some((8u32, 8u32)),
        type_size("client_ptr_t"@) == Some((8u32, 8u32)),
        type_size("affinity_t"@) == Some((8u32, 8u32)),
        type_size("mod_handle_t"@) == Some((8u32, 8u32)),
        type_size("object_id_t"@) == Some((8u32, 8u32)),
{
    reveal_strlit("char");
    reveal_strlit("unsigned char");
    reveal_strlit("short int");
    reveal_strlit("unsigned short");
    reveal_strlit("int");
    reveal_strlit("unsigned int");
    reveal_strlit("data_size_t");
    reveal_strlit("obj_handle_t");
    reveal_strlit("atom_t");
    reveal_strlit("process_id_t");
    reveal_strlit("thread_id_t");
    reveal_strlit("ioctl_code_t");
    reveal_strlit("user_handle_t");
    reveal_strlit("d3dkmt_handle_t");
    reveal_strlit("desktop_shm_t");
    reveal_strlit("queue_shm_t");
    reveal_strlit("input_shm_t");
    reveal_strlit("object_shm_t");
    reveal_strlit("unsigned __int64");
    reveal_strlit("timeout_t");
    reveal_strlit("abstime_t");
    reveal_strlit("lparam_t");
    reveal_strlit("apc_param_t");
    reveal_strlit("mem_size_t");
    reveal_strlit("file_pos_t");
    reveal_strlit("client_ptr_t");
    reveal_strlit("affinity_t");
    reveal_strlit("mod_handle_t");
    reveal_strlit("object_id_t");
    assert("char"@.len() == 4);
    assert("unsigned char"@.len() == 13);
    assert("short int"@.len() == 9);
    assert("unsigned short"@.len() == 14);
    assert("int"@.len() == 3);
    assert("unsigned int"@.len() == 12);
    assert("data_size_t"@.len() == 11);
    assert("obj_handle_t"@.len() == 12);
    assert("atom_t"@.len() == 6);
    assert("process_id_t"@.len() == 12);
    assert("thread_id_t"@.len() == 11);
    assert("ioctl_code_t"@.len() == 12);
    assert("user_handle_t"@.len() == 13);
    assert("d3dkmt_handle_t"@.len() == 15);
    assert("desktop_shm_t"@.len() == 13);
    assert("queue_shm_t"@.len() == 11);
    assert("input_shm_t"@.len() == 11);
    assert("object_shm_t"@.len() == 12);
    assert("unsigned __int64"@.len() == 16);
    assert("timeout_t"@.len() == 9);
    assert("abstime_t"@.len() == 9);
    assert("lparam_t"@.len() == 8);
    assert("apc_param_t"@.len() == 11);
    assert("mem_size_t"@.len() == 10);
    assert("file_pos_t"@.len() == 10);
    assert("client_ptr_t"@.len() == 12);
    assert("affinity_t"@.len() == 10);
    assert("mod_handle_t"@.len() == 12);
    assert("object_id_t"@.len() == 11);
    assert("obj_handle_t"@[0] == 'o');
    assert("unsigned int"@[0] == 'u');
    assert("process_id_t"@[0] == 'p');
    assert("thread_id_t"@[0] == 't');
    assert("data_size_t"@[0] == 'd');
    assert("ioctl_code_t"@[0] == 'i');
    assert("user_handle_t"@[1] == 's');
    assert("unsigned char"@[1] == 'n');
    assert("desktop_shm_t"@[0] == 'd');
    assert("unsigned char"@[0] == 'u');
    assert("user_handle_t"@[0] == 'u');
    assert("queue_shm_t"@[0] == 'q');
    assert("input_shm_t"@[0] == 'i');
    assert("object_shm_t"@[0] == 'o');
    assert("object_shm_t"@[3] == 'e');
    assert("obj_handle_t"@[3] == '_');
    assert("timeout_t"@[0] == 't');
    assert("short int"@[0] == 's');
    assert("abstime_t"@[0] == 'a');
    assert("apc_param_t"@[0] == 'a');
    assert("file_pos_t"@[0] == 'f');
    assert("mem_size_t"@[0] == 'm');
    assert("client_ptr_t"@[0] == 'c');
    assert("affinity_t"@[0] == 'a');
    assert("mod_handle_t"@[0] == 'm');
    assert("object_id_t"@[0] == 'o');
    assert(word_types()[0] == "int"@);
    assert(word_types()[1] == "unsigned int"@);
    assert(word_types()[2] == "data_size_t"@);
    assert(word_types()[3] == "obj_handle_t"@);
    assert(word_types()[4] == "atom_t"@);
    assert(word_types()[5] == "process_id_t"@);
    assert(word_types()[6] == "thread_id_t"@);
    assert(word_types()[7] == "ioctl_code_t"@);
    assert(word_types()[8] == "user_handle_t"@);
    assert(word_types()[9] == "d3dkmt_handle_t"@);
    assert(word_types()[10] == "desktop_shm_t"@);
    assert(word_types()[11] == "queue_shm_t"@);
    assert(word_types()[12] == "input_shm_t"@);
    assert(word_types()[13] == "object_shm_t"@);
    assert(long_types()[0] == "unsigned __int64"@);
    assert(long_types()[1] == "timeout_t"@);
    assert(long_types()[2] == "abstime_t"@);
    assert(long_types()[3] == "lparam_t"@);
    assert(long_types()[4] == "apc_param_t"@);
    assert(long_types()[5] == "mem_size_t"@);
    assert(long_types()[6] == "file_pos_t"@);
    assert(long_types()[7] == "client_ptr_t"@);
    assert(long_types()[8] == "affinity_t"@);
    assert(long_types()[9] == "mod_handle_t"@);
    assert(long_types()[10] == "object_id_t"@);
}

/// The sizes and alignments of the compound types.
#[verifier::spinoff_prover]
#[verifier::rlimit(60)]
pub proof fn lemma_compound_sizes()
    ensures
        compound_size("union apc_call"@) == Some((64u32, 8u32)),
        compound_size("union apc_result"@) == Some((40u32, 8u32)),
        compound_size("struct async_data"@) == Some((40u32, 8u32)),
        compound_size("union hw_input"@) == Some((40u32, 8u32)),
        compound_size("struct process_info"@) == Some((40u32, 8u32)),
        compound_size("struct thread_info"@) == Some((40u32, 8u32)),
        compound_size("struct user_apc"@) == Some((40u32, 8u32)),
        compound_size("struct context_data"@) == Some((1720u32, 8u32)),
        compound_size("struct cursor_pos"@) == Some((24u32, 8u32)),
        compound_size("union debug_event_data"@) == Some((160u32, 8u32)),
        compound_size("struct filesystem_event"@) == Some((12u32, 4u32)),
        compound_size("struct luid_attr"@) == Some((12u32, 4u32)),
        compound_size("struct rawinput_device"@) == Some((12u32, 4u32)),
        compound_size("struct generic_map"@) == Some((16u32, 4u32)),
        compound_size("struct object_attributes"@) == Some((16u32, 4u32)),
        compound_size("struct rectangle"@) == Some((16u32, 4u32)),
        compound_size("struct handle_info"@) == Some((32u32, 8u32)),
        compound_size("union irp_params"@) == Some((32u32, 8u32)),
        compound_size("struct luid"@) == Some((8u32, 4u32)),
        compound_size("union message_data"@) == Some((48u32, 8u32)),
        compound_size("struct object_type_info"@) == Some((44u32, 4u32)),
        compound_size("struct obj_locator"@) == Some((16u32, 8u32)),
        compound_size("struct property_data"@) == Some((16u32, 8u32)),
        compound_size("struct pe_image_info"@) == Some((88u32, 8u32)),
        compound_size("union select_op"@) == Some((264u32, 8u32)),
        compound_size("struct startup_info_data"@) == Some((96u32, 4u32)),
        compound_size("union tcp_connection"@) == Some((60u32, 4u32)),
        compound_size("union udp_endpoint"@) == Some((32u32, 4u32)),
{
    reveal_strlit("union apc_call");
    reveal_strlit("union apc_result");
    reveal_strlit("struct async_data");
    reveal_strlit("union hw_input");
    reveal_strlit("struct process_info");
    reveal_strlit("struct thread_info");
    reveal_strlit("struct user_apc");
    reveal_strlit("struct context_data");
    reveal_strlit("struct cursor_pos");
    reveal_strlit("union debug_event_data");
    reveal_strlit("struct filesystem_event");
    reveal_strlit("struct luid_attr");
    reveal_strlit("struct rawinput_device");
    reveal_strlit("struct generic_map");
    reveal_strlit("struct object_attributes");
    reveal_strlit("struct rectangle");
    reveal_strlit("struct handle_info");
    reveal_strlit("union irp_params");
    reveal_strlit("struct luid");
    reveal_strlit("union message_data");
    reveal_strlit("struct object_type_info");
    reveal_strlit("struct obj_locator");
    reveal_strlit("struct property_data");
    reveal_strlit("struct pe_image_info");
    reveal_strlit("union select_op");
    reveal_strlit("struct startup_info_data");
    reveal_strlit("union tcp_connection");
    reveal_strlit("union udp_endpoint");
    assert("union apc_call"@.len() == 14);
    assert("union apc_result"@.len() == 16);
    assert("struct async_data"@.len() == 17);
    assert("union hw_input"@.len() == 14);
    assert("struct process_info"@.len() == 19);
    assert("struct thread_info"@.len() == 18);
    assert("struct user_apc"@.len() == 15);
    assert("struct context_data"@.len() == 19);
    assert("struct cursor_pos"@.len() == 17);
    assert("union debug_event_data"@.len() == 22);
    assert("struct filesystem_event"@.len() == 23);
    assert("struct luid_attr"@.len() == 16);
    assert("struct rawinput_device"@.len() == 22);
    assert("struct generic_map"@.len() == 18);
    assert("struct object_attributes"@.len() == 24);
    assert("struct rectangle"@.len() == 16);
    assert("struct handle_info"@.len() == 18);
    assert("union irp_params"@.len() == 16);
    assert("struct luid"@.len() == 11);
    assert("union message_data"@.len() == 18);
    assert("struct object_type_info"@.len() == 23);
    assert("struct obj_locator"@.len() == 18);
    assert("struct property_data"@.len() == 20);
    assert("struct pe_image_info"@.len() == 20);
    assert("union select_op"@.len() == 15);
    assert("struct startup_info_data"@.len() == 24);
    assert("union tcp_connection"@.len() == 20);
    assert("union udp_endpoint"@.len() == 18);
    assert("union hw_input"@[6] == 'h');
    assert("union apc_call"@[6] == 'a');
    assert("struct context_data"@[7] == 'c');
    assert("struct process_info"@[7] == 'p');
    assert("struct cursor_pos"@[7] == 'c');
    assert("struct async_data"@[7] == 'a');
    assert("struct luid_attr"@[0] == 's');
    assert("union apc_result"@[0] == 'u');
    assert("struct rawinput_device"@[0] == 's');
    assert("union debug_event_data"@[0] == 'u');
    assert("struct generic_map"@[7] == 'g');
    assert("struct thread_info"@[7] == 't');
    assert("struct rectangle"@[0] == 's');
    assert("struct rectangle"@[7] == 'r');
    assert("struct luid_attr"@[7] == 'l');
    assert("struct handle_info"@[7] == 'h');
    assert("union irp_params"@[6] == 'i');
    assert("union apc_result"@[6] == 'a');
    assert("union irp_params"@[0] == 'u');
    assert("union message_data"@[0] == 'u');
    assert("struct thread_info"@[0] == 's');
    assert("struct generic_map"@[0] == 's');
    assert("struct handle_info"@[0] == 's');
    assert("struct object_type_info"@[7] == 'o');
    assert("struct filesystem_event"@[7] == 'f');
    assert("struct obj_locator"@[7] == 'o');
    assert("struct obj_locator"@[0] == 's');
    assert("struct pe_image_info"@[8] == 'e');
    assert("struct property_data"@[8] == 'r');
    assert("union select_op"@[0] == 'u');
    assert("struct user_apc"@[0] == 's');
    assert("struct startup_info_data"@[7] == 's');
    assert("struct object_attributes"@[7] == 'o');
    assert("union tcp_connection"@[0] == 'u');
    assert("struct property_data"@[0] == 's');
    assert("struct pe_image_info"@[0] == 's');
    assert("union udp_endpoint"@[0] == 'u');
    assert("union udp_endpoint"@[6] == 'u');
    assert("union message_data"@[6] == 'm');
}

/// A compound type is known by its keyword, so that no plain type has its name.
pub proof fn lemma_compound_is_not_plain(name: Seq<char>)
    requires
        starts_in(name, "struct "@) || starts_in(name, "union "@),
    ensures
        type_size(name) == compound_size(name),
{
    reveal_strlit("struct ");
    reveal_strlit("union ");
    reveal_strlit("char");
    reveal_strlit("unsigned char");
    reveal_strlit("short int");
    reveal_strlit("unsigned short");
    reveal_strlit("int");
    reveal_strlit("unsigned int");
    reveal_strlit("data_size_t");
    reveal_strlit("obj_handle_t");
    reveal_strlit("atom_t");
    reveal_strlit("process_id_t");
    reveal_strlit("thread_id_t");
    reveal_strlit("ioctl_code_t");
    reveal_strlit("user_handle_t");
    reveal_strlit("d3dkmt_handle_t");
    reveal_strlit("desktop_shm_t");
    reveal_strlit("queue_shm_t");
    reveal_strlit("input_shm_t");
    reveal_strlit("object_shm_t");
    reveal_strlit("unsigned __int64");
    reveal_strlit("timeout_t");
    reveal_strlit("abstime_t");
    reveal_strlit("lparam_t");
    reveal_strlit("apc_param_t");
    reveal_strlit("mem_size_t");
    reveal_strlit("file_pos_t");
    reveal_strlit("client_ptr_t");
    reveal_strlit("affinity_t");
    reveal_strlit("mod_handle_t");
    reveal_strlit("object_id_t");
    let w = word_types();
    let l = long_types();
    if starts_in(name, "struct "@) {
        assert(name.subrange(0, 7)[0] == 's' && name.subrange(0, 7)[1] == 't');
    } else {
        assert(name.subrange(0, 6)[0] == 'u' && name.subrange(0, 6)[1] == 'n' && name.subrange(0, 6)[2] == 'i');
    }
    assert(name[0] == 's' && name[1] == 't' || name[0] == 'u' && name[1] == 'n' && name[2] == 'i');
    assert("char"@[0] == 'c' && "unsigned char"@[2] == 's' && "short int"@[1] == 'h' && "unsigned short"@[2] == 's');
    assert forall|i: int| 0 <= i < w.len() implies name != #[trigger] w[i] by {
        assert(w[i][0] != 's' && w[i][0] != 'u' || w[i][0] == 'u' && w[i][1] == 'n' && w[i][2] == 's' || w[i][0]
            == 'u' && w[i][1] == 's');
    }
    assert forall|i: int| 0 <= i < l.len() implies name != #[trigger] l[i] by {
        assert(l[i][0] != 's' && l[i][0] != 'u' || l[i][0] == 'u' && l[i][1] == 'n' && l[i][2] == 's');
    }
}

/// A field whose name is a word of the language has a mark in front of it, or `is_` where it cannot have one;
/// any other field keeps its name.
#[verifier::spinoff_prover]
#[verifier::rlimit(40)]
pub proof fn lemma_field_names(name: Seq<char>)
    ensures
        field_name("type"@) == "r#"@ + "type"@,
        field_name("async"@) == "r#"@ + "async"@,
        field_name("move"@) == "r#"@ + "move"@,
        field_name("ref"@) == "r#"@ + "ref"@,
        field_name("mod"@) == "r#"@ + "mod"@,
        field_name("match"@) == "r#"@ + "match"@,
        field_name("return"@) == "r#"@ + "return"@,
        field_name("where"@) == "r#"@ + "where"@,
        field_name("while"@) == "r#"@ + "while"@,
        field_name("for"@) == "r#"@ + "for"@,
        field_name("loop"@) == "r#"@ + "loop"@,
        field_name("if"@) == "r#"@ + "if"@,
        field_name("else"@) == "r#"@ + "else"@,
        field_name("fn"@) == "r#"@ + "fn"@,
        field_name("use"@) == "r#"@ + "use"@,
        field_name("in"@) == "r#"@ + "in"@,
        field_name("self"@) == "is_"@ + "self"@,
        field_name("super"@) == "is_"@ + "super"@,
        field_name("crate"@) == "is_"@ + "crate"@,
        name.len() > 6 ==> field_name(name) == name,
{
    reveal_strlit("self");
    reveal_strlit("super");
    reveal_strlit("crate");
    reveal_strlit("type");
    reveal_strlit("async");
    reveal_strlit("move");
    reveal_strlit("ref");
    reveal_strlit("mod");
    reveal_strlit("match");
    reveal_strlit("return");
    reveal_strlit("where");
    reveal_strlit("while");
    reveal_strlit("for");
    reveal_strlit("loop");
    reveal_strlit("if");
    reveal_strlit("else");
    reveal_strlit("fn");
    reveal_strlit("use");
    reveal_strlit("in");
    assert("self"@.len() == 4);
    assert("super"@.len() == 5);
    assert("crate"@.len() == 5);
    assert("type"@.len() == 4);
    assert("async"@.len() == 5);
    assert("move"@.len() == 4);
    assert("ref"@.len() == 3);
    assert("mod"@.len() == 3);
    assert("match"@.len() == 5);
    assert("return"@.len() == 6);
    assert("where"@.len() == 5);
    assert("while"@.len() == 5);
    assert("for"@.len() == 3);
    assert("loop"@.len() == 4);
    assert("if"@.len() == 2);
    assert("else"@.len() == 4);
    assert("fn"@.len() == 2);
    assert("use"@.len() == 3);
    assert("in"@.len() == 2);
    assert("crate"@[0] == 'c');
    assert("super"@[0] == 's');
    assert("type"@[0] == 't');
    assert("self"@[0] == 's');
    assert("async"@[0] == 'a');
    assert("move"@[0] == 'm');
    assert("mod"@[0] == 'm');
    assert("ref"@[0] == 'r');
    assert("match"@[0] == 'm');
    assert("where"@[0] == 'w');
    assert("while"@[0] == 'w');
    assert("while"@[2] == 'i');
    assert("where"@[2] == 'e');
    assert("for"@[0] == 'f');
    assert("loop"@[0] == 'l');
    assert("else"@[0] == 'e');
    assert("fn"@[0] == 'f');
    assert("if"@[0] == 'i');
    assert("use"@[0] == 'u');
    assert("in"@[1] == 'n');
    assert("if"@[1] == 'f');
    assert("in"@[0] == 'i');
    assert(marked_names()[0] == "type"@);
    assert(marked_names()[1] == "async"@);
    assert(marked_names()[2] == "move"@);
    assert(marked_names()[3] == "ref"@);
    assert(marked_names()[4] == "mod"@);
    assert(marked_names()[5] == "match"@);
    assert(marked_names()[6] == "return"@);
    assert(marked_names()[7] == "where"@);
    assert(marked_names()[8] == "while"@);
    assert(marked_names()[9] == "for"@);
    assert(marked_names()[10] == "loop"@);
    assert(marked_names()[11] == "if"@);
    assert(marked_names()[12] == "else"@);
    assert(marked_names()[13] == "fn"@);
    assert(marked_names()[14] == "use"@);
    assert(marked_names()[15] == "in"@);
    let m = marked_names();
    assert forall|i: int| 0 <= i < m.len() implies (#[trigger] m[i]).len() <= 6 by {}
}

proof fn lemma_space_at(s: Seq<char>, from: int, k: int)
    requires
        0 <= from <= k <= s.len(),
        forall|i: int| from <= i < k ==> !is_space(#[trigger] s[i]),
        k < s.len() ==> is_space(s[k]),
    ensures
        space_from(s, from) == k,
    decreases k - from,
{
    if from < k {
        assert(!is_space(s[from]));
        lemma_space_at(s, from + 1, k);
    }
}

/// A line that declares a handle declares a field of four bytes under its name, whatever the name is and
/// whatever comment follows.
pub proof fn lemma_handle_is_declared(name: Seq<char>, comment: Seq<char>)
    requires
        name.len() > 0,
        forall|i: int| 0 <= i < name.len() ==> !is_space(#[trigger] name[i]) && name[i] != ';' && name[i] != '/',
    ensures
        field_of("obj_handle_t "@ + name + ";"@ + "/*"@ + comment) == Some(
            FieldView { name: field_name(name), size: 4, align: 4 },
        ),
{
    reveal_strlit("obj_handle_t ");
    reveal_strlit("obj_handle_t");
    reveal_strlit(";");
    reveal_strlit("/*");
    reveal_strlit("struct ");
    reveal_strlit("union ");
    reveal_strlit("unsigned ");
    reveal_strlit("short ");
    let k = "obj_handle_t "@;
    let decl = k + name;
    let l = decl + ";"@;
    lemma_before_first(l, "/*"@, comment);
    assert(!is_space(l[0]) && !is_space(l.last()));
    lemma_trimmed_same(l);
    assert(l.drop_last() =~= decl);
    assert(decl.last() == name[name.len() - 1]);
    assert(l.last() == ';');
    assert(unended(l) == unended(decl));
    assert(unended(decl) == decl);
    assert(decl[0] == k[0]);
    lemma_trimmed_same(decl);
    assert(declared("obj_handle_t "@ + name + ";"@ + "/*"@ + comment) == decl);
    if starts_in(decl, "struct "@) {
        assert(decl.subrange(0, 7)[0] == 's');
    }
    if starts_in(decl, "union "@) {
        assert(decl.subrange(0, 6)[0] == 'u');
    }
    if starts_in(decl, "unsigned "@) {
        assert(decl.subrange(0, 9)[0] == 'u');
    }
    if starts_in(decl, "short "@) {
        assert(decl.subrange(0, 6)[0] == 's');
    }
    assert forall|i: int| 0 <= i < 12 implies !is_space(#[trigger] decl[i]) by {
        assert(decl[i] == k[i]);
    }
    assert(decl[12] == k[12]);
    lemma_space_at(decl, 0, 12);
    assert(decl.take(12) =~= "obj_handle_t"@);
    assert(decl.skip(13) =~= name);
    lemma_trimmed_same(name);
    lemma_plain_sizes();
}

/// A request is opened by its name in brackets.
pub proof fn lemma_request_is_opened(name: Seq<char>)
    ensures
        opened("@REQ("@ + name + ")"@) == Some(name),
{
    reveal_strlit("@REQ(");
    reveal_strlit(")");
    let t = "@REQ("@ + name + ")"@;
    assert(t.subrange(0, 5) =~= "@REQ("@);
    assert(t.skip(5) =~= name + ")"@);
    let u = t.skip(5);
    assert(u.subrange(u.len() - 1, u.len() as int) =~= ")"@);
    assert(u.drop_last() =~= name);
}

/// Fields belong to the request up to the mark of the reply and to the reply from there on, in their order; so
/// does what tells of a variable part. Comments and blank lines belong to nothing.
pub proof fn lemma_what_lines_add(d: DefView, t: Seq<char>, c: Seq<char>, f: FieldView)
    requires
        field_of(t) == Some(f),
        t != "@REPLY"@,
        !is_comment(t),
        !starts_in(t, "VARARG("@),
    ensures
        !d.has_reply ==> extended(d, t).req_fields == d.req_fields.push(f) && extended(d, t).reply_fields
            == d.reply_fields,
        d.has_reply ==> extended(d, t).reply_fields == d.reply_fields.push(f) && extended(d, t).req_fields
            == d.req_fields,
        extended(d, "@REPLY"@) == (DefView { has_reply: true, ..d }),
        !d.has_reply ==> extended(d, "VARARG("@ + c) == (DefView { has_vararg_request: true, ..d }),
        d.has_reply ==> extended(d, "VARARG("@ + c) == (DefView { has_vararg_reply: true, ..d }),
        extended(d, "/*"@ + c) == d && extended(d, "//"@ + c) == d && extended(d, "*"@ + c) == d && extended(
            d,
            Seq::empty(),
        ) == d,
{
    reveal_strlit("@REPLY");
    reveal_strlit("VARARG(");
    reveal_strlit("/*");
    reveal_strlit("//");
    reveal_strlit("*");
    let v = "VARARG("@ + c;
    assert(v.subrange(0, 7) =~= "VARARG("@);
    assert(v[0] == 'V' && "@REPLY"@[0] == '@');
    if starts_in(v, "/*"@) {
        assert(v.subrange(0, 2)[0] == '/');
    }
    if starts_in(v, "//"@) {
        assert(v.subrange(0, 2)[0] == '/');
    }
    if starts_in(v, "*"@) {
        assert(v.subrange(0, 1)[0] == '*');
    }
    let (x, y, z) = ("/*"@ + c, "//"@ + c, "*"@ + c);
    assert(x.subrange(0, 2) =~= "/*"@ && x[0] == '/');
    assert(y.subrange(0, 2) =~= "//"@ && y[0] == '/');
    assert(z.subrange(0, 1) =~= "*"@ && z[0] == '*');
}

/// A request is done with its end, and the requests stand in the order in which they were done.
pub proof fn lemma_requests_in_order(lines: Seq<Seq<char>>, line: Seq<char>)
    ensures
        ({
            let (done, open) = read_lines(lines);
            let (more, now) = read_lines(lines.push(line));
            &&& open is Some && trimmed(line) == "@END"@ ==> more == done.push(open->Some_0) && now is None
            &&& open is Some && trimmed(line) != "@END"@ ==> more == done && now == Some(
                extended(open->Some_0, trimmed(line)),
            )
            &&& open is None && opened(trimmed(line)) is Some ==> more == done && now == Some(
                named_def(opened(trimmed(line))->Some_0),
            )
            &&& open is None && opened(trimmed(line)) is None ==> more == done && now is None
        }),
{
    assert(lines.push(line).drop_last() =~= lines);
}

/// Of several fields with one name the first is read, and of several requests with one name the first has the
/// opcode.
pub proof fn lemma_first_of_name(p: Seq<PlaceView>, k: int)
    requires
        0 <= k < p.len(),
        forall|i: int| 0 <= i < k ==> (#[trigger] p[i]).name != p[k].name,
    ensures
        place_named(p, p[k].name) == Some(p[k]),
    decreases p.len(),
{
    if k > 0 {
        assert(p[0].name != p[k].name);
        let d = p.skip(1);
        assert(d[k - 1] == p[k]);
        assert forall|i: int| 0 <= i < k - 1 implies (#[trigger] d[i]).name != d[k - 1].name by {
            assert(d[i] == p[i + 1]);
        }
        lemma_first_of_name(d, k - 1);
    }
}

proof fn lemma_first_request(d: Seq<DefView>, name: Seq<char>, from: int, k: int)
    requires
        0 <= from <= k <= d.len(),
        k < d.len() ==> d[k].name == name,
        forall|i: int| from <= i < k ==> (#[trigger] d[i]).name != name,
    ensures
        first_named(d, name, from) == k,
    decreases k - from,
{
    if from < k {
        assert(d[from].name != name);
        lemma_first_request(d, name, from + 1, k);
    }
}

/// The opcode of a request is its place among the requests; a name that none has has no opcode.
pub proof fn lemma_opcode_is_place(d: Seq<DefView>, name: Seq<char>, k: int)
    requires
        0 <= k <= d.len(),
        k < d.len() ==> d[k].name == name,
        forall|i: int| 0 <= i < k ==> (#[trigger] d[i]).name != name,
    ensures
        k < d.len() ==> opcode_of(d, name) == Some(k),
        k == d.len() ==> opcode_of(d, name) is None,
{
    lemma_first_request(d, name, 0, k);
}

/// An entry of an enumeration goes by its name without the prefix; the one that counts the others is left out.
pub proof fn lemma_entries_of_enumeration(body: Seq<Seq<char>>, entry: Seq<char>, prefix: Seq<char>, name: Seq<char>)
    ensures
        enum_token(entry) == prefix + name && (prefix + name).len() > 0 && !ends_in(prefix + name, "nb_requests"@)
            ==> enum_names(body.push(entry), prefix) == enum_names(body, prefix).push(name),
        enum_token(entry) == name + "nb_requests"@ ==> enum_names(body.push(entry), prefix) == enum_names(
            body,
            prefix,
        ),
        enum_token(entry).len() == 0 ==> enum_names(body.push(entry), prefix) == enum_names(body, prefix),
{
    assert(body.push(entry).drop_last() =~= body);
    let t = prefix + name;
    assert(t.subrange(0, prefix.len() as int) =~= prefix);
    assert(t.skip(prefix.len() as int) =~= name);
    let u = name + "nb_requests"@;
    assert(u.subrange(name.len() as int, u.len() as int) =~= "nb_requests"@);
}

/// The sources of Wine are looked for at the user's place, where they were built, at the user's share, and
/// where Proton's are, in this order.
pub proof fn lemma_places_of_sources(own: Seq<char>, home: Seq<char>)
    ensures
        source_places(Some(own), Some(home)) == seq![
            own,
            "/tmp/quark-wine-build/wine-src"@,
            path_join(home, ".local/share/quark/wine-src"@),
            "/tmp/proton-wine"@,
        ],
        source_places(None, Some(home))[0].len() == 0,
{
}

/// The definition file counts before the header, of which only the names of requests are taken.
pub proof fn lemma_definition_counts_first(def: Seq<char>, header: Seq<char>, k: int)
    ensures
        known_requests(Some(def), Some(header)) == requests_of(def),
        known_requests(Some(def), None) == requests_of(def),
        known_requests(None, None).len() == 0,
        ({
            let names = enum_of(header, "request"@, "REQ_"@);
            let r = known_requests(None, Some(header));
            &&& r.len() == names.len()
            &&& 0 <= k < names.len() ==> r[k].name == names[k] && r[k].req_fields.len() == 0
                && r[k].reply_fields.len() == 0 && !r[k].has_reply && !r[k].has_vararg_request
                && !r[k].has_vararg_reply
        }),
        known_version(None) == 0,
{
}

/// The version is the number behind its name on the first line that defines it.
pub proof fn lemma_version_is_read(before: Seq<Seq<char>>, n: u32, after: Seq<Seq<char>>)
    requires
        forall|i: int|
            0 <= i < before.len() ==> behind(
                trimmed_start(#[trigger] before[i]),
                "#define SERVER_PROTOCOL_VERSION"@,
            ) is None,
    ensures
        version_in(before + seq!["#define SERVER_PROTOCOL_VERSION"@ + (seq![' '] + decimal(n as nat))] + after)
            == Some(n),
    decreases before.len(),
{
    let key = "#define SERVER_PROTOCOL_VERSION"@;
    let line = key + (seq![' '] + decimal(n as nat));
    let all = before + seq![line] + after;
    if before.len() > 0 {
        let d = before.skip(1);
        assert(all[0] == before[0]);
        assert(all.skip(1) =~= d + seq![line] + after);
        assert forall|i: int| 0 <= i < d.len() implies behind(trimmed_start(#[trigger] d[i]), key) is None by {
            assert(d[i] == before[i + 1]);
        }
        lemma_version_is_read(d, n, after);
    } else {
        reveal_strlit("#define SERVER_PROTOCOL_VERSION");
        assert(all[0] == line);
        assert(line[0] == '#');
        assert(trimmed_start(line) == line);
        assert(line.subrange(0, key.len() as int) =~= key);
        let rest = line.skip(key.len() as int);
        let d = decimal(n as nat);
        assert(rest =~= seq![' '] + d);
        lemma_decimal_read_back(n as u64);
        lemma_digits_only(n as nat);
        assert(rest.skip(1) =~= d);
        assert(is_space(rest[0]));
        assert(!is_space(d[0]) && !is_space(d.last()));
        assert(trimmed_start(rest) == trimmed_start(d));
        assert(trimmed_start(d) == d);
        assert(trimmed_end(d) == d);
        lemma_space_at(d, 0, d.len() as int);
        assert(d.take(d.len() as int) =~= d);
    }
}

proof fn lemma_digits_only(n: nat)
    ensures
        decimal(n).len() > 0,
        forall|i: int| 0 <= i < decimal(n).len() ==> !is_space(#[trigger] decimal(n)[i]),
    decreases n,
{
    if n >= 10 {
        lemma_digits_only(n / 10);
        let d = decimal(n);
        let b = decimal(n / 10);
        assert forall|i: int| 0 <= i < d.len() implies !is_space(#[trigger] d[i]) by {
            if i < b.len() {
                assert(d[i] == b[i]);
            }
        }
    }
}

/// A field of one, two, four or eight bytes is read as the number that they hold, the lowest byte first; a
/// field that the request does not reach is not read.
pub proof fn lemma_numbers_are_read(buf: Seq<u8>, at: int)
    requires
        0 <= at,
        at + 8 <= buf.len(),
    ensures
        number_at(buf, at, 1) == Some(buf[at] as u64),
        number_at(buf, at, 2) == Some(u16_at(buf, at) as u64),
        number_at(buf, at, 4) == Some(u32_at(buf, at) as u64),
        number_at(buf, at, 8) == Some(u64_at(buf, at)),
        number_at(buf, buf.len() - 3, 4) is None,
        number_at(buf, at, 3) is None,
{
}

/// Fields stand one after the other, each at the next multiple of its alignment, and what follows the header
/// is filled up so that both together take a multiple of eight bytes.
pub proof fn lemma_places_step_by_step(f: Seq<FieldView>, header: int, x: FieldView)
    requires
        is_align(x.align),
        fields_ok(f),
        header >= 0,
    ensures
        fields_end(Seq::empty(), header) == header,
        ({
            let e = fields_end(f, header);
            let at = field_place(f.push(x), header, f.len() as int);
            &&& e <= at < e + x.align
            &&& at % x.align as int == 0
            &&& fields_end(f.push(x), header) == at + x.size
        }),
        ({
            let total = header + body_size(f, header);
            total % 8 == 0 && fields_end(f, header) <= total < fields_end(f, header) + 8
        }),
{
    assert(f.push(x).drop_last() =~= f);
    assert(f.push(x).take(f.len() as int) =~= f);
    lemma_end_grows(f, header, 0);
    lemma_aligned(fields_end(f, header), x.align);
    lemma_aligned(fields_end(f, header), 8);
}

} // verus!
