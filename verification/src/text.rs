//! Strings as sequences of characters, and their UTF-16LE form on the wire.
use crate::bytes::u16_at;
use crate::bytes::{push_u16, read_u16, u16_bytes};
use vstd::prelude::*;

verus! {

/// `String::push`: the character is appended.
pub assume_specification[ String::push ](s: &mut String, c: char)
    ensures
        final(s)@ == old(s)@.push(c),
;

/// `char::from_u32`: the character with that code, where the code is a Unicode scalar value.
#[verifier::external_body]
pub(crate) fn char_with_code(code: u32) -> (r: Option<char>)
    ensures
        r is Some <==> is_scalar(code),
        r matches Some(c) ==> c == code as char && c as u32 == code,
{
    char::from_u32(code)
}

/// The lower-case form of a text, by the Unicode tables.
pub uninterp spec fn lowercase(s: Seq<char>) -> Seq<char>;

/// `str::to_lowercase`: the result is named, for the Unicode tables decide it.
#[verifier::external_body]
pub(crate) fn to_lowercase(s: &str) -> (r: String)
    ensures
        r@ == lowercase(s@),
{
    s.to_lowercase()
}

/// A code that is a Unicode scalar value.
pub open spec fn is_scalar(code: u32) -> bool {
    code < 0xD800 || 0xE000 <= code <= 0x10FFFF
}

pub open spec fn is_high(u: u16) -> bool {
    0xD800 <= u < 0xDC00
}

pub open spec fn is_low(u: u16) -> bool {
    0xDC00 <= u < 0xE000
}

/// The character above the basic plane that a surrogate pair stands for.
pub open spec fn pair_code(hi: u16, lo: u16) -> u32 {
    (0x1_0000 + (hi - 0xD800) * 0x400 + (lo - 0xDC00)) as u32
}

/// The text that UTF-16 units stand for, each lone surrogate shown as U+FFFD.
pub open spec fn utf16_text(u: Seq<u16>) -> Seq<char>
    decreases u.len(),
{
    if u.len() == 0 {
        Seq::empty()
    } else if is_high(u[0]) && u.len() >= 2 && is_low(u[1]) {
        seq![pair_code(u[0], u[1]) as char] + utf16_text(u.skip(2))
    } else if is_high(u[0]) || is_low(u[0]) {
        seq!['\u{FFFD}'] + utf16_text(u.skip(1))
    } else {
        seq![u[0] as char] + utf16_text(u.skip(1))
    }
}

/// The UTF-16 units of one character.
pub open spec fn char_units(c: char) -> Seq<u16> {
    let v = c as u32;
    if v < 0x1_0000 {
        seq![v as u16]
    } else {
        seq![(0xD800 + (v - 0x1_0000) / 0x400) as u16, (0xDC00 + (v - 0x1_0000) % 0x400) as u16]
    }
}

/// The UTF-16 units of a text.
pub open spec fn text_units(s: Seq<char>) -> Seq<u16>
    decreases s.len(),
{
    if s.len() == 0 {
        Seq::empty()
    } else {
        text_units(s.drop_last()) + char_units(s.last())
    }
}

/// The units whose little-endian bytes are the pairs of `b`; an odd byte at the end is dropped.
pub open spec fn byte_units(b: Seq<u8>) -> Seq<u16> {
    Seq::new(b.len() / 2, |i: int| u16_at(b, 2 * i))
}

/// The little-endian bytes of units.
pub open spec fn unit_bytes(u: Seq<u16>) -> Seq<u8>
    decreases u.len(),
{
    if u.len() == 0 {
        Seq::empty()
    } else {
        unit_bytes(u.drop_last()) + u16_bytes(u.last())
    }
}

/// The UTF-16LE bytes of a text.
pub open spec fn text_wire(s: Seq<char>) -> Seq<u8> {
    unit_bytes(text_units(s))
}

/// What follows the last `sep` in `s`, or all of `s` where there is none.
pub open spec fn after_last(s: Seq<char>, sep: char) -> Seq<char>
    decreases s.len(),
{
    if s.len() == 0 || s.last() == sep {
        Seq::empty()
    } else {
        after_last(s.drop_last(), sep).push(s.last())
    }
}

/// `s` with every `from` turned into `to`.
pub open spec fn replaced(s: Seq<char>, from: char, to: char) -> Seq<char> {
    Seq::new(s.len(), |i: int| if s[i] == from { to } else { s[i] })
}

/// `pat` stands somewhere in `s`.
pub open spec fn has_sub(s: Seq<char>, pat: Seq<char>) -> bool {
    exists|i: int| #[trigger] sub_at(s, pat, i)
}

/// `pat` stands in `s` at position `i`.
pub open spec fn sub_at(s: Seq<char>, pat: Seq<char>, i: int) -> bool {
    0 <= i && i + pat.len() <= s.len() && s.subrange(i, i + pat.len()) == pat
}

/// The length of a unit sequence's bytes.
pub proof fn lemma_unit_bytes_len(u: Seq<u16>)
    ensures
        unit_bytes(u).len() == 2 * u.len(),
    decreases u.len(),
{
    if u.len() > 0 {
        lemma_unit_bytes_len(u.drop_last());
    }
}

/// Units written as bytes and read again are the same units.
pub proof fn lemma_units_read_back(u: Seq<u16>)
    ensures
        byte_units(unit_bytes(u)) == u,
    decreases u.len(),
{
    lemma_unit_bytes_len(u);
    if u.len() > 0 {
        let b = unit_bytes(u.drop_last());
        lemma_units_read_back(u.drop_last());
        lemma_unit_bytes_len(u.drop_last());
        assert forall|i: int| 0 <= i < u.len() implies u16_at(unit_bytes(u), 2 * i) == u[i] by {
            if i < u.len() - 1 {
                assert(byte_units(b)[i] == u[i]);
                assert(unit_bytes(u)[2 * i] == b[2 * i]);
                assert(unit_bytes(u)[2 * i + 1] == b[2 * i + 1]);
            } else {
                assert(unit_bytes(u)[2 * i] == u16_bytes(u.last())[0]);
                assert(unit_bytes(u)[2 * i + 1] == u16_bytes(u.last())[1]);
            }
        }
        assert(byte_units(unit_bytes(u)) =~= u);
    } else {
        assert(byte_units(unit_bytes(u)) =~= u);
    }
}

/// The characters of a text.
pub fn chars_of(s: &str) -> (r: Vec<char>)
    ensures
        r@ == s@,
{
    let mut out: Vec<char> = Vec::new();
    for c in it: s.chars()
        invariant
            out@ == it.seq().take(it.index()),
            it.seq() == s@,
    {
        out.push(c);
        assert(out@ =~= it.seq().take(it.index() + 1));
    }
    assert(out@ =~= s@);
    out
}

/// The text made of some characters.
pub fn string_of(chars: &Vec<char>) -> (r: String)
    ensures
        r@ == chars@,
{
    string_range(chars, 0, chars.len())
}

/// The text made of the characters from `from` up to `to`.
pub fn string_range(chars: &Vec<char>, from: usize, to: usize) -> (r: String)
    requires
        from <= to <= chars@.len(),
    ensures
        r@ == chars@.subrange(from as int, to as int),
{
    let mut out = String::new();
    let mut i: usize = from;
    while i < to
        invariant
            from <= i <= to <= chars@.len(),
            out@ == chars@.subrange(from as int, i as int),
        decreases to - i,
    {
        out.push(chars[i]);
        i = i + 1;
        assert(out@ =~= chars@.subrange(from as int, i as int));
    }
    out
}


/// The UTF-16 units that bytes hold; an odd byte at the end is dropped.
pub fn vararg_to_u16(bytes: &[u8]) -> (r: Vec<u16>)
    ensures
        r@ == byte_units(bytes@),
{
    let len: usize = bytes.len();
    let n: usize = len / 2;
    let mut out: Vec<u16> = Vec::new();
    let mut i: usize = 0;
    while i < n
        invariant
            len == bytes@.len(),
            n == len / 2,
            i <= n,
            out@ == byte_units(bytes@).take(i as int),
        decreases n - i,
    {
        out.push(read_u16(bytes, 2 * i));
        assert(out@ =~= byte_units(bytes@).take(i + 1));
        i = i + 1;
    }
    assert(out@ =~= byte_units(bytes@));
    out
}

/// The text that UTF-16LE bytes hold, each lone surrogate shown as U+FFFD.
pub fn utf16le_to_string(bytes: &[u8]) -> (r: String)
    ensures
        r@ == utf16_text(byte_units(bytes@)),
{
    let units: Vec<u16> = vararg_to_u16(bytes);
    let mut out = String::new();
    let mut i: usize = 0;
    assert(units@.skip(0) =~= units@);
    while i < units.len()
        invariant
            i <= units@.len(),
            out@ + utf16_text(units@.skip(i as int)) == utf16_text(units@),
        decreases units@.len() - i,
    {
        let ghost rest = units@.skip(i as int);
        let ghost done = out@;
        let u: u16 = units[i];
        let hi: bool = 0xD800 <= u && u < 0xDC00;
        let low_next: bool = if hi && i + 1 < units.len() {
            0xDC00 <= units[i + 1] && units[i + 1] < 0xE000
        } else {
            false
        };
        if low_next {
            let lo: u16 = units[i + 1];
            let code: u32 = 0x1_0000 + (u as u32 - 0xD800) * 0x400 + (lo as u32 - 0xDC00);
            match char_with_code(code) {
                Some(c) => out.push(c),
                None => {},
            }
            assert(rest.skip(2) =~= units@.skip(i + 2));
            assert(out@ + utf16_text(rest.skip(2)) =~= done + utf16_text(rest));
            i = i + 2;
        } else {
            if hi || (0xDC00 <= u && u < 0xE000) {
                out.push('\u{FFFD}');
            } else {
                match char_with_code(u as u32) {
                    Some(c) => out.push(c),
                    None => {},
                }
            }
            assert(rest.skip(1) =~= units@.skip(i + 1));
            assert(out@ + utf16_text(rest.skip(1)) =~= done + utf16_text(rest));
            i = i + 1;
        }
    }
    assert(units@.skip(units@.len() as int) =~= Seq::<u16>::empty());
    assert(out@ =~= utf16_text(units@));
    out
}

/// The UTF-16 units of a text.
pub fn units_of(s: &str) -> (r: Vec<u16>)
    ensures
        r@ == text_units(s@),
{
    let mut out: Vec<u16> = Vec::new();
    for c in it: s.chars()
        invariant
            out@ == text_units(it.seq().take(it.index())),
            it.seq() == s@,
    {
        let v: u32 = c as u32;
        let ghost before = out@;
        if v < 0x1_0000 {
            out.push(v as u16);
        } else {
            out.push((0xD800 + (v - 0x1_0000) / 0x400) as u16);
            out.push((0xDC00 + (v - 0x1_0000) % 0x400) as u16);
        }
        assert(out@ =~= before + char_units(c));
        assert(it.seq().take(it.index() + 1).drop_last() =~= it.seq().take(it.index()));
    }
    assert(s@.take(s@.len() as int) =~= s@);
    out
}

/// The little-endian bytes of units.
pub fn bytes_of_units(u: &Vec<u16>) -> (r: Vec<u8>)
    ensures
        r@ == unit_bytes(u@),
{
    let mut out: Vec<u8> = Vec::new();
    let mut i: usize = 0;
    assert(u@.take(0) =~= Seq::<u16>::empty());
    while i < u.len()
        invariant
            i <= u@.len(),
            out@ == unit_bytes(u@.take(i as int)),
        decreases u@.len() - i,
    {
        push_u16(&mut out, u[i]);
        assert(u@.take(i + 1).drop_last() =~= u@.take(i as int));
        i = i + 1;
    }
    assert(u@.take(u@.len() as int) =~= u@);
    out
}

/// The UTF-16LE bytes of a text.
pub fn wire_of(s: &str) -> (r: Vec<u8>)
    ensures
        r@ == text_wire(s@),
{
    let units: Vec<u16> = units_of(s);
    bytes_of_units(&units)
}

/// What follows the last `sep`.
pub fn tail_after(s: &str, sep: char) -> (r: String)
    ensures
        r@ == after_last(s@, sep),
{
    let mut out = String::new();
    for c in it: s.chars()
        invariant
            out@ == after_last(it.seq().take(it.index()), sep),
            it.seq() == s@,
    {
        assert(it.seq().take(it.index() + 1).drop_last() =~= it.seq().take(it.index()));
        if c == sep {
            out = String::new();
            assert(out@ =~= Seq::<char>::empty());
        } else {
            out.push(c);
        }
    }
    assert(s@.take(s@.len() as int) =~= s@);
    out
}

/// A copy with every `from` turned into `to`.
pub fn replace_char(s: &str, from: char, to: char) -> (r: String)
    ensures
        r@ == replaced(s@, from, to),
{
    let mut out = String::new();
    for c in it: s.chars()
        invariant
            out@ == replaced(s@, from, to).take(it.index()),
            it.seq() == s@,
    {
        if c == from {
            out.push(to);
        } else {
            out.push(c);
        }
        assert(out@ =~= replaced(s@, from, to).take(it.index() + 1));
    }
    assert(out@ =~= replaced(s@, from, to));
    out
}

/// Whether two texts are the same.
pub fn same(a: &str, b: &str) -> (r: bool)
    ensures
        r == (a@ == b@),
{
    let x: Vec<char> = chars_of(a);
    let y: Vec<char> = chars_of(b);
    if x.len() != y.len() {
        return false;
    }
    assert(a@.subrange(0, a@.len() as int) =~= a@);
    same_at(&x, 0, &y)
}

/// Whether `pat` stands in `s` at position `i`.
pub fn same_at(s: &Vec<char>, i: usize, pat: &Vec<char>) -> (r: bool)
    requires
        i <= s@.len(),
    ensures
        r == sub_at(s@, pat@, i as int),
{
    if s.len() - i < pat.len() {
        return false;
    }
    let len: usize = s.len();
    let mut j: usize = 0;
    while j < pat.len()
        invariant
            j <= pat@.len(),
            len == s@.len(),
            i + pat@.len() <= len,
            forall|l: int| 0 <= l < j ==> s@[i + l] == pat@[l],
        decreases pat@.len() - j,
    {
        if s[i + j] != pat[j] {
            assert(s@.subrange(i as int, i + pat@.len())[j as int] == s@[i + j]);
            return false;
        }
        j = j + 1;
    }
    assert(s@.subrange(i as int, i + pat@.len()) =~= pat@);
    true
}

/// Whether `pat` stands somewhere in `s`.
pub fn contains_text(s: &str, pat: &str) -> (r: bool)
    ensures
        r == has_sub(s@, pat@),
{
    let x: Vec<char> = chars_of(s);
    let p: Vec<char> = chars_of(pat);
    if x.len() < p.len() {
        assert forall|i: int| !(#[trigger] sub_at(s@, pat@, i)) by {}
        return false;
    }
    let last: usize = x.len() - p.len();
    let mut i: usize = 0;
    while i <= last
        invariant
            x@ == s@,
            p@ == pat@,
            last + p@.len() == x@.len(),
            i <= last + 1,
            forall|j: int| 0 <= j < i ==> !(#[trigger] sub_at(s@, pat@, j)),
        decreases last + 1 - i,
    {
        if same_at(&x, i, &p) {
            return true;
        }
        if i == last {
            assert forall|j: int| !(#[trigger] sub_at(s@, pat@, j)) by {}
            return false;
        }
        i = i + 1;
    }
    false
}

/// `s` ends in `pat`.
pub open spec fn ends_in(s: Seq<char>, pat: Seq<char>) -> bool {
    sub_at(s, pat, s.len() - pat.len())
}

/// `s` starts with `pat`.
pub open spec fn starts_in(s: Seq<char>, pat: Seq<char>) -> bool {
    sub_at(s, pat, 0)
}

pub fn ends_with_text(s: &str, pat: &str) -> (r: bool)
    ensures
        r == ends_in(s@, pat@),
{
    let x: Vec<char> = chars_of(s);
    let p: Vec<char> = chars_of(pat);
    if x.len() < p.len() {
        return false;
    }
    same_at(&x, x.len() - p.len(), &p)
}

pub fn starts_with_text(s: &str, pat: &str) -> (r: bool)
    ensures
        r == starts_in(s@, pat@),
{
    let x: Vec<char> = chars_of(s);
    let p: Vec<char> = chars_of(pat);
    same_at(&x, 0, &p)
}

/// The texts that strings hold.
pub open spec fn views(v: Seq<String>) -> Seq<Seq<char>> {
    v.map_values(|s: String| s@)
}

/// Texts in a row with `sep` between neighbours.
pub open spec fn joined(parts: Seq<Seq<char>>, sep: Seq<char>) -> Seq<char>
    decreases parts.len(),
{
    if parts.len() == 0 {
        Seq::empty()
    } else if parts.len() == 1 {
        parts[0]
    } else {
        joined(parts.drop_last(), sep) + sep + parts.last()
    }
}

pub fn join(parts: &Vec<String>, sep: &str) -> (r: String)
    ensures
        r@ == joined(views(parts@), sep@),
{
    let mut out = String::new();
    let mut i: usize = 0;
    assert(views(parts@).take(0) =~= Seq::<Seq<char>>::empty());
    while i < parts.len()
        invariant
            i <= parts@.len(),
            out@ == joined(views(parts@).take(i as int), sep@),
        decreases parts@.len() - i,
    {
        let ghost before = views(parts@).take(i as int);
        if i > 0 {
            out.append(sep);
        }
        out.append(parts[i].as_str());
        assert(views(parts@).take(i + 1).drop_last() =~= before);
        assert(out@ =~= joined(views(parts@).take(i + 1), sep@));
        i = i + 1;
    }
    assert(views(parts@).take(parts@.len() as int) =~= views(parts@));
    out
}

/// The decimal digit with a value below ten.
pub open spec fn digit(n: int) -> char {
    if n == 0 { '0' } else if n == 1 { '1' } else if n == 2 { '2' } else if n == 3 { '3' }
    else if n == 4 { '4' } else if n == 5 { '5' } else if n == 6 { '6' } else if n == 7 { '7' }
    else if n == 8 { '8' } else { '9' }
}

/// The hexadecimal digit with a value below sixteen.
pub open spec fn hex_digit(n: int) -> char {
    if n < 10 { digit(n) } else if n == 10 { 'a' } else if n == 11 { 'b' } else if n == 12 { 'c' }
    else if n == 13 { 'd' } else if n == 14 { 'e' } else { 'f' }
}

/// A number in decimal.
pub open spec fn decimal(n: nat) -> Seq<char>
    decreases n,
{
    if n < 10 {
        seq![digit(n as int)]
    } else {
        decimal(n / 10).push(digit((n % 10) as int))
    }
}

/// A number in lower-case hexadecimal.
pub open spec fn hexadecimal(n: nat) -> Seq<char>
    decreases n,
{
    if n < 16 {
        seq![hex_digit(n as int)]
    } else {
        hexadecimal(n / 16).push(hex_digit((n % 16) as int))
    }
}

/// The last `width` hexadecimal digits of a number, with zeros in front.
pub open spec fn hex_fixed(n: nat, width: nat) -> Seq<char>
    decreases width,
{
    if width == 0 {
        Seq::empty()
    } else {
        hex_fixed(n / 16, (width - 1) as nat).push(hex_digit((n % 16) as int))
    }
}

pub fn digit_char(n: u64) -> (c: char)
    requires
        n < 16,
    ensures
        c == hex_digit(n as int),
{
    if n == 0 { '0' } else if n == 1 { '1' } else if n == 2 { '2' } else if n == 3 { '3' }
    else if n == 4 { '4' } else if n == 5 { '5' } else if n == 6 { '6' } else if n == 7 { '7' }
    else if n == 8 { '8' } else if n == 9 { '9' } else if n == 10 { 'a' } else if n == 11 { 'b' }
    else if n == 12 { 'c' } else if n == 13 { 'd' } else if n == 14 { 'e' } else { 'f' }
}

pub fn push_decimal(out: &mut String, n: u64)
    ensures
        final(out)@ == old(out)@ + decimal(n as nat),
    decreases n,
{
    if n >= 10 {
        push_decimal(out, n / 10);
    }
    out.push(digit_char(n % 10));
    assert(out@ =~= old(out)@ + decimal(n as nat));
}

pub fn push_hex(out: &mut String, n: u64)
    ensures
        final(out)@ == old(out)@ + hexadecimal(n as nat),
    decreases n,
{
    if n >= 16 {
        push_hex(out, n / 16);
    }
    out.push(digit_char(n % 16));
    assert(out@ =~= old(out)@ + hexadecimal(n as nat));
}

pub fn push_hex_fixed(out: &mut String, n: u64, width: u64)
    ensures
        final(out)@ == old(out)@ + hex_fixed(n as nat, width as nat),
    decreases width,
{
    if width > 0 {
        push_hex_fixed(out, n / 16, width - 1);
        out.push(digit_char(n % 16));
    }
    assert(out@ =~= old(out)@ + hex_fixed(n as nat, width as nat));
}

/// The value of a decimal digit.
pub open spec fn digit_value(c: char) -> int {
    c as u32 - '0' as u32
}

pub open spec fn is_digit(c: char) -> bool {
    '0' <= c <= '9'
}

/// The number that digits stand for.
pub open spec fn number(s: Seq<char>) -> nat
    decreases s.len(),
{
    if s.len() == 0 {
        0
    } else {
        (number(s.drop_last()) * 10 + digit_value(s.last())) as nat
    }
}

/// The number that a text of digits stands for, where it fits in 64 bits.
pub open spec fn digits_value(d: Seq<char>) -> Option<u64> {
    if d.len() > 0 && (forall|i: int| 0 <= i < d.len() ==> is_digit(#[trigger] d[i])) && number(d)
        <= u64::MAX {
        Some(number(d) as u64)
    } else {
        None
    }
}

/// A text without the `+` that may stand in front of a number.
pub open spec fn unsigned(s: Seq<char>) -> Seq<char> {
    if s.len() > 0 && s[0] == '+' {
        s.skip(1)
    } else {
        s
    }
}

/// The number that a text stands for, where it is one without sign that fits in 64 bits.
pub open spec fn u64_text(s: Seq<char>) -> Option<u64> {
    digits_value(unsigned(s))
}

proof fn lemma_number_grows(s: Seq<char>, n: int)
    requires
        0 <= n <= s.len(),
        forall|i: int| 0 <= i < s.len() ==> is_digit(#[trigger] s[i]),
    ensures
        number(s.take(n)) <= number(s),
    decreases s.len() - n,
{
    if n < s.len() {
        lemma_number_grows(s, n + 1);
        assert(s.take(n + 1).drop_last() =~= s.take(n));
        assert(is_digit(s[n]));
    } else {
        assert(s.take(n) =~= s);
    }
}

/// Reads a number as `str::parse::<u64>` does.
pub fn parse_u64(s: &str) -> (r: Option<u64>)
    ensures
        r == u64_text(s@),
{
    let x: Vec<char> = chars_of(s);
    let start: usize = if x.len() > 0 && x[0] == '+' { 1 } else { 0 };
    let ghost d = unsigned(s@);
    assert(d =~= x@.skip(start as int));
    if x.len() == start {
        return None;
    }
    let mut value: u64 = 0;
    let mut i: usize = start;
    assert(d.take(0) =~= Seq::<char>::empty());
    while i < x.len()
        invariant
            start <= i <= x@.len(),
            x@ == s@,
            d == x@.skip(start as int),
            d == unsigned(s@),
            forall|j: int| 0 <= j < i - start ==> is_digit(#[trigger] d[j]),
            value == number(d.take(i - start)),
        decreases x@.len() - i,
    {
        let c: char = x[i];
        let ghost k = i - start;
        assert(d[k] == c);
        if !('0' <= c && c <= '9') {
            assert(!is_digit(d[k]));
            assert(u64_text(s@) is None);
            return None;
        }
        assert(d.take(k + 1).drop_last() =~= d.take(k));
        let v: u64 = (c as u32 - '0' as u32) as u64;
        if value > (u64::MAX - v) / 10 {
            proof {
                assert(number(d.take(k + 1)) > u64::MAX);
                if forall|j: int| 0 <= j < d.len() ==> is_digit(#[trigger] d[j]) {
                    lemma_number_grows(d, k + 1);
                }
                assert(u64_text(s@) is None);
            }
            return None;
        }
        value = value * 10 + v;
        i = i + 1;
    }
    assert(d.take(d.len() as int) =~= d);
    Some(value)
}

proof fn lemma_units_from_front(c: char, s: Seq<char>)
    ensures
        text_units(seq![c] + s) == char_units(c) + text_units(s),
    decreases s.len(),
{
    let all = seq![c] + s;
    if s.len() == 0 {
        assert(all =~= seq![c]);
        assert(all.drop_last() =~= Seq::<char>::empty());
        assert(all.last() == c);
        assert(text_units(Seq::<char>::empty()) =~= Seq::<u16>::empty());
        assert(s =~= Seq::<char>::empty());
        assert(Seq::<u16>::empty() + char_units(c) =~= char_units(c) + Seq::<u16>::empty());
    } else {
        assert(all.drop_last() =~= seq![c] + s.drop_last());
        assert(all.last() == s.last());
        lemma_units_from_front(c, s.drop_last());
        assert(text_units(all) =~= char_units(c) + text_units(s));
    }
}

proof fn lemma_char_read_back(c: char, u: Seq<u16>)
    ensures
        utf16_text(char_units(c) + u) == seq![c] + utf16_text(u),
{
    let v = c as u32;
    let all = char_units(c) + u;
    if v < 0x1_0000 {
        assert(all.skip(1) =~= u);
        assert(all[0] == v as u16);
        assert(all[0] as char == c);
    } else {
        assert(all.skip(2) =~= u);
        let (hi, lo) = (all[0], all[1]);
        assert(hi == 0xD800 + (v - 0x1_0000) / 0x400);
        assert(lo == 0xDC00 + (v - 0x1_0000) % 0x400);
        assert(pair_code(hi, lo) == v);
        assert(pair_code(hi, lo) as char == c);
    }
}

proof fn lemma_units_give_text(s: Seq<char>)
    ensures
        utf16_text(text_units(s)) == s,
    decreases s.len(),
{
    if s.len() > 0 {
        let d = s.skip(1);
        assert(seq![s[0]] + d =~= s);
        lemma_units_from_front(s[0], d);
        lemma_units_give_text(d);
        lemma_char_read_back(s[0], text_units(d));
    }
}

/// A text that is written to the wire is read back as it was, whatever characters it has.
pub proof fn lemma_text_read_back(s: Seq<char>)
    ensures
        utf16_text(byte_units(text_wire(s))) == s,
        text_wire(s).len() == 2 * text_units(s).len(),
{
    lemma_units_read_back(text_units(s));
    lemma_unit_bytes_len(text_units(s));
    lemma_units_give_text(s);
}

/// A character of the basic plane takes two bytes on the wire, the lower one first; any other takes four.
pub proof fn lemma_units_of_character(c: char)
    ensures
        c as u32 <= 0xFFFF ==> char_units(c) == seq![c as u16],
        c as u32 > 0xFFFF ==> char_units(c).len() == 2 && 0xD800 <= char_units(c)[0] <= 0xDBFF && 0xDC00
            <= char_units(c)[1] <= 0xDFFF,
{
}

/// A surrogate that stands alone is shown as U+FFFD, and what follows is read as ever.
pub proof fn lemma_lone_surrogate(u: u16, c: char, s: Seq<char>)
    requires
        0xD800 <= u <= 0xDFFF,
        c as u32 <= 0xFFFF,
    ensures
        utf16_text(seq![u] + (char_units(c) + text_units(s))) == seq!['\u{FFFD}', c] + s,
        utf16_text(seq![u]) == seq!['\u{FFFD}'],
{
    let rest = char_units(c) + text_units(s);
    let all = seq![u] + rest;
    assert(rest[0] == c as u16);
    assert(all[1] == rest[0]);
    assert(!is_low(all[1]));
    assert(all.skip(1) =~= rest);
    lemma_char_read_back(c, text_units(s));
    lemma_units_give_text(s);
    assert(seq!['\u{FFFD}'] + (seq![c] + s) =~= seq!['\u{FFFD}', c] + s);
    assert(seq![u].skip(1) =~= Seq::<u16>::empty());
    assert(seq!['\u{FFFD}'] + utf16_text(Seq::<u16>::empty()) =~= seq!['\u{FFFD}']);
}

/// What follows the last separator is all that stands behind it, and the whole text where there is none.
pub proof fn lemma_behind_last(a: Seq<char>, sep: char, b: Seq<char>)
    requires
        forall|i: int| 0 <= i < b.len() ==> #[trigger] b[i] != sep,
    ensures
        after_last(a.push(sep) + b, sep) == b,
        after_last(b, sep) == b,
    decreases b.len(),
{
    let s = a.push(sep) + b;
    if b.len() == 0 {
        assert(s =~= a.push(sep));
        assert(b =~= Seq::<char>::empty());
    } else {
        let d = b.drop_last();
        assert(s.drop_last() =~= a.push(sep) + d);
        assert(s.last() == b[b.len() - 1]);
        assert(b.last() == b[b.len() - 1]);
        assert forall|i: int| 0 <= i < d.len() implies #[trigger] d[i] != sep by {
            assert(d[i] == b[i]);
        }
        lemma_behind_last(a, sep, d);
        assert(d.push(b.last()) =~= b);
    }
}

/// Only the one character is replaced, wherever it stands.
pub proof fn lemma_what_is_replaced(s: Seq<char>, from: char, to: char, i: int)
    requires
        0 <= i < s.len(),
    ensures
        replaced(s, from, to).len() == s.len(),
        s[i] == from ==> replaced(s, from, to)[i] == to,
        s[i] != from ==> replaced(s, from, to)[i] == s[i],
{
}

/// A text starts and ends with what it was put together from, and holds it.
pub proof fn lemma_parts_of_text(a: Seq<char>, b: Seq<char>, c: Seq<char>)
    ensures
        starts_in(a + b, a) && ends_in(a + b, b),
        has_sub(a + b + c, b),
        a.len() < b.len() ==> !has_sub(a, b),
{
    assert((a + b).subrange(0, a.len() as int) =~= a);
    assert((a + b).subrange(a.len() as int, (a + b).len() as int) =~= b);
    assert((a + b + c).subrange(a.len() as int, (a.len() + b.len()) as int) =~= b);
    assert(sub_at(a + b + c, b, a.len() as int));
}

/// Joined texts have the separator between neighbours only.
pub proof fn lemma_joined_texts(p: Seq<Seq<char>>, sep: Seq<char>, x: Seq<char>)
    ensures
        p.len() > 0 ==> joined(p.push(x), sep) == joined(p, sep) + sep + x,
        joined(seq![x], sep) == x,
        joined(Seq::empty(), sep).len() == 0,
{
    assert(p.push(x).drop_last() =~= p);
}

/// Numbers are written with the digits 0 to 9, the lowest last, and without zeros in front.
pub proof fn lemma_decimal_digits(n: nat, d: int)
    requires
        0 <= d <= 9,
    ensures
        decimal(d as nat) == seq![((0x30 + d) as u32) as char],
        n > 0 ==> decimal((10 * n + d) as nat) == decimal(n) + decimal(d as nat),
{
    if n > 0 {
        let m = (10 * n + d) as nat;
        assert(m / 10 == n && m % 10 == d);
        assert(decimal(m) =~= decimal(n) + decimal(d as nat));
    }
}

/// In hexadecimal the digits behind 9 are the small letters a to f.
pub proof fn lemma_hexadecimal_digits(n: nat, d: int)
    requires
        0 <= d <= 15,
    ensures
        d < 10 ==> hexadecimal(d as nat) == seq![((0x30 + d) as u32) as char],
        d >= 10 ==> hexadecimal(d as nat) == seq![((0x61 + d - 10) as u32) as char],
        n > 0 ==> hexadecimal((16 * n + d) as nat) == hexadecimal(n) + hexadecimal(d as nat),
        forall|w: nat|
            w > 0 ==> #[trigger] hex_fixed((16 * n + d) as nat, w) == hex_fixed(n, (w - 1) as nat) + hexadecimal(
                d as nat,
            ),
        hex_fixed(n, 0).len() == 0,
{
    let m = (16 * n + d) as nat;
    assert(m / 16 == n && m % 16 == d);
    if n > 0 {
        assert(hexadecimal(m) =~= hexadecimal(n) + hexadecimal(d as nat));
    }
    assert forall|w: nat| w > 0 implies #[trigger] hex_fixed(m, w) == hex_fixed(n, (w - 1) as nat) + hexadecimal(
        d as nat,
    ) by {
        assert(hex_fixed(m, w) =~= hex_fixed(n, (w - 1) as nat) + hexadecimal(d as nat));
    }
}

/// A number may have a `+` in front, and nothing else that is no digit, anywhere.
pub proof fn lemma_what_reads_as_number(s: Seq<char>, i: int)
    ensures
        s.len() > 0 && s[0] != '+' ==> u64_text(seq!['+'] + s) == u64_text(s),
        0 < i < s.len() && !('0' <= s[i] && s[i] <= '9') ==> u64_text(s) is None,
        s.len() > 0 && s[0] != '+' && !('0' <= s[0] && s[0] <= '9') ==> u64_text(s) is None,
        u64_text(Seq::empty()) is None && u64_text(seq!['+']) is None,
{
    let t = seq!['+'] + s;
    assert(t.skip(1) =~= s);
    if 0 < i < s.len() && !is_digit(s[i]) {
        if s[0] == '+' {
            assert(s.skip(1)[i - 1] == s[i]);
        }
    }
    assert(seq!['+'].skip(1).len() == 0);
}

} // verus!
