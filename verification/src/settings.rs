//! What the launcher keeps and reads as text: what was deployed, the user's variables, debug channels.
use crate::text::{
    chars_of, decimal, is_digit, join, joined, number, parse_u64, push_decimal, starts_in,
    starts_with_text, string_range, u64_text, unsigned, views,
};
use vstd::prelude::*;

verus! {

/// A character with the Unicode property `White_Space`.
pub open spec fn is_space(c: char) -> bool {
    let n = c as u32;
    9 <= n <= 13 || n == 0x20 || n == 0x85 || n == 0xA0 || n == 0x1680 || 0x2000 <= n <= 0x200A || n
        == 0x2028 || n == 0x2029 || n == 0x202F || n == 0x205F || n == 0x3000
}

pub fn space(c: char) -> (r: bool)
    ensures
        r == is_space(c),
{
    let n: u32 = c as u32;
    (9 <= n && n <= 13) || n == 0x20 || n == 0x85 || n == 0xA0 || n == 0x1680 || (0x2000 <= n && n
        <= 0x200A) || n == 0x2028 || n == 0x2029 || n == 0x202F || n == 0x205F || n == 0x3000
}

/// A text without the white space at its end.
pub open spec fn trimmed_end(s: Seq<char>) -> Seq<char>
    decreases s.len(),
{
    if s.len() > 0 && is_space(s.last()) {
        trimmed_end(s.drop_last())
    } else {
        s
    }
}

/// A text without the white space at its start.
pub open spec fn trimmed_start(s: Seq<char>) -> Seq<char>
    decreases s.len(),
{
    if s.len() > 0 && is_space(s[0]) {
        trimmed_start(s.skip(1))
    } else {
        s
    }
}

/// A text without the white space around it.
pub open spec fn trimmed(s: Seq<char>) -> Seq<char> {
    trimmed_end(trimmed_start(s))
}

pub fn trim(s: &str) -> (r: String)
    ensures
        r@ == trimmed(s@),
{
    let x = chars_of(s);
    let mut from: usize = 0;
    assert(x@.skip(0) =~= x@);
    while from < x.len() && space(x[from])
        invariant
            from <= x@.len(),
            trimmed_start(x@.skip(from as int)) == trimmed_start(x@),
        decreases x@.len() - from,
    {
        assert(x@.skip(from as int).skip(1) =~= x@.skip(from + 1));
        from = from + 1;
    }
    let ghost t = x@.skip(from as int);
    assert(trimmed_start(x@) == t);
    let mut to: usize = x.len();
    assert(x@.subrange(from as int, to as int) =~= t);
    while to > from && space(x[to - 1])
        invariant
            from <= to <= x@.len(),
            trimmed_end(x@.subrange(from as int, to as int)) == trimmed_end(t),
        decreases to,
    {
        assert(x@.subrange(from as int, to as int).drop_last() =~= x@.subrange(
            from as int,
            to - 1,
        ));
        to = to - 1;
    }
    string_range(&x, from, to)
}

/// The parts of a text between separators.
pub open spec fn parts_of(s: Seq<char>, sep: char) -> Seq<Seq<char>>
    decreases s.len(),
{
    if s.len() == 0 {
        seq![Seq::<char>::empty()]
    } else {
        let p = parts_of(s.drop_last(), sep);
        if s.last() == sep {
            p.push(Seq::empty())
        } else {
            p.update(p.len() - 1, p.last().push(s.last()))
        }
    }
}

proof fn lemma_some_part(s: Seq<char>, sep: char)
    ensures
        parts_of(s, sep).len() >= 1,
    decreases s.len(),
{
    if s.len() > 0 {
        lemma_some_part(s.drop_last(), sep);
    }
}

pub fn split(s: &str, sep: char) -> (r: Vec<String>)
    ensures
        views(r@) == parts_of(s@, sep),
{
    let mut done: Vec<String> = Vec::new();
    let mut last = String::new();
    assert(views(done@).push(last@) =~= seq![Seq::<char>::empty()]);
    for c in it: s.chars()
        invariant
            it.seq() == s@,
            views(done@).push(last@) == parts_of(s@.take(it.index()), sep),
    {
        assert(s@.take(it.index() + 1).drop_last() =~= s@.take(it.index()));
        let ghost before = views(done@);
        let ghost l0 = last@;
        if c == sep {
            done.push(last);
            last = String::new();
            assert(views(done@) =~= before.push(l0));
            assert(last@ =~= Seq::<char>::empty());
        } else {
            last.push(c);
            assert(before.push(last@) =~= before.push(l0).update(before.len() as int, last@));
        }
    }
    assert(s@.take(s@.len() as int) =~= s@);
    let ghost before = views(done@);
    let ghost l0 = last@;
    done.push(last);
    assert(views(done@) =~= before.push(l0));
    done
}

/// Texts that are joined come apart again where none of them holds the separator.
pub proof fn lemma_parts_of_joined(p: Seq<Seq<char>>, sep: char)
    requires
        p.len() > 0,
        forall|i: int| 0 <= i < p.len() ==> !(#[trigger] p[i]).contains(sep),
    ensures
        parts_of(joined(p, seq![sep]), sep) == p,
    decreases p.len(),
{
    if p.len() == 1 {
        lemma_grown(Seq::empty(), p[0], sep);
        assert(Seq::<char>::empty() + p[0] =~= p[0]);
        assert(parts_of(Seq::<char>::empty(), sep) =~= seq![Seq::<char>::empty()]);
        assert(parts_of(p[0], sep) =~= p);
    } else {
        let q = p.drop_last();
        assert forall|i: int| 0 <= i < q.len() implies !(#[trigger] q[i]).contains(sep) by {
            assert(q[i] == p[i]);
        }
        lemma_parts_of_joined(q, sep);
        let head = joined(q, seq![sep]) + seq![sep];
        assert(head.drop_last() =~= joined(q, seq![sep]));
        assert(parts_of(head, sep) == q.push(Seq::empty()));
        lemma_grown(head, p.last(), sep);
        let r = parts_of(head + p.last(), sep);
        assert(q.push(Seq::<char>::empty()).drop_last() =~= q);
        assert(Seq::<char>::empty() + p.last() =~= p.last());
        assert(r =~= r.drop_last().push(r.last()));
        assert(r =~= p);
    }
}

/// What has no separator goes on with the last part.
proof fn lemma_grown(a: Seq<char>, b: Seq<char>, sep: char)
    requires
        !b.contains(sep),
    ensures
        parts_of(a + b, sep).len() == parts_of(a, sep).len(),
        parts_of(a + b, sep).drop_last() == parts_of(a, sep).drop_last(),
        parts_of(a + b, sep).last() == parts_of(a, sep).last() + b,
    decreases b.len(),
{
    lemma_some_part(a, sep);
    if b.len() == 0 {
        assert(a + b =~= a);
        assert(parts_of(a, sep).last() + b =~= parts_of(a, sep).last());
    } else {
        let c = b.drop_last();
        assert(b[b.len() - 1] == b.last());
        assert forall|i: int| 0 <= i < c.len() implies c[i] != sep by {
            assert(c[i] == b[i]);
        }
        lemma_grown(a, c, sep);
        assert((a + b).drop_last() =~= a + c);
        assert((a + b).last() == b.last());
        let p = parts_of(a + c, sep);
        lemma_some_part(a + c, sep);
        assert(parts_of(a + b, sep) == p.update(p.len() - 1, p.last().push(b.last())));
        assert(parts_of(a + b, sep).drop_last() =~= p.drop_last());
        assert(p.last().push(b.last()) =~= parts_of(a, sep).last() + b);
    }
}

/// A text whose ends are no white space is left as it is.
pub proof fn lemma_trimmed_same(s: Seq<char>)
    requires
        s.len() > 0 ==> !is_space(s[0]) && !is_space(s.last()),
    ensures
        trimmed(s) == s,
{
}

proof fn lemma_decimal_digits(n: nat)
    ensures
        decimal(n).len() > 0,
        forall|i: int| 0 <= i < decimal(n).len() ==> is_digit(#[trigger] decimal(n)[i]),
        number(decimal(n)) == n,
    decreases n,
{
    if n >= 10 {
        lemma_decimal_digits(n / 10);
        assert(decimal(n).drop_last() =~= decimal(n / 10));
        assert forall|i: int| 0 <= i < decimal(n).len() implies is_digit(#[trigger] decimal(n)[i]) by {
            if i < decimal(n).len() - 1 {
                assert(decimal(n)[i] == decimal(n / 10)[i]);
            }
        }
    } else {
        assert(decimal(n).drop_last() =~= Seq::<char>::empty());
        assert(number(Seq::<char>::empty()) == 0);
    }
}

/// A number written in decimal digits is read back.
pub proof fn lemma_decimal_read_back(n: u64)
    ensures
        u64_text(decimal(n as nat)) == Some(n),
        !decimal(n as nat).contains(','),
        !is_space(decimal(n as nat)[0]),
        !is_space(decimal(n as nat).last()),
{
    let d = decimal(n as nat);
    lemma_decimal_digits(n as nat);
    assert(is_digit(d[0]));
    assert(is_digit(d[d.len() - 1]));
    assert(unsigned(d) == d);
    assert forall|i: int| 0 <= i < d.len() implies d[i] != ',' by {
        assert(is_digit(d[i]));
    }
}

/// From what the parts of a prefix were deployed.
#[derive(Clone, Copy, Debug, PartialEq, Eq)]
pub struct DeployCache {
    pub wine_hash: u64,
    pub dxvk_hash: u64,
    pub vkd3d_hash: u64,
    pub steam_hash: u64,
    pub scan_hash: u64,
}

/// The numbers of a cache as texts.
pub open spec fn cache_parts(c: DeployCache) -> Seq<Seq<char>> {
    seq![
        decimal(c.wine_hash as nat),
        decimal(c.dxvk_hash as nat),
        decimal(c.vkd3d_hash as nat),
        decimal(c.steam_hash as nat),
        decimal(c.scan_hash as nat),
    ]
}

/// The text of a cache.
pub open spec fn cache_text(c: DeployCache) -> Seq<char> {
    "v4:"@ + joined(cache_parts(c), ","@)
}

/// The cache that a text holds.
pub open spec fn cache_of(text: Seq<char>) -> Option<DeployCache> {
    if !starts_in(text, "v4:"@) {
        None
    } else {
        let p = parts_of(trimmed(text.skip(3)), ',');
        if p.len() != 5 {
            None
        } else {
            match (u64_text(p[0]), u64_text(p[1]), u64_text(p[2]), u64_text(p[3]), u64_text(p[4])) {
                (Some(a), Some(b), Some(c), Some(d), Some(e)) => Some(
                    DeployCache {
                        wine_hash: a,
                        dxvk_hash: b,
                        vkd3d_hash: c,
                        steam_hash: d,
                        scan_hash: e,
                    },
                ),
                _ => None,
            }
        }
    }
}

fn decimal_text(n: u64) -> (r: String)
    ensures
        r@ == decimal(n as nat),
{
    let mut s = String::new();
    push_decimal(&mut s, n);
    assert(s@ =~= decimal(n as nat));
    s
}

impl DeployCache {
    /// Reads a cache from its text.
    pub fn load(data: &str) -> (r: Option<DeployCache>)
        ensures
            r == cache_of(data@),
    {
        if !starts_with_text(data, "v4:") {
            return None;
        }
        let x = chars_of(data);
        proof {
            reveal_strlit("v4:");
        }
        let body = string_range(&x, 3, x.len());
        assert(body@ =~= data@.skip(3));
        let body = trim(body.as_str());
        let p = split(body.as_str(), ',');
        if p.len() != 5 {
            return None;
        }
        let ghost v = views(p@);
        assert(v[0] == p@[0]@ && v[1] == p@[1]@ && v[2] == p@[2]@ && v[3] == p@[3]@ && v[4]
            == p@[4]@);
        match (
            parse_u64(p[0].as_str()),
            parse_u64(p[1].as_str()),
            parse_u64(p[2].as_str()),
            parse_u64(p[3].as_str()),
            parse_u64(p[4].as_str()),
        ) {
            (
                Some(wine_hash),
                Some(dxvk_hash),
                Some(vkd3d_hash),
                Some(steam_hash),
                Some(scan_hash),
            ) => Some(DeployCache { wine_hash, dxvk_hash, vkd3d_hash, steam_hash, scan_hash }),
            _ => None,
        }
    }

    /// Writes a cache as text.
    pub fn save(&self) -> (r: String)
        ensures
            r@ == cache_text(*self),
    {
        let mut p: Vec<String> = Vec::new();
        p.push(decimal_text(self.wine_hash));
        p.push(decimal_text(self.dxvk_hash));
        p.push(decimal_text(self.vkd3d_hash));
        p.push(decimal_text(self.steam_hash));
        p.push(decimal_text(self.scan_hash));
        assert(views(p@) =~= cache_parts(*self));
        let mut out = "v4:".to_string();
        let rest = join(&p, ",");
        out.append(rest.as_str());
        out
    }
}

/// A cache that is written is read back as it was.
pub proof fn lemma_cache_read_back(c: DeployCache)
    ensures
        cache_of(cache_text(c)) == Some(c),
{
    reveal_strlit("v4:");
    reveal_strlit(",");
    let p = cache_parts(c);
    lemma_decimal_read_back(c.wine_hash);
    lemma_decimal_read_back(c.dxvk_hash);
    lemma_decimal_read_back(c.vkd3d_hash);
    lemma_decimal_read_back(c.steam_hash);
    lemma_decimal_read_back(c.scan_hash);
    assert(","@ =~= seq![',']);
    let body = joined(p, ","@);
    assert forall|i: int| 0 <= i < p.len() implies !(#[trigger] p[i]).contains(',') by {
        assert(i == 0 || i == 1 || i == 2 || i == 3 || i == 4);
    }
    lemma_parts_of_joined(p, ',');
    lemma_joined_ends(p, ","@);
    assert(cache_text(c).skip(3) =~= body);
    assert(cache_text(c).subrange(0, 3) =~= "v4:"@);
    lemma_trimmed_same(body);
}

/// Joined texts start as the first and end as the last of them.
proof fn lemma_joined_ends(p: Seq<Seq<char>>, sep: Seq<char>)
    requires
        p.len() > 0,
        p[0].len() > 0,
        p.last().len() > 0,
    ensures
        joined(p, sep).len() > 0,
        joined(p, sep)[0] == p[0][0],
        joined(p, sep).last() == p.last().last(),
    decreases p.len(),
{
    if p.len() > 1 {
        lemma_joined_start(p.drop_last(), sep);
    }
}

proof fn lemma_joined_start(p: Seq<Seq<char>>, sep: Seq<char>)
    requires
        p.len() > 0,
        p[0].len() > 0,
    ensures
        joined(p, sep).len() > 0,
        joined(p, sep)[0] == p[0][0],
    decreases p.len(),
{
    if p.len() > 1 {
        lemma_joined_start(p.drop_last(), sep);
    }
}

/// The position of the first `c`, or the length where there is none.
pub open spec fn first_place(s: Seq<char>, c: char) -> int
    decreases s.len(),
{
    if s.len() == 0 || s[0] == c {
        0
    } else {
        1 + first_place(s.skip(1), c)
    }
}

pub proof fn lemma_first_place(s: Seq<char>, c: char)
    ensures
        0 <= first_place(s, c) <= s.len(),
        first_place(s, c) < s.len() ==> s[first_place(s, c)] == c,
        forall|i: int| 0 <= i < first_place(s, c) ==> s[i] != c,
    decreases s.len(),
{
    if s.len() > 0 && s[0] != c {
        lemma_first_place(s.skip(1), c);
        assert forall|i: int| 0 <= i < first_place(s, c) implies s[i] != c by {
            if i > 0 {
                assert(s[i] == s.skip(1)[i - 1]);
            }
        }
    }
}

proof fn lemma_first_place_is(s: Seq<char>, c: char, n: int)
    requires
        0 <= n <= s.len(),
        n < s.len() ==> s[n] == c,
        forall|i: int| 0 <= i < n ==> s[i] != c,
    ensures
        first_place(s, c) == n,
{
    lemma_first_place(s, c);
    let f = first_place(s, c);
    if f < n {
        assert(s[f] != c);
    } else if f > n {
        assert(s[n] != c);
    }
}

/// The variable that a line sets: blank lines, comments and lines without a name set none.
pub open spec fn env_line(line: Seq<char>) -> Option<(Seq<char>, Seq<char>)> {
    let l = trimmed(line);
    let at = first_place(l, '=');
    let key = trimmed(l.take(at));
    if l.len() == 0 || l[0] == '#' || at == l.len() || key.len() == 0 {
        None
    } else {
        Some((key, trimmed(l.skip(at + 1))))
    }
}

/// The variables that lines set, in their order.
pub open spec fn env_pairs(lines: Seq<Seq<char>>) -> Seq<(Seq<char>, Seq<char>)>
    decreases lines.len(),
{
    if lines.len() == 0 {
        Seq::empty()
    } else {
        let before = env_pairs(lines.drop_last());
        match env_line(lines.last()) {
            Some(p) => before.push(p),
            None => before,
        }
    }
}

/// Pairs of strings as pairs of texts.
pub open spec fn pair_views(v: Seq<(String, String)>) -> Seq<(Seq<char>, Seq<char>)> {
    v.map_values(|p: (String, String)| (p.0@, p.1@))
}

fn read_env_line(line: &str) -> (r: Option<(String, String)>)
    ensures
        match r {
            Some(p) => env_line(line@) == Some((p.0@, p.1@)),
            None => env_line(line@) is None,
        },
{
    let t = trim(line);
    let l = chars_of(t.as_str());
    if l.len() == 0 || l[0] == '#' {
        return None;
    }
    let mut at: usize = 0;
    while at < l.len() && l[at] != '='
        invariant
            at <= l@.len(),
            forall|i: int| 0 <= i < at ==> l@[i] != '=',
        decreases l@.len() - at,
    {
        at = at + 1;
    }
    proof {
        lemma_first_place_is(l@, '=', at as int);
    }
    if at == l.len() {
        return None;
    }
    let raw = string_range(&l, 0, at);
    assert(raw@ =~= l@.take(at as int));
    let key = trim(raw.as_str());
    if key.as_str().is_empty() {
        return None;
    }
    let raw = string_range(&l, at + 1, l.len());
    assert(raw@ =~= l@.skip(at + 1));
    let value = trim(raw.as_str());
    Some((key, value))
}

/// The user's variables: `KEY=VALUE` lines, with comments and blank lines in between.
pub fn parse_env_config(contents: &str) -> (r: Vec<(String, String)>)
    ensures
        pair_views(r@) == env_pairs(parts_of(contents@, '\n')),
{
    let lines = split(contents, '\n');
    let mut out: Vec<(String, String)> = Vec::new();
    let mut i: usize = 0;
    assert(pair_views(out@) =~= env_pairs(views(lines@).take(0)));
    while i < lines.len()
        invariant
            i <= lines@.len(),
            pair_views(out@) == env_pairs(views(lines@).take(i as int)),
        decreases lines@.len() - i,
    {
        let ghost before = pair_views(out@);
        assert(views(lines@).take(i + 1).drop_last() =~= views(lines@).take(i as int));
        assert(views(lines@).take(i + 1).last() == lines@[i as int]@);
        match read_env_line(lines[i].as_str()) {
            Some(p) => {
                let ghost q = (p.0@, p.1@);
                out.push(p);
                assert(pair_views(out@) =~= before.push(q));
            },
            None => {},
        }
        i = i + 1;
    }
    assert(views(lines@).take(lines@.len() as int) =~= views(lines@));
    out
}

/// A line made of a name, a `=` and a value sets that variable, with blanks around all three or not.
pub proof fn lemma_env_line_read(key: Seq<char>, value: Seq<char>)
    requires
        key.len() > 0,
        key[0] != '#',
        !key.contains('='),
        trimmed(key) == key,
        trimmed(value) == value,
    ensures
        env_line(key + seq!['='] + value) == Some((key, value)),
{
    let line = key + seq!['='] + value;
    lemma_trimmed_ends(key);
    if value.len() > 0 {
        lemma_trimmed_ends(value);
    }
    assert(line[0] == key[0]);
    assert(line.last() == if value.len() > 0 {
        value.last()
    } else {
        '='
    });
    lemma_trimmed_same(line);
    assert forall|i: int| 0 <= i < key.len() implies line[i] != '=' by {
        assert(line[i] == key[i]);
    }
    lemma_first_place_is(line, '=', key.len() as int);
    assert(line.take(key.len() as int) =~= key);
    assert(line.skip(key.len() as int + 1) =~= value);
}

/// What was trimmed has no white space at its ends.
proof fn lemma_trimmed_ends(s: Seq<char>)
    requires
        trimmed(s) == s,
        s.len() > 0,
    ensures
        !is_space(s[0]),
        !is_space(s.last()),
{
    lemma_trimmed_start_len(s);
    lemma_trimmed_end_len(trimmed_start(s));
    if is_space(s[0]) {
        lemma_trimmed_start_len(s.skip(1));
    }
    assert(trimmed_start(s) == s);
    if is_space(s.last()) {
        lemma_trimmed_end_len(s.drop_last());
    }
}

proof fn lemma_trimmed_start_len(s: Seq<char>)
    ensures
        trimmed_start(s).len() <= s.len(),
    decreases s.len(),
{
    if s.len() > 0 && is_space(s[0]) {
        lemma_trimmed_start_len(s.skip(1));
    }
}

proof fn lemma_trimmed_end_len(s: Seq<char>)
    ensures
        trimmed_end(s).len() <= s.len(),
    decreases s.len(),
{
    if s.len() > 0 && is_space(s.last()) {
        lemma_trimmed_end_len(s.drop_last());
    }
}

/// A comment sets nothing, whatever follows.
pub proof fn lemma_comment_sets_nothing(line: Seq<char>)
    requires
        trimmed(line).len() == 0 || trimmed(line)[0] == '#',
    ensures
        env_line(line) is None,
{
}

/// The debug channels: the user's own choice, else by tracing, else by whether diagnostics are on.
pub open spec fn winedebug(own: Option<Seq<char>>, trace: bool, verbose: bool) -> Seq<char> {
    match own {
        Some(v) => v,
        None => if trace {
            "+server,+timestamp"@
        } else if verbose {
            "+module,+loaddll,+process,err"@
        } else {
            "-all"@
        },
    }
}

/// The debug channels for the program that is launched.
pub fn resolve_winedebug(own: Option<String>, trace: bool, verbose: bool) -> (r: String)
    ensures
        r@ == winedebug(crate::wire::opt_view(own), trace, verbose),
{
    match own {
        Some(v) => v,
        None => if trace {
            "+server,+timestamp".to_string()
        } else if verbose {
            "+module,+loaddll,+process,err".to_string()
        } else {
            "-all".to_string()
        },
    }
}

/// Blanks, tabs and the ends of lines are white space; what is printed of ASCII is not.
pub proof fn lemma_white_space(c: char)
    ensures
        is_space(' ') && is_space('\t') && is_space('\n') && is_space('\r') && is_space('\x0B') && is_space(
            '\x0C',
        ),
        is_space('\u{85}') && is_space('\u{A0}') && is_space('\u{1680}') && is_space('\u{2000}') && is_space(
            '\u{200A}',
        ) && is_space('\u{2028}') && is_space('\u{2029}') && is_space('\u{202F}') && is_space('\u{205F}') && is_space(
            '\u{3000}',
        ),
        '!' <= c && c <= '~' ==> !is_space(c),
        '\u{3001}' <= c ==> !is_space(c),
        c == '\u{200B}' ==> !is_space(c),
{
}

proof fn lemma_start_is_skipped(s: Seq<char>) -> (n: int)
    ensures
        0 <= n <= s.len(),
        trimmed_start(s) == s.skip(n),
        forall|i: int| 0 <= i < n ==> is_space(#[trigger] s[i]),
        n < s.len() ==> !is_space(s[n]),
    decreases s.len(),
{
    if s.len() > 0 && is_space(s[0]) {
        let d = s.skip(1);
        let m = lemma_start_is_skipped(d);
        assert(d.skip(m) =~= s.skip(m + 1));
        assert forall|i: int| 0 <= i < m + 1 implies is_space(#[trigger] s[i]) by {
            if i > 0 {
                assert(d[i - 1] == s[i]);
            }
        }
        if m < d.len() {
            assert(d[m] == s[m + 1]);
        }
        m + 1
    } else {
        assert(s.skip(0) =~= s);
        0
    }
}

proof fn lemma_end_is_dropped(s: Seq<char>) -> (n: int)
    ensures
        0 <= n <= s.len(),
        trimmed_end(s) == s.take(n),
        forall|i: int| n <= i < s.len() ==> is_space(#[trigger] s[i]),
        n > 0 ==> !is_space(s[n - 1]),
    decreases s.len(),
{
    if s.len() > 0 && is_space(s.last()) {
        let d = s.drop_last();
        let m = lemma_end_is_dropped(d);
        assert(d.take(m) =~= s.take(m));
        assert forall|i: int| m <= i < s.len() implies is_space(#[trigger] s[i]) by {
            if i < d.len() {
                assert(d[i] == s[i]);
            }
        }
        if m > 0 {
            assert(d[m - 1] == s[m - 1]);
        }
        m
    } else {
        assert(s.take(s.len() as int) =~= s);
        s.len() as int
    }
}

/// A trimmed text is the part of the text between the white space at its ends, and nothing else is lost.
pub proof fn lemma_trimmed_is_inside(s: Seq<char>)
    ensures
        exists|a: int, b: int|
            0 <= a <= b <= s.len() && #[trigger] s.subrange(a, b) == trimmed(s) && (forall|i: int|
                0 <= i < a ==> is_space(#[trigger] s[i])) && (forall|i: int|
                b <= i < s.len() ==> is_space(#[trigger] s[i])) && (a < b ==> !is_space(s[a]) && !is_space(
                s[b - 1],
            )),
{
    let a = lemma_start_is_skipped(s);
    let t = s.skip(a);
    let n = lemma_end_is_dropped(t);
    assert(s.subrange(a, a + n) =~= t.take(n));
    assert forall|i: int| a + n <= i < s.len() implies is_space(#[trigger] s[i]) by {
        assert(t[i - a] == s[i]);
    }
    if n > 0 {
        assert(t[n - 1] == s[a + n - 1]);
    }
}

/// The parts of a text, with the separator between them, are the text again, and no part holds the separator.
pub proof fn lemma_parts_make_up_text(s: Seq<char>, sep: char)
    ensures
        joined(parts_of(s, sep), seq![sep]) == s,
        forall|k: int, i: int|
            0 <= k < parts_of(s, sep).len() && 0 <= i < parts_of(s, sep)[k].len() ==> #[trigger] parts_of(
                s,
                sep,
            )[k][i] != sep,
        parts_of(s, sep).len() >= 1,
    decreases s.len(),
{
    let p = parts_of(s, sep);
    if s.len() > 0 {
        let d = s.drop_last();
        let q = parts_of(d, sep);
        lemma_parts_make_up_text(d, sep);
        if s.last() == sep {
            assert(p.drop_last() =~= q);
            assert(joined(p, seq![sep]) =~= d + seq![sep]);
            assert(d + seq![sep] =~= s);
            assert forall|k: int, i: int| 0 <= k < p.len() && 0 <= i < p[k].len() implies #[trigger] p[k][i]
                != sep by {
                assert(q[k] == p[k]);
                assert(q[k][i] != sep);
            }
        } else {
            let x = q.last().push(s.last());
            assert(p.drop_last() =~= q.drop_last());
            assert(p.last() == x);
            if q.len() > 1 {
                assert(joined(p, seq![sep]) =~= joined(q, seq![sep]).push(s.last()));
            } else {
                assert(joined(p, seq![sep]) =~= joined(q, seq![sep]).push(s.last()));
            }
            assert(d.push(s.last()) =~= s);
            assert forall|k: int, i: int| 0 <= k < p.len() && 0 <= i < p[k].len() implies #[trigger] p[k][i]
                != sep by {
                if k < q.len() - 1 {
                    assert(q[k] == p[k]);
                    assert(q[k][i] != sep);
                } else if i < q.last().len() {
                    assert(q[k][i] != sep);
                }
            }
        }
    } else {
        assert(p[0] =~= s);
    }
}

/// How a cache is written: its version and, with commas between them, the numbers of Wine, of the libraries
/// for the older and for the newest graphics, of Steam and of the scan.
pub proof fn lemma_cache_is_written(c: DeployCache)
    ensures
        cache_text(c) == "v4:"@ + (decimal(c.wine_hash as nat) + ","@ + decimal(c.dxvk_hash as nat) + ","@ + decimal(
            c.vkd3d_hash as nat,
        ) + ","@ + decimal(c.steam_hash as nat) + ","@ + decimal(c.scan_hash as nat)),
{
    reveal_with_fuel(joined, 6);
    let p = cache_parts(c);
    assert(p.drop_last().last() == p[3]);
    assert(p.drop_last().drop_last().last() == p[2]);
    assert(p.drop_last().drop_last().drop_last().last() == p[1]);
    assert(p.drop_last().drop_last().drop_last().drop_last()[0] == p[0]);
}

/// Every line that sets a variable sets it; lines that set none leave nothing behind.
pub proof fn lemma_lines_that_count(lines: Seq<Seq<char>>, x: (Seq<char>, Seq<char>))
    ensures
        env_pairs(lines).contains(x) <==> exists|k: int|
            0 <= k < lines.len() && env_line(#[trigger] lines[k]) == Some(x),
    decreases lines.len(),
{
    let all = env_pairs(lines);
    if lines.len() > 0 {
        let d = lines.drop_last();
        let before = env_pairs(d);
        lemma_lines_that_count(d, x);
        if before.contains(x) {
            let k = choose|k: int| 0 <= k < d.len() && env_line(#[trigger] d[k]) == Some(x);
            assert(lines[k] == d[k]);
            let i = choose|i: int| 0 <= i < before.len() && before[i] == x;
            assert(all[i] == x);
        }
        assert(lines[lines.len() - 1] == lines.last());
        if env_line(lines.last()) is Some {
            assert(all[all.len() - 1] == env_line(lines.last())->Some_0);
        }
        if exists|k: int| 0 <= k < lines.len() && env_line(#[trigger] lines[k]) == Some(x) {
            let k = choose|k: int| 0 <= k < lines.len() && env_line(#[trigger] lines[k]) == Some(x);
            if k < d.len() {
                assert(d[k] == lines[k]);
            }
        }
        if all.contains(x) && !before.contains(x) {
            let i = choose|i: int| 0 <= i < all.len() && all[i] == x;
            if i < before.len() {
                assert(before[i] == x);
            }
        }
    }
}

/// A line without a `=` sets nothing.
pub proof fn lemma_no_sign_sets_nothing(line: Seq<char>)
    requires
        forall|i: int| 0 <= i < line.len() ==> #[trigger] line[i] != '=',
    ensures
        env_line(line) is None,
{
    let l = trimmed(line);
    lemma_trimmed_is_inside(line);
    let (a, b) = choose|a: int, b: int| 0 <= a <= b <= line.len() && #[trigger] line.subrange(a, b) == l;
    lemma_first_place(l, '=');
    let at = first_place(l, '=');
    if at < l.len() {
        assert(l[at] == line[a + at]);
    }
}

/// The user's own choice of debug channels wins; else tracing comes before diagnostics, and with neither all
/// channels are off.
pub proof fn lemma_debug_channels(own: Seq<char>, trace: bool, verbose: bool)
    ensures
        winedebug(Some(own), trace, verbose) == own,
        winedebug(None, true, verbose) == "+server,+timestamp"@,
        winedebug(None, false, true) == "+module,+loaddll,+process,err"@,
        winedebug(None, false, false) == "-all"@,
{
}

} // verus!
