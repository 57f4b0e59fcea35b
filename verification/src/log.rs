//! Text for the log: time stamps, grouped numbers, and when diagnostics are on.
use crate::paths::{join_path, path_join};
use crate::text::{chars_of, decimal, push_decimal};
use crate::wire::opt_view;
use vstd::prelude::*;

verus! {

/// Digits in groups of three from the right, with a comma between groups.
pub open spec fn grouped(d: Seq<char>) -> Seq<char>
    decreases d.len(),
{
    if d.len() <= 3 {
        d
    } else {
        grouped(d.take(d.len() - 3)) + seq![','] + d.skip(d.len() - 3)
    }
}

/// A text without its commas.
pub open spec fn without_commas(s: Seq<char>) -> Seq<char>
    decreases s.len(),
{
    if s.len() == 0 {
        Seq::empty()
    } else if s.last() == ',' {
        without_commas(s.drop_last())
    } else {
        without_commas(s.drop_last()).push(s.last())
    }
}

proof fn lemma_without_commas_add(a: Seq<char>, b: Seq<char>)
    ensures
        without_commas(a + b) == without_commas(a) + without_commas(b),
    decreases b.len(),
{
    if b.len() == 0 {
        assert(a + b =~= a);
        assert(without_commas(a) + without_commas(b) =~= without_commas(a));
    } else {
        assert((a + b).drop_last() =~= a + b.drop_last());
        lemma_without_commas_add(a, b.drop_last());
        assert(without_commas(a + b) =~= without_commas(a) + without_commas(b));
    }
}

proof fn lemma_no_commas(d: Seq<char>)
    requires
        !d.contains(','),
    ensures
        without_commas(d) == d,
    decreases d.len(),
{
    if d.len() > 0 {
        assert(d[d.len() - 1] == d.last());
        assert forall|i: int| 0 <= i < d.len() - 1 implies d.drop_last()[i] != ',' by {
            assert(d[i] == d.drop_last()[i]);
        }
        lemma_no_commas(d.drop_last());
        assert(d.drop_last().push(d.last()) =~= d);
    }
}

/// Grouping digits adds commas and changes nothing else.
pub proof fn lemma_grouping_keeps_digits(d: Seq<char>)
    requires
        !d.contains(','),
    ensures
        without_commas(grouped(d)) == d,
    decreases d.len(),
{
    lemma_no_commas(d);
    if d.len() > 3 {
        let a = d.take(d.len() - 3);
        let b = d.skip(d.len() - 3);
        assert forall|i: int| 0 <= i < a.len() implies a[i] != ',' by {
            assert(d[i] == a[i]);
        }
        assert forall|i: int| 0 <= i < b.len() implies b[i] != ',' by {
            assert(d[d.len() - 3 + i] == b[i]);
        }
        lemma_grouping_keeps_digits(a);
        lemma_no_commas(b);
        lemma_without_commas_add(grouped(a) + seq![','], b);
        lemma_without_commas_add(grouped(a), seq![',']);
        reveal_with_fuel(without_commas, 2);
        assert(seq![','].drop_last() =~= Seq::<char>::empty());
        assert(without_commas(seq![',']) =~= Seq::<char>::empty());
        assert(without_commas(grouped(d)) =~= a + b);
        assert(a + b =~= d);
    }
}

fn push_grouped(out: &mut String, d: &Vec<char>, n: usize)
    requires
        n <= d@.len(),
    ensures
        final(out)@ == old(out)@ + grouped(d@.take(n as int)),
    decreases n,
{
    let ghost t = d@.take(n as int);
    let from: usize = if n > 3 { n - 3 } else { 0 };
    if n > 3 {
        push_grouped(out, d, from);
        out.push(',');
        assert(t.take(from as int) =~= d@.take(from as int));
    }
    let ghost mid = out@;
    let mut i: usize = from;
    while i < n
        invariant
            from <= i <= n <= d@.len(),
            t == d@.take(n as int),
            out@ == mid + t.subrange(from as int, i as int),
        decreases n - i,
    {
        out.push(d[i]);
        i = i + 1;
        assert(out@ =~= mid + t.subrange(from as int, i as int));
    }
    assert(t.subrange(from as int, n as int) =~= t.skip(from as int));
    assert(t.skip(0) =~= t);
    assert(out@ =~= old(out)@ + grouped(t));
}

/// A number in decimal with commas between groups of three digits.
pub fn format_with_commas(n: u64) -> (r: String)
    ensures
        r@ == grouped(decimal(n as nat)),
{
    let mut plain = String::new();
    push_decimal(&mut plain, n);
    assert(plain@ =~= decimal(n as nat));
    let d: Vec<char> = chars_of(plain.as_str());
    let mut out = String::new();
    push_grouped(&mut out, &d, d.len());
    assert(d@.take(d@.len() as int) =~= d@);
    assert(out@ =~= grouped(decimal(n as nat)));
    out
}

/// The two decimal digits of a number below one hundred, as bytes.
pub open spec fn two_digits(n: u8) -> Seq<u8> {
    seq![(48 + n / 10) as u8, (48 + n % 10) as u8]
}

/// The stamp `[HH:MM:SS]` of a time of day.
pub open spec fn stamp(h: u8, m: u8, s: u8) -> Seq<u8> {
    seq![91u8] + two_digits(h) + seq![58u8] + two_digits(m) + seq![58u8] + two_digits(s)
        + seq![93u8]
}

/// The stamp of a time of day; a leap second shows as it is.
pub fn timestamp(h: u8, m: u8, s: u8) -> (r: [u8; 10])
    requires
        h < 100,
        m < 100,
        s < 100,
    ensures
        r@ == stamp(h, m, s),
{
    let r: [u8; 10] = [
        91,
        48 + h / 10,
        48 + h % 10,
        58,
        48 + m / 10,
        48 + m % 10,
        58,
        48 + s / 10,
        48 + s % 10,
        93,
    ];
    assert(r@ =~= stamp(h, m, s));
    r
}

/// Whether diagnostics are on: by the environment, the flag in the cache, or one beside the program.
pub fn is_verbose(env_set: bool, cache_flag: bool, legacy_flag: bool) -> (r: bool)
    ensures
        r == (env_set || cache_flag || legacy_flag),
{
    env_set || cache_flag || legacy_flag
}

/// Where log files go, given the home directory.
pub open spec fn log_dir_of(home: Option<Seq<char>>) -> Seq<char> {
    path_join(
        match home {
            Some(h) => h,
            None => "/tmp"@,
        },
        ".cache/quark"@,
    )
}

/// Where log files go: `.cache/quark` below the home directory, or below `/tmp` without one.
pub fn log_dir(home: Option<String>) -> (r: String)
    ensures
        r@ == log_dir_of(opt_view(home)),
{
    match home {
        Some(h) => join_path(h.as_str(), ".cache/quark"),
        None => join_path("/tmp", ".cache/quark"),
    }
}

/// Digits are grouped by three from the right.
pub proof fn lemma_groups_of_three(a: Seq<char>, b: Seq<char>)
    requires
        b.len() == 3,
        a.len() > 0,
    ensures
        grouped(a + b) == grouped(a) + seq![','] + b,
        a.len() <= 3 ==> grouped(a) == a,
{
    let d = a + b;
    assert(d.take(d.len() - 3) =~= a);
    assert(d.skip(d.len() - 3) =~= b);
}

/// A stamp has ten bytes: the hour, the minute and the second, each as two digits, with colons between them
/// and brackets around them.
pub proof fn lemma_stamp_shows_time(h: u8, m: u8, s: u8)
    requires
        h < 100,
        m < 100,
        s < 100,
    ensures
        ({
            let t = stamp(h, m, s);
            &&& t.len() == 10
            &&& t[0] == 0x5B && t[3] == 0x3A && t[6] == 0x3A && t[9] == 0x5D
            &&& 10 * (t[1] - 0x30) + (t[2] - 0x30) == h && 0x30 <= t[1] <= 0x39 && 0x30 <= t[2] <= 0x39
            &&& 10 * (t[4] - 0x30) + (t[5] - 0x30) == m && 0x30 <= t[4] <= 0x39 && 0x30 <= t[5] <= 0x39
            &&& 10 * (t[7] - 0x30) + (t[8] - 0x30) == s && 0x30 <= t[7] <= 0x39 && 0x30 <= t[8] <= 0x39
        }),
{
}

/// Logs go below the user's directory, or below `/tmp` without one.
pub proof fn lemma_where_logs_go(home: Seq<char>)
    ensures
        log_dir_of(Some(home)) == path_join(home, ".cache/quark"@),
        log_dir_of(None) == path_join("/tmp"@, ".cache/quark"@),
{
}

} // verus!
