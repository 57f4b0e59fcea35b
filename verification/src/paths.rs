//! Unix paths as texts.
use crate::settings::{parts_of, split};
use crate::text::{chars_of, replace_char, replaced, same, starts_in, starts_with_text, string_range, views};
use vstd::prelude::*;

verus! {

/// `rel` below `base`: one slash between them, and an absolute `rel` stands alone.
pub open spec fn path_join(base: Seq<char>, rel: Seq<char>) -> Seq<char> {
    if rel.len() > 0 && rel[0] == '/' {
        rel
    } else if base.len() == 0 || base.last() == '/' {
        base + rel
    } else {
        base.push('/') + rel
    }
}

pub fn join_path(base: &str, rel: &str) -> (r: String)
    ensures
        r@ == path_join(base@, rel@),
{
    let b: Vec<char> = chars_of(base);
    let s: Vec<char> = chars_of(rel);
    if s.len() > 0 && s[0] == '/' {
        return rel.to_string();
    }
    let mut out = base.to_string();
    if b.len() > 0 && b[b.len() - 1] != '/' {
        out.push('/');
    }
    out.append(rel);
    out
}

/// The name of a Unix path in the NT namespace, where drive `Z:` is the root.
pub open spec fn nt_path(unix: Seq<char>) -> Seq<char> {
    "\\??\\Z:"@ + replaced(unix, '/', '\\')
}

pub fn to_nt_path(unix: &str) -> (r: String)
    ensures
        r@ == nt_path(unix@),
{
    let mut out = "\\??\\Z:".to_string();
    let back = replace_char(unix, '/', '\\');
    out.append(back.as_str());
    out
}

/// Whether the part at a place counts as a step of a path: empty parts never do, and a dot does only at
/// the start.
pub open spec fn is_step(part: Seq<char>, place: int) -> bool {
    part.len() > 0 && (place == 0 || part != "."@)
}

/// The steps among the parts of a path.
pub open spec fn steps_of(parts: Seq<Seq<char>>) -> Seq<Seq<char>>
    decreases parts.len(),
{
    if parts.len() == 0 {
        Seq::empty()
    } else {
        let before = steps_of(parts.drop_last());
        if is_step(parts.last(), parts.len() - 1) {
            before.push(parts.last())
        } else {
            before
        }
    }
}

/// Two paths are the same step by step: doubled slashes, slashes at the end and dots do not tell them
/// apart.
pub open spec fn same_steps(a: Seq<char>, b: Seq<char>) -> bool {
    starts_in(a, "/"@) == starts_in(b, "/"@) && steps_of(parts_of(a, '/')) == steps_of(
        parts_of(b, '/'),
    )
}

fn path_steps(p: &str) -> (r: Vec<String>)
    ensures
        views(r@) == steps_of(parts_of(p@, '/')),
{
    let parts = split(p, '/');
    let mut out: Vec<String> = Vec::new();
    let mut i: usize = 0;
    assert(views(out@) =~= steps_of(views(parts@).take(0)));
    while i < parts.len()
        invariant
            i <= parts@.len(),
            views(out@) == steps_of(views(parts@).take(i as int)),
        decreases parts@.len() - i,
    {
        let ghost before = views(out@);
        assert(views(parts@).take(i + 1).drop_last() =~= views(parts@).take(i as int));
        let part = parts[i].as_str();
        if !part.is_empty() && (i == 0 || !same(part, ".")) {
            out.push(parts[i].clone());
            assert(views(out@) =~= before.push(parts@[i as int]@));
        }
        i = i + 1;
    }
    assert(views(parts@).take(parts@.len() as int) =~= views(parts@));
    out
}

/// Whether two paths are the same step by step.
pub fn same_path(a: &str, b: &str) -> (r: bool)
    ensures
        r == same_steps(a@, b@),
{
    if starts_with_text(a, "/") != starts_with_text(b, "/") {
        return false;
    }
    let x = path_steps(a);
    let y = path_steps(b);
    if x.len() != y.len() {
        assert(views(x@).len() != views(y@).len());
        return false;
    }
    let mut i: usize = 0;
    while i < x.len()
        invariant
            i <= x@.len() == y@.len(),
            views(x@) == steps_of(parts_of(a@, '/')),
            views(y@) == steps_of(parts_of(b@, '/')),
            forall|j: int| 0 <= j < i ==> #[trigger] views(x@)[j] == views(y@)[j],
        decreases x@.len() - i,
    {
        if !same(x[i].as_str(), y[i].as_str()) {
            assert(views(x@)[i as int] != views(y@)[i as int]);
            return false;
        }
        i = i + 1;
    }
    assert(views(x@) =~= views(y@));
    true
}

/// The position of the last `c`, or -1 where there is none.
pub open spec fn last_place(s: Seq<char>, c: char) -> int
    decreases s.len(),
{
    if s.len() == 0 {
        -1
    } else if s.last() == c {
        s.len() - 1
    } else {
        last_place(s.drop_last(), c)
    }
}

/// The extension of a file's name: what follows its last dot, where something stands in front of that.
pub open spec fn extension(name: Seq<char>) -> Option<Seq<char>> {
    let at = last_place(name, '.');
    if at <= 0 || name == ".."@ {
        None
    } else {
        Some(name.skip(at + 1))
    }
}

fn last_place_of(x: &Vec<char>, c: char) -> (r: Option<usize>)
    ensures
        match r {
            Some(i) => last_place(x@, c) == i && i < x@.len(),
            None => last_place(x@, c) == -1,
        },
{
    let mut n: usize = x.len();
    assert(x@.take(n as int) =~= x@);
    while n > 0
        invariant
            n <= x@.len(),
            last_place(x@.take(n as int), c) == last_place(x@, c),
        decreases n,
    {
        if x[n - 1] == c {
            return Some(n - 1);
        }
        assert(x@.take(n as int).drop_last() =~= x@.take(n - 1));
        n = n - 1;
    }
    None
}

pub fn extension_of(name: &str) -> (r: Option<String>)
    ensures
        crate::wire::opt_view(r) == extension(name@),
{
    let x = chars_of(name);
    match last_place_of(&x, '.') {
        Some(i) => {
            if i == 0 || same(name, "..") {
                return None;
            }
            let n: usize = x.len();
            let e = string_range(&x, i + 1, n);
            assert(e@ =~= name@.skip(i + 1));
            Some(e)
        },
        None => None,
    }
}

/// The directory that a resolved path stands in.
pub open spec fn parent(path: Seq<char>) -> Seq<char> {
    let at = last_place(path, '/');
    if at < 0 {
        Seq::empty()
    } else if at == 0 {
        "/"@
    } else {
        path.take(at)
    }
}

/// The path of a file with a name beside another file.
pub fn beside(path: &str, name: &str) -> (r: String)
    ensures
        r@ == path_join(parent(path@), name@),
{
    let x = chars_of(path);
    let dir = match last_place_of(&x, '/') {
        Some(i) => if i == 0 {
            "/".to_string()
        } else {
            string_range(&x, 0, i)
        },
        None => String::new(),
    };
    assert(dir@ =~= parent(path@));
    join_path(dir.as_str(), name)
}

proof fn lemma_last_place(a: Seq<char>, b: Seq<char>, c: char)
    requires
        forall|i: int| 0 <= i < b.len() ==> #[trigger] b[i] != c,
    ensures
        last_place(a.push(c) + b, c) == a.len(),
    decreases b.len(),
{
    let s = a.push(c) + b;
    if b.len() > 0 {
        assert(s.drop_last() =~= a.push(c) + b.drop_last());
        assert(s.last() == b[b.len() - 1]);
        assert forall|i: int| 0 <= i < b.drop_last().len() implies #[trigger] b.drop_last()[i] != c by {
            assert(b.drop_last()[i] == b[i]);
        }
        lemma_last_place(a, b.drop_last(), c);
    } else {
        assert(s =~= a.push(c));
        assert(s.last() == c);
    }
}

/// The extension of a name is what stands behind its last dot.
pub proof fn lemma_extension(stem: Seq<char>, e: Seq<char>)
    requires
        stem.len() > 0,
        e.len() > 0,
        forall|i: int| 0 <= i < e.len() ==> #[trigger] e[i] != '.',
    ensures
        extension(stem.push('.') + e) == Some(e),
{
    let s = stem.push('.') + e;
    lemma_last_place(stem, e, '.');
    assert(s.skip(stem.len() as int + 1) =~= e);
    reveal_strlit("..");
    if s == ".."@ {
        assert(s.last() == e[e.len() - 1]);
        assert(s[1] == '.');
    }
}

/// The directory of a file is what stands before its last slash.
pub proof fn lemma_directory(dir: Seq<char>, name: Seq<char>)
    requires
        dir.len() > 0,
        forall|i: int| 0 <= i < name.len() ==> #[trigger] name[i] != '/',
    ensures
        parent(dir.push('/') + name) == dir,
{
    let s = dir.push('/') + name;
    lemma_last_place(dir, name, '/');
    assert(s.take(dir.len() as int) =~= dir);
}

/// A path below another is the other, one slash, and the rest; an absolute path stands for itself.
pub proof fn lemma_joined_paths(base: Seq<char>, rel: Seq<char>)
    ensures
        rel.len() > 0 && rel[0] == '/' ==> path_join(base, rel) == rel,
        base.len() > 0 && base.last() != '/' && !(rel.len() > 0 && rel[0] == '/') ==> path_join(base, rel) == base
            + seq!['/'] + rel,
        base.len() > 0 && base.last() == '/' && !(rel.len() > 0 && rel[0] == '/') ==> path_join(base, rel) == base
            + rel,
        !(rel.len() > 0 && rel[0] == '/') ==> path_join(Seq::empty(), rel) == rel,
{
    assert(base.push('/') + rel =~= base + seq!['/'] + rel);
    assert(Seq::<char>::empty() + rel =~= rel);
}

/// A path as Windows sees it: below the drive `Z:`, with backslashes for slashes and every other letter as it
/// is.
pub proof fn lemma_windows_path(unix: Seq<char>, i: int)
    requires
        0 <= i < unix.len(),
    ensures
        nt_path(unix).len() == unix.len() + 6,
        nt_path(unix).take(6) == seq!['\\', '?', '?', '\\', 'Z', ':'],
        nt_path(unix)[i + 6] == (if unix[i] == '/' {
            '\\'
        } else {
            unix[i]
        }),
{
    reveal_strlit("\\??\\Z:");
    assert(nt_path(unix).take(6) =~= seq!['\\', '?', '?', '\\', 'Z', ':']);
}

} // verus!
