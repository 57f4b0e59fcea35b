//! Protection of saved games: what is copied before a launch and put back after it.
use crate::discovery::Present;
use crate::fileops::{op_views, push_op, push_ops, FileOp, Op};
use crate::paths::{beside, extension, extension_of, join_path, last_place, parent, path_join};
use crate::text::{chars_of, push_decimal, decimal, views};
use vstd::prelude::*;

verus! {

/// Where programs keep saved games, below the user's directory.
pub open spec fn scan_names() -> Seq<Seq<char>> {
    seq!["AppData/Roaming"@, "AppData/Local"@, "AppData/LocalLow"@, "Documents"@]
}

pub fn save_scan_dirs() -> (r: Vec<String>)
    ensures
        views(r@) == scan_names(),
{
    let mut v: Vec<String> = Vec::new();
    v.push("AppData/Roaming".to_string());
    v.push("AppData/Local".to_string());
    v.push("AppData/LocalLow".to_string());
    v.push("Documents".to_string());
    assert(views(v@) =~= scan_names());
    v
}

/// The directory of the user in a prefix.
pub open spec fn user_dir(pfx: Seq<char>) -> Seq<char> {
    path_join(pfx, "drive_c/users/steamuser"@)
}

/// Where the copies of saved games are kept: beside the prefix.
pub open spec fn backup_dir(pfx: Seq<char>) -> Seq<char> {
    path_join(parent(pfx), "save_backup"@)
}

/// The directory of the user in a prefix, and where the copies of saved games are kept.
pub fn save_places(pfx: &str) -> (r: (String, String))
    ensures
        r.0@ == user_dir(pfx@),
        r.1@ == backup_dir(pfx@),
{
    (join_path(pfx, "drive_c/users/steamuser"), beside(pfx, "save_backup"))
}

/// A letter of the Latin alphabet in lower case.
pub open spec fn small(c: char) -> char {
    if 'A' <= c <= 'Z' {
        (c as u32 + 32) as char
    } else {
        c
    }
}

/// Two texts are the same but for the case of Latin letters.
pub open spec fn same_but_case(a: Seq<char>, b: Seq<char>) -> bool {
    a.len() == b.len() && forall|i: int| 0 <= i < a.len() ==> small(#[trigger] a[i]) == small(b[i])
}

pub fn small_char(c: char) -> (r: char)
    ensures
        r == small(c),
{
    if 'A' <= c && c <= 'Z' {
        (c as u8 + 32) as char
    } else {
        c
    }
}

/// Whether two texts are the same but for the case of Latin letters.
pub fn eq_ignore_case(a: &str, b: &str) -> (r: bool)
    ensures
        r == same_but_case(a@, b@),
{
    let x = chars_of(a);
    let y = chars_of(b);
    if x.len() != y.len() {
        return false;
    }
    let mut i: usize = 0;
    while i < x.len()
        invariant
            i <= x@.len() == y@.len(),
            x@ == a@,
            y@ == b@,
            forall|j: int| 0 <= j < i ==> small(#[trigger] x@[j]) == small(y@[j]),
        decreases x@.len() - i,
    {
        if small_char(x[i]) != small_char(y[i]) {
            return false;
        }
        i = i + 1;
    }
    true
}

/// What was found below a directory, in the order of a walk: a directory stands before what it holds.
pub struct Found {
    /// The path below the directory.
    pub path: String,
    pub dir: bool,
    pub size: u64,
}

/// A directory among those in which saved games are kept.
pub struct SaveDir {
    /// In which of the places it stands.
    pub place: String,
    pub name: String,
    pub dir: bool,
    pub found: Vec<Found>,
}

/// How many files were found.
pub open spec fn files_in(found: Seq<Found>) -> nat
    decreases found.len(),
{
    if found.len() == 0 {
        0
    } else {
        files_in(found.drop_last()) + if found.last().dir {
            0nat
        } else {
            1nat
        }
    }
}

/// How many bytes the files have.
pub open spec fn bytes_in_files(found: Seq<Found>) -> nat
    decreases found.len(),
{
    if found.len() == 0 {
        0
    } else {
        bytes_in_files(found.drop_last()) + if found.last().dir {
            0nat
        } else {
            found.last().size as nat
        }
    }
}

/// A number cut to what 64 bits hold.
pub open spec fn capped64(n: nat) -> u64 {
    if n <= u64::MAX {
        n as u64
    } else {
        u64::MAX
    }
}

fn add_capped(a: u64, b: u64) -> (r: u64)
    ensures
        r == capped64((a + b) as nat),
{
    if a <= u64::MAX - b {
        a + b
    } else {
        u64::MAX
    }
}

/// How many files were found, and how many bytes they have.
pub fn count_files(found: &Vec<Found>) -> (r: (u64, u64))
    ensures
        r.0 == capped64(files_in(found@)),
        r.1 == capped64(bytes_in_files(found@)),
{
    let mut files: u64 = 0;
    let mut bytes: u64 = 0;
    let mut i: usize = 0;
    assert(found@.take(0) =~= Seq::<Found>::empty());
    while i < found.len()
        invariant
            i <= found@.len(),
            files == capped64(files_in(found@.take(i as int))),
            bytes == capped64(bytes_in_files(found@.take(i as int))),
        decreases found@.len() - i,
    {
        assert(found@.take(i + 1).drop_last() =~= found@.take(i as int));
        if !found[i].dir {
            files = add_capped(files, 1);
            bytes = add_capped(bytes, found[i].size);
        }
        i = i + 1;
    }
    assert(found@.take(found@.len() as int) =~= found@);
    (files, bytes)
}

/// A directory that may hold saved games: it is none of the system's, and there is a file in it.
pub open spec fn holds_saves(d: SaveDir) -> bool {
    !same_but_case(d.name@, "Microsoft"@) && !same_but_case(d.name@, "Temp"@) && d.dir && files_in(
        d.found@,
    ) > 0
}

/// The copy of what was found.
pub open spec fn found_op(from: Seq<char>, to: Seq<char>, f: Found) -> Op {
    if f.dir {
        Op::MakeDir { path: path_join(to, f.path@) }
    } else {
        Op::Copy { from: path_join(from, f.path@), to: path_join(to, f.path@) }
    }
}

/// The copy of a directory, file by file.
pub open spec fn copy_ops(from: Seq<char>, to: Seq<char>, found: Seq<Found>) -> Seq<Op> {
    seq![Op::MakeDir { path: to }] + found.map_values(|f: Found| found_op(from, to, f))
}

fn push_copies(out: &mut Vec<FileOp>, from: &str, to: &str, found: &Vec<Found>)
    ensures
        op_views(final(out)@) == op_views(old(out)@) + copy_ops(from@, to@, found@),
{
    push_op(out, FileOp::MakeDir { path: to.to_string() });
    let mut i: usize = 0;
    assert(op_views(out@) =~= op_views(old(out)@) + copy_ops(from@, to@, found@.take(0)));
    while i < found.len()
        invariant
            i <= found@.len(),
            op_views(out@) == op_views(old(out)@) + copy_ops(from@, to@, found@.take(i as int)),
        decreases found@.len() - i,
    {
        let p = found[i].path.as_str();
        if found[i].dir {
            push_op(out, FileOp::MakeDir { path: join_path(to, p) });
        } else {
            push_op(out, FileOp::Copy { from: join_path(from, p), to: join_path(to, p) });
        }
        i = i + 1;
        assert(copy_ops(from@, to@, found@.take(i as int)) =~= copy_ops(
            from@,
            to@,
            found@.take(i - 1),
        ).push(found_op(from@, to@, found@[i - 1])));
        assert(op_views(out@) =~= op_views(old(out)@) + copy_ops(
            from@,
            to@,
            found@.take(i as int),
        ));
    }
    assert(found@.take(found@.len() as int) =~= found@);
}

/// A directory below another by place and name.
pub open spec fn placed(base: Seq<char>, d: SaveDir) -> Seq<char> {
    path_join(path_join(base, d.place@), d.name@)
}

fn place_of(base: &str, d: &SaveDir) -> (r: String)
    ensures
        r@ == placed(base@, *d),
{
    let p = join_path(base, d.place.as_str());
    join_path(p.as_str(), d.name.as_str())
}

/// The copies that are made before a launch.
pub open spec fn snapshot_ops(user: Seq<char>, backup: Seq<char>, dirs: Seq<SaveDir>) -> Seq<Op>
    decreases dirs.len(),
{
    if dirs.len() == 0 {
        Seq::empty()
    } else {
        let before = snapshot_ops(user, backup, dirs.drop_last());
        let d = dirs.last();
        if holds_saves(d) {
            before + copy_ops(placed(user, d), placed(backup, d), d.found@)
        } else {
            before
        }
    }
}

/// How many files are copied before a launch.
pub open spec fn snapshot_files(dirs: Seq<SaveDir>) -> nat
    decreases dirs.len(),
{
    if dirs.len() == 0 {
        0
    } else {
        snapshot_files(dirs.drop_last()) + if holds_saves(dirs.last()) {
            files_in(dirs.last().found@)
        } else {
            0
        }
    }
}

/// How many bytes are copied before a launch.
pub open spec fn snapshot_bytes(dirs: Seq<SaveDir>) -> nat
    decreases dirs.len(),
{
    if dirs.len() == 0 {
        0
    } else {
        snapshot_bytes(dirs.drop_last()) + if holds_saves(dirs.last()) {
            bytes_in_files(dirs.last().found@)
        } else {
            0
        }
    }
}

/// The note beside a snapshot.
pub open spec fn manifest_text(files: u64, bytes: u64) -> Seq<char> {
    decimal(files as nat) + " files, "@ + decimal(bytes as nat) + " bytes\n"@
}

/// Plans the copies of saved games that are made before a launch; nothing where there are none. With the
/// copies comes a note of how much they are.
pub fn snapshot_save_data(user: &str, backup: &str, dirs: &Vec<SaveDir>) -> (r: Option<
    (Vec<FileOp>, String),
>)
    ensures
        match r {
            Some((ops, manifest)) => snapshot_files(dirs@) > 0 && op_views(ops@) == snapshot_ops(
                user@,
                backup@,
                dirs@,
            ) && manifest@ == manifest_text(
                capped64(snapshot_files(dirs@)),
                capped64(snapshot_bytes(dirs@)),
            ),
            None => snapshot_files(dirs@) == 0,
        },
{
    let mut out: Vec<FileOp> = Vec::new();
    let mut files: u64 = 0;
    let mut bytes: u64 = 0;
    let mut i: usize = 0;
    assert(dirs@.take(0) =~= Seq::<SaveDir>::empty());
    assert(op_views(out@) =~= Seq::<Op>::empty());
    while i < dirs.len()
        invariant
            i <= dirs@.len(),
            op_views(out@) == snapshot_ops(user@, backup@, dirs@.take(i as int)),
            files == capped64(snapshot_files(dirs@.take(i as int))),
            bytes == capped64(snapshot_bytes(dirs@.take(i as int))),
        decreases dirs@.len() - i,
    {
        assert(dirs@.take(i + 1).drop_last() =~= dirs@.take(i as int));
        let d = &dirs[i];
        let (f, b): (u64, u64) = count_files(&d.found);
        let name = d.name.as_str();
        if !eq_ignore_case(name, "Microsoft") && !eq_ignore_case(name, "Temp") && d.dir && f > 0 {
            let from = place_of(user, d);
            let to = place_of(backup, d);
            push_copies(&mut out, from.as_str(), to.as_str(), &d.found);
            files = add_capped(files, f);
            bytes = add_capped(bytes, b);
        }
        i = i + 1;
    }
    assert(dirs@.take(dirs@.len() as int) =~= dirs@);
    if files == 0 {
        return None;
    }
    let mut manifest = String::new();
    push_decimal(&mut manifest, files);
    manifest.append(" files, ");
    push_decimal(&mut manifest, bytes);
    manifest.append(" bytes\n");
    assert(manifest@ =~= manifest_text(files, bytes));
    Some((out, manifest))
}

/// What is put back after a launch: the files of a copy that are gone.
pub open spec fn restore_ops(
    backup: Seq<char>,
    original: Seq<char>,
    found: Seq<Found>,
    present: Set<Seq<char>>,
) -> Seq<Op>
    decreases found.len(),
{
    if found.len() == 0 {
        Seq::empty()
    } else {
        let before = restore_ops(backup, original, found.drop_last(), present);
        let f = found.last();
        if !f.dir && !present.contains(path_join(original, f.path@)) {
            before.push(
                Op::Restore {
                    from: path_join(backup, f.path@),
                    to: path_join(original, f.path@),
                },
            )
        } else {
            before
        }
    }
}

/// How many files of a copy are still there.
pub open spec fn still_there(
    original: Seq<char>,
    found: Seq<Found>,
    present: Set<Seq<char>>,
) -> nat
    decreases found.len(),
{
    if found.len() == 0 {
        0
    } else {
        still_there(original, found.drop_last(), present) + if !found.last().dir
            && present.contains(path_join(original, found.last().path@)) {
            1nat
        } else {
            0nat
        }
    }
}

/// Plans what is put back after a launch, and counts the files that are still there.
pub fn restore_missing_files(
    backup: &str,
    original: &str,
    found: &Vec<Found>,
    present: &Present,
) -> (r: (Vec<FileOp>, u64))
    ensures
        op_views(r.0@) == restore_ops(backup@, original@, found@, present@),
        r.1 == capped64(still_there(original@, found@, present@)),
{
    let mut out: Vec<FileOp> = Vec::new();
    let mut unchanged: u64 = 0;
    let mut i: usize = 0;
    assert(found@.take(0) =~= Seq::<Found>::empty());
    assert(op_views(out@) =~= Seq::<Op>::empty());
    while i < found.len()
        invariant
            i <= found@.len(),
            op_views(out@) == restore_ops(backup@, original@, found@.take(i as int), present@),
            unchanged == capped64(still_there(original@, found@.take(i as int), present@)),
        decreases found@.len() - i,
    {
        assert(found@.take(i + 1).drop_last() =~= found@.take(i as int));
        if !found[i].dir {
            let p = found[i].path.as_str();
            let to = join_path(original, p);
            if present.holds(to.as_str()) {
                unchanged = add_capped(unchanged, 1);
            } else {
                push_op(&mut out, FileOp::Restore { from: join_path(backup, p), to });
            }
        }
        i = i + 1;
    }
    assert(found@.take(found@.len() as int) =~= found@);
    (out, unchanged)
}

/// What is put back after a launch of all directories with saved games.
pub open spec fn restore_all(
    user: Seq<char>,
    backup: Seq<char>,
    dirs: Seq<SaveDir>,
    present: Set<Seq<char>>,
) -> Seq<Op>
    decreases dirs.len(),
{
    if dirs.len() == 0 {
        Seq::empty()
    } else {
        let before = restore_all(user, backup, dirs.drop_last(), present);
        let d = dirs.last();
        if d.dir {
            before + restore_ops(placed(backup, d), placed(user, d), d.found@, present)
        } else {
            before
        }
    }
}

/// How many files of all directories with saved games are still there.
pub open spec fn all_still_there(user: Seq<char>, dirs: Seq<SaveDir>, present: Set<Seq<char>>) -> nat
    decreases dirs.len(),
{
    if dirs.len() == 0 {
        0
    } else {
        all_still_there(user, dirs.drop_last(), present) + if dirs.last().dir {
            still_there(placed(user, dirs.last()), dirs.last().found@, present)
        } else {
            0
        }
    }
}

/// Plans what is put back after a launch, and counts the files that are still there. `dirs` is what the
/// copy holds, `present` tells which of its files are there.
pub fn restore_save_data(
    user: &str,
    backup: &str,
    dirs: &Vec<SaveDir>,
    present: &Present,
) -> (r: (Vec<FileOp>, u64))
    ensures
        op_views(r.0@) == restore_all(user@, backup@, dirs@, present@),
        r.1 == capped64(all_still_there(user@, dirs@, present@)),
{
    let mut out: Vec<FileOp> = Vec::new();
    let mut unchanged: u64 = 0;
    let mut i: usize = 0;
    assert(dirs@.take(0) =~= Seq::<SaveDir>::empty());
    assert(op_views(out@) =~= Seq::<Op>::empty());
    while i < dirs.len()
        invariant
            i <= dirs@.len(),
            op_views(out@) == restore_all(user@, backup@, dirs@.take(i as int), present@),
            unchanged == capped64(all_still_there(user@, dirs@.take(i as int), present@)),
        decreases dirs@.len() - i,
    {
        assert(dirs@.take(i + 1).drop_last() =~= dirs@.take(i as int));
        let d = &dirs[i];
        if d.dir {
            let from = place_of(backup, d);
            let to = place_of(user, d);
            let (more, n): (Vec<FileOp>, u64) = restore_missing_files(
                from.as_str(),
                to.as_str(),
                &d.found,
                present,
            );
            push_ops(&mut out, more);
            unchanged = add_capped(unchanged, n);
        }
        i = i + 1;
    }
    assert(dirs@.take(dirs@.len() as int) =~= dirs@);
    (out, unchanged)
}

/// What is put back never overwrites a file that is there.
pub proof fn lemma_restore_never_overwrites(
    backup: Seq<char>,
    original: Seq<char>,
    found: Seq<Found>,
    present: Set<Seq<char>>,
)
    ensures
        forall|i: int|
            0 <= i < restore_ops(backup, original, found, present).len() ==> (
            #[trigger] restore_ops(backup, original, found, present)[i] matches Op::Restore { to, .. }
                && !present.contains(to)),
    decreases found.len(),
{
    if found.len() > 0 {
        lemma_restore_never_overwrites(backup, original, found.drop_last(), present);
        let before = restore_ops(backup, original, found.drop_last(), present);
        let all = restore_ops(backup, original, found, present);
        assert forall|i: int| 0 <= i < all.len() implies (#[trigger] all[i] matches Op::Restore {
            to,
            ..
        } && !present.contains(to)) by {
            if i < before.len() {
                assert(all[i] == before[i]);
            }
        }
    }
}

/// Every file of a copy that is gone is put back.
pub proof fn lemma_missing_files_restored(
    backup: Seq<char>,
    original: Seq<char>,
    found: Seq<Found>,
    present: Set<Seq<char>>,
    k: int,
)
    requires
        0 <= k < found.len(),
        !found[k].dir,
        !present.contains(path_join(original, found[k].path@)),
    ensures
        restore_ops(backup, original, found, present).contains(
            Op::Restore {
                from: path_join(backup, found[k].path@),
                to: path_join(original, found[k].path@),
            },
        ),
    decreases found.len(),
{
    let op = Op::Restore {
        from: path_join(backup, found[k].path@),
        to: path_join(original, found[k].path@),
    };
    let before = restore_ops(backup, original, found.drop_last(), present);
    let all = restore_ops(backup, original, found, present);
    if k == found.len() - 1 {
        assert(all.last() == op);
        assert(all[all.len() - 1] == op);
    } else {
        assert(found.drop_last()[k] == found[k]);
        lemma_missing_files_restored(backup, original, found.drop_last(), present, k);
        let i = choose|i: int| 0 <= i < before.len() && before[i] == op;
        assert(all[i] == op);
    }
}

/// Every file of a directory with saved games is in the copy that is made before a launch.
pub proof fn lemma_saves_are_copied(from: Seq<char>, to: Seq<char>, found: Seq<Found>, k: int)
    requires
        0 <= k < found.len(),
        !found[k].dir,
    ensures
        copy_ops(from, to, found).contains(
            Op::Copy { from: path_join(from, found[k].path@), to: path_join(to, found[k].path@) },
        ),
{
    assert(copy_ops(from, to, found)[k + 1] == found_op(from, to, found[k]));
}

/// The copy is kept where something was put back, and cleaned up where nothing was missing.
pub fn backup_done_with(restored: u64) -> (r: bool)
    ensures
        r == (restored == 0),
{
    restored == 0
}

/// A text that names something below a directory.
pub open spec fn is_relative(s: Seq<char>) -> bool {
    s.len() > 0 && s[0] != '/'
}

/// A directory as a walk finds it: its place, its name and what it holds are named from above.
pub open spec fn is_walked(d: SaveDir) -> bool {
    &&& is_relative(d.place@)
    &&& is_relative(d.name@)
    &&& forall|k: int| 0 <= k < d.found@.len() ==> is_relative((#[trigger] d.found@[k]).path@)
}

pub open spec fn all_walked(dirs: Seq<SaveDir>) -> bool {
    forall|i: int| 0 <= i < dirs.len() ==> is_walked(#[trigger] dirs[i])
}

/// The path of a saved file, below the user's directory and below the copy alike.
pub open spec fn save_path(d: SaveDir, k: int) -> Seq<char> {
    path_join(path_join(d.place@, d.name@), d.found@[k].path@)
}

/// There is a saved file at these positions.
pub open spec fn is_save(dirs: Seq<SaveDir>, i: int, k: int) -> bool {
    0 <= i < dirs.len() && dirs[i].dir && 0 <= k < dirs[i].found@.len() && !dirs[i].found@[k].dir
}

/// Nothing stands below both directories.
pub open spec fn are_apart(a: Seq<char>, b: Seq<char>) -> bool {
    forall|x: Seq<char>, y: Seq<char>|
        is_relative(x) && is_relative(y) ==> #[trigger] path_join(a, x) != #[trigger] path_join(b, y)
}

/// The contents of files after a piece of work that succeeds, of which only copies count here.
pub open spec fn after_op(files: Map<Seq<char>, Seq<u8>>, op: Op) -> Map<Seq<char>, Seq<u8>> {
    match op {
        Op::Copy { from, to } => if files.contains_key(from) {
            files.insert(to, files[from])
        } else {
            files
        },
        Op::Restore { from, to } => if files.contains_key(from) {
            files.insert(to, files[from])
        } else {
            files
        },
        _ => files,
    }
}

/// The contents of files after work that succeeds.
pub open spec fn after_ops(files: Map<Seq<char>, Seq<u8>>, ops: Seq<Op>) -> Map<Seq<char>, Seq<u8>>
    decreases ops.len(),
{
    if ops.len() == 0 {
        files
    } else {
        after_op(after_ops(files, ops.drop_last()), ops.last())
    }
}

/// The copy of a file from below one directory to below another.
spec fn carries(op: Op, src: Seq<char>, dst: Seq<char>, path: Seq<char>) -> bool {
    ||| op == (Op::Copy { from: path_join(src, path), to: path_join(dst, path) })
    ||| op == (Op::Restore { from: path_join(src, path), to: path_join(dst, path) })
}

/// All copies are from below one directory to below another.
spec fn is_carrying(ops: Seq<Op>, src: Seq<char>, dst: Seq<char>) -> bool {
    forall|j: int|
        0 <= j < ops.len() ==> #[trigger] ops[j] is MakeDir || exists|path: Seq<char>|
            is_relative(path) && #[trigger] carries(ops[j], src, dst, path)
}

spec fn writes(op: Op, path: Seq<char>) -> bool {
    match op {
        Op::Copy { to, .. } => to == path,
        Op::Restore { to, .. } => to == path,
        _ => false,
    }
}

proof fn lemma_join_in_two(a: Seq<char>, b: Seq<char>, c: Seq<char>)
    requires
        is_relative(b),
        is_relative(c),
    ensures
        path_join(path_join(a, b), c) == path_join(a, path_join(b, c)),
        is_relative(path_join(b, c)),
{
    let ab = path_join(a, b);
    assert(ab.last() == b.last());
    assert(path_join(path_join(a, b), c) =~= path_join(a, path_join(b, c)));
}

proof fn lemma_join_once(base: Seq<char>, x: Seq<char>, y: Seq<char>)
    requires
        is_relative(x),
        is_relative(y),
        path_join(base, x) == path_join(base, y),
    ensures
        x == y,
{
    let n = path_join(base, x).len() - x.len();
    assert(path_join(base, x).skip(n) =~= x);
    assert(path_join(base, y).skip(n) =~= y);
}

proof fn lemma_save_path(base: Seq<char>, d: SaveDir, k: int)
    requires
        is_walked(d),
        0 <= k < d.found@.len(),
    ensures
        path_join(placed(base, d), d.found@[k].path@) == path_join(base, save_path(d, k)),
        is_relative(save_path(d, k)),
{
    let f = d.found@[k].path@;
    assert(is_relative(f));
    lemma_join_in_two(base, d.place@, d.name@);
    let both = path_join(d.place@, d.name@);
    lemma_join_in_two(base, both, f);
    lemma_join_in_two(d.place@, d.name@, f);
}

proof fn lemma_unwritten(files: Map<Seq<char>, Seq<u8>>, ops: Seq<Op>, path: Seq<char>)
    requires
        forall|j: int| 0 <= j < ops.len() ==> !writes(#[trigger] ops[j], path),
    ensures
        after_ops(files, ops).contains_key(path) == files.contains_key(path),
        after_ops(files, ops)[path] == files[path],
    decreases ops.len(),
{
    if ops.len() > 0 {
        assert(!writes(ops[ops.len() - 1], path));
        assert forall|j: int| 0 <= j < ops.drop_last().len() implies !writes(
            #[trigger] ops.drop_last()[j],
            path,
        ) by {
            assert(!writes(ops[j], path));
        }
        lemma_unwritten(files, ops.drop_last(), path);
    }
}

proof fn lemma_source_unwritten(
    files: Map<Seq<char>, Seq<u8>>,
    ops: Seq<Op>,
    src: Seq<char>,
    dst: Seq<char>,
    path: Seq<char>,
)
    requires
        is_carrying(ops, src, dst),
        are_apart(src, dst),
        is_relative(path),
    ensures
        after_ops(files, ops).contains_key(path_join(src, path)) == files.contains_key(
            path_join(src, path),
        ),
        after_ops(files, ops)[path_join(src, path)] == files[path_join(src, path)],
{
    assert forall|j: int| 0 <= j < ops.len() implies !writes(
        #[trigger] ops[j],
        path_join(src, path),
    ) by {
        if !(ops[j] is MakeDir) {
            let other = choose|other: Seq<char>|
                is_relative(other) && #[trigger] carries(ops[j], src, dst, other);
            assert(path_join(src, path) != path_join(dst, other));
        }
    }
    lemma_unwritten(files, ops, path_join(src, path));
}

proof fn lemma_carried(
    files: Map<Seq<char>, Seq<u8>>,
    ops: Seq<Op>,
    src: Seq<char>,
    dst: Seq<char>,
    path: Seq<char>,
    i: int,
)
    requires
        is_carrying(ops, src, dst),
        are_apart(src, dst),
        is_relative(path),
        0 <= i < ops.len(),
        carries(ops[i], src, dst, path),
        files.contains_key(path_join(src, path)),
    ensures
        after_ops(files, ops).contains_key(path_join(dst, path)),
        after_ops(files, ops)[path_join(dst, path)] == files[path_join(src, path)],
    decreases ops.len(),
{
    let d = ops.drop_last();
    let last = ops[ops.len() - 1];
    assert forall|j: int| 0 <= j < d.len() implies #[trigger] d[j] is MakeDir || exists|p: Seq<char>|
        is_relative(p) && #[trigger] carries(d[j], src, dst, p) by {
        assert(d[j] == ops[j]);
    }
    lemma_source_unwritten(files, d, src, dst, path);
    if i < d.len() {
        lemma_carried(files, d, src, dst, path, i);
    }
    if !(last is MakeDir) {
        let other = choose|other: Seq<char>|
            is_relative(other) && #[trigger] carries(last, src, dst, other);
        lemma_source_unwritten(files, d, src, dst, other);
        if path_join(dst, other) == path_join(dst, path) {
            lemma_join_once(dst, other, path);
        }
    }
}

proof fn lemma_snapshot_carries(user: Seq<char>, backup: Seq<char>, dirs: Seq<SaveDir>)
    requires
        all_walked(dirs),
    ensures
        is_carrying(snapshot_ops(user, backup, dirs), user, backup),
    decreases dirs.len(),
{
    if dirs.len() > 0 {
        let rest = dirs.drop_last();
        assert forall|i: int| 0 <= i < rest.len() implies is_walked(#[trigger] rest[i]) by {
            assert(is_walked(dirs[i]));
        }
        lemma_snapshot_carries(user, backup, rest);
        let d = dirs[dirs.len() - 1];
        assert(is_walked(d));
        if holds_saves(d) {
            let before = snapshot_ops(user, backup, rest);
            let more = copy_ops(placed(user, d), placed(backup, d), d.found@);
            let all = snapshot_ops(user, backup, dirs);
            assert forall|j: int| 0 <= j < all.len() implies #[trigger] all[j] is MakeDir
                || exists|path: Seq<char>|
                is_relative(path) && #[trigger] carries(all[j], user, backup, path) by {
                if j < before.len() {
                    assert(all[j] == before[j]);
                } else if j > before.len() {
                    let k = j - before.len() - 1;
                    assert(all[j] == more[k + 1]);
                    assert(more[k + 1] == found_op(placed(user, d), placed(backup, d), d.found@[k]));
                    if !d.found@[k].dir {
                        lemma_save_path(user, d, k);
                        lemma_save_path(backup, d, k);
                        assert(carries(all[j], user, backup, save_path(d, k)));
                    }
                } else {
                    assert(all[j] == more[0]);
                }
            }
        }
    }
}

proof fn lemma_snapshot_has(user: Seq<char>, backup: Seq<char>, dirs: Seq<SaveDir>, i: int, k: int) -> (j:
    int)
    requires
        all_walked(dirs),
        is_save(dirs, i, k),
        holds_saves(dirs[i]),
    ensures
        0 <= j < snapshot_ops(user, backup, dirs).len(),
        carries(snapshot_ops(user, backup, dirs)[j], user, backup, save_path(dirs[i], k)),
    decreases dirs.len(),
{
    let rest = dirs.drop_last();
    let before = snapshot_ops(user, backup, rest);
    let all = snapshot_ops(user, backup, dirs);
    if i == dirs.len() - 1 {
        let d = dirs[i];
        let more = copy_ops(placed(user, d), placed(backup, d), d.found@);
        assert(is_walked(d));
        lemma_save_path(user, d, k);
        lemma_save_path(backup, d, k);
        assert(more[k + 1] == found_op(placed(user, d), placed(backup, d), d.found@[k]));
        assert(all[before.len() + k + 1] == more[k + 1]);
        before.len() + k + 1
    } else {
        assert forall|n: int| 0 <= n < rest.len() implies is_walked(#[trigger] rest[n]) by {
            assert(is_walked(dirs[n]));
        }
        assert(rest[i] == dirs[i]);
        let j = lemma_snapshot_has(user, backup, rest, i, k);
        assert(all[j] == before[j]);
        j
    }
}

/// A piece of work puts back the saved file at these positions, which is gone.
spec fn puts_back(
    op: Op,
    user: Seq<char>,
    backup: Seq<char>,
    dirs: Seq<SaveDir>,
    present: Set<Seq<char>>,
    i: int,
    k: int,
) -> bool {
    &&& is_save(dirs, i, k)
    &&& !present.contains(path_join(user, save_path(dirs[i], k)))
    &&& op == (Op::Restore {
        from: path_join(backup, save_path(dirs[i], k)),
        to: path_join(user, save_path(dirs[i], k)),
    })
}

proof fn lemma_restore_origin(
    from: Seq<char>,
    to: Seq<char>,
    found: Seq<Found>,
    present: Set<Seq<char>>,
    j: int,
) -> (k: int)
    requires
        0 <= j < restore_ops(from, to, found, present).len(),
    ensures
        0 <= k < found.len(),
        !found[k].dir,
        !present.contains(path_join(to, found[k].path@)),
        restore_ops(from, to, found, present)[j] == (Op::Restore {
            from: path_join(from, found[k].path@),
            to: path_join(to, found[k].path@),
        }),
    decreases found.len(),
{
    let before = restore_ops(from, to, found.drop_last(), present);
    if j < before.len() {
        assert(restore_ops(from, to, found, present)[j] == before[j]);
        lemma_restore_origin(from, to, found.drop_last(), present, j)
    } else {
        found.len() - 1
    }
}

proof fn lemma_restore_puts_back(
    user: Seq<char>,
    backup: Seq<char>,
    dirs: Seq<SaveDir>,
    present: Set<Seq<char>>,
    j: int,
) -> (r: (int, int))
    requires
        all_walked(dirs),
        0 <= j < restore_all(user, backup, dirs, present).len(),
    ensures
        puts_back(restore_all(user, backup, dirs, present)[j], user, backup, dirs, present, r.0, r.1),
        is_relative(save_path(dirs[r.0], r.1)),
    decreases dirs.len(),
{
    let rest = dirs.drop_last();
    let before = restore_all(user, backup, rest, present);
    let all = restore_all(user, backup, dirs, present);
    assert forall|n: int| 0 <= n < rest.len() implies is_walked(#[trigger] rest[n]) by {
        assert(is_walked(dirs[n]));
    }
    if j < before.len() {
        assert(all[j] == before[j]);
        let r = lemma_restore_puts_back(user, backup, rest, present, j);
        assert(rest[r.0] == dirs[r.0]);
        r
    } else {
        let d = dirs[dirs.len() - 1];
        assert(is_walked(d));
        let more = restore_ops(placed(backup, d), placed(user, d), d.found@, present);
        assert(all[j] == more[j - before.len()]);
        let k = lemma_restore_origin(
            placed(backup, d),
            placed(user, d),
            d.found@,
            present,
            j - before.len(),
        );
        lemma_save_path(user, d, k);
        lemma_save_path(backup, d, k);
        (dirs.len() - 1, k)
    }
}

proof fn lemma_restore_has(
    user: Seq<char>,
    backup: Seq<char>,
    dirs: Seq<SaveDir>,
    present: Set<Seq<char>>,
    i: int,
    k: int,
) -> (j: int)
    requires
        all_walked(dirs),
        is_save(dirs, i, k),
        !present.contains(path_join(user, save_path(dirs[i], k))),
    ensures
        0 <= j < restore_all(user, backup, dirs, present).len(),
        carries(restore_all(user, backup, dirs, present)[j], backup, user, save_path(dirs[i], k)),
    decreases dirs.len(),
{
    let rest = dirs.drop_last();
    let before = restore_all(user, backup, rest, present);
    let all = restore_all(user, backup, dirs, present);
    if i == dirs.len() - 1 {
        let d = dirs[i];
        assert(is_walked(d));
        lemma_save_path(user, d, k);
        lemma_save_path(backup, d, k);
        let more = restore_ops(placed(backup, d), placed(user, d), d.found@, present);
        lemma_missing_files_restored(placed(backup, d), placed(user, d), d.found@, present, k);
        let op = Op::Restore {
            from: path_join(backup, save_path(d, k)),
            to: path_join(user, save_path(d, k)),
        };
        let n = choose|n: int| 0 <= n < more.len() && more[n] == op;
        assert(all[before.len() + n] == more[n]);
        before.len() + n
    } else {
        assert forall|n: int| 0 <= n < rest.len() implies is_walked(#[trigger] rest[n]) by {
            assert(is_walked(dirs[n]));
        }
        assert(rest[i] == dirs[i]);
        let j = lemma_restore_has(user, backup, rest, present, i, k);
        assert(all[j] == before[j]);
        j
    }
}

/// The saved files that are there are known to be there.
pub open spec fn knows(
    user: Seq<char>,
    dirs: Seq<SaveDir>,
    files: Map<Seq<char>, Seq<u8>>,
    present: Set<Seq<char>>,
) -> bool {
    forall|i: int, k: int|
        #[trigger] is_save(dirs, i, k) && files.contains_key(path_join(user, save_path(dirs[i], k)))
            ==> present.contains(path_join(user, save_path(dirs[i], k)))
}

/// What is put back changes no file that is there, whoever wrote it and whatever it holds.
pub proof fn lemma_restore_changes_nothing_there(
    user: Seq<char>,
    backup: Seq<char>,
    dirs: Seq<SaveDir>,
    files: Map<Seq<char>, Seq<u8>>,
    present: Set<Seq<char>>,
    path: Seq<char>,
)
    requires
        all_walked(dirs),
        knows(user, dirs, files, present),
        files.contains_key(path),
    ensures
        after_ops(files, restore_all(user, backup, dirs, present)).contains_key(path),
        after_ops(files, restore_all(user, backup, dirs, present))[path] == files[path],
{
    let ops = restore_all(user, backup, dirs, present);
    assert forall|j: int| 0 <= j < ops.len() implies !writes(#[trigger] ops[j], path) by {
        let (i, k) = lemma_restore_puts_back(user, backup, dirs, present, j);
        assert(is_save(dirs, i, k));
    }
    lemma_unwritten(files, ops, path);
}

/// The copies that were made before a launch are as they were made.
pub open spec fn copies_kept(
    user: Seq<char>,
    backup: Seq<char>,
    dirs: Seq<SaveDir>,
    before: Map<Seq<char>, Seq<u8>>,
    after: Map<Seq<char>, Seq<u8>>,
) -> bool {
    let made = after_ops(before, snapshot_ops(user, backup, dirs));
    forall|path: Seq<char>|
        is_relative(path) && made.contains_key(#[trigger] path_join(backup, path)) ==> after.contains_key(
            path_join(backup, path),
        ) && after[path_join(backup, path)] == made[path_join(backup, path)]
}

/// A file that was saved before a launch and is gone after it is back with the content that it had before
/// the launch. `before` are the files before the launch, `after` those after it: meanwhile any may have
/// been deleted or written anew but for the copies. `dirs` is what was found below the user's directory
/// before the launch, `copies` what is found below the copy after it; the file stands in the first at `i`
/// and `k`, in the second at `m` and `n`.
pub proof fn lemma_lost_save_is_back(
    user: Seq<char>,
    backup: Seq<char>,
    dirs: Seq<SaveDir>,
    copies: Seq<SaveDir>,
    before: Map<Seq<char>, Seq<u8>>,
    after: Map<Seq<char>, Seq<u8>>,
    present: Set<Seq<char>>,
    i: int,
    k: int,
    m: int,
    n: int,
)
    requires
        are_apart(user, backup),
        all_walked(dirs),
        all_walked(copies),
        is_save(dirs, i, k),
        holds_saves(dirs[i]),
        before.contains_key(path_join(user, save_path(dirs[i], k))),
        copies_kept(user, backup, dirs, before, after),
        is_save(copies, m, n),
        save_path(copies[m], n) == save_path(dirs[i], k),
        !present.contains(path_join(user, save_path(dirs[i], k))),
    ensures
        after_ops(after, restore_all(user, backup, copies, present)).contains_key(
            path_join(user, save_path(dirs[i], k)),
        ),
        after_ops(after, restore_all(user, backup, copies, present))[path_join(
            user,
            save_path(dirs[i], k),
        )] == before[path_join(user, save_path(dirs[i], k))],
        restore_all(user, backup, copies, present).len() > 0,
{
    let path = save_path(dirs[i], k);
    assert(is_walked(dirs[i]));
    lemma_save_path(user, dirs[i], k);
    let made = snapshot_ops(user, backup, dirs);
    lemma_snapshot_carries(user, backup, dirs);
    let a = lemma_snapshot_has(user, backup, dirs, i, k);
    lemma_carried(before, made, user, backup, path, a);
    let back = restore_all(user, backup, copies, present);
    assert forall|j: int| 0 <= j < back.len() implies #[trigger] back[j] is MakeDir || exists|
        p: Seq<char>,
    | is_relative(p) && #[trigger] carries(back[j], backup, user, p) by {
        let (x, y) = lemma_restore_puts_back(user, backup, copies, present, j);
        assert(carries(back[j], backup, user, save_path(copies[x], y)));
    }
    let b = lemma_restore_has(user, backup, copies, present, m, n);
    assert forall|x: Seq<char>, y: Seq<char>|
        is_relative(x) && is_relative(y) implies #[trigger] path_join(backup, x) != #[trigger] path_join(
        user,
        y,
    ) by {
        assert(path_join(user, y) != path_join(backup, x));
    }
    lemma_carried(after, back, backup, user, path, b);
}

/// A saved file that is copied before a launch.
pub open spec fn is_copied(dirs: Seq<SaveDir>, i: int, k: int) -> bool {
    is_save(dirs, i, k) && holds_saves(dirs[i])
}

/// A file is listed among those of a copy.
pub open spec fn is_listed(copies: Seq<SaveDir>, path: Seq<char>) -> bool {
    exists|m: int, n: int| #[trigger] is_save(copies, m, n) && save_path(copies[m], n) == path
}

proof fn lemma_last_place_in_name(s: Seq<char>, name: Seq<char>)
    requires
        forall|i: int| 0 <= i < name.len() ==> name[i] != '/',
    ensures
        last_place(s + name, '/') == last_place(s, '/'),
    decreases name.len(),
{
    if name.len() == 0 {
        assert(s + name =~= s);
    } else {
        assert((s + name).drop_last() =~= s + name.drop_last());
        lemma_last_place_in_name(s, name.drop_last());
    }
}

proof fn lemma_apart_by(a: Seq<char>, b: Seq<char>, q: int)
    requires
        0 <= q < a.len(),
        q < b.len(),
        a[q] != b[q],
    ensures
        are_apart(a, b),
{
    assert forall|x: Seq<char>, y: Seq<char>|
        is_relative(x) && is_relative(y) implies #[trigger] path_join(a, x) != #[trigger] path_join(
        b,
        y,
    ) by {
        assert(path_join(a, x)[q] == a[q]);
        assert(path_join(b, y)[q] == b[q]);
    }
}

/// The user's directory in a prefix and the copies beside the prefix are apart.
pub proof fn lemma_copies_are_apart(compat: Seq<char>)
    ensures
        are_apart(user_dir(path_join(compat, "pfx"@)), backup_dir(path_join(compat, "pfx"@))),
{
    reveal_strlit("pfx");
    reveal_strlit("/");
    reveal_strlit("drive_c/users/steamuser");
    reveal_strlit("save_backup");
    let pfx = path_join(compat, "pfx"@);
    let base = pfx.take(pfx.len() - 3);
    assert(pfx =~= base + "pfx"@);
    lemma_last_place_in_name(base, "pfx"@);
    let user = user_dir(pfx);
    let backup = backup_dir(pfx);
    assert(user.take(pfx.len() as int) =~= pfx);
    assert(forall|j: int| 0 <= j < pfx.len() ==> user[j] == pfx[j]);
    if base.len() == 0 {
        assert(parent(pfx) =~= Seq::<char>::empty());
        assert(user[0] == 'p');
        assert(backup[0] == 's');
        lemma_apart_by(user, backup, 0);
    } else {
        let at = base.len() - 1;
        assert(base.last() == '/');
        assert(last_place(pfx, '/') == at);
        assert(user[at] == '/');
        assert(user[at + 1] == 'p');
        if at == 0 {
            assert(parent(pfx) == "/"@);
            assert(backup =~= "/"@ + "save_backup"@);
            assert(backup[1] == 's');
            lemma_apart_by(user, backup, 1);
        } else {
            let t = pfx.take(at);
            assert(parent(pfx) == t);
            if t.last() == '/' {
                assert(backup[at] == 's');
                lemma_apart_by(user, backup, at);
            } else {
                assert(backup[at + 1] == 's');
                lemma_apart_by(user, backup, at + 1);
            }
        }
    }
}

/// No saved game is lost over a launch. Every file that was saved before it is there after what is gone
/// was put back: with its content of before the launch where the launch lost it, and as the launch left it
/// where it is still there. Putting back changes no other file that is there either. Something is put back,
/// so that the copy is kept, exactly where a file of the copy is gone. `before` are the
/// files before the launch, `after` those after it: meanwhile any may have been deleted or written anew
/// but for the copies. `dirs` is what was found below the user's directory before the launch, `copies`
/// what is found below the copy after it, and `present` tells which of those files are still there.
pub proof fn lemma_saves_survive(
    compat: Seq<char>,
    dirs: Seq<SaveDir>,
    copies: Seq<SaveDir>,
    before: Map<Seq<char>, Seq<u8>>,
    after: Map<Seq<char>, Seq<u8>>,
    present: Set<Seq<char>>,
)
    requires
        all_walked(dirs),
        all_walked(copies),
        forall|i: int, k: int| #[trigger]
            is_save(dirs, i, k) ==> before.contains_key(
                path_join(user_dir(path_join(compat, "pfx"@)), save_path(dirs[i], k)),
            ),
        copies_kept(
            user_dir(path_join(compat, "pfx"@)),
            backup_dir(path_join(compat, "pfx"@)),
            dirs,
            before,
            after,
        ),
        forall|i: int, k: int| #[trigger]
            is_copied(dirs, i, k) ==> is_listed(copies, save_path(dirs[i], k)),
        forall|m: int, n: int| #[trigger]
            is_save(copies, m, n) ==> (present.contains(
                path_join(user_dir(path_join(compat, "pfx"@)), save_path(copies[m], n)),
            ) <==> after.contains_key(
                path_join(user_dir(path_join(compat, "pfx"@)), save_path(copies[m], n)),
            )),
    ensures
        ({
            let user = user_dir(path_join(compat, "pfx"@));
            let backup = backup_dir(path_join(compat, "pfx"@));
            let end = after_ops(after, restore_all(user, backup, copies, present));
            &&& forall|i: int, k: int| #[trigger]
                is_copied(dirs, i, k) ==> {
                    let path = path_join(user, save_path(dirs[i], k));
                    end.contains_key(path) && end[path] == (if after.contains_key(path) {
                        after[path]
                    } else {
                        before[path]
                    })
                }
            &&& forall|path: Seq<char>| #[trigger]
                after.contains_key(path) ==> end.contains_key(path) && end[path] == after[path]
            &&& restore_all(user, backup, copies, present).len() == 0 <==> (forall|m: int, n: int|
             #[trigger]
                is_save(copies, m, n) ==> after.contains_key(path_join(user, save_path(copies[m], n))))
        }),
{
    let user = user_dir(path_join(compat, "pfx"@));
    let backup = backup_dir(path_join(compat, "pfx"@));
    let end = after_ops(after, restore_all(user, backup, copies, present));
    lemma_copies_are_apart(compat);
    lemma_copy_kept_for_lost_saves(user, backup, copies, present);
    assert forall|path: Seq<char>| #[trigger] after.contains_key(path) implies end.contains_key(path)
        && end[path] == after[path] by {
        lemma_restore_changes_nothing_there(user, backup, copies, after, present, path);
    }
    assert forall|i: int, k: int| #[trigger] is_copied(dirs, i, k) implies {
        let path = path_join(user, save_path(dirs[i], k));
        end.contains_key(path) && end[path] == (if after.contains_key(path) {
            after[path]
        } else {
            before[path]
        })
    } by {
        let path = path_join(user, save_path(dirs[i], k));
        assert(is_save(dirs, i, k));
        assert(is_listed(copies, save_path(dirs[i], k)));
        let (m, n) = choose|m: int, n: int| #[trigger]
            is_save(copies, m, n) && save_path(copies[m], n) == save_path(dirs[i], k);
        if !after.contains_key(path) {
            lemma_lost_save_is_back(user, backup, dirs, copies, before, after, present, i, k, m, n);
        }
    }
}

/// The copy is kept after a launch where a saved file was gone, and only there: nothing is put back exactly
/// where all saved files are still there.
pub proof fn lemma_copy_kept_for_lost_saves(
    user: Seq<char>,
    backup: Seq<char>,
    copies: Seq<SaveDir>,
    present: Set<Seq<char>>,
)
    requires
        all_walked(copies),
    ensures
        restore_all(user, backup, copies, present).len() == 0 <==> (forall|i: int, k: int| #[trigger]
            is_save(copies, i, k) ==> present.contains(path_join(user, save_path(copies[i], k)))),
{
    let ops = restore_all(user, backup, copies, present);
    if ops.len() == 0 {
        assert forall|i: int, k: int| #[trigger] is_save(copies, i, k) implies present.contains(
            path_join(user, save_path(copies[i], k)),
        ) by {
            if !present.contains(path_join(user, save_path(copies[i], k))) {
                let j = lemma_restore_has(user, backup, copies, present, i, k);
            }
        }
    } else {
        let (i, k) = lemma_restore_puts_back(user, backup, copies, present, 0);
        assert(is_save(copies, i, k));
    }
}

/// A dump that a crash left behind, by its name.
pub open spec fn is_dump(name: Seq<char>) -> bool {
    match extension(name) {
        Some(e) => same_but_case(e, "dmp"@) || same_but_case(e, "mdmp"@),
        None => false,
    }
}

/// A file's name in a path.
pub open spec fn file_name(path: Seq<char>) -> Seq<char> {
    crate::text::after_last(path, '/')
}

pub open spec fn dump_ops(dir: Seq<char>, found: Seq<Found>) -> Seq<Op>
    decreases found.len(),
{
    if found.len() == 0 {
        Seq::empty()
    } else {
        let before = dump_ops(dir, found.drop_last());
        if !found.last().dir && is_dump(file_name(found.last().path@)) {
            before.push(Op::Remove { path: path_join(dir, found.last().path@) })
        } else {
            before
        }
    }
}

/// Plans the removal of dumps that crashes left behind.
pub fn clean_crash_dumps(dir: &str, found: &Vec<Found>) -> (r: Vec<FileOp>)
    ensures
        op_views(r@) == dump_ops(dir@, found@),
{
    let mut out: Vec<FileOp> = Vec::new();
    let mut i: usize = 0;
    assert(op_views(out@) =~= dump_ops(dir@, found@.take(0)));
    while i < found.len()
        invariant
            i <= found@.len(),
            op_views(out@) == dump_ops(dir@, found@.take(i as int)),
        decreases found@.len() - i,
    {
        assert(found@.take(i + 1).drop_last() =~= found@.take(i as int));
        if !found[i].dir {
            let name = crate::text::tail_after(found[i].path.as_str(), '/');
            let dump: bool = match extension_of(name.as_str()) {
                Some(e) => eq_ignore_case(e.as_str(), "dmp") || eq_ignore_case(e.as_str(), "mdmp"),
                None => false,
            };
            if dump {
                push_op(&mut out, FileOp::Remove { path: join_path(dir, found[i].path.as_str()) });
            }
        }
        i = i + 1;
    }
    assert(found@.take(found@.len() as int) =~= found@);
    out
}

proof fn lemma_a_file_counts(found: Seq<Found>, k: int)
    requires
        0 <= k < found.len(),
        !found[k].dir,
    ensures
        files_in(found) > 0,
    decreases found.len(),
{
    if k < found.len() - 1 {
        assert(found.drop_last()[k] == found[k]);
        lemma_a_file_counts(found.drop_last(), k);
    }
}

proof fn lemma_no_file_counts(found: Seq<Found>)
    requires
        forall|k: int| 0 <= k < found.len() ==> (#[trigger] found[k]).dir,
    ensures
        files_in(found) == 0,
        bytes_in_files(found) == 0,
    decreases found.len(),
{
    if found.len() > 0 {
        assert(found[found.len() - 1].dir);
        assert forall|k: int| 0 <= k < found.len() - 1 implies (#[trigger] found.drop_last()[k]).dir by {
            assert(found[k].dir);
        }
        lemma_no_file_counts(found.drop_last());
    }
}

/// Whatever place it stands in, a directory with a file in it is copied, but for those that are called
/// `Microsoft` or `Temp` in any case of letters.
pub proof fn lemma_which_directories(d: SaveDir)
    ensures
        holds_saves(d) <==> d.dir && !same_but_case(d.name@, "Microsoft"@) && !same_but_case(
            d.name@,
            "Temp"@,
        ) && exists|k: int| 0 <= k < d.found@.len() && !(#[trigger] d.found@[k]).dir,
{
    if exists|k: int| 0 <= k < d.found@.len() && !(#[trigger] d.found@[k]).dir {
        let k = choose|k: int| 0 <= k < d.found@.len() && !(#[trigger] d.found@[k]).dir;
        lemma_a_file_counts(d.found@, k);
    } else {
        assert forall|k: int| 0 <= k < d.found@.len() implies (#[trigger] d.found@[k]).dir by {
        }
        lemma_no_file_counts(d.found@);
    }
}

/// Every file of every directory that is none of the system's is copied before a launch, from its place
/// below the user's directory to the same place below the copies, and there is a copy to be made.
pub proof fn lemma_snapshot_is_complete(
    user: Seq<char>,
    backup: Seq<char>,
    dirs: Seq<SaveDir>,
    i: int,
    k: int,
)
    requires
        0 <= i < dirs.len(),
        dirs[i].dir,
        !same_but_case(dirs[i].name@, "Microsoft"@),
        !same_but_case(dirs[i].name@, "Temp"@),
        0 <= k < dirs[i].found@.len(),
        !dirs[i].found@[k].dir,
    ensures
        snapshot_ops(user, backup, dirs).contains(
            Op::Copy {
                from: path_join(
                    path_join(path_join(user, dirs[i].place@), dirs[i].name@),
                    dirs[i].found@[k].path@,
                ),
                to: path_join(
                    path_join(path_join(backup, dirs[i].place@), dirs[i].name@),
                    dirs[i].found@[k].path@,
                ),
            },
        ),
        snapshot_files(dirs) > 0,
    decreases dirs.len(),
{
    let d = dirs[i];
    lemma_a_file_counts(d.found@, k);
    let rest = dirs.drop_last();
    let before = snapshot_ops(user, backup, rest);
    let all = snapshot_ops(user, backup, dirs);
    let op = Op::Copy {
        from: path_join(placed(user, d), d.found@[k].path@),
        to: path_join(placed(backup, d), d.found@[k].path@),
    };
    if i == dirs.len() - 1 {
        let more = copy_ops(placed(user, d), placed(backup, d), d.found@);
        assert(more[k + 1] == found_op(placed(user, d), placed(backup, d), d.found@[k]));
        assert(all[before.len() + k + 1] == op);
    } else {
        assert(rest[i] == d);
        lemma_snapshot_is_complete(user, backup, rest, i, k);
        let j = choose|j: int| 0 <= j < before.len() && before[j] == op;
        assert(all[j] == op);
    }
}

/// Nothing else is copied: what a copy is made of is a file that was found below a directory that is none
/// of the system's.
pub proof fn lemma_snapshot_copies_no_more(
    user: Seq<char>,
    backup: Seq<char>,
    dirs: Seq<SaveDir>,
    j: int,
)
    requires
        0 <= j < snapshot_ops(user, backup, dirs).len(),
        snapshot_ops(user, backup, dirs)[j] is Copy,
    ensures
        exists|i: int, k: int|
            #![trigger dirs[i].found@[k]]
            0 <= i < dirs.len() && dirs[i].dir && !same_but_case(dirs[i].name@, "Microsoft"@)
                && !same_but_case(dirs[i].name@, "Temp"@) && 0 <= k < dirs[i].found@.len()
                && !dirs[i].found@[k].dir && snapshot_ops(user, backup, dirs)[j]->Copy_from == path_join(
                path_join(path_join(user, dirs[i].place@), dirs[i].name@),
                dirs[i].found@[k].path@,
            ),
    decreases dirs.len(),
{
    let rest = dirs.drop_last();
    let before = snapshot_ops(user, backup, rest);
    let all = snapshot_ops(user, backup, dirs);
    if dirs.len() > 0 {
        if j < before.len() {
            assert(all[j] == before[j]);
            lemma_snapshot_copies_no_more(user, backup, rest, j);
            let (i, k) = choose|i: int, k: int|
                #![trigger rest[i].found@[k]]
                0 <= i < rest.len() && rest[i].dir && !same_but_case(rest[i].name@, "Microsoft"@)
                    && !same_but_case(rest[i].name@, "Temp"@) && 0 <= k < rest[i].found@.len()
                    && !rest[i].found@[k].dir && before[j]->Copy_from == path_join(
                    path_join(path_join(user, rest[i].place@), rest[i].name@),
                    rest[i].found@[k].path@,
                );
            assert(dirs[i].found@[k] == rest[i].found@[k]);
        } else {
            let d = dirs[dirs.len() - 1];
            let more = copy_ops(placed(user, d), placed(backup, d), d.found@);
            let k = j - before.len() - 1;
            assert(all[j] == more[k + 1]);
            if k >= 0 {
                assert(more[k + 1] == found_op(placed(user, d), placed(backup, d), d.found@[k]));
                assert(!dirs[dirs.len() - 1].found@[k].dir);
            } else {
                assert(more[0] is MakeDir);
            }
        }
    }
}

/// The places in which saved games are looked for.
pub proof fn lemma_places_of_saves()
    ensures
        scan_names().len() == 4,
        scan_names().contains("AppData/Roaming"@),
        scan_names().contains("AppData/Local"@),
        scan_names().contains("AppData/LocalLow"@),
        scan_names().contains("Documents"@),
{
    assert(scan_names()[0] == "AppData/Roaming"@);
    assert(scan_names()[1] == "AppData/Local"@);
    assert(scan_names()[2] == "AppData/LocalLow"@);
    assert(scan_names()[3] == "Documents"@);
}

/// A letter in upper case is the same but for its case as the one 32 places behind it, and any other
/// character only as itself.
pub proof fn lemma_case_of_letters(c: char)
    ensures
        65 <= c as u32 <= 90 ==> small(c) as u32 == c as u32 + 32,
        !(65 <= c as u32 <= 90) ==> small(c) == c,
        same_but_case(seq![c], seq![small(c)]),
{
    assert(small(small(c)) == small(c));
}

/// What is put back names each file once by the place that it was copied from: from below the copies to the
/// same place below the user's directory.
pub proof fn lemma_put_back_where_it_was(
    backup: Seq<char>,
    original: Seq<char>,
    found: Seq<Found>,
    present: Set<Seq<char>>,
    j: int,
)
    requires
        0 <= j < restore_ops(backup, original, found, present).len(),
    ensures
        exists|k: int|
            0 <= k < found.len() && !(#[trigger] found[k]).dir && !present.contains(
                path_join(original, found[k].path@),
            ) && restore_ops(backup, original, found, present)[j] == (Op::Restore {
                from: path_join(backup, found[k].path@),
                to: path_join(original, found[k].path@),
            }),
{
    let k = lemma_restore_origin(backup, original, found, present, j);
    assert(!found[k].dir);
}

/// Each file of a copy is either put back or counted as still there.
pub proof fn lemma_restored_or_there(
    backup: Seq<char>,
    original: Seq<char>,
    found: Seq<Found>,
    present: Set<Seq<char>>,
)
    ensures
        restore_ops(backup, original, found, present).len() + still_there(original, found, present)
            == files_in(found),
    decreases found.len(),
{
    if found.len() > 0 {
        lemma_restored_or_there(backup, original, found.drop_last(), present);
    }
}

proof fn lemma_dump_ops(dir: Seq<char>, found: Seq<Found>, k: int)
    requires
        0 <= k < found.len(),
        !found[k].dir,
        is_dump(file_name(found[k].path@)),
    ensures
        dump_ops(dir, found).contains(Op::Remove { path: path_join(dir, found[k].path@) }),
    decreases found.len(),
{
    let op = Op::Remove { path: path_join(dir, found[k].path@) };
    let before = dump_ops(dir, found.drop_last());
    let all = dump_ops(dir, found);
    if k == found.len() - 1 {
        assert(all[all.len() - 1] == op);
    } else {
        assert(found.drop_last()[k] == found[k]);
        lemma_dump_ops(dir, found.drop_last(), k);
        let j = choose|j: int| 0 <= j < before.len() && before[j] == op;
        assert(all[j] == op);
    }
}

/// Every dump that a crash left is removed: a file whose name ends in `.dmp` or `.mdmp`, in any case of
/// letters, whatever stands in front of that.
pub proof fn lemma_dumps_are_removed(dir: Seq<char>, found: Seq<Found>, k: int, stem: Seq<char>, ext: Seq<char>)
    requires
        0 <= k < found.len(),
        !found[k].dir,
        file_name(found[k].path@) == stem + "."@ + ext,
        stem.len() > 0,
        same_but_case(ext, "dmp"@) || same_but_case(ext, "mdmp"@),
        forall|i: int| 0 <= i < ext.len() ==> ext[i] != '.',
    ensures
        dump_ops(dir, found).contains(Op::Remove { path: path_join(dir, found[k].path@) }),
{
    reveal_strlit(".");
    reveal_strlit("dmp");
    reveal_strlit("mdmp");
    reveal_strlit("..");
    let name = file_name(found[k].path@);
    lemma_last_dot(stem, ext);
    assert(ext.len() >= 3);
    assert(name.len() > 2);
    assert(name.skip(stem.len() as int + 1) =~= ext);
    assert(extension(name) == Some(ext));
    lemma_dump_ops(dir, found, k);
}

proof fn lemma_last_dot(stem: Seq<char>, ext: Seq<char>)
    requires
        forall|i: int| 0 <= i < ext.len() ==> ext[i] != '.',
    ensures
        last_place(stem + "."@ + ext, '.') == stem.len(),
    decreases ext.len(),
{
    reveal_strlit(".");
    let s = stem + "."@ + ext;
    if ext.len() == 0 {
        assert(s.last() == '.');
    } else {
        assert(s.drop_last() =~= stem + "."@ + ext.drop_last());
        assert(s.last() == ext[ext.len() - 1]);
        lemma_last_dot(stem, ext.drop_last());
    }
}

} // verus!
