//! Work on files that the launcher has done outside, as values.
use crate::paths::{join_path, path_join};
use crate::text::same;
use vstd::prelude::*;

verus! {

/// A program to run.
pub struct Launched {
    /// The program and its arguments.
    pub words: Vec<String>,
    /// Variables to set, in this order.
    pub env: Vec<(String, String)>,
    /// Variables to take away afterwards.
    pub unset: Vec<String>,
}

/// One piece of work.
pub enum FileOp {
    MakeDir { path: String },
    /// A symbolic link, where nothing stands.
    LinkNew { target: String, link: String },
    /// A new content, whatever stood there.
    WriteText { path: String, text: String },
    /// A content, where nothing stands.
    WriteNew { path: String, text: String },
    /// More content, where something stands.
    Append { path: String, text: String },
    /// A copy of a whole directory, by hard links where that can be.
    CopyTree { from: String, to: String },
    /// A copy over what stands there.
    Copy { from: String, to: String },
    /// A copy, where there is a source and nothing stands at the target.
    CopyNew { from: String, to: String },
    /// A copy after what stands there was taken away.
    Replace { from: String, to: String },
    /// A copy after the directory of the target was made.
    Restore { from: String, to: String },
    /// The time of the last change of a file, in seconds, as the content of another.
    Stamp { from: String, to: String },
    /// A link that leads nowhere is taken away.
    RemoveBroken { path: String },
    Remove { path: String },
    Run { program: Launched },
}

/// A program to run, by its texts.
#[verifier::ext_equal]
pub struct Run {
    pub words: Seq<Seq<char>>,
    pub env: Seq<(Seq<char>, Seq<char>)>,
    pub unset: Seq<Seq<char>>,
}

/// One piece of work, by its texts.
#[verifier::ext_equal]
pub enum Op {
    MakeDir { path: Seq<char> },
    LinkNew { target: Seq<char>, link: Seq<char> },
    WriteText { path: Seq<char>, text: Seq<char> },
    WriteNew { path: Seq<char>, text: Seq<char> },
    Append { path: Seq<char>, text: Seq<char> },
    CopyTree { from: Seq<char>, to: Seq<char> },
    Copy { from: Seq<char>, to: Seq<char> },
    CopyNew { from: Seq<char>, to: Seq<char> },
    Replace { from: Seq<char>, to: Seq<char> },
    Restore { from: Seq<char>, to: Seq<char> },
    Stamp { from: Seq<char>, to: Seq<char> },
    RemoveBroken { path: Seq<char> },
    Remove { path: Seq<char> },
    Run { program: Run },
}

impl View for Launched {
    type V = Run;

    open spec fn view(&self) -> Run {
        Run {
            words: crate::text::views(self.words@),
            env: crate::settings::pair_views(self.env@),
            unset: crate::text::views(self.unset@),
        }
    }
}

impl View for FileOp {
    type V = Op;

    open spec fn view(&self) -> Op {
        match self {
            FileOp::MakeDir { path } => Op::MakeDir { path: path@ },
            FileOp::LinkNew { target, link } => Op::LinkNew { target: target@, link: link@ },
            FileOp::WriteText { path, text } => Op::WriteText { path: path@, text: text@ },
            FileOp::WriteNew { path, text } => Op::WriteNew { path: path@, text: text@ },
            FileOp::Append { path, text } => Op::Append { path: path@, text: text@ },
            FileOp::CopyTree { from, to } => Op::CopyTree { from: from@, to: to@ },
            FileOp::Copy { from, to } => Op::Copy { from: from@, to: to@ },
            FileOp::CopyNew { from, to } => Op::CopyNew { from: from@, to: to@ },
            FileOp::Replace { from, to } => Op::Replace { from: from@, to: to@ },
            FileOp::Restore { from, to } => Op::Restore { from: from@, to: to@ },
            FileOp::Stamp { from, to } => Op::Stamp { from: from@, to: to@ },
            FileOp::RemoveBroken { path } => Op::RemoveBroken { path: path@ },
            FileOp::Remove { path } => Op::Remove { path: path@ },
            FileOp::Run { program } => Op::Run { program: program@ },
        }
    }
}

pub open spec fn op_views(v: Seq<FileOp>) -> Seq<Op> {
    v.map_values(|o: FileOp| o@)
}

pub fn push_op(out: &mut Vec<FileOp>, op: FileOp)
    ensures
        op_views(final(out)@) == op_views(old(out)@).push(op@),
{
    let ghost o = op@;
    out.push(op);
    assert(op_views(out@) =~= op_views(old(out)@).push(o));
}

pub fn push_ops(out: &mut Vec<FileOp>, more: Vec<FileOp>)
    ensures
        op_views(final(out)@) == op_views(old(out)@) + op_views(more@),
{
    let ghost m = more@;
    let mut more = more;
    out.append(&mut more);
    assert(op_views(out@) =~= op_views(old(out)@) + op_views(m));
}

/// Directories below another.
pub open spec fn dirs_in(base: Seq<char>, names: Seq<Seq<char>>) -> Seq<Op> {
    names.map_values(|n: Seq<char>| Op::MakeDir { path: path_join(base, n) })
}

pub fn make_dir_in(out: &mut Vec<FileOp>, base: &str, name: &str)
    ensures
        op_views(final(out)@) == op_views(old(out)@).push(
            Op::MakeDir { path: path_join(base@, name@) },
        ),
{
    push_op(out, FileOp::MakeDir { path: join_path(base, name) });
}

/// What is known of a file.
#[derive(Clone, Copy, Debug, PartialEq, Eq)]
pub struct FileMeta {
    pub len: u64,
    /// The time of the last change in nanoseconds, where the system tells it.
    pub modified: Option<i128>,
}

/// What is known of the files that were looked up and are there.
pub struct Metas {
    pub entries: Vec<(String, FileMeta)>,
}

/// What is known of the file at a path.
pub open spec fn meta_in(entries: Seq<(String, FileMeta)>, path: Seq<char>) -> Option<FileMeta>
    decreases entries.len(),
{
    if entries.len() == 0 {
        None
    } else if entries[0].0@ == path {
        Some(entries[0].1)
    } else {
        meta_in(entries.skip(1), path)
    }
}

impl Metas {
    pub open spec fn of(&self, path: Seq<char>) -> Option<FileMeta> {
        meta_in(self.entries@, path)
    }

    /// What is known of the file at a path.
    pub fn get(&self, path: &str) -> (r: Option<FileMeta>)
        ensures
            r == self.of(path@),
    {
        let mut i: usize = 0;
        assert(self.entries@.skip(0) =~= self.entries@);
        while i < self.entries.len()
            invariant
                i <= self.entries@.len(),
                meta_in(self.entries@.skip(i as int), path@) == self.of(path@),
            decreases self.entries@.len() - i,
        {
            assert(self.entries@.skip(i as int).skip(1) =~= self.entries@.skip(i + 1));
            if same(self.entries[i].0.as_str(), path) {
                return Some(self.entries[i].1);
            }
            i = i + 1;
        }
        None
    }
}

/// A time that the system does not tell counts as earlier than every other.
pub open spec fn not_later(a: Option<i128>, b: Option<i128>) -> bool {
    match (a, b) {
        (None, _) => true,
        (Some(_), None) => false,
        (Some(x), Some(y)) => x <= y,
    }
}

/// A copy is up to date: it is as long as its source and not older.
pub open spec fn up_to_date(src: Option<FileMeta>, dst: Option<FileMeta>) -> bool {
    match (src, dst) {
        (Some(s), Some(d)) => s.len == d.len && not_later(s.modified, d.modified),
        _ => false,
    }
}

/// Whether a copy is up to date.
pub fn file_matches(src: Option<FileMeta>, dst: Option<FileMeta>) -> (r: bool)
    ensures
        r == up_to_date(src, dst),
{
    match (src, dst) {
        (Some(s), Some(d)) => s.len == d.len && match (s.modified, d.modified) {
            (None, _) => true,
            (Some(_), None) => false,
            (Some(x), Some(y)) => x <= y,
        },
        _ => false,
    }
}

/// A copy that is shorter, longer or older than its source, or not there, is not up to date; one that is as
/// long and as old or newer is.
pub proof fn lemma_copies(s: FileMeta, d: FileMeta, x: i128, y: i128)
    ensures
        s.len != d.len ==> !up_to_date(Some(s), Some(d)),
        s.modified == Some(x) && d.modified == Some(y) && y < x ==> !up_to_date(Some(s), Some(d)),
        s.modified == Some(x) && d.modified == Some(y) && x <= y && s.len == d.len ==> up_to_date(Some(s), Some(d)),
        !up_to_date(Some(s), None) && !up_to_date(None, Some(d)),
        up_to_date(Some(s), Some(s)),
{
}

/// What is known of a file is what was found first under its path.
pub proof fn lemma_first_found(entries: Seq<(String, FileMeta)>, path: Seq<char>, k: int)
    requires
        0 <= k < entries.len(),
        entries[k].0@ == path,
        forall|i: int| 0 <= i < k ==> (#[trigger] entries[i]).0@ != path,
    ensures
        meta_in(entries, path) == Some(entries[k].1),
    decreases entries.len(),
{
    if k > 0 {
        assert(entries[0].0@ != path);
        let d = entries.skip(1);
        assert(d[k - 1] == entries[k]);
        assert forall|i: int| 0 <= i < k - 1 implies (#[trigger] d[i]).0@ != path by {
            assert(d[i] == entries[i + 1]);
        }
        lemma_first_found(d, path, k - 1);
    }
}

} // verus!
