//! What is deployed into a prefix: graphics libraries, Steam's client, the system's own libraries.
use crate::digest::{hash_list, list_digest};
use crate::discovery::Present;
use crate::env::{concat, push_text};
use crate::fileops::{file_matches, op_views, push_op, up_to_date, FileOp, Metas, Op};
use crate::paths::{extension, extension_of, join_path, lemma_extension, path_join};
use crate::text::{contains_text, has_sub, same, sub_at, views};
use crate::wire::opt_view;
use vstd::prelude::*;

verus! {

/// What is known of a program from its imports.
pub struct PeScanResult {
    /// A number for the graphics that the program uses.
    pub render_api: u64,
    pub imports: Vec<String>,
    pub needs_nvapi: bool,
}

/// What a program needs to be deployed.
#[derive(Clone, Copy, Debug, PartialEq, Eq)]
pub struct DeployPlan {
    pub needs_dxvk: bool,
    pub needs_vkd3d: bool,
    pub needs_nvapi: bool,
    pub needs_dlss: bool,
    pub scan_hash: u64,
}

/// One of some texts holds a pattern.
pub open spec fn some_has(v: Seq<Seq<char>>, pat: Seq<char>) -> bool {
    exists|i: int| 0 <= i < v.len() && has_sub(#[trigger] v[i], pat)
}

/// Whether one of some texts holds a pattern.
pub fn any_has(v: &Vec<String>, pat: &str) -> (r: bool)
    ensures
        r == some_has(views(v@), pat@),
{
    let mut i: usize = 0;
    while i < v.len()
        invariant
            i <= v@.len(),
            forall|j: int| 0 <= j < i ==> !has_sub(#[trigger] views(v@)[j], pat@),
        decreases v@.len() - i,
    {
        if contains_text(v[i].as_str(), pat) {
            assert(has_sub(views(v@)[i as int], pat@));
            return true;
        }
        i = i + 1;
    }
    false
}

/// The plan for a program. The libraries for both generations of graphics are always deployed: many
/// programs find the newer one only while they run. Without a scan nothing else is. The number for
/// the scan is that of its graphics and its imports.
pub open spec fn plan_of(scan: Option<PeScanResult>, nvidia: bool) -> DeployPlan {
    match scan {
        None => DeployPlan {
            needs_dxvk: true,
            needs_vkd3d: true,
            needs_nvapi: false,
            needs_dlss: false,
            scan_hash: 0,
        },
        Some(s) => DeployPlan {
            needs_dxvk: true,
            needs_vkd3d: true,
            needs_nvapi: nvidia && s.needs_nvapi,
            needs_dlss: nvidia && some_has(views(s.imports@), "nvngx"@),
            scan_hash: list_digest(s.render_api, views(s.imports@)),
        },
    }
}

impl DeployPlan {
    /// Plans for a program.
    pub fn from_scan(scan: &Option<PeScanResult>, nvidia: bool) -> (r: DeployPlan)
        ensures
            r == plan_of(*scan, nvidia),
    {
        match scan {
            None => DeployPlan {
                needs_dxvk: true,
                needs_vkd3d: true,
                needs_nvapi: false,
                needs_dlss: false,
                scan_hash: 0,
            },
            Some(s) => DeployPlan {
                needs_dxvk: true,
                needs_vkd3d: true,
                needs_nvapi: nvidia && s.needs_nvapi,
                needs_dlss: nvidia && any_has(&s.imports, "nvngx"),
                scan_hash: hash_list(s.render_api, &s.imports),
            },
        }
    }
}

/// Graphics libraries for the older generations.
pub open spec fn dxvk_names() -> Seq<Seq<char>> {
    seq!["d3d11"@, "d3d10core"@, "d3d9"@, "dxgi"@]
}

pub fn dxvk_dlls() -> (r: Vec<String>)
    ensures
        views(r@) == dxvk_names(),
{
    let mut v: Vec<String> = Vec::new();
    v.push("d3d11".to_string());
    v.push("d3d10core".to_string());
    v.push("d3d9".to_string());
    v.push("dxgi".to_string());
    assert(views(v@) =~= dxvk_names());
    v
}

/// Graphics libraries for the newest generation.
pub open spec fn vkd3d_names() -> Seq<Seq<char>> {
    seq!["d3d12"@, "d3d12core"@]
}

pub fn vkd3d_dlls() -> (r: Vec<String>)
    ensures
        views(r@) == vkd3d_names(),
{
    let mut v: Vec<String> = Vec::new();
    v.push("d3d12".to_string());
    v.push("d3d12core".to_string());
    assert(views(v@) =~= vkd3d_names());
    v
}

/// Libraries for what only one maker's cards do.
pub fn nvapi_dlls() -> (r: Vec<String>)
    ensures
        views(r@) == seq!["nvapi64"@, "nvofapi64"@],
{
    let mut v: Vec<String> = Vec::new();
    v.push("nvapi64".to_string());
    v.push("nvofapi64".to_string());
    assert(views(v@) =~= seq!["nvapi64"@, "nvofapi64"@]);
    v
}

/// Libraries that the driver of those cards brings.
pub fn dlss_dlls() -> (r: Vec<String>)
    ensures
        views(r@) == seq!["nvngx"@, "_nvngx"@, "nvngx_dlssg"@],
{
    let mut v: Vec<String> = Vec::new();
    v.push("nvngx".to_string());
    v.push("_nvngx".to_string());
    v.push("nvngx_dlssg".to_string());
    assert(views(v@) =~= seq!["nvngx"@, "_nvngx"@, "nvngx_dlssg"@]);
    v
}

/// From where to where libraries go.
pub struct DllRoute {
    pub from: String,
    pub to: String,
}

/// A set of libraries that has both widths.
pub open spec fn both_widths(src: Seq<char>, kind: Seq<char>, pfx: Seq<char>) -> Seq<(Seq<char>, Seq<char>)> {
    let dir = path_join(path_join(src, "lib/wine"@), kind);
    seq![
        (path_join(dir, "x86_64-windows"@), path_join(pfx, "drive_c/windows/system32"@)),
        (path_join(dir, "i386-windows"@), path_join(pfx, "drive_c/windows/syswow64"@)),
    ]
}

/// The routes of a set of libraries: what was built for 64 bits goes to `system32`, what was built for 32
/// bits to `syswow64`.
pub fn dll_routes(src: &str, kind: &str, pfx: &str) -> (r: (DllRoute, DllRoute))
    ensures
        both_widths(src@, kind@, pfx@) == seq![(r.0.from@, r.0.to@), (r.1.from@, r.1.to@)],
{
    let wine = join_path(src, "lib/wine");
    let dir = join_path(wine.as_str(), kind);
    (
        DllRoute {
            from: join_path(dir.as_str(), "x86_64-windows"),
            to: join_path(pfx, "drive_c/windows/system32"),
        },
        DllRoute {
            from: join_path(dir.as_str(), "i386-windows"),
            to: join_path(pfx, "drive_c/windows/syswow64"),
        },
    )
}

/// Where the libraries for NVIDIA's interface come from and go to.
pub fn nvapi_route(proton: &str, pfx: &str) -> (r: DllRoute)
    ensures
        (r.from@, r.to@) == both_widths(proton@, "nvapi"@, pfx@)[0],
{
    let (wide, _) = dll_routes(proton, "nvapi", pfx);
    wide
}

/// Where the libraries that NVIDIA's driver brings along come from and go to.
pub fn dlss_route(pfx: &str) -> (r: DllRoute)
    ensures
        r.from@ == "/usr/lib/nvidia/wine"@,
        r.to@ == path_join(pfx@, "drive_c/windows/system32"@),
{
    DllRoute {
        from: "/usr/lib/nvidia/wine".to_string(),
        to: join_path(pfx, "drive_c/windows/system32"),
    }
}

/// What becomes of one library.
pub struct DllStep {
    pub name: String,
    /// What is to be done; nothing where the copy is up to date.
    pub op: Option<FileOp>,
}

/// The file of a library.
pub open spec fn dll_file(dir: Seq<char>, name: Seq<char>) -> Seq<char> {
    path_join(dir, name + ".dll"@)
}

/// What becomes of one library: nothing of one that is missing at the source.
pub open spec fn dll_step(
    from: Seq<char>,
    to: Seq<char>,
    metas: Metas,
    name: Seq<char>,
) -> Option<(Seq<char>, Option<Op>)> {
    let src = dll_file(from, name);
    let dst = dll_file(to, name);
    if metas.of(src) is None {
        None
    } else if up_to_date(metas.of(src), metas.of(dst)) {
        Some((name, None))
    } else {
        Some((name, Some(Op::Replace { from: src, to: dst })))
    }
}

pub open spec fn dll_steps(
    from: Seq<char>,
    to: Seq<char>,
    metas: Metas,
    names: Seq<Seq<char>>,
) -> Seq<(Seq<char>, Option<Op>)>
    decreases names.len(),
{
    if names.len() == 0 {
        Seq::empty()
    } else {
        let before = dll_steps(from, to, metas, names.drop_last());
        match dll_step(from, to, metas, names.last()) {
            Some(s) => before.push(s),
            None => before,
        }
    }
}

pub open spec fn step_view(s: DllStep) -> (Seq<char>, Option<Op>) {
    (
        s.name@,
        match s.op {
            Some(o) => Some(o@),
            None => None,
        },
    )
}

pub open spec fn step_views(v: Seq<DllStep>) -> Seq<(Seq<char>, Option<Op>)> {
    v.map_values(|s: DllStep| step_view(s))
}

/// Plans the deployment of libraries: those that are there and not up to date are replaced.
pub fn deploy_dlls(
    route: &DllRoute,
    names: &Vec<String>,
    metas: &Metas,
) -> (r: Vec<DllStep>)
    ensures
        step_views(r@) == dll_steps(route.from@, route.to@, *metas, views(names@)),
{
    let mut out: Vec<DllStep> = Vec::new();
    let mut i: usize = 0;
    assert(step_views(out@) =~= dll_steps(
        route.from@,
        route.to@,
        *metas,
        views(names@).take(0),
    ));
    while i < names.len()
        invariant
            i <= names@.len(),
            step_views(out@) == dll_steps(
                route.from@,
                route.to@,
                *metas,
                views(names@).take(i as int),
            ),
        decreases names@.len() - i,
    {
        let ghost before = out@;
        assert(views(names@).take(i + 1).drop_last() =~= views(names@).take(i as int));
        let file = concat(names[i].as_str(), ".dll");
        let src = join_path(route.from.as_str(), file.as_str());
        let dst = join_path(route.to.as_str(), file.as_str());
        let from = metas.get(src.as_str());
        if from.is_some() {
            let op = if file_matches(from, metas.get(dst.as_str())) {
                None
            } else {
                Some(FileOp::Replace { from: src, to: dst })
            };
            let step = DllStep { name: names[i].clone(), op };
            let ghost sv = step_view(step);
            out.push(step);
            assert(step_views(out@) =~= step_views(before).push(sv));
        }
        i = i + 1;
    }
    assert(views(names@).take(names@.len() as int) =~= views(names@));
    out
}

/// The libraries that are in place: those that were up to date, and those whose copy succeeded.
pub open spec fn in_place(steps: Seq<(Seq<char>, Option<Op>)>, done: Seq<bool>) -> Seq<Seq<char>>
    decreases steps.len(),
{
    if steps.len() == 0 {
        Seq::empty()
    } else {
        let before = in_place(steps.drop_last(), done);
        let i = steps.len() - 1;
        if steps.last().1 is None || (i < done.len() && done[i]) {
            before.push(steps.last().0)
        } else {
            before
        }
    }
}

/// The libraries that are in place after the steps. `done` tells which of the steps succeeded.
pub fn deployed(steps: &Vec<DllStep>, done: &Vec<bool>) -> (r: Vec<String>)
    ensures
        views(r@) == in_place(step_views(steps@), done@),
{
    let mut out: Vec<String> = Vec::new();
    let mut i: usize = 0;
    assert(views(out@) =~= in_place(step_views(steps@).take(0), done@));
    while i < steps.len()
        invariant
            i <= steps@.len(),
            views(out@) == in_place(step_views(steps@).take(i as int), done@),
        decreases steps@.len() - i,
    {
        assert(step_views(steps@).take(i + 1).drop_last() =~= step_views(steps@).take(i as int));
        assert(step_views(steps@).take(i + 1).last() == step_view(steps@[i as int]));
        if steps[i].op.is_none() || (i < done.len() && done[i]) {
            push_text(&mut out, steps[i].name.clone());
        }
        i = i + 1;
    }
    assert(step_views(steps@).take(steps@.len() as int) =~= step_views(steps@));
    out
}

/// The libraries that stand at the end of a route.
pub open spec fn standing(to: Seq<char>, present: Set<Seq<char>>, names: Seq<Seq<char>>) -> Seq<Seq<char>>
    decreases names.len(),
{
    if names.len() == 0 {
        Seq::empty()
    } else {
        let before = standing(to, present, names.drop_last());
        if present.contains(path_join(to, names.last() + ".dll"@)) {
            before.push(names.last())
        } else {
            before
        }
    }
}

/// The libraries of an earlier launch that stand at the end of a route.
pub fn kept_dlls(route: &DllRoute, names: &Vec<String>, present: &Present) -> (r: Vec<String>)
    ensures
        views(r@) == standing(route.to@, present@, views(names@)),
{
    let mut out: Vec<String> = Vec::new();
    let mut i: usize = 0;
    assert(views(out@) =~= standing(route.to@, present@, views(names@).take(0)));
    while i < names.len()
        invariant
            i <= names@.len(),
            views(out@) == standing(route.to@, present@, views(names@).take(i as int)),
        decreases names@.len() - i,
    {
        assert(views(names@).take(i + 1).drop_last() =~= views(names@).take(i as int));
        assert(views(names@).take(i + 1).last() == names@[i as int]@);
        let file = concat(names[i].as_str(), ".dll");
        let at = join_path(route.to.as_str(), file.as_str());
        if present.holds(at.as_str()) {
            push_text(&mut out, names[i].clone());
        }
        i = i + 1;
    }
    assert(views(names@).take(names@.len() as int) =~= views(names@));
    out
}

/// A copy that is up to date is left alone: where nothing changed, nothing is copied.
pub proof fn lemma_nothing_to_copy(
    from: Seq<char>,
    to: Seq<char>,
    metas: Metas,
    names: Seq<Seq<char>>,
    done: Seq<bool>,
)
    requires
        forall|i: int|
            0 <= i < names.len() ==> up_to_date(
                metas.of(dll_file(from, #[trigger] names[i])),
                metas.of(dll_file(to, names[i])),
            ),
    ensures
        dll_steps(from, to, metas, names) == names.map_values(
            |n: Seq<char>| (n, None::<Op>),
        ),
        in_place(dll_steps(from, to, metas, names), done) == names,
    decreases names.len(),
{
    if names.len() > 0 {
        let n = names.drop_last();
        assert forall|i: int| 0 <= i < n.len() implies up_to_date(
            metas.of(dll_file(from, #[trigger] n[i])),
            metas.of(dll_file(to, n[i])),
        ) by {
            assert(n[i] == names[i]);
        }
        lemma_nothing_to_copy(from, to, metas, n, done);
        assert(names[names.len() - 1] == names.last());
        let s = dll_steps(from, to, metas, names);
        assert(s == dll_steps(from, to, metas, n).push((names.last(), None)));
        assert(s.drop_last() =~= dll_steps(from, to, metas, n));
        assert(s =~= names.map_values(|n: Seq<char>| (n, None::<Op>)));
        assert(in_place(s, done) =~= names);
    } else {
        assert(dll_steps(from, to, metas, names) =~= names.map_values(
            |n: Seq<char>| (n, None::<Op>),
        ));
        assert(in_place(dll_steps(from, to, metas, names), done) =~= names);
    }
}

/// Steam's client libraries: the name at the source and the name in the prefix.
pub open spec fn client_files() -> Seq<(Seq<char>, Seq<char>)> {
    seq![
        ("steamclient64.dll"@, "steamclient64.dll"@),
        ("steamclient.dll"@, "steamclient.dll"@),
        ("GameOverlayRenderer64.dll"@, "GameOverlayRenderer64.dll"@),
        ("SteamService.exe"@, "steam.exe"@),
        ("Steam.dll"@, "Steam.dll"@),
    ]
}

pub open spec fn client_copy(
    legacy: Seq<char>,
    dir: Seq<char>,
    metas: Metas,
    file: (Seq<char>, Seq<char>),
) -> Seq<Op> {
    let src = path_join(legacy, file.0);
    let dst = path_join(dir, file.1);
    if metas.of(src) is Some && !up_to_date(metas.of(src), metas.of(dst)) {
        seq![Op::Replace { from: src, to: dst }]
    } else {
        Seq::empty()
    }
}

/// Steam's client is brought up to date, where Steam has it.
pub open spec fn client_ops(steam: Seq<char>, pfx: Seq<char>, metas: Metas) -> Seq<Op> {
    let legacy = path_join(steam, "legacycompat"@);
    let dir = path_join(pfx, "drive_c/Program Files (x86)/Steam"@);
    let f = client_files();
    if metas.of(legacy) is None {
        Seq::empty()
    } else {
        seq![Op::MakeDir { path: dir }] + client_copy(legacy, dir, metas, f[0]) + client_copy(
            legacy,
            dir,
            metas,
            f[1],
        ) + client_copy(legacy, dir, metas, f[2]) + client_copy(legacy, dir, metas, f[3])
            + client_copy(legacy, dir, metas, f[4])
    }
}

fn push_client_copy(
    out: &mut Vec<FileOp>,
    legacy: &str,
    dir: &str,
    metas: &Metas,
    src_name: &str,
    dst_name: &str,
)
    ensures
        op_views(final(out)@) == op_views(old(out)@) + client_copy(
            legacy@,
            dir@,
            *metas,
            (src_name@, dst_name@),
        ),
{
    let src = join_path(legacy, src_name);
    let dst = join_path(dir, dst_name);
    let from = metas.get(src.as_str());
    if from.is_some() && !file_matches(from, metas.get(dst.as_str())) {
        push_op(out, FileOp::Replace { from: src, to: dst });
    }
    assert(op_views(out@) =~= op_views(old(out)@) + client_copy(
        legacy@,
        dir@,
        *metas,
        (src_name@, dst_name@),
    ));
}

/// Brings Steam's client in a prefix up to date.
pub fn deploy_steam_client(steam: &str, pfx: &str, metas: &Metas) -> (r: Vec<FileOp>)
    ensures
        op_views(r@) == client_ops(steam@, pfx@, *metas),
{
    let mut out: Vec<FileOp> = Vec::new();
    let legacy = join_path(steam, "legacycompat");
    if metas.get(legacy.as_str()).is_none() {
        assert(op_views(out@) =~= Seq::<Op>::empty());
        return out;
    }
    let dir = join_path(pfx, "drive_c/Program Files (x86)/Steam");
    let (l, d) = (legacy.as_str(), dir.as_str());
    push_op(&mut out, FileOp::MakeDir { path: dir.clone() });
    push_client_copy(&mut out, l, d, metas, "steamclient64.dll", "steamclient64.dll");
    push_client_copy(&mut out, l, d, metas, "steamclient.dll", "steamclient.dll");
    push_client_copy(
        &mut out,
        l,
        d,
        metas,
        "GameOverlayRenderer64.dll",
        "GameOverlayRenderer64.dll",
    );
    push_client_copy(&mut out, l, d, metas, "SteamService.exe", "steam.exe");
    push_client_copy(&mut out, l, d, metas, "Steam.dll", "Steam.dll");
    assert(op_views(out@) =~= client_ops(steam@, pfx@, *metas));
    out
}

/// A copy of Steam's library that differs in length from its own is overwritten.
pub open spec fn repair_op(own: Seq<char>, pfx: Seq<char>, loc: Seq<char>, metas: Metas) -> Seq<Op> {
    let dst = path_join(path_join(pfx, loc), "steamclient64.dll"@);
    match (metas.of(own), metas.of(dst)) {
        (Some(r), Some(d)) => if r.len != 0 && d.len != r.len {
            seq![Op::Copy { from: own, to: dst }]
        } else {
            Seq::empty()
        },
        _ => Seq::empty(),
    }
}

fn push_repair(out: &mut Vec<FileOp>, own: &str, pfx: &str, loc: &str, metas: &Metas)
    ensures
        op_views(final(out)@) == op_views(old(out)@) + repair_op(own@, pfx@, loc@, *metas),
{
    let dir = join_path(pfx, loc);
    let dst = join_path(dir.as_str(), "steamclient64.dll");
    match (metas.get(own), metas.get(dst.as_str())) {
        (Some(r), Some(d)) => {
            if r.len != 0 && d.len != r.len {
                push_op(out, FileOp::Copy { from: own.to_string(), to: dst });
            }
        },
        _ => {},
    }
    assert(op_views(out@) =~= op_views(old(out)@) + repair_op(own@, pfx@, loc@, *metas));
}

/// Restores Steam's own library in prefixes that hold another under its name. `install` is where Steam is
/// installed.
pub fn repair_steamclient64(install: &str, pfx: &str, metas: &Metas) -> (r: Vec<FileOp>)
    ensures
        op_views(r@) == repair_op(
            path_join(install@, "steamclient64.dll"@),
            pfx@,
            "drive_c/Program Files (x86)/Steam"@,
            *metas,
        ) + repair_op(
            path_join(install@, "steamclient64.dll"@),
            pfx@,
            "drive_c/windows/system32"@,
            *metas,
        ),
{
    let own = join_path(install, "steamclient64.dll");
    let mut out: Vec<FileOp> = Vec::new();
    push_repair(&mut out, own.as_str(), pfx, "drive_c/Program Files (x86)/Steam", metas);
    push_repair(&mut out, own.as_str(), pfx, "drive_c/windows/system32", metas);
    assert(op_views(out@) =~= repair_op(
        own@,
        pfx@,
        "drive_c/Program Files (x86)/Steam"@,
        *metas,
    ) + repair_op(own@, pfx@, "drive_c/windows/system32"@, *metas));
    out
}

/// The launcher's own `steam.exe` goes to both system directories, over whatever stands there.
pub open spec fn steam_exe_ops(
    self_dir: Option<Seq<char>>,
    pfx: Seq<char>,
    present: Set<Seq<char>>,
) -> Seq<Op> {
    match self_dir {
        Some(d) => {
            let src = path_join(d, "lib/wine/x86_64-windows/steam.exe"@);
            let a = path_join(pfx, "drive_c/windows/system32"@);
            let b = path_join(pfx, "drive_c/windows/syswow64"@);
            if present.contains(src) {
                seq![
                    Op::RemoveBroken { path: path_join(a, "steam.exe"@) },
                    Op::MakeDir { path: a },
                    Op::Copy { from: src, to: path_join(a, "steam.exe"@) },
                    Op::RemoveBroken { path: path_join(b, "steam.exe"@) },
                    Op::MakeDir { path: b },
                    Op::Copy { from: src, to: path_join(b, "steam.exe"@) },
                ]
            } else {
                Seq::empty()
            }
        },
        None => Seq::empty(),
    }
}

pub fn deploy_steam_exe(
    self_dir: &Option<String>,
    pfx: &str,
    present: &Present,
) -> (r: Vec<FileOp>)
    ensures
        op_views(r@) == steam_exe_ops(opt_view(*self_dir), pfx@, present@),
{
    let mut out: Vec<FileOp> = Vec::new();
    match self_dir {
        Some(d) => {
            let src = join_path(d.as_str(), "lib/wine/x86_64-windows/steam.exe");
            if present.holds(src.as_str()) {
                let a = join_path(pfx, "drive_c/windows/system32");
                let b = join_path(pfx, "drive_c/windows/syswow64");
                let to_a = join_path(a.as_str(), "steam.exe");
                let to_b = join_path(b.as_str(), "steam.exe");
                push_op(&mut out, FileOp::RemoveBroken { path: to_a.clone() });
                push_op(&mut out, FileOp::MakeDir { path: a });
                push_op(&mut out, FileOp::Copy { from: src.clone(), to: to_a });
                push_op(&mut out, FileOp::RemoveBroken { path: to_b.clone() });
                push_op(&mut out, FileOp::MakeDir { path: b });
                push_op(&mut out, FileOp::Copy { from: src, to: to_b });
            }
        },
        None => {},
    }
    assert(op_views(out@) =~= steam_exe_ops(opt_view(*self_dir), pfx@, present@));
    out
}

/// The launcher's own bridge to Steam goes to `system32`.
pub open spec fn bridge_ops(
    self_dir: Option<Seq<char>>,
    pfx: Seq<char>,
    present: Set<Seq<char>>,
) -> Seq<Op> {
    match self_dir {
        Some(d) => {
            let src = path_join(d, "lib/wine/x86_64-windows/lsteamclient.dll"@);
            let dir = path_join(pfx, "drive_c/windows/system32"@);
            if present.contains(src) {
                seq![
                    Op::MakeDir { path: dir },
                    Op::Copy { from: src, to: path_join(dir, "lsteamclient.dll"@) },
                ]
            } else {
                Seq::empty()
            }
        },
        None => Seq::empty(),
    }
}

pub fn deploy_lsteamclient_to_prefix(
    self_dir: &Option<String>,
    pfx: &str,
    present: &Present,
) -> (r: Vec<FileOp>)
    ensures
        op_views(r@) == bridge_ops(opt_view(*self_dir), pfx@, present@),
{
    let mut out: Vec<FileOp> = Vec::new();
    match self_dir {
        Some(d) => {
            let src = join_path(d.as_str(), "lib/wine/x86_64-windows/lsteamclient.dll");
            if present.holds(src.as_str()) {
                let dir = join_path(pfx, "drive_c/windows/system32");
                let to = join_path(dir.as_str(), "lsteamclient.dll");
                push_op(&mut out, FileOp::MakeDir { path: dir });
                push_op(&mut out, FileOp::Copy { from: src, to });
            }
        },
        None => {},
    }
    assert(op_views(out@) =~= bridge_ops(opt_view(*self_dir), pfx@, present@));
    out
}

/// The system's own libraries are taken over where its system library differs in length from the one in
/// the prefix.
pub open spec fn needs_sync(pfx: Seq<char>, metas: Metas) -> bool {
    match metas.of("/usr/lib/wine/x86_64-windows/ntdll.dll"@) {
        Some(m) => m.len != match metas.of(
            path_join(path_join(pfx, "drive_c/windows/system32"@), "ntdll.dll"@),
        ) {
            Some(p) => p.len,
            None => 0,
        },
        None => false,
    }
}

pub fn sync_needed(pfx: &str, metas: &Metas) -> (r: bool)
    ensures
        r == needs_sync(pfx@, *metas),
{
    let sys32 = join_path(pfx, "drive_c/windows/system32");
    let own = join_path(sys32.as_str(), "ntdll.dll");
    match metas.get("/usr/lib/wine/x86_64-windows/ntdll.dll") {
        Some(m) => {
            let n: u64 = match metas.get(own.as_str()) {
                Some(p) => p.len,
                None => 0,
            };
            m.len != n
        },
        None => false,
    }
}

/// A file that belongs to Windows, by its extension.
pub open spec fn windows_file(name: Seq<char>) -> bool {
    match extension(name) {
        Some(e) => e == "dll"@ || e == "exe"@ || e == "drv"@ || e == "sys"@ || e == "ocx"@ || e
            == "cpl"@ || e == "acm"@ || e == "ax"@,
        None => false,
    }
}

fn is_windows_file(name: &str) -> (r: bool)
    ensures
        r == windows_file(name@),
{
    match extension_of(name) {
        Some(e) => {
            let e = e.as_str();
            same(e, "dll") || same(e, "exe") || same(e, "drv") || same(e, "sys") || same(e, "ocx")
                || same(e, "cpl") || same(e, "acm") || same(e, "ax")
        },
        None => false,
    }
}

pub open spec fn sync_ops(names: Seq<Seq<char>>, sys32: Seq<char>) -> Seq<Op>
    decreases names.len(),
{
    if names.len() == 0 {
        Seq::empty()
    } else {
        let before = sync_ops(names.drop_last(), sys32);
        if windows_file(names.last()) {
            before.push(
                Op::Copy {
                    from: path_join("/usr/lib/wine/x86_64-windows"@, names.last()),
                    to: path_join(sys32, names.last()),
                },
            )
        } else {
            before
        }
    }
}

/// Takes over the system's own libraries, out of the names in their directory.
pub fn sync_system_dlls(names: &Vec<String>, pfx: &str) -> (r: Vec<FileOp>)
    ensures
        op_views(r@) == sync_ops(views(names@), path_join(pfx@, "drive_c/windows/system32"@)),
{
    let sys32 = join_path(pfx, "drive_c/windows/system32");
    let mut out: Vec<FileOp> = Vec::new();
    let mut i: usize = 0;
    assert(op_views(out@) =~= sync_ops(views(names@).take(0), sys32@));
    while i < names.len()
        invariant
            i <= names@.len(),
            op_views(out@) == sync_ops(views(names@).take(i as int), sys32@),
        decreases names@.len() - i,
    {
        assert(views(names@).take(i + 1).drop_last() =~= views(names@).take(i as int));
        let n = names[i].as_str();
        if is_windows_file(n) {
            push_op(
                &mut out,
                FileOp::Copy {
                    from: join_path("/usr/lib/wine/x86_64-windows", n),
                    to: join_path(sys32.as_str(), n),
                },
            );
        }
        i = i + 1;
    }
    assert(views(names@).take(names@.len() as int) =~= views(names@));
    out
}

/// Both generations of graphics are deployed for every program. What only NVIDIA's cards do is deployed for
/// such a card alone, and where the program asks for it: by its own sign, or by a library named after it.
pub proof fn lemma_plans(scan: PeScanResult, nvidia: bool, k: int, i: int)
    ensures
        ({
            let p = plan_of(Some(scan), nvidia);
            &&& p.needs_dxvk && p.needs_vkd3d
            &&& !nvidia ==> !p.needs_nvapi && !p.needs_dlss
            &&& nvidia ==> p.needs_nvapi == scan.needs_nvapi
            &&& nvidia && 0 <= k < scan.imports@.len() && 0 <= i && i + 5 <= scan.imports@[k]@.len()
                && scan.imports@[k]@.subrange(i, i + 5) == "nvngx"@ ==> p.needs_dlss
            &&& scan.imports@.len() == 0 ==> !p.needs_dlss
            &&& p.scan_hash == list_digest(scan.render_api, views(scan.imports@))
        }),
        ({
            let p = plan_of(None, nvidia);
            p.needs_dxvk && p.needs_vkd3d && !p.needs_nvapi && !p.needs_dlss && p.scan_hash == 0
        }),
{
    reveal_strlit("nvngx");
    if nvidia && 0 <= k < scan.imports@.len() && 0 <= i && i + 5 <= scan.imports@[k]@.len()
        && scan.imports@[k]@.subrange(i, i + 5) == "nvngx"@ {
        let v = views(scan.imports@);
        assert(sub_at(v[k], "nvngx"@, i));
        assert(has_sub(v[k], "nvngx"@));
    }
}

/// The names of the graphics libraries.
pub proof fn lemma_graphics_libraries()
    ensures
        dxvk_names() == seq!["d3d11"@, "d3d10core"@, "d3d9"@, "dxgi"@],
        vkd3d_names() == seq!["d3d12"@, "d3d12core"@],
{
}

/// What was built for 64 bits goes to `system32`, what was built for 32 bits to `syswow64`.
pub proof fn lemma_widths(src: Seq<char>, kind: Seq<char>, pfx: Seq<char>)
    ensures
        ({
            let dir = path_join(path_join(src, "lib/wine"@), kind);
            let r = both_widths(src, kind, pfx);
            &&& r.len() == 2
            &&& r[0].0 == path_join(dir, "x86_64-windows"@) && r[0].1 == path_join(pfx, "drive_c/windows/system32"@)
            &&& r[1].0 == path_join(dir, "i386-windows"@) && r[1].1 == path_join(pfx, "drive_c/windows/syswow64"@)
        }),
{
}

/// A library that is there and whose copy is not up to date is copied, under its own name; one whose copy is
/// up to date counts as done; one that is not there is passed over.
pub proof fn lemma_library_steps(from: Seq<char>, to: Seq<char>, metas: Metas, names: Seq<Seq<char>>, k: int)
    requires
        0 <= k < names.len(),
    ensures
        ({
            let src = path_join(from, names[k] + ".dll"@);
            let dst = path_join(to, names[k] + ".dll"@);
            let d = dll_steps(from, to, metas, names);
            &&& metas.of(src) is Some && !up_to_date(metas.of(src), metas.of(dst)) ==> d.contains(
                (names[k], Some(Op::Replace { from: src, to: dst })),
            )
            &&& metas.of(src) is Some && up_to_date(metas.of(src), metas.of(dst)) ==> d.contains((names[k], None))
            &&& d.len() <= names.len()
        }),
    decreases names.len(),
{
    let all = dll_steps(from, to, metas, names);
    let d = names.drop_last();
    let before = dll_steps(from, to, metas, d);
    let n = names.len() - 1;
    if d.len() > 0 {
        lemma_library_steps(
            from,
            to,
            metas,
            d,
            if k < n {
                k
            } else {
                0
            },
        );
    }
    let src = path_join(from, names[k] + ".dll"@);
    let dst = path_join(to, names[k] + ".dll"@);
    let copied = (names[k], Some(Op::Replace { from: src, to: dst }));
    let done: (Seq<char>, Option<Op>) = (names[k], None);
    if k < n {
        assert(d[k] == names[k]);
        if before.contains(copied) {
            let j = choose|j: int| 0 <= j < before.len() && before[j] == copied;
            assert(all[j] == copied);
        }
        if before.contains(done) {
            let j = choose|j: int| 0 <= j < before.len() && before[j] == done;
            assert(all[j] == done);
        }
    } else if metas.of(src) is Some {
        assert(all[all.len() - 1] == dll_step(from, to, metas, names[k])->Some_0);
    }
}

/// A library is in place exactly where its copy was up to date or its copying succeeded.
pub proof fn lemma_libraries_in_place(steps: Seq<(Seq<char>, Option<Op>)>, done: Seq<bool>, k: int)
    requires
        0 <= k < steps.len(),
    ensures
        steps[k].1 is None || (k < done.len() && done[k]) ==> in_place(steps, done).contains(steps[k].0),
        (forall|i: int|
            0 <= i < steps.len() ==> (#[trigger] steps[i]).1 is Some && !(i < done.len() && done[i])) ==> in_place(
            steps,
            done,
        ).len() == 0,
        in_place(steps, done).len() <= steps.len(),
    decreases steps.len(),
{
    let all = in_place(steps, done);
    let d = steps.drop_last();
    let before = in_place(d, done);
    let n = steps.len() - 1;
    if d.len() > 0 {
        lemma_libraries_in_place(
            d,
            done,
            if k < n {
                k
            } else {
                0
            },
        );
    }
    if forall|i: int| 0 <= i < steps.len() ==> (#[trigger] steps[i]).1 is Some && !(i < done.len() && done[i]) {
        assert forall|i: int| 0 <= i < d.len() implies (#[trigger] d[i]).1 is Some && !(i < done.len() && done[i]) by {
            assert(steps[i] == d[i]);
        }
        assert(steps[n].1 is Some);
    }
    if k < n {
        assert(d[k] == steps[k]);
        if before.contains(steps[k].0) {
            let j = choose|j: int| 0 <= j < before.len() && before[j] == steps[k].0;
            assert(all[j] == steps[k].0);
        }
    } else if steps[k].1 is None || (k < done.len() && done[k]) {
        assert(all[all.len() - 1] == steps[k].0);
    }
}

/// A library of an earlier launch is kept exactly where its file stands.
pub proof fn lemma_libraries_kept(to: Seq<char>, present: Set<Seq<char>>, names: Seq<Seq<char>>, x: Seq<char>)
    ensures
        standing(to, present, names).contains(x) <==> names.contains(x) && present.contains(
            path_join(to, x + ".dll"@),
        ),
    decreases names.len(),
{
    let all = standing(to, present, names);
    if names.len() > 0 {
        let d = names.drop_last();
        let before = standing(to, present, d);
        lemma_libraries_kept(to, present, d, x);
        assert(names[names.len() - 1] == names.last());
        if names.contains(x) && x != names.last() {
            let i = choose|i: int| 0 <= i < names.len() && names[i] == x;
            assert(d[i] == x);
        }
        if d.contains(x) {
            let i = choose|i: int| 0 <= i < d.len() && d[i] == x;
            assert(names[i] == x);
        }
        if before.contains(x) {
            let i = choose|i: int| 0 <= i < before.len() && before[i] == x;
            assert(all[i] == x);
        }
        if present.contains(path_join(to, names.last() + ".dll"@)) {
            assert(all[all.len() - 1] == names.last());
            if all.contains(x) && x != names.last() {
                let i = choose|i: int| 0 <= i < all.len() && all[i] == x;
                assert(before[i] == x);
            }
        }
    }
}

/// A file of Steam's client that is there and whose copy is not up to date is copied to Steam's directory; one
/// that is not there, or is up to date, is not.
pub proof fn lemma_client_files_copied(legacy: Seq<char>, dir: Seq<char>, metas: Metas, file: (Seq<char>, Seq<char>))
    ensures
        client_copy(legacy, dir, metas, file).contains(
            Op::Replace { from: path_join(legacy, file.0), to: path_join(dir, file.1) },
        ) <==> metas.of(path_join(legacy, file.0)) is Some && !up_to_date(
            metas.of(path_join(legacy, file.0)),
            metas.of(path_join(dir, file.1)),
        ),
        client_copy(legacy, dir, metas, file).len() <= 1,
        client_files().contains(("steamclient64.dll"@, "steamclient64.dll"@)),
        client_files().contains(("steamclient.dll"@, "steamclient.dll"@)),
        client_files().contains(("GameOverlayRenderer64.dll"@, "GameOverlayRenderer64.dll"@)),
        client_files().contains(("SteamService.exe"@, "steam.exe"@)),
        client_files().contains(("Steam.dll"@, "Steam.dll"@)),
{
    let c = client_copy(legacy, dir, metas, file);
    if c.len() == 1 {
        assert(c[0] == Op::Replace { from: path_join(legacy, file.0), to: path_join(dir, file.1) });
    }
    let f = client_files();
    assert(f[0] == ("steamclient64.dll"@, "steamclient64.dll"@));
    assert(f[1] == ("steamclient.dll"@, "steamclient.dll"@));
    assert(f[2] == ("GameOverlayRenderer64.dll"@, "GameOverlayRenderer64.dll"@));
    assert(f[3] == ("SteamService.exe"@, "steam.exe"@));
    assert(f[4] == ("Steam.dll"@, "Steam.dll"@));
}

/// Every file of Steam's client that is to be copied is, out of `legacycompat` and into Steam's directory of
/// the prefix, which is made first; without `legacycompat` nothing is done.
pub proof fn lemma_client_is_deployed(steam: Seq<char>, pfx: Seq<char>, metas: Metas, k: int)
    requires
        0 <= k < 5,
    ensures
        ({
            let legacy = path_join(steam, "legacycompat"@);
            let dir = path_join(pfx, "drive_c/Program Files (x86)/Steam"@);
            let ops = client_ops(steam, pfx, metas);
            let f = client_files()[k];
            &&& metas.of(legacy) is None ==> ops.len() == 0
            &&& metas.of(legacy) is Some ==> ops[0] == (Op::MakeDir { path: dir })
            &&& metas.of(legacy) is Some && metas.of(path_join(legacy, f.0)) is Some && !up_to_date(
                metas.of(path_join(legacy, f.0)),
                metas.of(path_join(dir, f.1)),
            ) ==> ops.contains(Op::Replace { from: path_join(legacy, f.0), to: path_join(dir, f.1) })
        }),
{
    let legacy = path_join(steam, "legacycompat"@);
    let dir = path_join(pfx, "drive_c/Program Files (x86)/Steam"@);
    let f = client_files();
    let ops = client_ops(steam, pfx, metas);
    if metas.of(legacy) is Some {
        let a = client_copy(legacy, dir, metas, f[0]);
        let b = client_copy(legacy, dir, metas, f[1]);
        let c = client_copy(legacy, dir, metas, f[2]);
        let d = client_copy(legacy, dir, metas, f[3]);
        let e = client_copy(legacy, dir, metas, f[4]);
        let x = client_copy(legacy, dir, metas, f[k]);
        let at: nat = if k == 0 {
            1nat
        } else if k == 1 {
            1 + a.len()
        } else if k == 2 {
            1 + a.len() + b.len()
        } else if k == 3 {
            1 + a.len() + b.len() + c.len()
        } else {
            1 + a.len() + b.len() + c.len() + d.len()
        };
        if x.len() == 1 {
            assert(ops[at as int] == x[0]);
        }
    }
}

/// Steam's own library takes the place of one that differs from it in length, and of no other.
pub proof fn lemma_repairs(own: Seq<char>, pfx: Seq<char>, loc: Seq<char>, metas: Metas)
    ensures
        ({
            let dst = path_join(path_join(pfx, loc), "steamclient64.dll"@);
            &&& repair_op(own, pfx, loc, metas).len() <= 1
            &&& repair_op(own, pfx, loc, metas).contains(Op::Copy { from: own, to: dst }) <==> (metas.of(
                own,
            ) matches Some(r) && metas.of(dst) matches Some(d) && r.len > 0 && d.len != r.len)
        }),
{
    let dst = path_join(path_join(pfx, loc), "steamclient64.dll"@);
    let r = repair_op(own, pfx, loc, metas);
    if r.len() == 1 {
        assert(r[0] == Op::Copy { from: own, to: dst });
    }
}

/// The launcher's `steam.exe` is copied to both system directories, each after a broken link in its place was
/// taken away and the directory made; its bridge is copied to `system32`.
pub proof fn lemma_own_programs(d: Seq<char>, pfx: Seq<char>, present: Set<Seq<char>>)
    ensures
        present.contains(path_join(d, "lib/wine/x86_64-windows/steam.exe"@)) ==> ({
            let src = path_join(d, "lib/wine/x86_64-windows/steam.exe"@);
            let a = path_join(pfx, "drive_c/windows/system32"@);
            let b = path_join(pfx, "drive_c/windows/syswow64"@);
            let ops = steam_exe_ops(Some(d), pfx, present);
            &&& ops.len() == 6
            &&& ops[0] == (Op::RemoveBroken { path: path_join(a, "steam.exe"@) })
            &&& ops[1] == (Op::MakeDir { path: a })
            &&& ops[2] == (Op::Copy { from: src, to: path_join(a, "steam.exe"@) })
            &&& ops[3] == (Op::RemoveBroken { path: path_join(b, "steam.exe"@) })
            &&& ops[4] == (Op::MakeDir { path: b })
            &&& ops[5] == (Op::Copy { from: src, to: path_join(b, "steam.exe"@) })
        }),
        !present.contains(path_join(d, "lib/wine/x86_64-windows/steam.exe"@)) ==> steam_exe_ops(
            Some(d),
            pfx,
            present,
        ).len() == 0,
        present.contains(path_join(d, "lib/wine/x86_64-windows/lsteamclient.dll"@)) ==> ({
            let dir = path_join(pfx, "drive_c/windows/system32"@);
            let ops = bridge_ops(Some(d), pfx, present);
            &&& ops.len() == 2
            &&& ops[0] == (Op::MakeDir { path: dir })
            &&& ops[1] == (Op::Copy {
                from: path_join(d, "lib/wine/x86_64-windows/lsteamclient.dll"@),
                to: path_join(dir, "lsteamclient.dll"@),
            })
        }),
        steam_exe_ops(None, pfx, present).len() == 0 && bridge_ops(None, pfx, present).len() == 0,
{
}

/// The system's own libraries are taken over where its system library and the prefix's differ in length; one
/// that is not there has the length 0.
pub proof fn lemma_when_taken_over(pfx: Seq<char>, metas: Metas)
    ensures
        ({
            let own = metas.of(path_join(path_join(pfx, "drive_c/windows/system32"@), "ntdll.dll"@));
            match (metas.of("/usr/lib/wine/x86_64-windows/ntdll.dll"@), own) {
                (None, _) => !needs_sync(pfx, metas),
                (Some(m), Some(p)) => needs_sync(pfx, metas) <==> m.len != p.len,
                (Some(m), None) => needs_sync(pfx, metas) <==> m.len != 0,
            }
        }),
{
}

/// A file belongs to Windows by what stands behind the last dot of its name.
#[verifier::rlimit(30)]
pub proof fn lemma_windows_files(stem: Seq<char>)
    requires
        stem.len() > 0,
    ensures
        windows_file(stem + ".dll"@),
        windows_file(stem + ".exe"@),
        windows_file(stem + ".drv"@),
        windows_file(stem + ".sys"@),
        windows_file(stem + ".ocx"@),
        windows_file(stem + ".cpl"@),
        windows_file(stem + ".acm"@),
        windows_file(stem + ".ax"@),
{
    reveal_strlit(".dll");
    reveal_strlit("dll");
    lemma_extension(stem, "dll"@);
    assert(stem.push('.') + "dll"@ =~= stem + ".dll"@);
    reveal_strlit(".exe");
    reveal_strlit("exe");
    lemma_extension(stem, "exe"@);
    assert(stem.push('.') + "exe"@ =~= stem + ".exe"@);
    reveal_strlit(".drv");
    reveal_strlit("drv");
    lemma_extension(stem, "drv"@);
    assert(stem.push('.') + "drv"@ =~= stem + ".drv"@);
    reveal_strlit(".sys");
    reveal_strlit("sys");
    lemma_extension(stem, "sys"@);
    assert(stem.push('.') + "sys"@ =~= stem + ".sys"@);
    reveal_strlit(".ocx");
    reveal_strlit("ocx");
    lemma_extension(stem, "ocx"@);
    assert(stem.push('.') + "ocx"@ =~= stem + ".ocx"@);
    reveal_strlit(".cpl");
    reveal_strlit("cpl");
    lemma_extension(stem, "cpl"@);
    assert(stem.push('.') + "cpl"@ =~= stem + ".cpl"@);
    reveal_strlit(".acm");
    reveal_strlit("acm");
    lemma_extension(stem, "acm"@);
    assert(stem.push('.') + "acm"@ =~= stem + ".acm"@);
    reveal_strlit(".ax");
    reveal_strlit("ax");
    lemma_extension(stem, "ax"@);
    assert(stem.push('.') + "ax"@ =~= stem + ".ax"@);
}

/// What is taken over is every file that belongs to Windows, under its own name.
pub proof fn lemma_taken_over(names: Seq<Seq<char>>, sys32: Seq<char>, k: int)
    requires
        0 <= k < names.len(),
    ensures
        windows_file(names[k]) ==> sync_ops(names, sys32).contains(
            Op::Copy {
                from: path_join("/usr/lib/wine/x86_64-windows"@, names[k]),
                to: path_join(sys32, names[k]),
            },
        ),
        (forall|i: int| 0 <= i < names.len() ==> !windows_file(#[trigger] names[i])) ==> sync_ops(names, sys32).len()
            == 0,
    decreases names.len(),
{
    let all = sync_ops(names, sys32);
    let d = names.drop_last();
    let before = sync_ops(d, sys32);
    let n = names.len() - 1;
    let op = Op::Copy {
        from: path_join("/usr/lib/wine/x86_64-windows"@, names[k]),
        to: path_join(sys32, names[k]),
    };
    if d.len() > 0 {
        lemma_taken_over(
            d,
            sys32,
            if k < n {
                k
            } else {
                0
            },
        );
    }
    if forall|i: int| 0 <= i < names.len() ==> !windows_file(#[trigger] names[i]) {
        assert forall|i: int| 0 <= i < d.len() implies !windows_file(#[trigger] d[i]) by {
            assert(names[i] == d[i]);
        }
        assert(!windows_file(names[n]));
    }
    if k < n {
        assert(d[k] == names[k]);
        if before.contains(op) {
            let j = choose|j: int| 0 <= j < before.len() && before[j] == op;
            assert(all[j] == op);
        }
    } else if windows_file(names[k]) {
        assert(all[all.len() - 1] == op);
    }
}

} // verus!
