//! The launch of a program: what a verb asks for, in which order a prefix is made ready, and the command
//! that is run.
use crate::deploy::{some_has, any_has, DeployPlan, PeScanResult};
use crate::digest::{hash_pairs, pair_digest};
use crate::discovery::{build_wine_command, wine_words, Present};
use crate::env::{
    concat, if_there, only_if, or_text, push_if_there, push_text, put, put_if, text_or, var_if,
};
use crate::fileops::{Launched, Run};
use crate::paths::{beside, join_path, parent, path_join};
use crate::prefix::{preloads, strip_overlay};
use crate::saves::{eq_ignore_case, same_but_case, small, small_char};
use crate::settings::{is_space, lemma_trimmed_same, pair_views, trim, trimmed, DeployCache};
use crate::text::{
    chars_of, contains_text, decimal, ends_in, ends_with_text, has_sub, hex_digit, hex_fixed, join, joined,
    push_decimal, push_hex_fixed, same, starts_in, starts_with_text, string_of, sub_at, views,
};
use crate::wire::opt_view;
use vstd::prelude::*;

verus! {

/// What a verb asks for.
pub enum Start {
    /// A path is printed as it is.
    Print { path: Option<String> },
    /// There is nothing to do.
    Nothing,
    /// A session is to be made ready.
    Session,
}

/// A verb that asks for a program to be run.
pub open spec fn runs(verb: Seq<char>) -> bool {
    verb == "waitforexitandrun"@ || verb == "run"@
}

pub fn is_run(verb: &str) -> (r: bool)
    ensures
        r == runs(verb@),
{
    same(verb, "waitforexitandrun") || same(verb, "run")
}

/// What a verb asks for.
pub fn start(verb: &str, args: &Vec<String>) -> (r: Start)
    ensures
        if verb@ == "getcompatpath"@ || verb@ == "getnativepath"@ {
            r matches Start::Print { path } && opt_view(path) == (if args@.len() > 0 {
                Some(args@[0]@)
            } else {
                None
            })
        } else if verb@ == "installscript"@ || verb@ == "runinprefix"@ {
            r is Nothing
        } else {
            r is Session
        },
{
    if same(verb, "getcompatpath") || same(verb, "getnativepath") {
        let path = if args.len() > 0 {
            Some(args[0].clone())
        } else {
            None
        };
        return Start::Print { path };
    }
    if same(verb, "installscript") || same(verb, "runinprefix") {
        return Start::Nothing;
    }
    Start::Session
}

/// Steam looks at a prefix of its own before it launches anything.
pub open spec fn is_probe(compat_data: Seq<char>, verb: Seq<char>) -> bool {
    (ends_in(compat_data, "/0"@) || ends_in(compat_data, "/0/"@)) && verb == "run"@
}

/// Where the prefix of a session is, or the code with which the launcher ends before there is one.
pub fn session_prefix(wine_there: bool, compat_data: &str, verb: &str) -> (r: Result<String, i32>)
    ensures
        match r {
            Ok(p) => wine_there && compat_data@.len() > 0 && !is_probe(compat_data@, verb@) && p@
                == path_join(compat_data@, "pfx"@),
            Err(code) => if !wine_there || compat_data@.len() == 0 {
                code == 1
            } else {
                code == 0 && is_probe(compat_data@, verb@)
            },
        },
{
    if !wine_there || compat_data.is_empty() {
        return Err(1);
    }
    if (ends_with_text(compat_data, "/0") || ends_with_text(compat_data, "/0/")) && same(
        verb,
        "run",
    ) {
        return Err(0);
    }
    Ok(join_path(compat_data, "pfx"))
}

/// Which parts of a prefix are as they were deployed.
#[derive(Clone, Copy, Debug, PartialEq, Eq)]
pub struct Valid {
    pub wine: bool,
    pub dxvk: bool,
    pub vkd3d: bool,
    pub steam: bool,
    pub scan: bool,
}

/// Which parts of a prefix are as they were deployed: those whose number is still the same.
pub open spec fn valid_parts(cache: Option<DeployCache>, now: DeployCache) -> Valid {
    match cache {
        Some(c) => Valid {
            wine: c.wine_hash == now.wine_hash,
            dxvk: c.dxvk_hash == now.dxvk_hash,
            vkd3d: c.vkd3d_hash == now.vkd3d_hash,
            steam: c.steam_hash == now.steam_hash,
            scan: c.scan_hash == now.scan_hash,
        },
        None => Valid { wine: false, dxvk: false, vkd3d: false, steam: false, scan: false },
    }
}

pub fn validity(cache: Option<DeployCache>, now: DeployCache) -> (r: Valid)
    ensures
        r == valid_parts(cache, now),
{
    match cache {
        Some(c) => Valid {
            wine: c.wine_hash == now.wine_hash,
            dxvk: c.dxvk_hash == now.dxvk_hash,
            vkd3d: c.vkd3d_hash == now.vkd3d_hash,
            steam: c.steam_hash == now.steam_hash,
            scan: c.scan_hash == now.scan_hash,
        },
        None => Valid { wine: false, dxvk: false, vkd3d: false, steam: false, scan: false },
    }
}

/// A step on the way to a prefix that is ready.
#[derive(Clone, Copy, Debug, PartialEq, Eq)]
pub enum Job {
    WindowsDirs,
    SyncDlls,
    RegistryStubs,
    InjectKeys,
    SteamExe,
    Bridge,
    SetupPrefix,
    ProfileDirs,
    DeployDxvk,
    /// The libraries are in place from an earlier launch.
    KeepDxvk,
    DeployVkd3d,
    KeepVkd3d,
    DeployNvapi,
    KeepNvapi,
    DeployDlss,
    KeepDlss,
    DeploySteamClient,
    RepairSteamClient,
    SaveCache,
}

pub open spec fn job_if(b: bool, j: Job) -> Seq<Job> {
    if b {
        seq![j]
    } else {
        Seq::empty()
    }
}

/// All parts are as they were deployed.
pub open spec fn all_valid(v: Valid) -> bool {
    v.wine && v.dxvk && v.vkd3d && v.steam && v.scan
}

/// The steps up to a prefix that Wine can start in. Where all parts are as they were deployed only the
/// directories of the user's profile are looked after: programs need them whatever the cache says, and a
/// directory that is there stays as it is.
pub open spec fn prefix_steps(v: Valid) -> Seq<Job> {
    if all_valid(v) {
        seq![Job::ProfileDirs]
    } else {
        seq![
            Job::WindowsDirs,
            Job::SyncDlls,
            Job::RegistryStubs,
            Job::InjectKeys,
            Job::SteamExe,
            Job::Bridge,
        ] + job_if(!v.wine, Job::SetupPrefix) + seq![Job::SteamExe, Job::Bridge, Job::ProfileDirs]
    }
}

/// The steps by which a prefix gets what a program needs. Where all parts are as they were deployed,
/// what is there is kept.
pub open spec fn deploy_steps(plan: DeployPlan, v: Valid, proton: bool) -> Seq<Job> {
    job_if(
        plan.needs_dxvk,
        if v.dxvk && v.scan {
            Job::KeepDxvk
        } else {
            Job::DeployDxvk
        },
    ) + job_if(
        plan.needs_vkd3d,
        if v.vkd3d && v.scan {
            Job::KeepVkd3d
        } else {
            Job::DeployVkd3d
        },
    ) + job_if(
        plan.needs_nvapi && proton,
        if all_valid(v) {
            Job::KeepNvapi
        } else {
            Job::DeployNvapi
        },
    ) + job_if(
        plan.needs_dlss,
        if all_valid(v) {
            Job::KeepDlss
        } else {
            Job::DeployDlss
        },
    ) + job_if(!v.steam, Job::DeploySteamClient) + (if all_valid(v) {
        Seq::empty()
    } else {
        seq![Job::RepairSteamClient, Job::SteamExe, Job::Bridge, Job::SaveCache]
    })
}

fn push_job_if(out: &mut Vec<Job>, b: bool, j: Job)
    ensures
        final(out)@ == old(out)@ + job_if(b, j),
{
    if b {
        out.push(j);
    }
    assert(out@ =~= old(out)@ + job_if(b, j));
}

fn is_all_valid(v: Valid) -> (r: bool)
    ensures
        r == all_valid(v),
{
    v.wine && v.dxvk && v.vkd3d && v.steam && v.scan
}

/// The steps up to a prefix that Wine can start in.
pub fn prefix_jobs(v: Valid) -> (r: Vec<Job>)
    ensures
        r@ == prefix_steps(v),
{
    let mut out: Vec<Job> = Vec::new();
    if !is_all_valid(v) {
        out.push(Job::WindowsDirs);
        out.push(Job::SyncDlls);
        out.push(Job::RegistryStubs);
        out.push(Job::InjectKeys);
        out.push(Job::SteamExe);
        out.push(Job::Bridge);
        push_job_if(&mut out, !v.wine, Job::SetupPrefix);
        out.push(Job::SteamExe);
        out.push(Job::Bridge);
    }
    out.push(Job::ProfileDirs);
    assert(out@ =~= prefix_steps(v));
    out
}

/// The steps by which a prefix gets what a program needs. `proton` tells whether there is a Proton to
/// take libraries from.
pub fn deploy_jobs(plan: DeployPlan, v: Valid, proton: bool) -> (r: Vec<Job>)
    ensures
        r@ == deploy_steps(plan, v, proton),
{
    let hit: bool = is_all_valid(v);
    let mut out: Vec<Job> = Vec::new();
    push_job_if(
        &mut out,
        plan.needs_dxvk,
        if v.dxvk && v.scan {
            Job::KeepDxvk
        } else {
            Job::DeployDxvk
        },
    );
    push_job_if(
        &mut out,
        plan.needs_vkd3d,
        if v.vkd3d && v.scan {
            Job::KeepVkd3d
        } else {
            Job::DeployVkd3d
        },
    );
    push_job_if(
        &mut out,
        plan.needs_nvapi && proton,
        if hit {
            Job::KeepNvapi
        } else {
            Job::DeployNvapi
        },
    );
    push_job_if(
        &mut out,
        plan.needs_dlss,
        if hit {
            Job::KeepDlss
        } else {
            Job::DeployDlss
        },
    );
    push_job_if(&mut out, !v.steam, Job::DeploySteamClient);
    if !hit {
        out.push(Job::RepairSteamClient);
        out.push(Job::SteamExe);
        out.push(Job::Bridge);
        out.push(Job::SaveCache);
    }
    assert(out@ =~= deploy_steps(plan, v, proton));
    out
}

/// The registry has its keys, and `steam.exe` stands in its place, before Wine first starts in a prefix;
/// and `steam.exe` is put in its place again after that.
pub proof fn lemma_ready_before_setup(v: Valid, k: int)
    requires
        0 <= k < prefix_steps(v).len(),
        prefix_steps(v)[k] == Job::SetupPrefix,
    ensures
        prefix_steps(v).take(k).contains(Job::InjectKeys),
        prefix_steps(v).take(k).contains(Job::SteamExe),
        prefix_steps(v).take(k).contains(Job::Bridge),
        prefix_steps(v).skip(k).contains(Job::SteamExe),
{
    let s = prefix_steps(v);
    assert(k == 6);
    assert(s.take(k)[3] == Job::InjectKeys);
    assert(s.take(k)[4] == Job::SteamExe);
    assert(s.take(k)[5] == Job::Bridge);
    assert(s.skip(k)[1] == Job::SteamExe);
}

/// A step that writes nothing where a prefix is as it was deployed: libraries that are in place are
/// kept, and directories of the user's profile that are there stay.
pub open spec fn is_idle(j: Job) -> bool {
    j == Job::KeepDxvk || j == Job::KeepVkd3d || j == Job::KeepNvapi || j == Job::KeepDlss || j
        == Job::ProfileDirs
}

/// Where the cache tells that nothing changed, nothing is set up, injected, repaired or deployed anew,
/// and the cache is not written: nothing is between the start and the program but the look at the
/// directories of the user's profile.
pub proof fn lemma_cache_hit(c: DeployCache, plan: DeployPlan, proton: bool)
    ensures
        all_valid(valid_parts(Some(c), c)),
        prefix_steps(valid_parts(Some(c), c)) == seq![Job::ProfileDirs],
        forall|i: int|
            0 <= i < deploy_steps(plan, valid_parts(Some(c), c), proton).len() ==> is_idle(
                #[trigger] deploy_steps(plan, valid_parts(Some(c), c), proton)[i],
            ),
        !deploy_steps(plan, valid_parts(Some(c), c), proton).contains(Job::ProfileDirs),
{
}

/// Where something changed, the cache is written once all else is done, so that the next launch finds
/// the prefix as it is.
pub proof fn lemma_cache_follows_deployment(plan: DeployPlan, v: Valid, proton: bool)
    requires
        !all_valid(v),
    ensures
        deploy_steps(plan, v, proton).last() == Job::SaveCache,
        deploy_steps(plan, v, proton).len() > 0,
{
}

/// A scan found no graphics: the program may only start another that has them.
pub open spec fn no_graphics(imports: Option<Seq<Seq<char>>>) -> bool {
    match imports {
        Some(i) => !some_has(i, "d3d"@),
        None => false,
    }
}

/// Whether a scan found no graphics.
pub fn dominated(imports: &Option<Vec<String>>) -> (r: bool)
    ensures
        r == no_graphics(
            match *imports {
                Some(i) => Some(views(i@)),
                None => None,
            },
        ),
{
    match imports {
        Some(i) => !any_has(i, "d3d"),
        None => false,
    }
}

/// Where an engine keeps the program that a small one of the same name starts.
pub fn shipping_dir(parent: &str, stem: &str) -> (r: String)
    ensures
        r@ == path_join(path_join(parent@, stem@), "Binaries/Win64"@),
{
    let d = join_path(parent, stem);
    join_path(d.as_str(), "Binaries/Win64")
}

/// The names among some that an engine gives to that program.
pub open spec fn shipping_names(stem: Seq<char>, names: Seq<Seq<char>>) -> Seq<Seq<char>>
    decreases names.len(),
{
    if names.len() == 0 {
        Seq::empty()
    } else {
        let before = shipping_names(stem, names.drop_last());
        if same_but_case(names.last(), stem + "-Win64-Shipping.exe"@) {
            before.push(names.last())
        } else {
            before
        }
    }
}

pub fn shipping_candidates(stem: &str, names: &Vec<String>) -> (r: Vec<String>)
    ensures
        views(r@) == shipping_names(stem@, views(names@)),
{
    let pattern = concat(stem, "-Win64-Shipping.exe");
    let mut out: Vec<String> = Vec::new();
    let mut i: usize = 0;
    assert(views(out@) =~= shipping_names(stem@, views(names@).take(0)));
    while i < names.len()
        invariant
            i <= names@.len(),
            pattern@ == stem@ + "-Win64-Shipping.exe"@,
            views(out@) == shipping_names(stem@, views(names@).take(i as int)),
        decreases names@.len() - i,
    {
        assert(views(names@).take(i + 1).drop_last() =~= views(names@).take(i as int));
        if eq_ignore_case(names[i].as_str(), pattern.as_str()) {
            push_text(&mut out, names[i].clone());
        }
        i = i + 1;
    }
    assert(views(names@).take(names@.len() as int) =~= views(names@));
    out
}

/// Texts, and behind them those of others that are not among them.
pub open spec fn with_others(all: Seq<Seq<char>>, others: Seq<Seq<char>>) -> Seq<Seq<char>>
    decreases others.len(),
{
    if others.len() == 0 {
        all
    } else {
        let before = with_others(all, others.drop_last());
        if before.contains(others.last()) {
            before
        } else {
            before.push(others.last())
        }
    }
}

fn is_among(all: &Vec<String>, text: &str) -> (r: bool)
    ensures
        r == views(all@).contains(text@),
{
    let mut i: usize = 0;
    while i < all.len()
        invariant
            i <= all@.len(),
            forall|j: int| 0 <= j < i ==> #[trigger] views(all@)[j] != text@,
        decreases all@.len() - i,
    {
        if same(all[i].as_str(), text) {
            assert(views(all@)[i as int] == text@);
            return true;
        }
        i = i + 1;
    }
    false
}

/// What is known of a small program and of the one that it starts, together. The graphics are those of
/// the program that is started.
pub fn merged_scan(small: PeScanResult, started: &PeScanResult) -> (r: PeScanResult)
    ensures
        views(r.imports@) == with_others(views(small.imports@), views(started.imports@)),
        r.needs_nvapi == (small.needs_nvapi || started.needs_nvapi),
        r.render_api == started.render_api,
{
    let needs_nvapi: bool = small.needs_nvapi || started.needs_nvapi;
    let mut imports = small.imports;
    let ghost all = views(imports@);
    let ghost others = views(started.imports@);
    let mut i: usize = 0;
    assert(others.take(0) =~= Seq::<Seq<char>>::empty());
    while i < started.imports.len()
        invariant
            i <= started.imports@.len(),
            others == views(started.imports@),
            views(imports@) == with_others(all, others.take(i as int)),
        decreases started.imports@.len() - i,
    {
        assert(others.take(i + 1).drop_last() =~= others.take(i as int));
        assert(others.take(i + 1).last() == started.imports@[i as int]@);
        if !is_among(&imports, started.imports[i].as_str()) {
            push_text(&mut imports, started.imports[i].clone());
        }
        i = i + 1;
    }
    assert(others.take(others.len() as int) =~= others);
    PeScanResult { render_api: started.render_api, imports, needs_nvapi }
}

/// Both programs count: what either needs is known to be needed.
pub proof fn lemma_merged_needs(all: Seq<Seq<char>>, others: Seq<Seq<char>>, text: Seq<char>)
    ensures
        with_others(all, others).contains(text) <==> all.contains(text) || others.contains(text),
    decreases others.len(),
{
    if others.len() > 0 {
        lemma_merged_needs(all, others.drop_last(), text);
        let before = with_others(all, others.drop_last());
        let last = others.last();
        assert(others =~= others.drop_last().push(last));
        assert(others.contains(text) <==> others.drop_last().contains(text) || text == last) by {
            if others.drop_last().contains(text) {
                let i = choose|i: int| 0 <= i < others.drop_last().len() && others.drop_last()[i] == text;
                assert(others[i] == text);
            }
            if text == last {
                assert(others[others.len() - 1] == text);
            }
            if others.contains(text) && text != last {
                let i = choose|i: int| 0 <= i < others.len() && others[i] == text;
                assert(others.drop_last()[i] == text);
            }
        }
        if !before.contains(last) {
            let after = before.push(last);
            assert(after.contains(text) <==> before.contains(text) || text == last) by {
                if before.contains(text) {
                    let i = choose|i: int| 0 <= i < before.len() && before[i] == text;
                    assert(after[i] == text);
                }
                if text == last {
                    assert(after[before.len() as int] == text);
                }
                if after.contains(text) && text != last {
                    let i = choose|i: int| 0 <= i < after.len() && after[i] == text;
                    assert(before[i] == text);
                }
            }
        }
    }
}

/// A segment of shared memory that an earlier session left behind, by its name.
pub fn is_stale_segment(name: &str) -> (r: bool)
    ensures
        r == starts_in(name@, "triskelion-"@),
{
    starts_with_text(name, "triskelion-")
}

/// A text with its Latin letters in lower case.
pub open spec fn small_text(s: Seq<char>) -> Seq<char> {
    s.map_values(|c: char| small(c))
}

fn to_small(s: &str) -> (r: String)
    ensures
        r@ == small_text(s@),
{
    let x = chars_of(s);
    let mut out: Vec<char> = Vec::new();
    let mut i: usize = 0;
    while i < x.len()
        invariant
            i <= x@.len(),
            x@ == s@,
            out@ == small_text(s@.take(i as int)),
        decreases x@.len() - i,
    {
        out.push(small_char(x[i]));
        i = i + 1;
        assert(out@ =~= small_text(s@.take(i as int)));
    }
    assert(s@.take(s@.len() as int) =~= s@);
    string_of(&out)
}

/// Programs of Steam that need no session of their own.
pub open spec fn is_utility(exe: Seq<char>) -> bool {
    has_sub(small_text(exe), "iscriptevaluator"@) || has_sub(small_text(exe), "d3ddriverquery"@)
}

/// The program that a verb asks to be run, or the code with which the launcher ends.
pub fn game_of(verb: &str, args: &Vec<String>) -> (r: Result<String, i32>)
    ensures
        match r {
            Ok(exe) => runs(verb@) && args@.len() > 0 && exe@ == args@[0]@ && !is_utility(args@[0]@),
            Err(code) => if !runs(verb@) || args@.len() == 0 {
                code == 1
            } else {
                code == 0 && is_utility(args@[0]@)
            },
        },
{
    if !is_run(verb) || args.len() == 0 {
        return Err(1);
    }
    let low = to_small(args[0].as_str());
    if contains_text(low.as_str(), "iscriptevaluator") || contains_text(
        low.as_str(),
        "d3ddriverquery",
    ) {
        return Err(0);
    }
    Ok(args[0].clone())
}

/// Libraries that a program needs and a prefix lacks.
pub fn missing_libraries(plan: DeployPlan, sys32: &str, present: &Present) -> (r: Vec<String>)
    ensures
        views(r@) == only_if(
            plan.needs_dxvk && !present@.contains(path_join(sys32@, "d3d11.dll"@)),
            "d3d11.dll (DXVK)"@,
        ) + only_if(
            plan.needs_vkd3d && !present@.contains(path_join(sys32@, "d3d12.dll"@)),
            "d3d12.dll (VKD3D-Proton)"@,
        ),
{
    let mut out: Vec<String> = Vec::new();
    if plan.needs_dxvk && !present.holds_in(sys32, "d3d11.dll") {
        push_text(&mut out, "d3d11.dll (DXVK)".to_string());
    }
    if plan.needs_vkd3d && !present.holds_in(sys32, "d3d12.dll") {
        push_text(&mut out, "d3d12.dll (VKD3D-Proton)".to_string());
    }
    assert(views(out@) =~= only_if(
        plan.needs_dxvk && !present@.contains(path_join(sys32@, "d3d11.dll"@)),
        "d3d11.dll (DXVK)"@,
    ) + only_if(
        plan.needs_vkd3d && !present@.contains(path_join(sys32@, "d3d12.dll"@)),
        "d3d12.dll (VKD3D-Proton)"@,
    ));
    out
}

/// What the command that is run rests on.
pub struct LaunchFacts {
    pub wine64: String,
    pub wine_dir: String,
    pub pfx: String,
    /// The program that serves Wine.
    pub server: String,
    /// The program that is launched, and its arguments.
    pub args: Vec<String>,
    /// The variables that were built for it.
    pub env: Vec<(String, String)>,
    /// The user's own variables.
    pub custom: Vec<(String, String)>,
    pub game_size: Option<u64>,
    pub steam_game_id: Option<String>,
    pub steam_app_id: Option<String>,
    pub compat_app_id: Option<String>,
    pub install_path: Option<String>,
    pub home: Option<String>,
    /// The debug channels.
    pub winedebug: String,
    pub ld_library_path: Option<String>,
    pub ld_preload: Option<String>,
}

/// The number of the game: the first that is set of three variables.
pub open spec fn app_id(f: LaunchFacts) -> Seq<char> {
    or_text(f.steam_game_id, or_text(f.steam_app_id, or_text(f.compat_app_id, ""@)))
}

/// Where Steam is installed.
pub open spec fn install_dir(own: Option<String>, home: Option<String>) -> Seq<char> {
    or_text(own, or_text(home, ""@) + "/.local/share/Steam"@)
}

pub fn steam_install_dir(own: &Option<String>, home: &Option<String>) -> (r: String)
    ensures
        r@ == install_dir(*own, *home),
{
    match own {
        Some(d) => d.clone(),
        None => {
            let h = text_or(home, "");
            concat(h.as_str(), "/.local/share/Steam")
        },
    }
}

/// Where Wine looks for its modules: in the launcher's own tree first, then in the system's.
pub open spec fn module_places(wine_dir: Seq<char>, present: Set<Seq<char>>) -> Seq<Seq<char>> {
    if_there(present, path_join(wine_dir, "lib/wine/x86_64-unix"@)) + if_there(
        present,
        path_join(wine_dir, "lib/wine/x86_64-windows"@),
    ) + if_there(present, "/usr/lib/wine/x86_64-unix"@) + if_there(
        present,
        "/usr/lib/wine/x86_64-windows"@,
    )
}

fn find_modules(wine_dir: &str, present: &Present) -> (r: Vec<String>)
    ensures
        views(r@) == module_places(wine_dir@, present@),
{
    let mut out: Vec<String> = Vec::new();
    push_if_there(&mut out, present, join_path(wine_dir, "lib/wine/x86_64-unix"));
    push_if_there(&mut out, present, join_path(wine_dir, "lib/wine/x86_64-windows"));
    push_if_there(&mut out, present, "/usr/lib/wine/x86_64-unix".to_string());
    push_if_there(&mut out, present, "/usr/lib/wine/x86_64-windows".to_string());
    assert(views(out@) =~= module_places(wine_dir@, present@));
    out
}

/// Where the system looks for Wine's libraries.
pub open spec fn wine_libraries(
    wine_dir: Seq<char>,
    current: Option<Seq<char>>,
    present: Set<Seq<char>>,
) -> Seq<Seq<char>> {
    if_there(present, path_join(wine_dir, "lib/wine/x86_64-unix"@)) + if_there(
        present,
        path_join(wine_dir, "lib"@),
    ) + (match current {
        Some(c) => seq![c],
        None => Seq::empty(),
    })
}

fn find_libraries(wine_dir: &str, current: &Option<String>, present: &Present) -> (r: Vec<String>)
    ensures
        views(r@) == wine_libraries(wine_dir@, opt_view(*current), present@),
{
    let mut out: Vec<String> = Vec::new();
    push_if_there(&mut out, present, join_path(wine_dir, "lib/wine/x86_64-unix"));
    push_if_there(&mut out, present, join_path(wine_dir, "lib"));
    match current {
        Some(c) => {
            push_text(&mut out, c.clone());
        },
        None => {},
    }
    assert(views(out@) =~= wine_libraries(wine_dir@, opt_view(*current), present@));
    out
}

/// The variables by which Wine finds its prefix and its server.
pub open spec fn session_vars(f: LaunchFacts) -> Seq<(Seq<char>, Seq<char>)> {
    seq![("WINEPREFIX"@, f.pfx@), ("WINESERVER"@, f.server@), ("WINE_NTSYNC"@, "1"@)]
}

/// The other variables that the launcher sets itself.
pub open spec fn game_vars(f: LaunchFacts, present: Set<Seq<char>>) -> Seq<(Seq<char>, Seq<char>)> {
    let modules = module_places(f.wine_dir@, present);
    let libraries = wine_libraries(f.wine_dir@, opt_view(f.ld_library_path), present);
    let preload = joined(preloads(opt_view(f.ld_preload)), ":"@);
    (match f.game_size {
        Some(n) => seq![("QUARK_LINGER_HINT"@, decimal(n as nat))],
        None => Seq::empty(),
    }) + seq![
        ("SteamAppId"@, app_id(f)),
        ("SteamGameId"@, app_id(f)),
        ("STEAM_COMPAT_CLIENT_INSTALL_PATH"@, install_dir(f.install_path, f.home)),
        ("WINEDEBUG"@, f.winedebug@),
    ] + var_if(modules.len() > 0, "WINEDLLPATH"@, joined(modules, ":"@)) + var_if(
        libraries.len() > 0,
        "LD_LIBRARY_PATH"@,
        joined(libraries, ":"@),
    ) + var_if(preload.len() > 0, "LD_PRELOAD"@, preload)
}

/// The variables of the command, each of which wins over an earlier one of its name.
pub open spec fn launch_env(f: LaunchFacts, present: Set<Seq<char>>) -> Seq<(Seq<char>, Seq<char>)> {
    pair_views(f.env@) + pair_views(f.custom@) + session_vars(f) + game_vars(f, present)
}

/// What a variable is set to in the end: the last of its name counts.
pub open spec fn value_in(env: Seq<(Seq<char>, Seq<char>)>, name: Seq<char>) -> Option<Seq<char>>
    decreases env.len(),
{
    if env.len() == 0 {
        None
    } else if env.last().0 == name {
        Some(env.last().1)
    } else {
        value_in(env.drop_last(), name)
    }
}

/// A variable that the launcher sets itself, apart from those of the session.
pub open spec fn is_game_var(name: Seq<char>) -> bool {
    name == "QUARK_LINGER_HINT"@ || name == "SteamAppId"@ || name == "SteamGameId"@ || name
        == "STEAM_COMPAT_CLIENT_INSTALL_PATH"@ || name == "WINEDEBUG"@ || name == "WINEDLLPATH"@
        || name == "LD_LIBRARY_PATH"@ || name == "LD_PRELOAD"@
}

proof fn lemma_value_behind(
    a: Seq<(Seq<char>, Seq<char>)>,
    b: Seq<(Seq<char>, Seq<char>)>,
    name: Seq<char>,
)
    ensures
        value_in(a + b, name) == (match value_in(b, name) {
            Some(v) => Some(v),
            None => value_in(a, name),
        }),
    decreases b.len(),
{
    if b.len() == 0 {
        assert(a + b =~= a);
    } else {
        assert((a + b).drop_last() =~= a + b.drop_last());
        lemma_value_behind(a, b.drop_last(), name);
    }
}

proof fn lemma_not_set(env: Seq<(Seq<char>, Seq<char>)>, name: Seq<char>)
    requires
        forall|i: int| 0 <= i < env.len() ==> #[trigger] env[i].0 != name,
    ensures
        value_in(env, name) is None,
    decreases env.len(),
{
    if env.len() > 0 {
        assert forall|i: int| 0 <= i < env.drop_last().len() implies #[trigger] env.drop_last()[i].0
            != name by {
            assert(env.drop_last()[i] == env[i]);
        }
        lemma_not_set(env.drop_last(), name);
    }
}

proof fn lemma_game_names(f: LaunchFacts, present: Set<Seq<char>>, name: Seq<char>)
    requires
        !is_game_var(name),
    ensures
        value_in(game_vars(f, present), name) is None,
{
    let g = game_vars(f, present);
    assert forall|i: int| 0 <= i < g.len() implies #[trigger] g[i].0 != name by {
        assert(is_game_var(g[i].0));
    }
    lemma_not_set(g, name);
}

proof fn lemma_session_names()
    ensures
        !is_game_var("WINEPREFIX"@),
        !is_game_var("WINESERVER"@),
        !is_game_var("WINE_NTSYNC"@),
        "WINEPREFIX"@ != "WINESERVER"@,
        "WINEPREFIX"@ != "WINE_NTSYNC"@,
        "WINESERVER"@ != "WINE_NTSYNC"@,
{
    reveal_strlit("WINEPREFIX");
    reveal_strlit("WINESERVER");
    reveal_strlit("WINE_NTSYNC");
    reveal_strlit("QUARK_LINGER_HINT");
    reveal_strlit("SteamAppId");
    reveal_strlit("SteamGameId");
    reveal_strlit("STEAM_COMPAT_CLIENT_INSTALL_PATH");
    reveal_strlit("WINEDEBUG");
    reveal_strlit("WINEDLLPATH");
    reveal_strlit("LD_LIBRARY_PATH");
    reveal_strlit("LD_PRELOAD");
    let (p, s, n) = ("WINEPREFIX"@, "WINESERVER"@, "WINE_NTSYNC"@);
    assert(p[4] == 'P' && s[4] == 'S' && n[4] == '_');
    assert("QUARK_LINGER_HINT"@[0] == 'Q' && "SteamAppId"@[0] == 'S' && "SteamGameId"@[0] == 'S');
    assert("STEAM_COMPAT_CLIENT_INSTALL_PATH"@[0] == 'S' && "WINEDEBUG"@[4] == 'D');
    assert("WINEDLLPATH"@[4] == 'D' && "LD_LIBRARY_PATH"@[0] == 'L' && "LD_PRELOAD"@[0] == 'L');
    assert(p[0] == 'W' && s[0] == 'W' && n[0] == 'W');
}

/// The launched program finds the prefix and the server of this session, whatever the user's variables
/// say.
pub proof fn lemma_session_is_found(f: LaunchFacts, present: Set<Seq<char>>)
    ensures
        value_in(launch_env(f, present), "WINEPREFIX"@) == Some(f.pfx@),
        value_in(launch_env(f, present), "WINESERVER"@) == Some(f.server@),
        value_in(launch_env(f, present), "WINE_NTSYNC"@) == Some("1"@),
{
    lemma_session_names();
    let a = pair_views(f.env@) + pair_views(f.custom@);
    let s = session_vars(f);
    let names = seq!["WINEPREFIX"@, "WINESERVER"@, "WINE_NTSYNC"@];
    assert forall|k: int| 0 <= k < 3 implies value_in(launch_env(f, present), #[trigger] names[k]) == Some(
        s[k].1,
    ) by {
        lemma_value_behind(a + s, game_vars(f, present), names[k]);
        lemma_game_names(f, present, names[k]);
        lemma_value_behind(a, s, names[k]);
        reveal_with_fuel(value_in, 4);
        assert(s.drop_last().drop_last().last() == s[0]);
        assert(s.drop_last().last() == s[1]);
        assert(s.last() == s[2]);
    }
    assert(names[0] == "WINEPREFIX"@ && names[1] == "WINESERVER"@ && names[2] == "WINE_NTSYNC"@);
}

/// What the user sets wins over what the launcher builds, except for the variables that the launcher sets
/// for the session and the game.
pub proof fn lemma_user_variables_win(f: LaunchFacts, present: Set<Seq<char>>, name: Seq<char>)
    requires
        value_in(pair_views(f.custom@), name) is Some,
        name != "WINEPREFIX"@,
        name != "WINESERVER"@,
        name != "WINE_NTSYNC"@,
        !is_game_var(name),
    ensures
        value_in(launch_env(f, present), name) == value_in(pair_views(f.custom@), name),
{
    let (e, c, s) = (pair_views(f.env@), pair_views(f.custom@), session_vars(f));
    lemma_value_behind(e + c + s, game_vars(f, present), name);
    lemma_game_names(f, present, name);
    lemma_value_behind(e + c, s, name);
    assert forall|i: int| 0 <= i < s.len() implies #[trigger] s[i].0 != name by {}
    lemma_not_set(s, name);
    lemma_value_behind(e, c, name);
}

/// The command that is run: Wine starts Steam's helper, which starts the program.
pub open spec fn launch_program(f: LaunchFacts, present: Set<Seq<char>>) -> Run {
    Run {
        words: wine_words(present, f.wine64@, f.wine_dir@) + seq![
            "C:\\windows\\system32\\steam.exe"@,
        ] + views(f.args@),
        env: launch_env(f, present),
        unset: only_if(
            joined(preloads(opt_view(f.ld_preload)), ":"@).len() == 0,
            "LD_PRELOAD"@,
        ),
    }
}

fn push_texts(out: &mut Vec<String>, more: &Vec<String>)
    ensures
        views(final(out)@) == views(old(out)@) + views(more@),
{
    let mut i: usize = 0;
    assert(views(out@) =~= views(old(out)@) + views(more@).take(0));
    while i < more.len()
        invariant
            i <= more@.len(),
            views(out@) == views(old(out)@) + views(more@).take(i as int),
        decreases more@.len() - i,
    {
        push_text(out, more[i].clone());
        i = i + 1;
        assert(views(out@) =~= views(old(out)@) + views(more@).take(i as int));
    }
    assert(views(more@).take(more@.len() as int) =~= views(more@));
}

fn put_all(out: &mut Vec<(String, String)>, more: &Vec<(String, String)>)
    ensures
        pair_views(final(out)@) == pair_views(old(out)@) + pair_views(more@),
{
    let mut i: usize = 0;
    assert(pair_views(out@) =~= pair_views(old(out)@) + pair_views(more@).take(0));
    while i < more.len()
        invariant
            i <= more@.len(),
            pair_views(out@) == pair_views(old(out)@) + pair_views(more@).take(i as int),
        decreases more@.len() - i,
    {
        put(out, more[i].0.as_str(), more[i].1.clone());
        i = i + 1;
        assert(pair_views(out@) =~= pair_views(old(out)@) + pair_views(more@).take(i as int));
    }
    assert(pair_views(more@).take(more@.len() as int) =~= pair_views(more@));
}

fn find_app_id(f: &LaunchFacts) -> (r: String)
    ensures
        r@ == app_id(*f),
{
    match &f.steam_game_id {
        Some(i) => i.clone(),
        None => match &f.steam_app_id {
            Some(i) => i.clone(),
            None => text_or(&f.compat_app_id, ""),
        },
    }
}

/// Adds the variables that the launcher sets itself, apart from those of the session; tells whether
/// something is preloaded.
#[verifier::spinoff_prover]
#[verifier::rlimit(40)]
fn put_game_vars(env: &mut Vec<(String, String)>, f: &LaunchFacts, present: &Present) -> (some: bool)
    ensures
        pair_views(final(env)@) == pair_views(old(env)@) + game_vars(*f, present@),
        some == (joined(preloads(opt_view(f.ld_preload)), ":"@).len() > 0),
{
    let ghost start = pair_views(env@);
    match f.game_size {
        Some(n) => {
            let mut s = String::new();
            push_decimal(&mut s, n);
            assert(s@ =~= decimal(n as nat));
            put(env, "QUARK_LINGER_HINT", s);
        },
        None => {},
    }
    let ghost hint = (match f.game_size {
        Some(n) => seq![("QUARK_LINGER_HINT"@, decimal(n as nat))],
        None => Seq::empty(),
    });
    assert(pair_views(env@) =~= start + hint);
    let id = find_app_id(f);
    put(env, "SteamAppId", id.clone());
    put(env, "SteamGameId", id);
    put(env, "STEAM_COMPAT_CLIENT_INSTALL_PATH", steam_install_dir(&f.install_path, &f.home));
    put(env, "WINEDEBUG", f.winedebug.clone());
    let ghost steam = seq![
        ("SteamAppId"@, app_id(*f)),
        ("SteamGameId"@, app_id(*f)),
        ("STEAM_COMPAT_CLIENT_INSTALL_PATH"@, install_dir(f.install_path, f.home)),
        ("WINEDEBUG"@, f.winedebug@),
    ];
    assert(pair_views(env@) =~= start + (hint + steam));
    let modules = find_modules(f.wine_dir.as_str(), present);
    if modules.len() > 0 {
        put(env, "WINEDLLPATH", join(&modules, ":"));
    }
    let ghost m = var_if(modules@.len() > 0, "WINEDLLPATH"@, joined(views(modules@), ":"@));
    assert(pair_views(env@) =~= start + (hint + steam + m));
    let libraries = find_libraries(f.wine_dir.as_str(), &f.ld_library_path, present);
    if libraries.len() > 0 {
        put(env, "LD_LIBRARY_PATH", join(&libraries, ":"));
    }
    let ghost l = var_if(libraries@.len() > 0, "LD_LIBRARY_PATH"@, joined(views(libraries@), ":"@));
    assert(pair_views(env@) =~= start + (hint + steam + m + l));
    let kept = strip_overlay(&f.ld_preload);
    let preload = join(&kept, ":");
    let some: bool = !preload.as_str().is_empty();
    put_if(env, some, "LD_PRELOAD", preload.as_str());
    let ghost p = var_if(some, "LD_PRELOAD"@, preload@);
    assert(pair_views(env@) =~= start + (hint + steam + m + l + p));
    assert(hint + steam + m + l + p == game_vars(*f, present@));
    some
}

/// Builds the command that is run.
pub fn launch_command(f: &LaunchFacts, present: &Present) -> (r: Launched)
    ensures
        r@ == launch_program(*f, present@),
{
    let mut words = build_wine_command(present, f.wine64.as_str(), f.wine_dir.as_str());
    push_text(&mut words, "C:\\windows\\system32\\steam.exe".to_string());
    push_texts(&mut words, &f.args);
    let mut env: Vec<(String, String)> = Vec::new();
    put_all(&mut env, &f.env);
    put_all(&mut env, &f.custom);
    let ghost given = pair_views(f.env@) + pair_views(f.custom@);
    assert(pair_views(env@) =~= given);
    put(&mut env, "WINEPREFIX", f.pfx.clone());
    put(&mut env, "WINESERVER", f.server.clone());
    put(&mut env, "WINE_NTSYNC", "1".to_string());
    assert(pair_views(env@) =~= given + session_vars(*f));
    let some = put_game_vars(&mut env, f, present);
    let mut unset: Vec<String> = Vec::new();
    if !some {
        push_text(&mut unset, "LD_PRELOAD".to_string());
    }
    let r = Launched { words, env, unset };
    let ghost want = launch_program(*f, present@);
    assert(r@.words =~= want.words);
    assert(r@.env =~= want.env);
    assert(r@.unset =~= want.unset);
    r
}

/// How a program ended.
#[derive(Clone, Copy, Debug, PartialEq, Eq)]
pub enum Exit {
    Code { code: i32 },
    Signal { signal: i32 },
    Unknown,
}

/// The code with which the launcher ends: the program's own, or 1 where it has none.
pub fn exit_code(e: Exit) -> (r: i32)
    ensures
        r == match e {
            Exit::Code { code } => code,
            _ => 1i32,
        },
{
    match e {
        Exit::Code { code } => code,
        _ => 1,
    }
}

/// A signed number in decimal digits.
pub open spec fn signed_decimal(n: i32) -> Seq<char> {
    if n < 0 {
        seq!['-'] + decimal(-n as nat)
    } else {
        decimal(n as nat)
    }
}

fn push_signed(out: &mut String, n: i32)
    ensures
        final(out)@ == old(out)@ + signed_decimal(n),
{
    if n < 0 {
        out.push('-');
        let m: i64 = -(n as i64);
        push_decimal(out, m as u64);
    } else {
        push_decimal(out, n as u64);
    }
    assert(out@ =~= old(out)@ + signed_decimal(n));
}

/// How a program ended, in words.
pub open spec fn exit_text(e: Exit) -> Seq<char> {
    match e {
        Exit::Code { code } => if code == 0 {
            "exit: 0 (clean)"@
        } else {
            "exit: "@ + signed_decimal(code) + " (error)"@
        },
        Exit::Signal { signal } => "killed by signal "@ + signed_decimal(signal),
        Exit::Unknown => "unknown exit"@,
    }
}

pub fn exit_info(e: Exit) -> (r: String)
    ensures
        r@ == exit_text(e),
{
    match e {
        Exit::Code { code } => {
            if code == 0 {
                return "exit: 0 (clean)".to_string();
            }
            let mut s = "exit: ".to_string();
            push_signed(&mut s, code);
            s.append(" (error)");
            s
        },
        Exit::Signal { signal } => {
            let mut s = "killed by signal ".to_string();
            push_signed(&mut s, signal);
            s
        },
        Exit::Unknown => "unknown exit".to_string(),
    }
}

/// A variable that tells Wine where its modules are.
pub open spec fn module_var(name: Seq<char>) -> bool {
    name == "WINEDLLPATH"@ || name == "WINEDLLDIR0"@ || name == "WINEDLLDIR1"@
}

/// Variables without those that tell Wine where its modules are.
pub open spec fn other_vars(v: Seq<(Seq<char>, Seq<char>)>) -> Seq<(Seq<char>, Seq<char>)>
    decreases v.len(),
{
    if v.len() == 0 {
        Seq::empty()
    } else {
        let before = other_vars(v.drop_last());
        if module_var(v.last().0) {
            before
        } else {
            before.push(v.last())
        }
    }
}

/// The command that brings a prefix up to date with the user's variables.
pub open spec fn sync_program(f: LaunchFacts, present: Set<Seq<char>>) -> Run {
    let modules = module_places(f.wine_dir@, present);
    let libraries = joined(
        wine_libraries(f.wine_dir@, opt_view(f.ld_library_path), present),
        ":"@,
    );
    Run {
        words: wine_words(present, f.wine64@, f.wine_dir@) + seq!["wineboot"@, "--update"@],
        env: seq![("WINEPREFIX"@, f.pfx@), ("WINESERVER"@, f.server@)] + var_if(
            libraries.len() > 0,
            "LD_LIBRARY_PATH"@,
            libraries,
        ) + var_if(modules.len() > 0, "WINEDLLPATH"@, joined(modules, ":"@)) + other_vars(
            pair_views(f.env@),
        ) + pair_views(f.custom@) + seq![("WINEDEBUG"@, f.winedebug@)],
        unset: Seq::empty(),
    }
}

fn put_others(out: &mut Vec<(String, String)>, more: &Vec<(String, String)>)
    ensures
        pair_views(final(out)@) == pair_views(old(out)@) + other_vars(pair_views(more@)),
{
    let mut i: usize = 0;
    assert(pair_views(out@) =~= pair_views(old(out)@) + other_vars(pair_views(more@).take(0)));
    while i < more.len()
        invariant
            i <= more@.len(),
            pair_views(out@) == pair_views(old(out)@) + other_vars(
                pair_views(more@).take(i as int),
            ),
        decreases more@.len() - i,
    {
        assert(pair_views(more@).take(i + 1).drop_last() =~= pair_views(more@).take(i as int));
        let name = more[i].0.as_str();
        if !(same(name, "WINEDLLPATH") || same(name, "WINEDLLDIR0") || same(name, "WINEDLLDIR1")) {
            put(out, name, more[i].1.clone());
        }
        i = i + 1;
        assert(pair_views(out@) =~= pair_views(old(out)@) + other_vars(
            pair_views(more@).take(i as int),
        ));
    }
    assert(pair_views(more@).take(more@.len() as int) =~= pair_views(more@));
}

/// The mark that the user's variables leave in a prefix.
pub open spec fn env_mark(f: LaunchFacts) -> Seq<char> {
    hex_fixed(pair_digest(pair_views(f.custom@)) as nat, 16)
}

/// The command that brings a prefix up to date with the user's variables, and the mark that it leaves.
/// Where `stored`, which the last time left, is that mark, there is nothing to do.
pub fn sync_prefix_env(
    f: &LaunchFacts,
    present: &Present,
    stored: &Option<String>,
) -> (r: Option<(Launched, String)>)
    ensures
        match r {
            None => *stored is Some && trimmed((*stored)->0@) == env_mark(*f),
            Some((program, mark)) => !(*stored is Some && trimmed((*stored)->0@) == env_mark(*f))
                && program@ == sync_program(*f, present@) && mark@ == env_mark(*f),
        },
{
    let mut mark = String::new();
    push_hex_fixed(&mut mark, hash_pairs(&f.custom), 16);
    assert(mark@ =~= env_mark(*f));
    match stored {
        Some(s) => {
            let t = trim(s.as_str());
            if same(t.as_str(), mark.as_str()) {
                return None;
            }
        },
        None => {},
    }
    let mut words = build_wine_command(present, f.wine64.as_str(), f.wine_dir.as_str());
    push_text(&mut words, "wineboot".to_string());
    push_text(&mut words, "--update".to_string());
    let mut env: Vec<(String, String)> = Vec::new();
    put(&mut env, "WINEPREFIX", f.pfx.clone());
    put(&mut env, "WINESERVER", f.server.clone());
    let libraries = find_libraries(f.wine_dir.as_str(), &f.ld_library_path, present);
    let ld = join(&libraries, ":");
    put_if(&mut env, !ld.as_str().is_empty(), "LD_LIBRARY_PATH", ld.as_str());
    let modules = find_modules(f.wine_dir.as_str(), present);
    if modules.len() > 0 {
        put(&mut env, "WINEDLLPATH", join(&modules, ":"));
    }
    put_others(&mut env, &f.env);
    put_all(&mut env, &f.custom);
    put(&mut env, "WINEDEBUG", f.winedebug.clone());
    let r = Launched { words, env, unset: Vec::new() };
    let ghost want = sync_program(*f, present@);
    assert(r@.words =~= want.words);
    assert(r@.env =~= want.env);
    assert(r@.unset =~= want.unset);
    Some((r, mark))
}

proof fn lemma_hex_digits_show(n: nat, width: nat)
    ensures
        hex_fixed(n, width).len() == width,
        forall|i: int| 0 <= i < width ==> !is_space(#[trigger] hex_fixed(n, width)[i]),
    decreases width,
{
    if width > 0 {
        lemma_hex_digits_show(n / 16, (width - 1) as nat);
        let d = hex_digit((n % 16) as int);
        assert(!is_space(d));
    }
}

/// A prefix is brought up to date once: the mark that was left is found again, and then there is nothing
/// to do until the user's variables change.
pub proof fn lemma_synced_once(f: LaunchFacts)
    ensures
        trimmed(env_mark(f)) == env_mark(f),
{
    lemma_hex_digits_show(pair_digest(pair_views(f.custom@)) as nat, 16);
    lemma_trimmed_same(env_mark(f));
}

/// The server beside the launcher.
pub fn triskelion_exe_pub(exe: &str) -> (r: String)
    ensures
        r@ == path_join(parent(exe@), "triskelion"@),
{
    beside(exe, "triskelion")
}

/// The display helper beside the launcher.
pub fn parallax_exe(exe: &str) -> (r: String)
    ensures
        r@ == path_join(parent(exe@), "parallax"@),
{
    beside(exe, "parallax")
}

/// A program is run for two verbs and no other.
pub proof fn lemma_verbs_that_run(verb: Seq<char>)
    ensures
        runs("run"@),
        runs("waitforexitandrun"@),
        verb != "run"@ && verb != "waitforexitandrun"@ ==> !runs(verb),
{
}

/// Steam's look at its own prefix is told by the prefix, with or without a slash behind it, and by the verb.
pub proof fn lemma_probes(place: Seq<char>, verb: Seq<char>)
    ensures
        is_probe(place + "/0"@, "run"@),
        is_probe(place + "/0/"@, "run"@),
        verb != "run"@ ==> !is_probe(place, verb),
        place.len() > 0 && place.last() != '0' && place.last() != '/' ==> !is_probe(place, verb),
{
    reveal_strlit("/0");
    reveal_strlit("/0/");
    let (a, b) = (place + "/0"@, place + "/0/"@);
    assert(a.subrange(place.len() as int, a.len() as int) =~= "/0"@);
    assert(b.subrange(place.len() as int, b.len() as int) =~= "/0/"@);
    if ends_in(place, "/0"@) {
        assert(place.last() == place.subrange(place.len() - 2, place.len() as int)[1]);
    }
    if ends_in(place, "/0/"@) {
        assert(place.last() == place.subrange(place.len() - 3, place.len() as int)[2]);
    }
}

/// A part of a prefix is as it was deployed exactly where its number is still the same, whatever the others
/// are; without a cache no part is.
pub proof fn lemma_parts_are_told_apart(c: DeployCache, now: DeployCache)
    ensures
        valid_parts(Some(c), now).wine <==> c.wine_hash == now.wine_hash,
        valid_parts(Some(c), now).dxvk <==> c.dxvk_hash == now.dxvk_hash,
        valid_parts(Some(c), now).vkd3d <==> c.vkd3d_hash == now.vkd3d_hash,
        valid_parts(Some(c), now).steam <==> c.steam_hash == now.steam_hash,
        valid_parts(Some(c), now).scan <==> c.scan_hash == now.scan_hash,
        ({
            let v = valid_parts(None, now);
            !v.wine && !v.dxvk && !v.vkd3d && !v.steam && !v.scan
        }),
{
}

/// Wine sets a prefix up exactly where it has changed since; whatever has changed, the directories, the
/// modules, the registry and `steam.exe` are put in place.
pub proof fn lemma_what_is_set_up(v: Valid)
    ensures
        prefix_steps(v).contains(Job::SetupPrefix) <==> !v.wine,
        prefix_steps(v).contains(Job::ProfileDirs),
        !(v.wine && v.dxvk && v.vkd3d && v.steam && v.scan) ==> prefix_steps(v).contains(Job::WindowsDirs)
            && prefix_steps(v).contains(Job::SyncDlls) && prefix_steps(v).contains(Job::RegistryStubs)
            && prefix_steps(v).contains(Job::InjectKeys) && prefix_steps(v).contains(Job::SteamExe)
            && prefix_steps(v).contains(Job::Bridge),
        v.wine && v.dxvk && v.vkd3d && v.steam && v.scan ==> prefix_steps(v).len() == 1,
{
    let p = prefix_steps(v);
    if all_valid(v) {
        assert(p[0] == Job::ProfileDirs);
    } else {
        assert(p[0] == Job::WindowsDirs && p[1] == Job::SyncDlls && p[2] == Job::RegistryStubs);
        assert(p[3] == Job::InjectKeys && p[4] == Job::SteamExe && p[5] == Job::Bridge);
        assert(p[p.len() - 1] == Job::ProfileDirs);
        if !v.wine {
            assert(p[6] == Job::SetupPrefix);
        }
    }
}

proof fn lemma_job_among(a: Seq<Job>, b: Seq<Job>, j: Job)
    ensures
        (a + b).contains(j) <==> a.contains(j) || b.contains(j),
{
    if a.contains(j) {
        let i = choose|i: int| 0 <= i < a.len() && a[i] == j;
        assert((a + b)[i] == j);
    }
    if b.contains(j) {
        let i = choose|i: int| 0 <= i < b.len() && b[i] == j;
        assert((a + b)[a.len() + i] == j);
    }
    if (a + b).contains(j) {
        let i = choose|i: int| 0 <= i < (a + b).len() && (a + b)[i] == j;
        if i < a.len() {
            assert(a[i] == j);
        } else {
            assert(b[i - a.len()] == j);
        }
    }
}

proof fn lemma_job_if(b: bool, x: Job, j: Job)
    ensures
        job_if(b, x).contains(j) <==> b && x == j,
{
    if b {
        assert(job_if(b, x)[0] == x);
    }
}

#[verifier::spinoff_prover]
proof fn lemma_job_is_done(plan: DeployPlan, v: Valid, proton: bool, j: Job)
    ensures
        ({
            let graphics = plan.needs_dxvk && j == (if v.dxvk && v.scan {
                Job::KeepDxvk
            } else {
                Job::DeployDxvk
            }) || plan.needs_vkd3d && j == (if v.vkd3d && v.scan {
                Job::KeepVkd3d
            } else {
                Job::DeployVkd3d
            });
            let others = plan.needs_nvapi && proton && j == (if all_valid(v) {
                Job::KeepNvapi
            } else {
                Job::DeployNvapi
            }) || plan.needs_dlss && j == (if all_valid(v) {
                Job::KeepDlss
            } else {
                Job::DeployDlss
            });
            let client = !v.steam && j == Job::DeploySteamClient || !all_valid(v) && (j == Job::RepairSteamClient || j
                == Job::SteamExe || j == Job::Bridge || j == Job::SaveCache);
            deploy_steps(plan, v, proton).contains(j) <==> graphics || others || client
        }),
{
    let x = if v.dxvk && v.scan {
        Job::KeepDxvk
    } else {
        Job::DeployDxvk
    };
    let y = if v.vkd3d && v.scan {
        Job::KeepVkd3d
    } else {
        Job::DeployVkd3d
    };
    let z = if all_valid(v) {
        Job::KeepNvapi
    } else {
        Job::DeployNvapi
    };
    let u = if all_valid(v) {
        Job::KeepDlss
    } else {
        Job::DeployDlss
    };
    let a = job_if(plan.needs_dxvk, x);
    let b = job_if(plan.needs_vkd3d, y);
    let c = job_if(plan.needs_nvapi && proton, z);
    let e = job_if(plan.needs_dlss, u);
    let g = job_if(!v.steam, Job::DeploySteamClient);
    let h: Seq<Job> = if all_valid(v) {
        Seq::empty()
    } else {
        seq![Job::RepairSteamClient, Job::SteamExe, Job::Bridge, Job::SaveCache]
    };
    lemma_job_if(plan.needs_dxvk, x, j);
    lemma_job_if(plan.needs_vkd3d, y, j);
    lemma_job_if(plan.needs_nvapi && proton, z, j);
    lemma_job_if(plan.needs_dlss, u, j);
    lemma_job_if(!v.steam, Job::DeploySteamClient, j);
    if !all_valid(v) {
        assert(h[0] == Job::RepairSteamClient && h[1] == Job::SteamExe && h[2] == Job::Bridge && h[3]
            == Job::SaveCache);
    }
    lemma_job_among(a, b, j);
    lemma_job_among(a + b, c, j);
    lemma_job_among(a + b + c, e, j);
    lemma_job_among(a + b + c + e, g, j);
    lemma_job_among(a + b + c + e + g, h, j);
}

/// Libraries are deployed where the program needs them and they, or what is known of the program, have
/// changed; where neither has, they are kept; and what the program does not need is neither deployed nor
/// kept. Those that lean on others are deployed anew with any change.
pub proof fn lemma_what_is_deployed(plan: DeployPlan, v: Valid, proton: bool)
    ensures
        ({
            let d = deploy_steps(plan, v, proton);
            let same = v.wine && v.dxvk && v.vkd3d && v.steam && v.scan;
            &&& d.contains(Job::DeployDxvk) <==> plan.needs_dxvk && !(v.dxvk && v.scan)
            &&& d.contains(Job::KeepDxvk) <==> plan.needs_dxvk && v.dxvk && v.scan
            &&& d.contains(Job::DeployVkd3d) <==> plan.needs_vkd3d && !(v.vkd3d && v.scan)
            &&& d.contains(Job::KeepVkd3d) <==> plan.needs_vkd3d && v.vkd3d && v.scan
            &&& d.contains(Job::DeployNvapi) <==> plan.needs_nvapi && proton && !same
            &&& d.contains(Job::KeepNvapi) <==> plan.needs_nvapi && proton && same
            &&& d.contains(Job::DeployDlss) <==> plan.needs_dlss && !same
            &&& d.contains(Job::KeepDlss) <==> plan.needs_dlss && same
            &&& d.contains(Job::DeploySteamClient) <==> !v.steam
            &&& d.contains(Job::RepairSteamClient) <==> !same
            &&& d.contains(Job::SaveCache) <==> !same
            &&& d.contains(Job::SteamExe) <==> !same
            &&& d.contains(Job::Bridge) <==> !same
        }),
{
    lemma_job_is_done(plan, v, proton, Job::DeployDxvk);
    lemma_job_is_done(plan, v, proton, Job::KeepDxvk);
    lemma_job_is_done(plan, v, proton, Job::DeployVkd3d);
    lemma_job_is_done(plan, v, proton, Job::KeepVkd3d);
    lemma_job_is_done(plan, v, proton, Job::DeployNvapi);
    lemma_job_is_done(plan, v, proton, Job::KeepNvapi);
    lemma_job_is_done(plan, v, proton, Job::DeployDlss);
    lemma_job_is_done(plan, v, proton, Job::KeepDlss);
    lemma_job_is_done(plan, v, proton, Job::DeploySteamClient);
    lemma_job_is_done(plan, v, proton, Job::RepairSteamClient);
    lemma_job_is_done(plan, v, proton, Job::SaveCache);
    lemma_job_is_done(plan, v, proton, Job::SteamExe);
    lemma_job_is_done(plan, v, proton, Job::Bridge);
}

/// A program has graphics as soon as one of its libraries has `d3d` in its name; without a scan it is taken to
/// have them.
pub proof fn lemma_graphics(imports: Seq<Seq<char>>, k: int, i: int)
    ensures
        0 <= k < imports.len() && 0 <= i && i + 3 <= imports[k].len() && imports[k].subrange(i, i + 3) == "d3d"@
            ==> !no_graphics(Some(imports)),
        imports.len() == 0 ==> no_graphics(Some(imports)),
        !no_graphics(None),
{
    reveal_strlit("d3d");
    if 0 <= k < imports.len() && 0 <= i && i + 3 <= imports[k].len() && imports[k].subrange(i, i + 3) == "d3d"@ {
        assert(sub_at(imports[k], "d3d"@, i));
        assert(has_sub(imports[k], "d3d"@));
    }
}

/// The program that a small one starts has the small one's name with the engine's ending, in letters of any
/// case; nothing else is taken for it.
pub proof fn lemma_shipping_names(stem: Seq<char>, names: Seq<Seq<char>>, x: Seq<char>)
    ensures
        shipping_names(stem, names).contains(x) <==> names.contains(x) && same_but_case(
            x,
            stem + "-Win64-Shipping.exe"@,
        ),
    decreases names.len(),
{
    let all = shipping_names(stem, names);
    if names.len() > 0 {
        let d = names.drop_last();
        let before = shipping_names(stem, d);
        lemma_shipping_names(stem, d, x);
        assert(names[names.len() - 1] == names.last());
        if names.contains(x) && x != names.last() {
            let i = choose|i: int| 0 <= i < names.len() && names[i] == x;
            assert(d[i] == x);
        }
        if d.contains(x) {
            let i = choose|i: int| 0 <= i < d.len() && d[i] == x;
            assert(names[i] == x);
        }
        if before.contains(x) {
            let i = choose|i: int| 0 <= i < before.len() && before[i] == x;
            assert(all[i] == x);
        }
        if same_but_case(names.last(), stem + "-Win64-Shipping.exe"@) {
            assert(all[all.len() - 1] == names.last());
            if all.contains(x) && x != names.last() {
                let i = choose|i: int| 0 <= i < all.len() && all[i] == x;
                assert(before[i] == x);
            }
        }
    }
}

/// Steam's own helpers are told by their names wherever they stand in the path.
pub proof fn lemma_utilities(a: Seq<char>, b: Seq<char>)
    ensures
        is_utility(a + "iscriptevaluator"@ + b),
        is_utility(a + "d3ddriverquery"@ + b),
        is_utility(a + "IScriptEvaluator"@ + b),
{
    reveal_strlit("iscriptevaluator");
    reveal_strlit("IScriptEvaluator");
    reveal_strlit("d3ddriverquery");
    let n = a.len() as int;
    let x = small_text(a + "iscriptevaluator"@ + b);
    assert(x.subrange(n, n + 16) =~= "iscriptevaluator"@);
    assert(sub_at(x, "iscriptevaluator"@, n));
    let y = small_text(a + "d3ddriverquery"@ + b);
    assert(y.subrange(n, n + 14) =~= "d3ddriverquery"@);
    assert(sub_at(y, "d3ddriverquery"@, n));
    let z = small_text(a + "IScriptEvaluator"@ + b);
    assert(z.subrange(n, n + 16) =~= "iscriptevaluator"@);
    assert(sub_at(z, "iscriptevaluator"@, n));
}

/// The number of the game is Steam's number of the game where that is set, else that of the program, else that
/// of the compatibility tool, else nothing.
pub proof fn lemma_number_of_game(f: LaunchFacts)
    ensures
        f.steam_game_id matches Some(n) ==> app_id(f) == n@,
        f.steam_game_id is None ==> (f.steam_app_id matches Some(n) ==> app_id(f) == n@),
        f.steam_game_id is None && f.steam_app_id is None ==> (f.compat_app_id matches Some(n) ==> app_id(f)
            == n@),
        f.steam_game_id is None && f.steam_app_id is None && f.compat_app_id is None ==> app_id(f).len() == 0,
        f.install_path matches Some(p) ==> install_dir(f.install_path, f.home) == p@,
        f.install_path is None ==> (f.home matches Some(h) ==> install_dir(f.install_path, f.home) == h@
            + "/.local/share/Steam"@),
{
    reveal_strlit("");
}

proof fn lemma_value_at(env: Seq<(Seq<char>, Seq<char>)>, k: int)
    requires
        0 <= k < env.len(),
        forall|i: int| k < i < env.len() ==> #[trigger] env[i].0 != env[k].0,
    ensures
        value_in(env, env[k].0) == Some(env[k].1),
    decreases env.len(),
{
    if k < env.len() - 1 {
        let d = env.drop_last();
        assert(d[k] == env[k]);
        assert(env[env.len() - 1].0 != env[k].0);
        assert forall|i: int| k < i < d.len() implies #[trigger] d[i].0 != d[k].0 by {
            assert(d[i] == env[i]);
        }
        lemma_value_at(d, k);
    }
}

proof fn lemma_game_names_differ()
    ensures
        "SteamAppId"@ != "SteamGameId"@,
        forall|a: int, b: int|
            0 <= a < b < 6 ==> #[trigger] names_behind()[a] != #[trigger] names_behind()[b],
        forall|b: int| 0 <= b < 6 ==> #[trigger] names_behind()[b] != "SteamAppId"@ || b == 0,
{
    reveal_strlit("SteamAppId");
    reveal_strlit("SteamGameId");
    reveal_strlit("STEAM_COMPAT_CLIENT_INSTALL_PATH");
    reveal_strlit("WINEDEBUG");
    reveal_strlit("WINEDLLPATH");
    reveal_strlit("LD_LIBRARY_PATH");
    reveal_strlit("LD_PRELOAD");
    let n = names_behind();
    assert(n[0].len() == 11 && n[1].len() == 32 && n[2].len() == 9 && n[3].len() == 11 && n[4].len() == 15
        && n[5].len() == 10);
    assert(n[0][0] == 'S' && n[3][0] == 'W' && n[5][0] == 'L');
    assert("SteamAppId"@.len() == 10 && "SteamAppId"@[0] == 'S');
}

/// The names of the variables that are set behind the number of the program, in their order.
spec fn names_behind() -> Seq<Seq<char>> {
    seq![
        "SteamGameId"@,
        "STEAM_COMPAT_CLIENT_INSTALL_PATH"@,
        "WINEDEBUG"@,
        "WINEDLLPATH"@,
        "LD_LIBRARY_PATH"@,
        "LD_PRELOAD"@,
    ]
}

/// The program is told the number of its game under both names, where Steam is, and the debug channels,
/// whatever was set before.
#[verifier::rlimit(40)]
pub proof fn lemma_game_is_told(f: LaunchFacts, present: Set<Seq<char>>)
    ensures
        value_in(launch_env(f, present), "SteamAppId"@) == Some(app_id(f)),
        value_in(launch_env(f, present), "SteamGameId"@) == Some(app_id(f)),
        value_in(launch_env(f, present), "STEAM_COMPAT_CLIENT_INSTALL_PATH"@) == Some(
            install_dir(f.install_path, f.home),
        ),
        value_in(launch_env(f, present), "WINEDEBUG"@) == Some(f.winedebug@),
{
    lemma_game_names_differ();
    let a = pair_views(f.env@) + pair_views(f.custom@) + session_vars(f);
    let g = game_vars(f, present);
    let n = names_behind();
    let k = if f.game_size is Some {
        1int
    } else {
        0int
    };
    assert(g[k] == ("SteamAppId"@, app_id(f)));
    assert(g[k + 1] == (n[0], app_id(f)));
    assert(g[k + 2] == (n[1], install_dir(f.install_path, f.home)));
    assert(g[k + 3] == (n[2], f.winedebug@));
    assert forall|i: int| k + 3 < i < g.len() implies #[trigger] g[i].0 == n[3] || g[i].0 == n[4] || g[i].0
        == n[5] by {}
    lemma_value_at(g, k);
    lemma_value_at(g, k + 1);
    lemma_value_at(g, k + 2);
    lemma_value_at(g, k + 3);
    lemma_value_behind(a, g, "SteamAppId"@);
    lemma_value_behind(a, g, n[0]);
    lemma_value_behind(a, g, n[1]);
    lemma_value_behind(a, g, n[2]);
}

/// The program and its arguments stand last in the command, behind Steam's helper; where nothing is preloaded
/// the variable for that is taken away.
pub proof fn lemma_program_stands_last(f: LaunchFacts, present: Set<Seq<char>>, k: int)
    ensures
        ({
            let w = launch_program(f, present).words;
            &&& w.len() > f.args@.len()
            &&& w[w.len() - f.args@.len() - 1] == "C:\\windows\\system32\\steam.exe"@
            &&& 0 <= k < f.args@.len() ==> w[w.len() - f.args@.len() + k] == f.args@[k]@
            &&& w.take(w.len() - f.args@.len() - 1) == wine_words(present, f.wine64@, f.wine_dir@)
        }),
        launch_program(f, present).unset.len() <= 1,
        launch_program(f, present).unset.contains("LD_PRELOAD"@) <==> joined(
            preloads(opt_view(f.ld_preload)),
            ":"@,
        ).len() == 0,
{
    let p = launch_program(f, present);
    let w = p.words;
    let c = wine_words(present, f.wine64@, f.wine_dir@);
    assert(w.take(c.len() as int) =~= c);
    if joined(preloads(opt_view(f.ld_preload)), ":"@).len() == 0 {
        assert(p.unset[0] == "LD_PRELOAD"@);
    }
}

/// Where all of them are there Wine looks for its modules in the launcher's tree before the system's, and in
/// each for those of Unix first.
pub proof fn lemma_own_modules_first(wine_dir: Seq<char>, present: Set<Seq<char>>)
    requires
        present.contains(path_join(wine_dir, "lib/wine/x86_64-unix"@)),
        present.contains(path_join(wine_dir, "lib/wine/x86_64-windows"@)),
        present.contains("/usr/lib/wine/x86_64-unix"@),
        present.contains("/usr/lib/wine/x86_64-windows"@),
    ensures
        module_places(wine_dir, present) == seq![
            path_join(wine_dir, "lib/wine/x86_64-unix"@),
            path_join(wine_dir, "lib/wine/x86_64-windows"@),
            "/usr/lib/wine/x86_64-unix"@,
            "/usr/lib/wine/x86_64-windows"@,
        ],
        wine_libraries(wine_dir, None, present)[0] == path_join(wine_dir, "lib/wine/x86_64-unix"@),
        present.contains(path_join(wine_dir, "lib"@)) ==> wine_libraries(wine_dir, None, present) == seq![
            path_join(wine_dir, "lib/wine/x86_64-unix"@),
            path_join(wine_dir, "lib"@),
        ],
        forall|c: Seq<char>| #[trigger] wine_libraries(wine_dir, Some(c), present).last() == c,
{
}

/// Of the variables that are built all but the three that tell Wine where its modules are stay.
pub proof fn lemma_other_vars(v: Seq<(Seq<char>, Seq<char>)>, x: (Seq<char>, Seq<char>))
    ensures
        other_vars(v).contains(x) <==> v.contains(x) && x.0 != "WINEDLLPATH"@ && x.0 != "WINEDLLDIR0"@ && x.0
            != "WINEDLLDIR1"@,
    decreases v.len(),
{
    let all = other_vars(v);
    if v.len() > 0 {
        let d = v.drop_last();
        let before = other_vars(d);
        lemma_other_vars(d, x);
        assert(v[v.len() - 1] == v.last());
        if v.contains(x) && x != v.last() {
            let i = choose|i: int| 0 <= i < v.len() && v[i] == x;
            assert(d[i] == x);
        }
        if d.contains(x) {
            let i = choose|i: int| 0 <= i < d.len() && d[i] == x;
            assert(v[i] == x);
        }
        if before.contains(x) {
            let i = choose|i: int| 0 <= i < before.len() && before[i] == x;
            assert(all[i] == x);
        }
        if !module_var(v.last().0) {
            assert(all[all.len() - 1] == v.last());
            if all.contains(x) && x != v.last() {
                let i = choose|i: int| 0 <= i < all.len() && all[i] == x;
                assert(before[i] == x);
            }
        }
    }
}

/// A prefix is brought up to date by Wine's own program for that, in that prefix and with the user's variables.
pub proof fn lemma_sync_is_told(f: LaunchFacts, present: Set<Seq<char>>, k: int)
    ensures
        ({
            let r = sync_program(f, present);
            let w = r.words;
            &&& w.len() >= 2 && w[w.len() - 2] == "wineboot"@ && w[w.len() - 1] == "--update"@
            &&& r.env[0] == ("WINEPREFIX"@, f.pfx@)
            &&& r.env[1] == ("WINESERVER"@, f.server@)
            &&& r.env.last() == ("WINEDEBUG"@, f.winedebug@)
            &&& 0 <= k < f.custom@.len() ==> r.env.contains((f.custom@[k].0@, f.custom@[k].1@))
        }),
{
    let e = sync_program(f, present).env;
    let c = pair_views(f.custom@);
    if 0 <= k < c.len() {
        assert(e[e.len() - 1 - c.len() + k] == c[k]);
    }
}

/// How a program ended is told with its sign and the digits of its code.
pub proof fn lemma_end_is_told(code: i32)
    ensures
        exit_text(Exit::Code { code: 0 }) == "exit: 0 (clean)"@,
        code > 0 ==> exit_text(Exit::Code { code }) == "exit: "@ + decimal(code as nat) + " (error)"@,
        code < 0 ==> exit_text(Exit::Code { code }) == "exit: "@ + (seq!['-'] + decimal(-code as nat))
            + " (error)"@,
        code >= 0 ==> exit_text(Exit::Signal { signal: code }) == "killed by signal "@ + decimal(code as nat),
        exit_text(Exit::Unknown) == "unknown exit"@,
{
}

} // verus!
