//! The environment of the program that is launched.
use crate::discovery::{wine_binary, wine_program, Present};
use crate::fileops::{op_views, push_op, FileOp, Op};
use crate::paths::{join_path, nt_path, path_join, same_path, same_steps, to_nt_path};
use crate::settings::pair_views;
use crate::text::{join, joined, views};
use vstd::prelude::*;

verus! {

/// What the environment is made of.
pub struct EnvFacts {
    pub wine_dir: String,
    pub proton_dir: Option<String>,
    pub steam_dir: String,
    pub pfx: String,
    /// The launcher's own directory.
    pub self_dir: Option<String>,
    /// The program that serves Wine.
    pub server: String,
    /// The version of the launcher.
    pub version: String,
    pub dxvk: Vec<String>,
    pub vkd3d: Vec<String>,
    pub nvapi: Vec<String>,
    pub dlss: Vec<String>,
    pub shader_cache: bool,
    pub path: String,
    pub ld_library_path: Option<String>,
    pub orig_ld_library_path: bool,
    pub home: Option<String>,
    pub user: Option<String>,
    pub dxvk_log_level: Option<String>,
    pub host_lc_all: Option<String>,
    pub gamepads: Option<String>,
}

pub open spec fn or_text(s: Option<String>, default: Seq<char>) -> Seq<char> {
    match s {
        Some(t) => t@,
        None => default,
    }
}

pub(crate) fn text_or(s: &Option<String>, default: &str) -> (r: String)
    ensures
        r@ == or_text(*s, default@),
{
    match s {
        Some(t) => t.clone(),
        None => default.to_string(),
    }
}

/// A text, where something holds.
pub open spec fn only_if(b: bool, s: Seq<char>) -> Seq<Seq<char>> {
    if b {
        seq![s]
    } else {
        Seq::empty()
    }
}

/// A path, where there is something.
pub open spec fn if_there(present: Set<Seq<char>>, path: Seq<char>) -> Seq<Seq<char>> {
    only_if(present.contains(path), path)
}

pub(crate) fn push_text(out: &mut Vec<String>, s: String)
    ensures
        views(final(out)@) == views(old(out)@).push(s@),
{
    let ghost sv = s@;
    out.push(s);
    assert(views(out@) =~= views(old(out)@).push(sv));
}

pub(crate) fn push_if_there(out: &mut Vec<String>, present: &Present, path: String)
    ensures
        views(final(out)@) == views(old(out)@) + if_there(present@, path@),
{
    let ghost pv = path@;
    if present.holds(path.as_str()) {
        push_text(out, path);
    }
    assert(views(out@) =~= views(old(out)@) + if_there(present@, pv));
}

/// Where Wine looks for its modules.
pub open spec fn dll_places(f: EnvFacts, present: Set<Seq<char>>) -> Seq<Seq<char>> {
    let wine_dll = path_join(f.wine_dir@, "lib/wine"@);
    if_there(
        present,
        path_join(
            or_text(f.home, ""@),
            ".local/share/Steam/compatibilitytools.d/quark/lib/wine/proton"@,
        ),
    ) + (match f.self_dir {
        Some(d) => if_there(present, path_join(d@, "lib/wine"@)),
        None => Seq::empty(),
    }) + if_there(present, path_join(f.wine_dir@, "lib/vkd3d"@)) + seq![wine_dll] + (
    match f.proton_dir {
        Some(p) => if_there(present, path_join(p@, "lib/vkd3d"@)) + only_if(
            present.contains(path_join(p@, "lib/wine"@)) && !same_steps(
                path_join(p@, "lib/wine"@),
                wine_dll,
            ),
            path_join(p@, "lib/wine"@),
        ),
        None => Seq::empty(),
    })
}

/// Where the system looks for libraries.
pub open spec fn library_places(f: EnvFacts, present: Set<Seq<char>>) -> Seq<Seq<char>> {
    let wine_lib = path_join(f.wine_dir@, "lib"@);
    (match f.proton_dir {
        Some(p) => if_there(present, path_join(p@, "lib/x86_64-linux-gnu"@)),
        None => Seq::empty(),
    }) + if_there(present, path_join(f.wine_dir@, "lib/x86_64-linux-gnu"@)) + if_there(
        present,
        path_join(f.steam_dir@, "linux64"@),
    ) + seq![wine_lib] + (match f.self_dir {
        Some(d) => if_there(present, path_join(path_join(d@, "lib/wine"@), "x86_64-unix"@)),
        None => Seq::empty(),
    }) + if_there(present, path_join(f.wine_dir@, "lib/wine/x86_64-unix"@)) + (
    match f.proton_dir {
        Some(p) => only_if(
            present.contains(path_join(p@, "lib"@)) && !same_steps(
                path_join(p@, "lib"@),
                wine_lib,
            ),
            path_join(p@, "lib"@),
        ),
        None => Seq::empty(),
    }) + only_if(or_text(f.ld_library_path, ""@).len() > 0, or_text(f.ld_library_path, ""@))
}

/// The library path: what Steam has for films stands in front of it.
pub open spec fn library_path(f: EnvFacts, present: Set<Seq<char>>) -> Seq<char> {
    let all = joined(library_places(f, present), ":"@);
    if present.contains(f.steam_dir@ + "/ubuntu12_64/video/"@) {
        f.steam_dir@ + "/ubuntu12_64/video/:"@ + f.steam_dir@ + "/ubuntu12_32/video/"@ + ":"@ + all
    } else {
        all
    }
}

/// How modules are loaded that are not deployed.
pub open spec fn base_overrides() -> Seq<Seq<char>> {
    seq![
        "lsteamclient=b"@,
        "steam.exe=b"@,
        "dotnetfx35.exe=b"@,
        "dotnetfx35setup.exe=b"@,
        "beclient.dll=b,n"@,
        "beclient_x64.dll=b,n"@,
        "xinput1_1.dll=b"@,
        "xinput1_2.dll=b"@,
        "xinput1_3.dll=b"@,
        "xinput1_4.dll=b"@,
        "xinput9_1_0.dll=b"@,
        "xinputuap.dll=b"@,
        "easyanticheat=b"@,
        "easyanticheat_x64=b"@,
        "easyanticheat_x86=b"@,
        "winebth.sys=d"@,
        "vrclient_x64=d"@,
        "opencl=n,d"@,
        "gameinput=d"@,
    ]
}

/// Modules that are loaded as they were deployed.
pub open spec fn native(names: Seq<Seq<char>>) -> Seq<Seq<char>> {
    names.map_values(|n: Seq<char>| n + "=n"@)
}

/// How modules are loaded.
pub open spec fn overrides(f: EnvFacts) -> Seq<Seq<char>> {
    base_overrides() + native(views(f.dxvk@)) + native(views(f.vkd3d@)) + native(views(f.nvapi@))
        + native(views(f.dlss@)) + only_if(f.nvapi@.len() > 0, "nvcuda=b"@)
}

/// The first variables.
pub open spec fn main_vars(f: EnvFacts, present: Set<Seq<char>>) -> Seq<(Seq<char>, Seq<char>)> {
    let dll_dir = nt_path(path_join(f.wine_dir@, "lib/wine"@));
    seq![
        ("WINEPREFIX"@, f.pfx@),
        ("WINESERVER"@, f.server@),
        ("WINELOADER"@, wine_program(present, f.wine_dir@)),
        ("WINEDLLPATH"@, joined(dll_places(f, present), ":"@)),
        ("WINEDATADIR"@, nt_path(path_join(f.wine_dir@, "share/wine"@))),
        ("WINEDLLDIR0"@, dll_dir),
        ("WINEDLLDIR1"@, dll_dir),
        ("WINECONFIGDIR"@, nt_path(f.pfx@)),
        ("WINEHOMEDIR"@, nt_path(or_text(f.home, "/home/user"@))),
        ("WINEUSERNAME"@, or_text(f.user, "user"@)),
        ("PATH"@, path_join(f.wine_dir@, "bin"@) + ":"@ + f.path@),
        ("LD_LIBRARY_PATH"@, library_path(f, present)),
        ("WINEDLLOVERRIDES"@, joined(overrides(f), ";"@)),
        ("DXVK_LOG_LEVEL"@, or_text(f.dxvk_log_level, "none"@)),
        ("VKD3D_DEBUG"@, "none"@),
        ("WINE_LARGE_ADDRESS_AWARE"@, "1"@),
        ("QUARK_FAST_BOOT"@, "1"@),
        ("PROTON_VERSION"@, "quark "@ + f.version@),
    ]
}

/// A variable, where something holds.
pub open spec fn var_if(b: bool, name: Seq<char>, value: Seq<char>) -> Seq<(Seq<char>, Seq<char>)> {
    if b {
        seq![(name, value)]
    } else {
        Seq::empty()
    }
}

/// Where the runtime of the anti-cheat is.
pub open spec fn eac_runtime(f: EnvFacts) -> Seq<char> {
    path_join(
        or_text(f.home, "/home/user"@),
        ".local/share/Steam/steamapps/common/Proton EasyAntiCheat Runtime"@,
    )
}

/// The user's profile as the program sees it, and shaders compiled in the background.
pub open spec fn profile_vars(f: EnvFacts) -> Seq<(Seq<char>, Seq<char>)> {
    let user = or_text(f.user, "user"@);
    let profile = "C:\\users\\"@ + user;
    seq![
        ("USERPROFILE"@, profile),
        ("APPDATA"@, profile + "\\AppData\\Roaming"@),
        ("LOCALAPPDATA"@, profile + "\\AppData\\Local"@),
        ("TEMP"@, profile + "\\Temp"@),
        ("TMP"@, profile + "\\Temp"@),
        ("HOMEDRIVE"@, "C:"@),
        ("HOMEPATH"@, "\\users\\"@ + user),
        ("ALLUSERSPROFILE"@, "C:\\ProgramData"@),
        ("ProgramData"@, "C:\\ProgramData"@),
        ("DXVK_ASYNC"@, "1"@),
        ("VKD3D_CONFIG"@, "shader_cache"@),
    ]
}

/// The graphics card's driver is NVIDIA's.
pub open spec fn nvidia(present: Set<Seq<char>>) -> bool {
    present.contains("/proc/driver/nvidia/version"@)
}

pub open spec fn egl_vendor() -> Seq<char> {
    "/usr/share/glvnd/egl_vendor.d/10_nvidia.json"@
}

/// What the machine has.
pub open spec fn machine_vars(present: Set<Seq<char>>) -> Seq<(Seq<char>, Seq<char>)> {
    var_if(present.contains("/dev/ntsync"@), "WINE_NTSYNC"@, "1"@) + seq![
        ("WINEESYNC"@, "0"@),
        ("WINEFSYNC"@, "0"@),
    ] + var_if(nvidia(present), "DXVK_ENABLE_NVAPI"@, "1"@) + var_if(
        nvidia(present) && present.contains(egl_vendor()),
        "__EGL_VENDOR_LIBRARY_FILENAMES"@,
        egl_vendor(),
    ) + var_if(nvidia(present), "__GLX_VENDOR_LIBRARY_NAME"@, "nvidia"@)
}

/// What Steam changed for the compatibility tool, as the program is to see it.
pub open spec fn steam_vars(f: EnvFacts) -> Seq<(Seq<char>, Seq<char>)> {
    (match f.host_lc_all {
        Some(v) => var_if(v@.len() > 0, "LC_ALL"@, v@),
        None => seq![("LC_ALL"@, ""@)],
    }) + var_if(
        !f.orig_ld_library_path,
        "ORIG_LD_LIBRARY_PATH"@,
        or_text(f.ld_library_path, ""@),
    ) + (match f.gamepads {
        Some(v) => seq![("SteamVirtualGamepadInfo"@, v@)],
        None => Seq::empty(),
    })
}

/// Where compiled shaders are kept.
pub open spec fn shader_dir(f: EnvFacts) -> Seq<char> {
    path_join(f.pfx@, "shader_cache"@)
}

/// How compiled shaders are kept.
pub open spec fn shader_vars(f: EnvFacts, present: Set<Seq<char>>) -> Seq<(Seq<char>, Seq<char>)> {
    let dir = shader_dir(f);
    seq![("DXVK_SHADER_CACHE_PATH"@, dir), ("VKD3D_SHADER_CACHE_PATH"@, dir)] + (if nvidia(
        present,
    ) {
        seq![
            ("__GL_SHADER_DISK_CACHE"@, "1"@),
            ("__GL_SHADER_DISK_CACHE_PATH"@, dir),
            ("__GL_SHADER_DISK_CACHE_SIZE"@, "10737418240"@),
            ("__GL_SHADER_DISK_CACHE_SKIP_CLEANUP"@, "1"@),
        ] + var_if(
            present.contains(egl_vendor()),
            "__EGL_VENDOR_LIBRARY_FILENAMES"@,
            egl_vendor(),
        )
    } else {
        seq![
            ("MESA_SHADER_CACHE_DIR"@, dir),
            ("MESA_SHADER_CACHE_MAX_SIZE"@, "10G"@),
            ("MESA_DISK_CACHE_SINGLE_FILE"@, "1"@),
            ("RADV_PERFTEST"@, "gpl"@),
        ]
    })
}

/// The environment.
pub open spec fn env_vars(f: EnvFacts, present: Set<Seq<char>>) -> Seq<(Seq<char>, Seq<char>)> {
    main_vars(f, present) + var_if(
        present.contains(eac_runtime(f)),
        "PROTON_EAC_RUNTIME"@,
        eac_runtime(f),
    ) + profile_vars(f) + machine_vars(present) + steam_vars(f) + (if f.shader_cache {
        shader_vars(f, present)
    } else {
        Seq::empty()
    })
}

pub(crate) fn put(out: &mut Vec<(String, String)>, name: &str, value: String)
    ensures
        pair_views(final(out)@) == pair_views(old(out)@).push((name@, value@)),
{
    let ghost vv = value@;
    out.push((name.to_string(), value));
    assert(pair_views(out@) =~= pair_views(old(out)@).push((name@, vv)));
}

pub(crate) fn put_if(out: &mut Vec<(String, String)>, b: bool, name: &str, value: &str)
    ensures
        pair_views(final(out)@) == pair_views(old(out)@) + var_if(b, name@, value@),
{
    if b {
        put(out, name, value.to_string());
    }
    assert(pair_views(out@) =~= pair_views(old(out)@) + var_if(b, name@, value@));
}

pub(crate) fn concat(a: &str, b: &str) -> (r: String)
    ensures
        r@ == a@ + b@,
{
    let mut s = a.to_string();
    s.append(b);
    s
}

fn build_dll_path(f: &EnvFacts, present: &Present) -> (r: String)
    ensures
        r@ == joined(dll_places(*f, present@), ":"@),
{
    let mut parts: Vec<String> = Vec::new();
    let home = text_or(&f.home, "");
    push_if_there(
        &mut parts,
        present,
        join_path(
            home.as_str(),
            ".local/share/Steam/compatibilitytools.d/quark/lib/wine/proton",
        ),
    );
    match &f.self_dir {
        Some(d) => {
            push_if_there(&mut parts, present, join_path(d.as_str(), "lib/wine"));
        },
        None => {},
    }
    push_if_there(&mut parts, present, join_path(f.wine_dir.as_str(), "lib/vkd3d"));
    let wine_dll = join_path(f.wine_dir.as_str(), "lib/wine");
    push_text(&mut parts, wine_dll.clone());
    match &f.proton_dir {
        Some(p) => {
            push_if_there(&mut parts, present, join_path(p.as_str(), "lib/vkd3d"));
            let dll = join_path(p.as_str(), "lib/wine");
            if present.holds(dll.as_str()) && !same_path(dll.as_str(), wine_dll.as_str()) {
                push_text(&mut parts, dll);
            }
        },
        None => {},
    }
    assert(views(parts@) =~= dll_places(*f, present@));
    join(&parts, ":")
}

#[verifier::rlimit(40)]
fn build_library_path(f: &EnvFacts, present: &Present) -> (r: String)
    ensures
        r@ == library_path(*f, present@),
{
    let mut parts: Vec<String> = Vec::new();
    match &f.proton_dir {
        Some(p) => {
            push_if_there(&mut parts, present, join_path(p.as_str(), "lib/x86_64-linux-gnu"));
        },
        None => {},
    }
    push_if_there(&mut parts, present, join_path(f.wine_dir.as_str(), "lib/x86_64-linux-gnu"));
    push_if_there(&mut parts, present, join_path(f.steam_dir.as_str(), "linux64"));
    let wine_lib = join_path(f.wine_dir.as_str(), "lib");
    push_text(&mut parts, wine_lib.clone());
    match &f.self_dir {
        Some(d) => {
            let lib = join_path(d.as_str(), "lib/wine");
            push_if_there(&mut parts, present, join_path(lib.as_str(), "x86_64-unix"));
        },
        None => {},
    }
    push_if_there(&mut parts, present, join_path(f.wine_dir.as_str(), "lib/wine/x86_64-unix"));
    match &f.proton_dir {
        Some(p) => {
            let lib = join_path(p.as_str(), "lib");
            if present.holds(lib.as_str()) && !same_path(lib.as_str(), wine_lib.as_str()) {
                push_text(&mut parts, lib);
            }
        },
        None => {},
    }
    let current = text_or(&f.ld_library_path, "");
    if !current.as_str().is_empty() {
        push_text(&mut parts, current);
    }
    assert(views(parts@) =~= library_places(*f, present@));
    let all = join(&parts, ":");
    let films = concat(f.steam_dir.as_str(), "/ubuntu12_64/video/");
    if present.holds(films.as_str()) {
        let mut s = concat(f.steam_dir.as_str(), "/ubuntu12_64/video/:");
        s.append(f.steam_dir.as_str());
        s.append("/ubuntu12_32/video/");
        s.append(":");
        s.append(all.as_str());
        s
    } else {
        all
    }
}

fn push_native(out: &mut Vec<String>, names: &Vec<String>)
    ensures
        views(final(out)@) == views(old(out)@) + native(views(names@)),
{
    let mut i: usize = 0;
    assert(views(out@) =~= views(old(out)@) + native(views(names@).take(0)));
    while i < names.len()
        invariant
            i <= names@.len(),
            views(out@) == views(old(out)@) + native(views(names@).take(i as int)),
        decreases names@.len() - i,
    {
        push_text(out, concat(names[i].as_str(), "=n"));
        i = i + 1;
        assert(native(views(names@).take(i as int)) =~= native(views(names@).take(i - 1)).push(
            names@[i - 1]@ + "=n"@,
        ));
        assert(views(out@) =~= views(old(out)@) + native(views(names@).take(i as int)));
    }
    assert(views(names@).take(names@.len() as int) =~= views(names@));
}

fn base_override_list() -> (r: Vec<String>)
    ensures
        views(r@) == base_overrides(),
{
    let mut out: Vec<String> = Vec::new();
    out.push("lsteamclient=b".to_string());
    out.push("steam.exe=b".to_string());
    out.push("dotnetfx35.exe=b".to_string());
    out.push("dotnetfx35setup.exe=b".to_string());
    out.push("beclient.dll=b,n".to_string());
    out.push("beclient_x64.dll=b,n".to_string());
    out.push("xinput1_1.dll=b".to_string());
    out.push("xinput1_2.dll=b".to_string());
    out.push("xinput1_3.dll=b".to_string());
    out.push("xinput1_4.dll=b".to_string());
    out.push("xinput9_1_0.dll=b".to_string());
    out.push("xinputuap.dll=b".to_string());
    out.push("easyanticheat=b".to_string());
    out.push("easyanticheat_x64=b".to_string());
    out.push("easyanticheat_x86=b".to_string());
    out.push("winebth.sys=d".to_string());
    out.push("vrclient_x64=d".to_string());
    out.push("opencl=n,d".to_string());
    out.push("gameinput=d".to_string());
    assert(views(out@) =~= base_overrides());
    out
}

fn build_overrides(f: &EnvFacts) -> (r: String)
    ensures
        r@ == joined(overrides(*f), ";"@),
{
    let mut out = base_override_list();
    push_native(&mut out, &f.dxvk);
    push_native(&mut out, &f.vkd3d);
    push_native(&mut out, &f.nvapi);
    push_native(&mut out, &f.dlss);
    if f.nvapi.len() > 0 {
        push_text(&mut out, "nvcuda=b".to_string());
    }
    assert(views(out@) =~= overrides(*f));
    join(&out, ";")
}

fn put_main_vars(out: &mut Vec<(String, String)>, f: &EnvFacts, present: &Present)
    ensures
        pair_views(final(out)@) == pair_views(old(out)@) + main_vars(*f, present@),
{
    let lib_wine = join_path(f.wine_dir.as_str(), "lib/wine");
    let share = join_path(f.wine_dir.as_str(), "share/wine");
    let home = text_or(&f.home, "/home/user");
    let mut path = join_path(f.wine_dir.as_str(), "bin");
    path.append(":");
    path.append(f.path.as_str());
    put(out, "WINEPREFIX", f.pfx.clone());
    put(out, "WINESERVER", f.server.clone());
    put(out, "WINELOADER", wine_binary(present, f.wine_dir.as_str()));
    put(out, "WINEDLLPATH", build_dll_path(f, present));
    put(out, "WINEDATADIR", to_nt_path(share.as_str()));
    put(out, "WINEDLLDIR0", to_nt_path(lib_wine.as_str()));
    put(out, "WINEDLLDIR1", to_nt_path(lib_wine.as_str()));
    put(out, "WINECONFIGDIR", to_nt_path(f.pfx.as_str()));
    put(out, "WINEHOMEDIR", to_nt_path(home.as_str()));
    put(out, "WINEUSERNAME", text_or(&f.user, "user"));
    put(out, "PATH", path);
    put(out, "LD_LIBRARY_PATH", build_library_path(f, present));
    put(out, "WINEDLLOVERRIDES", build_overrides(f));
    put(out, "DXVK_LOG_LEVEL", text_or(&f.dxvk_log_level, "none"));
    put(out, "VKD3D_DEBUG", "none".to_string());
    put(out, "WINE_LARGE_ADDRESS_AWARE", "1".to_string());
    put(out, "QUARK_FAST_BOOT", "1".to_string());
    put(out, "PROTON_VERSION", concat("quark ", f.version.as_str()));
    assert(pair_views(out@) =~= pair_views(old(out)@) + main_vars(*f, present@));
}

fn put_profile_vars(out: &mut Vec<(String, String)>, f: &EnvFacts)
    ensures
        pair_views(final(out)@) == pair_views(old(out)@) + profile_vars(*f),
{
    let user = text_or(&f.user, "user");
    let profile = concat("C:\\users\\", user.as_str());
    let p = profile.as_str();
    put(out, "USERPROFILE", p.to_string());
    put(out, "APPDATA", concat(p, "\\AppData\\Roaming"));
    put(out, "LOCALAPPDATA", concat(p, "\\AppData\\Local"));
    put(out, "TEMP", concat(p, "\\Temp"));
    put(out, "TMP", concat(p, "\\Temp"));
    put(out, "HOMEDRIVE", "C:".to_string());
    put(out, "HOMEPATH", concat("\\users\\", user.as_str()));
    put(out, "ALLUSERSPROFILE", "C:\\ProgramData".to_string());
    put(out, "ProgramData", "C:\\ProgramData".to_string());
    put(out, "DXVK_ASYNC", "1".to_string());
    put(out, "VKD3D_CONFIG", "shader_cache".to_string());
    assert(pair_views(out@) =~= pair_views(old(out)@) + profile_vars(*f));
}

fn put_machine_vars(out: &mut Vec<(String, String)>, present: &Present)
    ensures
        pair_views(final(out)@) == pair_views(old(out)@) + machine_vars(present@),
{
    let card: bool = present.holds("/proc/driver/nvidia/version");
    let vendor: bool = present.holds("/usr/share/glvnd/egl_vendor.d/10_nvidia.json");
    put_if(out, present.holds("/dev/ntsync"), "WINE_NTSYNC", "1");
    put(out, "WINEESYNC", "0".to_string());
    put(out, "WINEFSYNC", "0".to_string());
    put_if(out, card, "DXVK_ENABLE_NVAPI", "1");
    put_if(
        out,
        card && vendor,
        "__EGL_VENDOR_LIBRARY_FILENAMES",
        "/usr/share/glvnd/egl_vendor.d/10_nvidia.json",
    );
    put_if(out, card, "__GLX_VENDOR_LIBRARY_NAME", "nvidia");
    assert(pair_views(out@) =~= pair_views(old(out)@) + machine_vars(present@));
}

fn put_steam_vars(out: &mut Vec<(String, String)>, f: &EnvFacts)
    ensures
        pair_views(final(out)@) == pair_views(old(out)@) + steam_vars(*f),
{
    match &f.host_lc_all {
        Some(v) => {
            if !v.as_str().is_empty() {
                put(out, "LC_ALL", v.clone());
            }
        },
        None => {
            put(out, "LC_ALL", "".to_string());
        },
    }
    if !f.orig_ld_library_path {
        put(out, "ORIG_LD_LIBRARY_PATH", text_or(&f.ld_library_path, ""));
    }
    match &f.gamepads {
        Some(v) => {
            put(out, "SteamVirtualGamepadInfo", v.clone());
        },
        None => {},
    }
    assert(pair_views(out@) =~= pair_views(old(out)@) + steam_vars(*f));
}

/// The directory in which compiled shaders are kept is made, where they are kept at all.
pub fn shader_ops(f: &EnvFacts) -> (r: Vec<FileOp>)
    ensures
        op_views(r@) == (if f.shader_cache {
            seq![Op::MakeDir { path: shader_dir(*f) }]
        } else {
            Seq::empty()
        }),
{
    let mut out: Vec<FileOp> = Vec::new();
    assert(op_views(out@) =~= Seq::empty());
    if f.shader_cache {
        let path = join_path(f.pfx.as_str(), "shader_cache");
        push_op(&mut out, FileOp::MakeDir { path });
        assert(op_views(out@) =~= seq![Op::MakeDir { path: shader_dir(*f) }]);
    }
    out
}

fn put_shader_vars(out: &mut Vec<(String, String)>, f: &EnvFacts, present: &Present)
    ensures
        pair_views(final(out)@) == pair_views(old(out)@) + shader_vars(*f, present@),
{
    let dir = join_path(f.pfx.as_str(), "shader_cache");
    put(out, "DXVK_SHADER_CACHE_PATH", dir.clone());
    put(out, "VKD3D_SHADER_CACHE_PATH", dir.clone());
    if present.holds("/proc/driver/nvidia/version") {
        put(out, "__GL_SHADER_DISK_CACHE", "1".to_string());
        put(out, "__GL_SHADER_DISK_CACHE_PATH", dir);
        put(out, "__GL_SHADER_DISK_CACHE_SIZE", "10737418240".to_string());
        put(out, "__GL_SHADER_DISK_CACHE_SKIP_CLEANUP", "1".to_string());
        put_if(
            out,
            present.holds("/usr/share/glvnd/egl_vendor.d/10_nvidia.json"),
            "__EGL_VENDOR_LIBRARY_FILENAMES",
            "/usr/share/glvnd/egl_vendor.d/10_nvidia.json",
        );
    } else {
        put(out, "MESA_SHADER_CACHE_DIR", dir);
        put(out, "MESA_SHADER_CACHE_MAX_SIZE", "10G".to_string());
        put(out, "MESA_DISK_CACHE_SINGLE_FILE", "1".to_string());
        put(out, "RADV_PERFTEST", "gpl".to_string());
    }
    assert(pair_views(out@) =~= pair_views(old(out)@) + shader_vars(*f, present@));
}

/// Builds the environment of the program that is launched.
pub fn build_env_vars(f: &EnvFacts, present: &Present) -> (r: Vec<(String, String)>)
    ensures
        pair_views(r@) == env_vars(*f, present@),
{
    let mut out: Vec<(String, String)> = Vec::new();
    put_main_vars(&mut out, f, present);
    let home = text_or(&f.home, "/home/user");
    let eac = join_path(
        home.as_str(),
        ".local/share/Steam/steamapps/common/Proton EasyAntiCheat Runtime",
    );
    put_if(&mut out, present.holds(eac.as_str()), "PROTON_EAC_RUNTIME", eac.as_str());
    put_profile_vars(&mut out, f);
    put_machine_vars(&mut out, present);
    put_steam_vars(&mut out, f);
    if f.shader_cache {
        put_shader_vars(&mut out, f, present);
    }
    assert(pair_views(out@) =~= env_vars(*f, present@));
    out
}

/// The modules that come with the launcher are loaded in their fixed ways, those that were deployed as they
/// were deployed, and `nvcuda` from Wine where `nvapi` was deployed.
pub proof fn lemma_ways_of_loading(f: EnvFacts, k: int)
    ensures
        overrides(f).contains("lsteamclient=b"@),
        overrides(f).contains("steam.exe=b"@),
        overrides(f).contains("dotnetfx35.exe=b"@),
        overrides(f).contains("dotnetfx35setup.exe=b"@),
        overrides(f).contains("beclient.dll=b,n"@),
        overrides(f).contains("beclient_x64.dll=b,n"@),
        overrides(f).contains("xinput1_1.dll=b"@),
        overrides(f).contains("xinput1_2.dll=b"@),
        overrides(f).contains("xinput1_3.dll=b"@),
        overrides(f).contains("xinput1_4.dll=b"@),
        overrides(f).contains("xinput9_1_0.dll=b"@),
        overrides(f).contains("xinputuap.dll=b"@),
        overrides(f).contains("easyanticheat=b"@),
        overrides(f).contains("easyanticheat_x64=b"@),
        overrides(f).contains("easyanticheat_x86=b"@),
        overrides(f).contains("winebth.sys=d"@),
        overrides(f).contains("vrclient_x64=d"@),
        overrides(f).contains("opencl=n,d"@),
        overrides(f).contains("gameinput=d"@),
        0 <= k < f.dxvk@.len() ==> overrides(f).contains(f.dxvk@[k]@ + "=n"@),
        0 <= k < f.vkd3d@.len() ==> overrides(f).contains(f.vkd3d@[k]@ + "=n"@),
        0 <= k < f.nvapi@.len() ==> overrides(f).contains(f.nvapi@[k]@ + "=n"@) && overrides(f).contains(
            "nvcuda=b"@,
        ),
        0 <= k < f.dlss@.len() ==> overrides(f).contains(f.dlss@[k]@ + "=n"@),
        f.nvapi@.len() == 0 ==> overrides(f).len() == 19 + f.dxvk@.len() + f.vkd3d@.len() + f.dlss@.len(),
{
    let all = overrides(f);
    assert(all[0] == "lsteamclient=b"@);
    assert(all[1] == "steam.exe=b"@);
    assert(all[2] == "dotnetfx35.exe=b"@);
    assert(all[3] == "dotnetfx35setup.exe=b"@);
    assert(all[4] == "beclient.dll=b,n"@);
    assert(all[5] == "beclient_x64.dll=b,n"@);
    assert(all[6] == "xinput1_1.dll=b"@);
    assert(all[7] == "xinput1_2.dll=b"@);
    assert(all[8] == "xinput1_3.dll=b"@);
    assert(all[9] == "xinput1_4.dll=b"@);
    assert(all[10] == "xinput9_1_0.dll=b"@);
    assert(all[11] == "xinputuap.dll=b"@);
    assert(all[12] == "easyanticheat=b"@);
    assert(all[13] == "easyanticheat_x64=b"@);
    assert(all[14] == "easyanticheat_x86=b"@);
    assert(all[15] == "winebth.sys=d"@);
    assert(all[16] == "vrclient_x64=d"@);
    assert(all[17] == "opencl=n,d"@);
    assert(all[18] == "gameinput=d"@);
    let (a, b, c, d) = (f.dxvk@.len(), f.vkd3d@.len(), f.nvapi@.len(), f.dlss@.len());
    if 0 <= k < a {
        assert(all[19 + k] == f.dxvk@[k]@ + "=n"@);
    }
    if 0 <= k < b {
        assert(all[19 + a + k] == f.vkd3d@[k]@ + "=n"@);
    }
    if 0 <= k < c {
        assert(all[19 + a + b + k] == f.nvapi@[k]@ + "=n"@);
        assert(all[all.len() - 1] == "nvcuda=b"@);
    }
    if 0 <= k < d {
        assert(all[19 + a + b + c + k] == f.dlss@[k]@ + "=n"@);
    }
}

proof fn lemma_among(a: Seq<(Seq<char>, Seq<char>)>, b: Seq<(Seq<char>, Seq<char>)>, x: (Seq<char>, Seq<char>))
    ensures
        a.contains(x) || b.contains(x) ==> (a + b).contains(x),
{
    if a.contains(x) {
        let i = choose|i: int| 0 <= i < a.len() && a[i] == x;
        assert((a + b)[i] == x);
    } else if b.contains(x) {
        let i = choose|i: int| 0 <= i < b.len() && b[i] == x;
        assert((a + b)[a.len() + i] == x);
    }
}

/// Whatever one of its parts sets the environment sets.
pub proof fn lemma_in_environment(f: EnvFacts, present: Set<Seq<char>>, x: (Seq<char>, Seq<char>))
    ensures
        main_vars(f, present).contains(x) || profile_vars(f).contains(x) || machine_vars(present).contains(x)
            || steam_vars(f).contains(x) || (f.shader_cache && shader_vars(f, present).contains(x))
            ==> env_vars(f, present).contains(x),
        present.contains(eac_runtime(f)) && x == ("PROTON_EAC_RUNTIME"@, eac_runtime(f)) ==> env_vars(
            f,
            present,
        ).contains(x),
{
    let m = main_vars(f, present);
    let e = var_if(present.contains(eac_runtime(f)), "PROTON_EAC_RUNTIME"@, eac_runtime(f));
    let p = profile_vars(f);
    let h = machine_vars(present);
    let s = steam_vars(f);
    let c = if f.shader_cache {
        shader_vars(f, present)
    } else {
        Seq::empty()
    };
    if present.contains(eac_runtime(f)) && x == ("PROTON_EAC_RUNTIME"@, eac_runtime(f)) {
        assert(e[0] == x);
    }
    lemma_among(m, e, x);
    lemma_among(m + e, p, x);
    lemma_among(m + e + p, h, x);
    lemma_among(m + e + p + h, s, x);
    lemma_among(m + e + p + h + s, c, x);
}

/// What the program is told of Wine and its prefix.
#[verifier::rlimit(40)]
pub proof fn lemma_wine_is_told(f: EnvFacts, present: Set<Seq<char>>)
    ensures
        env_vars(f, present).contains(("WINEPREFIX"@, f.pfx@)),
        env_vars(f, present).contains(("WINESERVER"@, f.server@)),
        env_vars(f, present).contains(("WINEDLLPATH"@, joined(dll_places(f, present), ":"@))),
        env_vars(f, present).contains(("WINEDATADIR"@, nt_path(path_join(f.wine_dir@, "share/wine"@)))),
        env_vars(f, present).contains(("WINEDLLDIR0"@, nt_path(path_join(f.wine_dir@, "lib/wine"@)))),
        env_vars(f, present).contains(("WINEDLLDIR1"@, nt_path(path_join(f.wine_dir@, "lib/wine"@)))),
        env_vars(f, present).contains(("WINECONFIGDIR"@, nt_path(f.pfx@))),
        env_vars(f, present).contains(("PATH"@, path_join(f.wine_dir@, "bin"@) + ":"@ + f.path@)),
        env_vars(f, present).contains(("WINEDLLOVERRIDES"@, joined(overrides(f), ";"@))),
        env_vars(f, present).contains(("VKD3D_DEBUG"@, "none"@)),
        env_vars(f, present).contains(("WINE_LARGE_ADDRESS_AWARE"@, "1"@)),
        env_vars(f, present).contains(("QUARK_FAST_BOOT"@, "1"@)),
        env_vars(f, present).contains(("PROTON_VERSION"@, "quark "@ + f.version@)),
        env_vars(f, present).contains(
            (
                "WINEUSERNAME"@,
                match f.user {
                    Some(u) => u@,
                    None => "user"@,
                },
            ),
        ),
        env_vars(f, present).contains(
            (
                "DXVK_LOG_LEVEL"@,
                match f.dxvk_log_level {
                    Some(l) => l@,
                    None => "none"@,
                },
            ),
        ),
{
    let env = env_vars(f, present);
    let m = main_vars(f, present);
    assert forall|i: int| 0 <= i < m.len() implies env[i] == #[trigger] m[i] by {}
    assert(m.len() == 18);
    assert(env[0] == ("WINEPREFIX"@, f.pfx@));
    assert(env[1] == ("WINESERVER"@, f.server@));
    assert(env[3] == ("WINEDLLPATH"@, joined(dll_places(f, present), ":"@)));
    assert(env[4] == ("WINEDATADIR"@, nt_path(path_join(f.wine_dir@, "share/wine"@))));
    assert(env[5] == ("WINEDLLDIR0"@, nt_path(path_join(f.wine_dir@, "lib/wine"@))));
    assert(env[6] == ("WINEDLLDIR1"@, nt_path(path_join(f.wine_dir@, "lib/wine"@))));
    assert(env[7] == ("WINECONFIGDIR"@, nt_path(f.pfx@)));
    assert(env[10] == ("PATH"@, path_join(f.wine_dir@, "bin"@) + ":"@ + f.path@));
    assert(env[12] == ("WINEDLLOVERRIDES"@, joined(overrides(f), ";"@)));
    assert(env[14] == ("VKD3D_DEBUG"@, "none"@));
    assert(env[15] == ("WINE_LARGE_ADDRESS_AWARE"@, "1"@));
    assert(env[16] == ("QUARK_FAST_BOOT"@, "1"@));
    assert(env[17] == ("PROTON_VERSION"@, "quark "@ + f.version@));
    assert(env[9] == m[9]);
    assert(env[13] == m[13]);
}

/// What the program is told of the user's profile.
#[verifier::rlimit(40)]
pub proof fn lemma_profile_is_told(f: EnvFacts, present: Set<Seq<char>>)
    ensures
        ({
            let user = match f.user {
                Some(u) => u@,
                None => "user"@,
            };
            &&& env_vars(f, present).contains(("USERPROFILE"@, "C:\\users\\"@ + user))
            &&& env_vars(f, present).contains(("APPDATA"@, "C:\\users\\"@ + user + "\\AppData\\Roaming"@))
            &&& env_vars(f, present).contains(("LOCALAPPDATA"@, "C:\\users\\"@ + user + "\\AppData\\Local"@))
            &&& env_vars(f, present).contains(("TEMP"@, "C:\\users\\"@ + user + "\\Temp"@))
            &&& env_vars(f, present).contains(("TMP"@, "C:\\users\\"@ + user + "\\Temp"@))
            &&& env_vars(f, present).contains(("HOMEDRIVE"@, "C:"@))
            &&& env_vars(f, present).contains(("HOMEPATH"@, "\\users\\"@ + user))
            &&& env_vars(f, present).contains(("ALLUSERSPROFILE"@, "C:\\ProgramData"@))
            &&& env_vars(f, present).contains(("ProgramData"@, "C:\\ProgramData"@))
            &&& env_vars(f, present).contains(("DXVK_ASYNC"@, "1"@))
            &&& env_vars(f, present).contains(("VKD3D_CONFIG"@, "shader_cache"@))
        }),
{
    let user = or_text(f.user, "user"@);
    let p = profile_vars(f);
    assert(p[0] == ("USERPROFILE"@, "C:\\users\\"@ + user));
    lemma_in_environment(f, present, p[0]);
    assert(p[1] == ("APPDATA"@, "C:\\users\\"@ + user + "\\AppData\\Roaming"@));
    lemma_in_environment(f, present, p[1]);
    assert(p[2] == ("LOCALAPPDATA"@, "C:\\users\\"@ + user + "\\AppData\\Local"@));
    lemma_in_environment(f, present, p[2]);
    assert(p[3] == ("TEMP"@, "C:\\users\\"@ + user + "\\Temp"@));
    lemma_in_environment(f, present, p[3]);
    assert(p[4] == ("TMP"@, "C:\\users\\"@ + user + "\\Temp"@));
    lemma_in_environment(f, present, p[4]);
    assert(p[5] == ("HOMEDRIVE"@, "C:"@));
    lemma_in_environment(f, present, p[5]);
    assert(p[6] == ("HOMEPATH"@, "\\users\\"@ + user));
    lemma_in_environment(f, present, p[6]);
    assert(p[7] == ("ALLUSERSPROFILE"@, "C:\\ProgramData"@));
    lemma_in_environment(f, present, p[7]);
    assert(p[8] == ("ProgramData"@, "C:\\ProgramData"@));
    lemma_in_environment(f, present, p[8]);
    assert(p[9] == ("DXVK_ASYNC"@, "1"@));
    lemma_in_environment(f, present, p[9]);
    assert(p[10] == ("VKD3D_CONFIG"@, "shader_cache"@));
    lemma_in_environment(f, present, p[10]);
}

/// What the program is told of the machine: Wine's other ways of waiting are off, the kernel's is on where
/// there is one, and what NVIDIA's driver needs is set where that driver is.
pub proof fn lemma_machine_is_told(f: EnvFacts, present: Set<Seq<char>>)
    ensures
        env_vars(f, present).contains(("WINEESYNC"@, "0"@)),
        env_vars(f, present).contains(("WINEFSYNC"@, "0"@)),
        present.contains("/dev/ntsync"@) ==> env_vars(f, present).contains(("WINE_NTSYNC"@, "1"@)),
        present.contains("/proc/driver/nvidia/version"@) ==> env_vars(f, present).contains(
            ("DXVK_ENABLE_NVAPI"@, "1"@),
        ) && env_vars(f, present).contains(("__GLX_VENDOR_LIBRARY_NAME"@, "nvidia"@)),
        machine_vars(present).len() == 2 + (if present.contains("/dev/ntsync"@) {
            1int
        } else {
            0int
        }) + (if present.contains("/proc/driver/nvidia/version"@) {
            if present.contains("/usr/share/glvnd/egl_vendor.d/10_nvidia.json"@) {
                3int
            } else {
                2int
            }
        } else {
            0int
        }),
        f.shader_cache ==> env_vars(f, present).contains(
            ("DXVK_SHADER_CACHE_PATH"@, path_join(f.pfx@, "shader_cache"@)),
        ) && env_vars(f, present).contains(("VKD3D_SHADER_CACHE_PATH"@, path_join(f.pfx@, "shader_cache"@))),
        f.shader_cache && present.contains("/proc/driver/nvidia/version"@) ==> env_vars(f, present).contains(
            ("__GL_SHADER_DISK_CACHE"@, "1"@),
        ) && env_vars(f, present).contains(
            ("__GL_SHADER_DISK_CACHE_PATH"@, path_join(f.pfx@, "shader_cache"@)),
        ) && env_vars(f, present).contains(("__GL_SHADER_DISK_CACHE_SIZE"@, "10737418240"@)) && env_vars(
            f,
            present,
        ).contains(("__GL_SHADER_DISK_CACHE_SKIP_CLEANUP"@, "1"@)),
        f.shader_cache && !present.contains("/proc/driver/nvidia/version"@) ==> env_vars(f, present).contains(
            ("MESA_SHADER_CACHE_DIR"@, path_join(f.pfx@, "shader_cache"@)),
        ) && env_vars(f, present).contains(("MESA_SHADER_CACHE_MAX_SIZE"@, "10G"@)) && env_vars(
            f,
            present,
        ).contains(("MESA_DISK_CACHE_SINGLE_FILE"@, "1"@)) && env_vars(f, present).contains(
            ("RADV_PERFTEST"@, "gpl"@),
        ),
{
    let m = machine_vars(present);
    let n = if present.contains("/dev/ntsync"@) {
        1int
    } else {
        0int
    };
    if n == 1 {
        assert(m[0] == ("WINE_NTSYNC"@, "1"@));
        lemma_in_environment(f, present, m[0]);
    }
    assert(m[n] == ("WINEESYNC"@, "0"@));
    lemma_in_environment(f, present, m[n]);
    assert(m[n + 1] == ("WINEFSYNC"@, "0"@));
    lemma_in_environment(f, present, m[n + 1]);
    if nvidia(present) {
        assert(m[n + 2] == ("DXVK_ENABLE_NVAPI"@, "1"@));
        lemma_in_environment(f, present, m[n + 2]);
        assert(m[m.len() - 1] == ("__GLX_VENDOR_LIBRARY_NAME"@, "nvidia"@));
        lemma_in_environment(f, present, m[m.len() - 1]);
    }
    if f.shader_cache {
        let s = shader_vars(f, present);
        let d = path_join(f.pfx@, "shader_cache"@);
        assert(s[0] == ("DXVK_SHADER_CACHE_PATH"@, d));
        assert(s[1] == ("VKD3D_SHADER_CACHE_PATH"@, d));
        if nvidia(present) {
            assert(s[2] == ("__GL_SHADER_DISK_CACHE"@, "1"@));
            assert(s[3] == ("__GL_SHADER_DISK_CACHE_PATH"@, d));
            assert(s[4] == ("__GL_SHADER_DISK_CACHE_SIZE"@, "10737418240"@));
            assert(s[5] == ("__GL_SHADER_DISK_CACHE_SKIP_CLEANUP"@, "1"@));
        } else {
            assert(s[2] == ("MESA_SHADER_CACHE_DIR"@, d));
            assert(s[3] == ("MESA_SHADER_CACHE_MAX_SIZE"@, "10G"@));
            assert(s[4] == ("MESA_DISK_CACHE_SINGLE_FILE"@, "1"@));
            assert(s[5] == ("RADV_PERFTEST"@, "gpl"@));
        }
        lemma_in_environment(f, present, s[0]);
        lemma_in_environment(f, present, s[1]);
        lemma_in_environment(f, present, s[2]);
        lemma_in_environment(f, present, s[3]);
        lemma_in_environment(f, present, s[4]);
        lemma_in_environment(f, present, s[5]);
    }
}

/// The program sees the language of the host, not Steam's: what the host has is set where it has something,
/// and none where that is unknown.
pub proof fn lemma_host_language(f: EnvFacts, present: Set<Seq<char>>)
    ensures
        f.host_lc_all is None ==> env_vars(f, present).contains(("LC_ALL"@, ""@)),
        f.host_lc_all matches Some(v) ==> v@.len() > 0 ==> env_vars(f, present).contains(("LC_ALL"@, v@)),
        !f.orig_ld_library_path && f.ld_library_path is None ==> env_vars(f, present).contains(
            ("ORIG_LD_LIBRARY_PATH"@, ""@),
        ),
        !f.orig_ld_library_path ==> (f.ld_library_path matches Some(v) ==> env_vars(f, present).contains(
            ("ORIG_LD_LIBRARY_PATH"@, v@),
        )),
        f.gamepads matches Some(v) ==> env_vars(f, present).contains(("SteamVirtualGamepadInfo"@, v@)),
{
    let s = steam_vars(f);
    if s.len() > 0 {
        lemma_in_environment(f, present, s[0]);
    }
    if s.len() > 1 {
        lemma_in_environment(f, present, s[1]);
    }
    if s.len() > 2 {
        lemma_in_environment(f, present, s[2]);
    }
    let a = match f.host_lc_all {
        Some(v) => var_if(v@.len() > 0, "LC_ALL"@, v@),
        None => seq![("LC_ALL"@, ""@)],
    };
    if a.len() == 1 {
        assert(s[0] == a[0]);
    }
    if !f.orig_ld_library_path {
        assert(s[a.len() as int] == ("ORIG_LD_LIBRARY_PATH"@, or_text(f.ld_library_path, ""@)));
    }
    if f.gamepads is Some {
        assert(s[s.len() - 1] == ("SteamVirtualGamepadInfo"@, f.gamepads->Some_0@));
    }
}

/// Wine's own modules and libraries are always among the places, and so is what the launcher brings, where it
/// is there; modules of the launcher stand before those of Wine.
pub proof fn lemma_places_of_modules(f: EnvFacts, present: Set<Seq<char>>)
    ensures
        dll_places(f, present).contains(path_join(f.wine_dir@, "lib/wine"@)),
        library_places(f, present).contains(path_join(f.wine_dir@, "lib"@)),
        f.self_dir matches Some(d) ==> present.contains(path_join(d@, "lib/wine"@)) ==> exists|i: int, j: int|
            0 <= i < j < dll_places(f, present).len() && #[trigger] dll_places(f, present)[i] == path_join(
                d@,
                "lib/wine"@,
            ) && #[trigger] dll_places(f, present)[j] == path_join(f.wine_dir@, "lib/wine"@),
        present.contains(path_join(f.steam_dir@, "linux64"@)) ==> library_places(f, present).contains(
            path_join(f.steam_dir@, "linux64"@),
        ),
        f.ld_library_path matches Some(l) ==> l@.len() > 0 ==> library_places(f, present).last() == l@,
        f.proton_dir matches Some(p) ==> present.contains(path_join(p@, "lib/x86_64-linux-gnu"@))
            ==> library_places(f, present)[0] == path_join(p@, "lib/x86_64-linux-gnu"@),
{
    let a = if_there(
        present,
        path_join(
            or_text(f.home, ""@),
            ".local/share/Steam/compatibilitytools.d/quark/lib/wine/proton"@,
        ),
    );
    let b = match f.self_dir {
        Some(d) => if_there(present, path_join(d@, "lib/wine"@)),
        None => Seq::empty(),
    };
    let c = if_there(present, path_join(f.wine_dir@, "lib/vkd3d"@));
    let all = dll_places(f, present);
    let j = (a + b + c).len() as int;
    assert(all[j] == path_join(f.wine_dir@, "lib/wine"@));
    if f.self_dir is Some && present.contains(path_join(f.self_dir->Some_0@, "lib/wine"@)) {
        let i = a.len() as int;
        assert(all[i] == path_join(f.self_dir->Some_0@, "lib/wine"@));
        assert(0 <= i < j < all.len());
    }
    let l = library_places(f, present);
    let p = match f.proton_dir {
        Some(p) => if_there(present, path_join(p@, "lib/x86_64-linux-gnu"@)),
        None => Seq::empty(),
    };
    let w = if_there(present, path_join(f.wine_dir@, "lib/x86_64-linux-gnu"@));
    let s = if_there(present, path_join(f.steam_dir@, "linux64"@));
    assert(l[(p + w + s).len() as int] == path_join(f.wine_dir@, "lib"@));
    if s.len() == 1 {
        assert(l[(p + w).len() as int] == path_join(f.steam_dir@, "linux64"@));
    }
}

} // verus!
