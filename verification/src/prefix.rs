//! The prefix: the directories, links, registry files and libraries that a Windows program expects.
use crate::discovery::{build_wine_command, wine_words, Present};
use crate::env::{
    concat, if_there, only_if, or_text, push_if_there, push_text, put, put_if, text_or, var_if,
};
use crate::fileops::{
    dirs_in, make_dir_in, op_views, push_op, push_ops, FileMeta, FileOp, Launched, Metas, Op, Run,
};
use crate::paths::{join_path, path_join};
use crate::settings::{parts_of, resolve_winedebug, split, winedebug};
use crate::text::{contains_text, has_sub, join, joined, starts_in, starts_with_text, views};
use crate::wire::opt_view;
use vstd::prelude::*;

verus! {

pub open spec fn str_views(v: Seq<&str>) -> Seq<Seq<char>> {
    v.map_values(|s: &str| s@)
}

fn make_dirs_in(out: &mut Vec<FileOp>, base: &str, names: &[&str])
    ensures
        op_views(final(out)@) == op_views(old(out)@) + dirs_in(base@, str_views(names@)),
{
    let mut i: usize = 0;
    assert(op_views(out@) =~= op_views(old(out)@) + dirs_in(base@, str_views(names@).take(0)));
    while i < names.len()
        invariant
            i <= names@.len(),
            op_views(out@) == op_views(old(out)@) + dirs_in(
                base@,
                str_views(names@).take(i as int),
            ),
        decreases names@.len() - i,
    {
        make_dir_in(out, base, names[i]);
        i = i + 1;
        assert(dirs_in(base@, str_views(names@).take(i as int)) =~= dirs_in(
            base@,
            str_views(names@).take(i - 1),
        ).push(Op::MakeDir { path: path_join(base@, names@[i - 1]@) }));
        assert(op_views(out@) =~= op_views(old(out)@) + dirs_in(
            base@,
            str_views(names@).take(i as int),
        ));
    }
    assert(str_views(names@).take(names@.len() as int) =~= str_views(names@));
}

/// The directories of Windows.
pub open spec fn windows_names() -> Seq<Seq<char>> {
    seq![
        "syswow64"@,
        "Fonts"@,
        "temp"@,
        "system"@,
        "inf"@,
        "help"@,
        "logs"@,
        "winsxs"@,
        "resources"@,
        "security"@,
        "tasks"@,
        "performance"@,
        "Microsoft.NET"@,
        "Installer"@,
        "Globalization"@,
        "twain_32"@,
        "twain_64"@,
    ]
}

/// The directories that programs expect before Windows was set up.
pub open spec fn windows_ops(pfx: Seq<char>) -> Seq<Op> {
    seq![Op::MakeDir { path: path_join(pfx, "drive_c/windows/system32"@) }] + dirs_in(
        path_join(pfx, "drive_c/windows"@),
        windows_names(),
    ) + dirs_in(
        pfx,
        seq![
            "drive_c/ProgramData"@,
            "drive_c/Program Files/Common Files"@,
            "drive_c/Program Files (x86)/Common Files"@,
        ],
    )
}

pub fn windows_dirs(pfx: &str) -> (r: Vec<FileOp>)
    ensures
        op_views(r@) == windows_ops(pfx@),
{
    let mut out: Vec<FileOp> = Vec::new();
    make_dir_in(&mut out, pfx, "drive_c/windows/system32");
    let win = join_path(pfx, "drive_c/windows");
    let names = [
        "syswow64",
        "Fonts",
        "temp",
        "system",
        "inf",
        "help",
        "logs",
        "winsxs",
        "resources",
        "security",
        "tasks",
        "performance",
        "Microsoft.NET",
        "Installer",
        "Globalization",
        "twain_32",
        "twain_64",
    ];
    assert(str_views(names@) =~= windows_names());
    make_dirs_in(&mut out, win.as_str(), &names);
    let more = [
        "drive_c/ProgramData",
        "drive_c/Program Files/Common Files",
        "drive_c/Program Files (x86)/Common Files",
    ];
    assert(str_views(more@) =~= seq![
        "drive_c/ProgramData"@,
        "drive_c/Program Files/Common Files"@,
        "drive_c/Program Files (x86)/Common Files"@,
    ]);
    make_dirs_in(&mut out, pfx, &more);
    assert(op_views(out@) =~= windows_ops(pfx@));
    out
}

/// The directories of a user's profile.
pub open spec fn profile_names() -> Seq<Seq<char>> {
    seq![
        ""@,
        "AppData"@,
        "AppData/Roaming"@,
        "AppData/Local"@,
        "AppData/Local/Microsoft"@,
        "AppData/Local/Microsoft/Windows"@,
        "AppData/Local/Microsoft/Windows/INetCache"@,
        "AppData/Local/Microsoft/Windows/History"@,
        "AppData/Local/Microsoft/Windows/INetCookies"@,
        "AppData/LocalLow"@,
        "Desktop"@,
        "Documents"@,
        "Downloads"@,
        "Music"@,
        "Pictures"@,
        "Videos"@,
        "Temp"@,
    ]
}

/// The profile of a user, and the one that all share.
pub open spec fn profile_ops(pfx: Seq<char>, user: Option<Seq<char>>) -> Seq<Op> {
    dirs_in(
        path_join(
            path_join(pfx, "drive_c/users"@),
            match user {
                Some(u) => u,
                None => "user"@,
            },
        ),
        profile_names(),
    ) + dirs_in(path_join(pfx, "drive_c/users/Public"@), seq!["Desktop"@, "Documents"@])
}

pub fn profile_dirs(pfx: &str, user: &Option<String>) -> (r: Vec<FileOp>)
    ensures
        op_views(r@) == profile_ops(pfx@, opt_view(*user)),
{
    let users = join_path(pfx, "drive_c/users");
    let dir = match user {
        Some(u) => join_path(users.as_str(), u.as_str()),
        None => join_path(users.as_str(), "user"),
    };
    let mut out: Vec<FileOp> = Vec::new();
    let names = [
        "",
        "AppData",
        "AppData/Roaming",
        "AppData/Local",
        "AppData/Local/Microsoft",
        "AppData/Local/Microsoft/Windows",
        "AppData/Local/Microsoft/Windows/INetCache",
        "AppData/Local/Microsoft/Windows/History",
        "AppData/Local/Microsoft/Windows/INetCookies",
        "AppData/LocalLow",
        "Desktop",
        "Documents",
        "Downloads",
        "Music",
        "Pictures",
        "Videos",
        "Temp",
    ];
    assert(str_views(names@) =~= profile_names());
    make_dirs_in(&mut out, dir.as_str(), &names);
    let shared = ["Desktop", "Documents"];
    assert(str_views(shared@) =~= seq!["Desktop"@, "Documents"@]);
    let public = join_path(pfx, "drive_c/users/Public");
    make_dirs_in(&mut out, public.as_str(), &shared);
    assert(op_views(out@) =~= profile_ops(pfx@, opt_view(*user)));
    out
}

/// The drives `C:` and `Z:`.
pub open spec fn drive_ops(pfx: Seq<char>) -> Seq<Op> {
    let dos = path_join(pfx, "dosdevices"@);
    seq![
        Op::MakeDir { path: dos },
        Op::LinkNew { target: "../drive_c"@, link: path_join(dos, "c:"@) },
        Op::LinkNew { target: "/"@, link: path_join(dos, "z:"@) },
    ]
}

fn push_drives(out: &mut Vec<FileOp>, pfx: &str)
    ensures
        op_views(final(out)@) == op_views(old(out)@) + drive_ops(pfx@),
{
    let dos = join_path(pfx, "dosdevices");
    push_op(out, FileOp::MakeDir { path: dos.clone() });
    push_op(
        out,
        FileOp::LinkNew { target: "../drive_c".to_string(), link: join_path(dos.as_str(), "c:") },
    );
    push_op(
        out,
        FileOp::LinkNew { target: "/".to_string(), link: join_path(dos.as_str(), "z:") },
    );
    assert(op_views(out@) =~= op_views(old(out)@) + drive_ops(pfx@));
}

/// The files in which a registry is kept.
pub open spec fn registry_names() -> Seq<Seq<char>> {
    seq!["system.reg"@, "user.reg"@, "userdef.reg"@]
}

/// What a registry file holds before there is a registry.
pub open spec fn registry_header(name: Seq<char>) -> Seq<char> {
    if starts_in(name, "user"@) {
        "WINE REGISTRY Version 2\n;; All keys relative to REGISTRY\\User\n\n#arch=win64\n"@
    } else {
        "WINE REGISTRY Version 2\n;; All keys relative to REGISTRY\\Machine\n\n#arch=win64\n"@
    }
}

pub open spec fn stub_op(pfx: Seq<char>, name: Seq<char>) -> Op {
    Op::WriteNew { path: path_join(pfx, name), text: registry_header(name) }
}

fn push_stub(out: &mut Vec<FileOp>, pfx: &str, name: &str)
    ensures
        op_views(final(out)@) == op_views(old(out)@).push(stub_op(pfx@, name@)),
{
    let text = if starts_with_text(name, "user") {
        "WINE REGISTRY Version 2\n;; All keys relative to REGISTRY\\User\n\n#arch=win64\n".to_string()
    } else {
        "WINE REGISTRY Version 2\n;; All keys relative to REGISTRY\\Machine\n\n#arch=win64\n".to_string()
    };
    push_op(out, FileOp::WriteNew { path: join_path(pfx, name), text });
}

/// Registry files, where there are none.
pub fn registry_stubs(pfx: &str) -> (r: Vec<FileOp>)
    ensures
        op_views(r@) == registry_names().map_values(|n: Seq<char>| stub_op(pfx@, n)),
{
    let mut out: Vec<FileOp> = Vec::new();
    push_stub(&mut out, pfx, "system.reg");
    push_stub(&mut out, pfx, "user.reg");
    push_stub(&mut out, pfx, "userdef.reg");
    assert(op_views(out@) =~= registry_names().map_values(|n: Seq<char>| stub_op(pfx@, n)));
    out
}

/// A registry file holds nothing of worth yet.
pub open spec fn is_stub(len: Option<u64>) -> bool {
    match len {
        Some(n) => n < 1024,
        None => true,
    }
}

/// The length of a file that is there.
pub open spec fn len_of(m: Option<FileMeta>) -> Option<u64> {
    match m {
        Some(m) => Some(m.len),
        None => None,
    }
}

/// Where the user's own registry is.
pub open spec fn stock_prefix(home: Option<Seq<char>>) -> Seq<char> {
    path_join(
        match home {
            Some(h) => h,
            None => "/root"@,
        },
        ".wine"@,
    )
}

/// A registry file is taken from the user's own prefix where the target holds nothing of worth.
pub open spec fn registry_copy(
    pfx: Seq<char>,
    home: Option<Seq<char>>,
    metas: Metas,
    name: Seq<char>,
) -> Seq<Op> {
    let from = path_join(stock_prefix(home), name);
    let to = path_join(pfx, name);
    if metas.of(from) is Some && is_stub(len_of(metas.of(to))) {
        seq![Op::Copy { from, to }]
    } else {
        Seq::empty()
    }
}

fn push_registry_copy(
    out: &mut Vec<FileOp>,
    pfx: &str,
    home: &Option<String>,
    metas: &Metas,
    name: &str,
)
    ensures
        op_views(final(out)@) == op_views(old(out)@) + registry_copy(
            pfx@,
            opt_view(*home),
            *metas,
            name@,
        ),
{
    let stock = match home {
        Some(h) => join_path(h.as_str(), ".wine"),
        None => join_path("/root", ".wine"),
    };
    let from = join_path(stock.as_str(), name);
    let to = join_path(pfx, name);
    let stub: bool = match metas.get(to.as_str()) {
        Some(m) => m.len < 1024,
        None => true,
    };
    if stub && metas.get(from.as_str()).is_some() {
        push_op(out, FileOp::Copy { from, to });
    }
    assert(op_views(out@) =~= op_views(old(out)@) + registry_copy(
        pfx@,
        opt_view(*home),
        *metas,
        name@,
    ));
}

/// Takes over the user's own registry, where the prefix has none yet.
pub fn registry_copies(pfx: &str, home: &Option<String>, metas: &Metas) -> (r: Vec<FileOp>)
    ensures
        op_views(r@) == registry_copy(pfx@, opt_view(*home), *metas, "system.reg"@)
            + registry_copy(pfx@, opt_view(*home), *metas, "user.reg"@) + registry_copy(
            pfx@,
            opt_view(*home),
            *metas,
            "userdef.reg"@,
        ),
{
    let mut out: Vec<FileOp> = Vec::new();
    push_registry_copy(&mut out, pfx, home, metas, "system.reg");
    push_registry_copy(&mut out, pfx, home, metas, "user.reg");
    push_registry_copy(&mut out, pfx, home, metas, "userdef.reg");
    assert(op_views(out@) =~= registry_copy(pfx@, opt_view(*home), *metas, "system.reg"@)
        + registry_copy(pfx@, opt_view(*home), *metas, "user.reg"@) + registry_copy(
        pfx@,
        opt_view(*home),
        *metas,
        "userdef.reg"@,
    ));
    out
}

/// Steam's keys for the machine.
pub open spec fn machine_keys() -> Seq<char> {
    "\n[Software\\\\Valve\\\\Steam] 1772204972\n#time=1dca7fb13d11a48\n\"InstallPath\"=\"C:\\\\Program Files (x86)\\\\Steam\"\n\"SteamPath\"=\"C:\\\\Program Files (x86)\\\\Steam\"\n\n"@
}

/// Steam's keys for the user.
pub open spec fn user_keys() -> Seq<char> {
    "\n[Software\\\\Valve\\\\Steam] 1772204972\n#time=1dca7fb13d11a48\n\"language\"=\"english\"\n\"SteamExe\"=\"C:\\\\Program Files (x86)\\\\Steam\\\\Steam.exe\"\n\"SteamPath\"=\"C:\\\\Program Files (x86)\\\\Steam\"\n\n[Software\\\\Valve\\\\Steam\\\\ActiveProcess] 1772204972\n#time=1dca7fb13d11a48\n\"PID\"=dword:0000fffe\n\"SteamClientDll\"=\"C:\\\\Program Files (x86)\\\\Steam\\\\steamclient.dll\"\n\"SteamClientDll64\"=\"C:\\\\Program Files (x86)\\\\Steam\\\\steamclient64.dll\"\n\"SteamPath\"=\"C:\\\\Program Files (x86)\\\\Steam\"\n\n"@
}

/// The keys that registry files lack.
pub open spec fn missing_keys(
    pfx: Seq<char>,
    system: Seq<char>,
    user: Seq<char>,
) -> Seq<Op> {
    (if has_sub(system, "[Software\\\\Valve\\\\Steam]"@) {
        Seq::empty()
    } else {
        seq![Op::Append { path: path_join(pfx, "system.reg"@), text: machine_keys() }]
    }) + (if has_sub(user, "Valve\\\\Steam\\\\ActiveProcess"@) {
        Seq::empty()
    } else {
        seq![Op::Append { path: path_join(pfx, "user.reg"@), text: user_keys() }]
    })
}

/// Adds Steam's keys to registry files that lack them. `system` and `user` are what the files hold.
pub fn inject_registry_keys(pfx: &str, system: &str, user: &str) -> (r: Vec<FileOp>)
    ensures
        op_views(r@) == missing_keys(pfx@, system@, user@),
{
    let mut out: Vec<FileOp> = Vec::new();
    if !contains_text(system, "[Software\\\\Valve\\\\Steam]") {
        push_op(
            &mut out,
            FileOp::Append {
                path: join_path(pfx, "system.reg"),
                text: "\n[Software\\\\Valve\\\\Steam] 1772204972\n#time=1dca7fb13d11a48\n\"InstallPath\"=\"C:\\\\Program Files (x86)\\\\Steam\"\n\"SteamPath\"=\"C:\\\\Program Files (x86)\\\\Steam\"\n\n".to_string(),
            },
        );
    }
    if !contains_text(user, "Valve\\\\Steam\\\\ActiveProcess") {
        push_op(
            &mut out,
            FileOp::Append {
                path: join_path(pfx, "user.reg"),
                text: "\n[Software\\\\Valve\\\\Steam] 1772204972\n#time=1dca7fb13d11a48\n\"language\"=\"english\"\n\"SteamExe\"=\"C:\\\\Program Files (x86)\\\\Steam\\\\Steam.exe\"\n\"SteamPath\"=\"C:\\\\Program Files (x86)\\\\Steam\"\n\n[Software\\\\Valve\\\\Steam\\\\ActiveProcess] 1772204972\n#time=1dca7fb13d11a48\n\"PID\"=dword:0000fffe\n\"SteamClientDll\"=\"C:\\\\Program Files (x86)\\\\Steam\\\\steamclient.dll\"\n\"SteamClientDll64\"=\"C:\\\\Program Files (x86)\\\\Steam\\\\steamclient64.dll\"\n\"SteamPath\"=\"C:\\\\Program Files (x86)\\\\Steam\"\n\n".to_string(),
            },
        );
    }
    assert(op_views(out@) =~= missing_keys(pfx@, system@, user@));
    out
}

proof fn lemma_sub_behind(a: Seq<char>, b: Seq<char>, pat: Seq<char>, i: int)
    requires
        crate::text::sub_at(b, pat, i),
        0 <= i,
    ensures
        has_sub(a + b, pat),
{
    assert((a + b).subrange(a.len() + i, a.len() + i + pat.len()) =~= b.subrange(
        i,
        i + pat.len(),
    ));
    assert(crate::text::sub_at(a + b, pat, a.len() + i));
}

/// Keys that were added are not added again.
pub proof fn lemma_keys_added_once(pfx: Seq<char>, system: Seq<char>, user: Seq<char>)
    ensures
        missing_keys(pfx, system + machine_keys(), user + user_keys()) == Seq::<Op>::empty(),
{
    reveal_strlit("[Software\\\\Valve\\\\Steam]");
    reveal_strlit("Valve\\\\Steam\\\\ActiveProcess");
    reveal_strlit("\n[Software\\\\Valve\\\\Steam] 1772204972\n#time=1dca7fb13d11a48\n\"InstallPath\"=\"C:\\\\Program Files (x86)\\\\Steam\"\n\"SteamPath\"=\"C:\\\\Program Files (x86)\\\\Steam\"\n\n");
    reveal_strlit("\n[Software\\\\Valve\\\\Steam] 1772204972\n#time=1dca7fb13d11a48\n\"language\"=\"english\"\n\"SteamExe\"=\"C:\\\\Program Files (x86)\\\\Steam\\\\Steam.exe\"\n\"SteamPath\"=\"C:\\\\Program Files (x86)\\\\Steam\"\n\n[Software\\\\Valve\\\\Steam\\\\ActiveProcess] 1772204972\n#time=1dca7fb13d11a48\n\"PID\"=dword:0000fffe\n\"SteamClientDll\"=\"C:\\\\Program Files (x86)\\\\Steam\\\\steamclient.dll\"\n\"SteamClientDll64\"=\"C:\\\\Program Files (x86)\\\\Steam\\\\steamclient64.dll\"\n\"SteamPath\"=\"C:\\\\Program Files (x86)\\\\Steam\"\n\n");
    let pm = "[Software\\\\Valve\\\\Steam]"@;
    assert(machine_keys().subrange(1, 1 + pm.len() as int) =~= pm);
    lemma_sub_behind(system, machine_keys(), pm, 1);
    let pu = "Valve\\\\Steam\\\\ActiveProcess"@;
    assert(user_keys().subrange(192, 192 + pu.len() as int) =~= pu);
    lemma_sub_behind(user, user_keys(), pu, 192);
    assert(missing_keys(pfx, system + machine_keys(), user + user_keys()) =~= Seq::<Op>::empty());
}

/// A library that is still loaded in front of all others: Steam's overlay is not.
pub open spec fn wanted_preload(p: Seq<char>) -> bool {
    p.len() > 0 && !has_sub(p, "gameoverlayrenderer"@)
}

pub open spec fn kept_preloads(parts: Seq<Seq<char>>) -> Seq<Seq<char>>
    decreases parts.len(),
{
    if parts.len() == 0 {
        Seq::empty()
    } else {
        let before = kept_preloads(parts.drop_last());
        if wanted_preload(parts.last()) {
            before.push(parts.last())
        } else {
            before
        }
    }
}

/// The libraries of a list that are still loaded in front of all others.
pub open spec fn preloads(current: Option<Seq<char>>) -> Seq<Seq<char>> {
    kept_preloads(
        parts_of(
            match current {
                Some(c) => c,
                None => ""@,
            },
            ':',
        ),
    )
}

/// Takes Steam's overlay out of the libraries that are loaded in front of all others.
pub fn strip_overlay(current: &Option<String>) -> (r: Vec<String>)
    ensures
        views(r@) == preloads(opt_view(*current)),
{
    let text = text_or(current, "");
    let parts = split(text.as_str(), ':');
    let mut out: Vec<String> = Vec::new();
    let mut i: usize = 0;
    assert(views(out@) =~= kept_preloads(views(parts@).take(0)));
    while i < parts.len()
        invariant
            i <= parts@.len(),
            views(out@) == kept_preloads(views(parts@).take(i as int)),
        decreases parts@.len() - i,
    {
        assert(views(parts@).take(i + 1).drop_last() =~= views(parts@).take(i as int));
        let p = parts[i].as_str();
        if !p.is_empty() && !contains_text(p, "gameoverlayrenderer") {
            push_text(&mut out, parts[i].clone());
        }
        i = i + 1;
    }
    assert(views(parts@).take(parts@.len() as int) =~= views(parts@));
    out
}

/// What is left of a list of libraries has no overlay in it.
pub proof fn lemma_overlay_gone(parts: Seq<Seq<char>>)
    ensures
        forall|i: int|
            0 <= i < kept_preloads(parts).len() ==> wanted_preload(
                #[trigger] kept_preloads(parts)[i],
            ),
    decreases parts.len(),
{
    if parts.len() > 0 {
        lemma_overlay_gone(parts.drop_last());
        let before = kept_preloads(parts.drop_last());
        assert forall|i: int| 0 <= i < kept_preloads(parts).len() implies wanted_preload(
            #[trigger] kept_preloads(parts)[i],
        ) by {
            if i < before.len() {
                assert(kept_preloads(parts)[i] == before[i]);
            }
        }
    }
}

/// What setting up a prefix rests on.
pub struct PrefixFacts {
    pub wine_dir: String,
    pub pfx: String,
    /// The Wine program.
    pub wine64: String,
    /// The program that serves Wine.
    pub server: String,
    /// The launcher's own directory.
    pub self_dir: Option<String>,
    pub home: Option<String>,
    pub user: Option<String>,
    pub ld_library_path: Option<String>,
    pub ld_preload: Option<String>,
    /// The debug channels that the user chose.
    pub winedebug: Option<String>,
    pub verbose: bool,
}

/// Libraries for the first start of Wine.
pub open spec fn boot_libraries(f: PrefixFacts, present: Set<Seq<char>>) -> Seq<char> {
    joined(
        if_there(present, path_join(f.wine_dir@, "lib/wine/x86_64-unix"@)) + if_there(
            present,
            path_join(f.wine_dir@, "lib"@),
        ) + (match f.ld_library_path {
            Some(p) => seq![p@],
            None => Seq::empty(),
        }),
        ":"@,
    )
}

/// Where the library is that turns failed assertions into warnings.
pub open spec fn noassert_path(f: PrefixFacts, present: Set<Seq<char>>) -> Seq<char> {
    let installed = path_join(
        or_text(f.home, ""@),
        ".local/share/Steam/compatibilitytools.d/quark/lib/noassert.so"@,
    );
    if present.contains(installed) {
        installed
    } else {
        path_join(or_text(f.self_dir, "."@), "lib/noassert.so"@)
    }
}

/// What is loaded in front of all others at the first start of Wine.
pub open spec fn boot_preload(f: PrefixFacts, present: Set<Seq<char>>) -> Seq<char> {
    joined(
        preloads(opt_view(f.ld_preload)) + if_there(present, noassert_path(f, present)),
        ":"@,
    )
}

/// Where Wine looks for its modules at its first start.
pub open spec fn boot_dll_path(f: PrefixFacts, present: Set<Seq<char>>) -> Seq<char> {
    let dll = path_join(f.wine_dir@, "lib/wine"@);
    let own = path_join(f.wine_dir@, "lib/wine/proton"@);
    if present.contains(own) {
        own + ":"@ + dll
    } else {
        dll
    }
}

/// The first start of Wine in a prefix.
pub open spec fn boot_program(f: PrefixFacts, present: Set<Seq<char>>) -> Run {
    let ld = boot_libraries(f, present);
    let preload = boot_preload(f, present);
    Run {
        words: wine_words(present, f.wine64@, f.wine_dir@) + seq!["wineboot"@, "--init"@],
        env: seq![
            ("WINEPREFIX"@, f.pfx@),
            ("WINESERVER"@, f.server@),
            ("QUARK_FAST_BOOT"@, "1"@),
        ] + var_if(ld.len() > 0, "LD_LIBRARY_PATH"@, ld) + seq![
            ("WINELOADER"@, f.wine64@),
            ("WINEDLLPATH"@, boot_dll_path(f, present)),
            ("WINEDLLDIR0"@, "\\??\\Z:"@ + path_join(f.wine_dir@, "lib/wine"@)),
            ("WINEDEBUG"@, winedebug(opt_view(f.winedebug), false, f.verbose)),
            ("WINEESYNC"@, "0"@),
        ] + var_if(preload.len() > 0, "LD_PRELOAD"@, preload),
        unset: only_if(preload.len() == 0, "LD_PRELOAD"@),
    }
}

fn build_boot_libraries(f: &PrefixFacts, present: &Present) -> (r: String)
    ensures
        r@ == boot_libraries(*f, present@),
{
    let mut parts: Vec<String> = Vec::new();
    push_if_there(&mut parts, present, join_path(f.wine_dir.as_str(), "lib/wine/x86_64-unix"));
    push_if_there(&mut parts, present, join_path(f.wine_dir.as_str(), "lib"));
    match &f.ld_library_path {
        Some(p) => {
            push_text(&mut parts, p.clone());
        },
        None => {},
    }
    assert(views(parts@) =~= if_there(
        present@,
        path_join(f.wine_dir@, "lib/wine/x86_64-unix"@),
    ) + if_there(present@, path_join(f.wine_dir@, "lib"@)) + (match f.ld_library_path {
        Some(p) => seq![p@],
        None => Seq::empty(),
    }));
    join(&parts, ":")
}

fn build_boot_preload(f: &PrefixFacts, present: &Present) -> (r: String)
    ensures
        r@ == boot_preload(*f, present@),
{
    let home = text_or(&f.home, "");
    let installed = join_path(
        home.as_str(),
        ".local/share/Steam/compatibilitytools.d/quark/lib/noassert.so",
    );
    let noassert = if present.holds(installed.as_str()) {
        installed
    } else {
        let dir = text_or(&f.self_dir, ".");
        join_path(dir.as_str(), "lib/noassert.so")
    };
    let mut parts = strip_overlay(&f.ld_preload);
    push_if_there(&mut parts, present, noassert);
    join(&parts, ":")
}

fn wineboot(f: &PrefixFacts, present: &Present) -> (r: Launched)
    ensures
        r@ == boot_program(*f, present@),
{
    let mut words = build_wine_command(present, f.wine64.as_str(), f.wine_dir.as_str());
    push_text(&mut words, "wineboot".to_string());
    push_text(&mut words, "--init".to_string());
    let ld = build_boot_libraries(f, present);
    let preload = build_boot_preload(f, present);
    let mut env: Vec<(String, String)> = Vec::new();
    put(&mut env, "WINEPREFIX", f.pfx.clone());
    put(&mut env, "WINESERVER", f.server.clone());
    put(&mut env, "QUARK_FAST_BOOT", "1".to_string());
    put_if(&mut env, !ld.as_str().is_empty(), "LD_LIBRARY_PATH", ld.as_str());
    put(&mut env, "WINELOADER", f.wine64.clone());
    let dll = join_path(f.wine_dir.as_str(), "lib/wine");
    let own = join_path(f.wine_dir.as_str(), "lib/wine/proton");
    let dll_path = if present.holds(own.as_str()) {
        let mut s = own;
        s.append(":");
        s.append(dll.as_str());
        s
    } else {
        dll.clone()
    };
    put(&mut env, "WINEDLLPATH", dll_path);
    put(&mut env, "WINEDLLDIR0", concat("\\??\\Z:", dll.as_str()));
    let channels = match &f.winedebug {
        Some(v) => Some(v.clone()),
        None => None,
    };
    put(&mut env, "WINEDEBUG", resolve_winedebug(channels, false, f.verbose));
    put(&mut env, "WINEESYNC", "0".to_string());
    let some: bool = !preload.as_str().is_empty();
    put_if(&mut env, some, "LD_PRELOAD", preload.as_str());
    let mut unset: Vec<String> = Vec::new();
    if !some {
        push_text(&mut unset, "LD_PRELOAD".to_string());
    }
    let r = Launched { words, env, unset };
    let ghost want = boot_program(*f, present@);
    assert(r@.words =~= want.words);
    assert(r@.env =~= want.env);
    assert(r@.unset =~= want.unset);
    r
}

/// The registry of a template, where the launcher has one.
pub open spec fn template_ops(f: PrefixFacts, present: Set<Seq<char>>) -> Seq<Op> {
    match f.self_dir {
        Some(d) => {
            let tpl = path_join(d@, "default_pfx"@);
            if present.contains(path_join(tpl, "system.reg"@)) {
                registry_names().map_values(
                    |n: Seq<char>|
                        Op::CopyNew { from: path_join(tpl, n), to: path_join(f.pfx@, n) },
                )
            } else {
                Seq::empty()
            }
        },
        None => Seq::empty(),
    }
}

/// A prefix is set up from Wine's template where there is one. Else its directories are made, and Wine
/// fills it at its first start, unless that was done before.
pub open spec fn setup_ops(f: PrefixFacts, present: Set<Seq<char>>) -> Seq<Op> {
    let pfx = f.pfx@;
    let stamp = path_join(pfx, ".update-timestamp"@);
    let tpl = path_join(path_join(f.wine_dir@, "share"@), "default_pfx"@);
    (if present.contains(tpl) {
        seq![Op::CopyTree { from: tpl, to: pfx }] + drive_ops(pfx) + seq![
            Op::Stamp { from: path_join(f.wine_dir@, "share/wine/wine.inf"@), to: stamp },
        ]
    } else {
        profile_ops(pfx, opt_view(f.user)) + drive_ops(pfx) + dirs_in(
            pfx,
            seq![
                "drive_c/windows/system32"@,
                "drive_c/windows/syswow64"@,
                "drive_c/Program Files"@,
                "drive_c/Program Files (x86)"@,
            ],
        ) + template_ops(f, present) + (if present.contains(
            path_join(pfx, "drive_c/windows/Fonts"@),
        ) {
            Seq::empty()
        } else {
            seq![Op::Run { program: boot_program(f, present) }]
        })
    }) + seq![Op::WriteText { path: stamp, text: "disable\n"@ }]
}

fn push_template(out: &mut Vec<FileOp>, f: &PrefixFacts, present: &Present)
    ensures
        op_views(final(out)@) == op_views(old(out)@) + template_ops(*f, present@),
{
    match &f.self_dir {
        Some(d) => {
            let tpl = join_path(d.as_str(), "default_pfx");
            if present.holds_in(tpl.as_str(), "system.reg") {
                push_copy_new(out, tpl.as_str(), f.pfx.as_str(), "system.reg");
                push_copy_new(out, tpl.as_str(), f.pfx.as_str(), "user.reg");
                push_copy_new(out, tpl.as_str(), f.pfx.as_str(), "userdef.reg");
            }
        },
        None => {},
    }
    assert(op_views(out@) =~= op_views(old(out)@) + template_ops(*f, present@));
}

fn push_copy_new(out: &mut Vec<FileOp>, src: &str, dst: &str, name: &str)
    ensures
        op_views(final(out)@) == op_views(old(out)@).push(
            Op::CopyNew { from: path_join(src@, name@), to: path_join(dst@, name@) },
        ),
{
    push_op(out, FileOp::CopyNew { from: join_path(src, name), to: join_path(dst, name) });
}

/// What is to be done to set up a prefix.
pub fn setup_prefix(f: &PrefixFacts, present: &Present) -> (r: Vec<FileOp>)
    ensures
        op_views(r@) == setup_ops(*f, present@),
{
    let pfx = f.pfx.as_str();
    let share = join_path(f.wine_dir.as_str(), "share");
    let tpl = join_path(share.as_str(), "default_pfx");
    let mut out: Vec<FileOp> = Vec::new();
    if present.holds(tpl.as_str()) {
        push_op(&mut out, FileOp::CopyTree { from: tpl, to: f.pfx.clone() });
        push_drives(&mut out, pfx);
        push_op(
            &mut out,
            FileOp::Stamp {
                from: join_path(f.wine_dir.as_str(), "share/wine/wine.inf"),
                to: join_path(pfx, ".update-timestamp"),
            },
        );
    } else {
        push_ops(&mut out, profile_dirs(pfx, &f.user));
        push_drives(&mut out, pfx);
        let dirs = [
            "drive_c/windows/system32",
            "drive_c/windows/syswow64",
            "drive_c/Program Files",
            "drive_c/Program Files (x86)",
        ];
        assert(str_views(dirs@) =~= seq![
            "drive_c/windows/system32"@,
            "drive_c/windows/syswow64"@,
            "drive_c/Program Files"@,
            "drive_c/Program Files (x86)"@,
        ]);
        make_dirs_in(&mut out, pfx, &dirs);
        push_template(&mut out, f, present);
        if !present.holds_in(pfx, "drive_c/windows/Fonts") {
            push_op(&mut out, FileOp::Run { program: wineboot(f, present) });
        }
    }
    push_op(
        &mut out,
        FileOp::WriteText {
            path: join_path(pfx, ".update-timestamp"),
            text: "disable\n".to_string(),
        },
    );
    assert(op_views(out@) =~= setup_ops(*f, present@));
    out
}

/// The directories of Windows that are made.
pub proof fn lemma_windows_directories(pfx: Seq<char>)
    ensures
        windows_ops(pfx).contains(Op::MakeDir { path: path_join(pfx, "drive_c/windows/system32"@) }),
        windows_ops(pfx).contains(
            Op::MakeDir { path: path_join(path_join(pfx, "drive_c/windows"@), "syswow64"@) },
        ),
        windows_ops(pfx).contains(
            Op::MakeDir { path: path_join(path_join(pfx, "drive_c/windows"@), "Fonts"@) },
        ),
        windows_ops(pfx).contains(
            Op::MakeDir { path: path_join(path_join(pfx, "drive_c/windows"@), "temp"@) },
        ),
        windows_ops(pfx).contains(
            Op::MakeDir { path: path_join(path_join(pfx, "drive_c/windows"@), "system"@) },
        ),
        windows_ops(pfx).contains(
            Op::MakeDir { path: path_join(path_join(pfx, "drive_c/windows"@), "inf"@) },
        ),
        windows_ops(pfx).contains(
            Op::MakeDir { path: path_join(path_join(pfx, "drive_c/windows"@), "help"@) },
        ),
        windows_ops(pfx).contains(
            Op::MakeDir { path: path_join(path_join(pfx, "drive_c/windows"@), "logs"@) },
        ),
        windows_ops(pfx).contains(
            Op::MakeDir { path: path_join(path_join(pfx, "drive_c/windows"@), "winsxs"@) },
        ),
        windows_ops(pfx).contains(
            Op::MakeDir { path: path_join(path_join(pfx, "drive_c/windows"@), "resources"@) },
        ),
        windows_ops(pfx).contains(
            Op::MakeDir { path: path_join(path_join(pfx, "drive_c/windows"@), "security"@) },
        ),
        windows_ops(pfx).contains(
            Op::MakeDir { path: path_join(path_join(pfx, "drive_c/windows"@), "tasks"@) },
        ),
        windows_ops(pfx).contains(
            Op::MakeDir { path: path_join(path_join(pfx, "drive_c/windows"@), "performance"@) },
        ),
        windows_ops(pfx).contains(
            Op::MakeDir { path: path_join(path_join(pfx, "drive_c/windows"@), "Microsoft.NET"@) },
        ),
        windows_ops(pfx).contains(
            Op::MakeDir { path: path_join(path_join(pfx, "drive_c/windows"@), "Installer"@) },
        ),
        windows_ops(pfx).contains(
            Op::MakeDir { path: path_join(path_join(pfx, "drive_c/windows"@), "Globalization"@) },
        ),
        windows_ops(pfx).contains(
            Op::MakeDir { path: path_join(path_join(pfx, "drive_c/windows"@), "twain_32"@) },
        ),
        windows_ops(pfx).contains(
            Op::MakeDir { path: path_join(path_join(pfx, "drive_c/windows"@), "twain_64"@) },
        ),
        windows_ops(pfx).contains(Op::MakeDir { path: path_join(pfx, "drive_c/ProgramData"@) }),
        windows_ops(pfx).contains(Op::MakeDir { path: path_join(pfx, "drive_c/Program Files/Common Files"@) }),
        windows_ops(pfx).contains(
            Op::MakeDir { path: path_join(pfx, "drive_c/Program Files (x86)/Common Files"@) },
        ),
{
    let w = windows_ops(pfx);
    let base = path_join(pfx, "drive_c/windows"@);
    assert(w[0] == Op::MakeDir { path: path_join(pfx, "drive_c/windows/system32"@) });
    assert(w[1] == Op::MakeDir { path: path_join(base, "syswow64"@) });
    assert(w[2] == Op::MakeDir { path: path_join(base, "Fonts"@) });
    assert(w[3] == Op::MakeDir { path: path_join(base, "temp"@) });
    assert(w[4] == Op::MakeDir { path: path_join(base, "system"@) });
    assert(w[5] == Op::MakeDir { path: path_join(base, "inf"@) });
    assert(w[6] == Op::MakeDir { path: path_join(base, "help"@) });
    assert(w[7] == Op::MakeDir { path: path_join(base, "logs"@) });
    assert(w[8] == Op::MakeDir { path: path_join(base, "winsxs"@) });
    assert(w[9] == Op::MakeDir { path: path_join(base, "resources"@) });
    assert(w[10] == Op::MakeDir { path: path_join(base, "security"@) });
    assert(w[11] == Op::MakeDir { path: path_join(base, "tasks"@) });
    assert(w[12] == Op::MakeDir { path: path_join(base, "performance"@) });
    assert(w[13] == Op::MakeDir { path: path_join(base, "Microsoft.NET"@) });
    assert(w[14] == Op::MakeDir { path: path_join(base, "Installer"@) });
    assert(w[15] == Op::MakeDir { path: path_join(base, "Globalization"@) });
    assert(w[16] == Op::MakeDir { path: path_join(base, "twain_32"@) });
    assert(w[17] == Op::MakeDir { path: path_join(base, "twain_64"@) });
    assert(w[18] == Op::MakeDir { path: path_join(pfx, "drive_c/ProgramData"@) });
    assert(w[19] == Op::MakeDir { path: path_join(pfx, "drive_c/Program Files/Common Files"@) });
    assert(w[20] == Op::MakeDir { path: path_join(pfx, "drive_c/Program Files (x86)/Common Files"@) });
}

/// The directories of a user's profile that are made, and those of the profile that all share.
pub proof fn lemma_profile_directories(pfx: Seq<char>, user: Seq<char>)
    ensures
        ({
            let base = path_join(path_join(pfx, "drive_c/users"@), user);
            let p = profile_ops(pfx, Some(user));
            &&& p.contains(Op::MakeDir { path: path_join(base, "AppData"@) })
            &&& p.contains(Op::MakeDir { path: path_join(base, "AppData/Roaming"@) })
            &&& p.contains(Op::MakeDir { path: path_join(base, "AppData/Local"@) })
            &&& p.contains(Op::MakeDir { path: path_join(base, "AppData/Local/Microsoft"@) })
            &&& p.contains(Op::MakeDir { path: path_join(base, "AppData/Local/Microsoft/Windows"@) })
            &&& p.contains(Op::MakeDir { path: path_join(base, "AppData/Local/Microsoft/Windows/INetCache"@) })
            &&& p.contains(Op::MakeDir { path: path_join(base, "AppData/Local/Microsoft/Windows/History"@) })
            &&& p.contains(Op::MakeDir { path: path_join(base, "AppData/Local/Microsoft/Windows/INetCookies"@) })
            &&& p.contains(Op::MakeDir { path: path_join(base, "AppData/LocalLow"@) })
            &&& p.contains(Op::MakeDir { path: path_join(base, "Desktop"@) })
            &&& p.contains(Op::MakeDir { path: path_join(base, "Documents"@) })
            &&& p.contains(Op::MakeDir { path: path_join(base, "Downloads"@) })
            &&& p.contains(Op::MakeDir { path: path_join(base, "Music"@) })
            &&& p.contains(Op::MakeDir { path: path_join(base, "Pictures"@) })
            &&& p.contains(Op::MakeDir { path: path_join(base, "Videos"@) })
            &&& p.contains(Op::MakeDir { path: path_join(base, "Temp"@) })
            &&& p.contains(Op::MakeDir { path: path_join(path_join(pfx, "drive_c/users/Public"@), "Desktop"@) })
            &&& p.contains(Op::MakeDir { path: path_join(path_join(pfx, "drive_c/users/Public"@), "Documents"@) })
        }),
        profile_ops(pfx, None) == profile_ops(pfx, Some("user"@)),
{
    let base = path_join(path_join(pfx, "drive_c/users"@), user);
    let p = profile_ops(pfx, Some(user));
    assert(p[1] == Op::MakeDir { path: path_join(base, "AppData"@) });
    assert(p[2] == Op::MakeDir { path: path_join(base, "AppData/Roaming"@) });
    assert(p[3] == Op::MakeDir { path: path_join(base, "AppData/Local"@) });
    assert(p[4] == Op::MakeDir { path: path_join(base, "AppData/Local/Microsoft"@) });
    assert(p[5] == Op::MakeDir { path: path_join(base, "AppData/Local/Microsoft/Windows"@) });
    assert(p[6] == Op::MakeDir { path: path_join(base, "AppData/Local/Microsoft/Windows/INetCache"@) });
    assert(p[7] == Op::MakeDir { path: path_join(base, "AppData/Local/Microsoft/Windows/History"@) });
    assert(p[8] == Op::MakeDir { path: path_join(base, "AppData/Local/Microsoft/Windows/INetCookies"@) });
    assert(p[9] == Op::MakeDir { path: path_join(base, "AppData/LocalLow"@) });
    assert(p[10] == Op::MakeDir { path: path_join(base, "Desktop"@) });
    assert(p[11] == Op::MakeDir { path: path_join(base, "Documents"@) });
    assert(p[12] == Op::MakeDir { path: path_join(base, "Downloads"@) });
    assert(p[13] == Op::MakeDir { path: path_join(base, "Music"@) });
    assert(p[14] == Op::MakeDir { path: path_join(base, "Pictures"@) });
    assert(p[15] == Op::MakeDir { path: path_join(base, "Videos"@) });
    assert(p[16] == Op::MakeDir { path: path_join(base, "Temp"@) });
    assert(p[17] == Op::MakeDir { path: path_join(path_join(pfx, "drive_c/users/Public"@), "Desktop"@) });
    assert(p[18] == Op::MakeDir { path: path_join(path_join(pfx, "drive_c/users/Public"@), "Documents"@) });
}

/// The drive `C:` leads to the prefix's own files and the drive `Z:` to all of the host's.
pub proof fn lemma_drives(pfx: Seq<char>)
    ensures
        ({
            let d = drive_ops(pfx);
            let dos = path_join(pfx, "dosdevices"@);
            &&& d.len() == 3
            &&& d[0] == (Op::MakeDir { path: dos })
            &&& d[1] == (Op::LinkNew { target: "../drive_c"@, link: path_join(dos, "c:"@) })
            &&& d[2] == (Op::LinkNew { target: "/"@, link: path_join(dos, "z:"@) })
        }),
{
}

/// The registry of the machine is kept in one file, those of the users in two; each file says which it is.
pub proof fn lemma_registry_files()
    ensures
        registry_names() == seq!["system.reg"@, "user.reg"@, "userdef.reg"@],
        registry_header("system.reg"@)
            == "WINE REGISTRY Version 2\n;; All keys relative to REGISTRY\\Machine\n\n#arch=win64\n"@,
        registry_header("user.reg"@)
            == "WINE REGISTRY Version 2\n;; All keys relative to REGISTRY\\User\n\n#arch=win64\n"@,
        registry_header("userdef.reg"@)
            == "WINE REGISTRY Version 2\n;; All keys relative to REGISTRY\\User\n\n#arch=win64\n"@,
{
    reveal_strlit("user");
    reveal_strlit("system.reg");
    reveal_strlit("user.reg");
    reveal_strlit("userdef.reg");
    assert("system.reg"@.subrange(0, 4)[0] == 's');
    assert("user.reg"@.subrange(0, 4) =~= "user"@);
    assert("userdef.reg"@.subrange(0, 4) =~= "user"@);
}

/// A registry file is taken from the user's own prefix exactly where that has it and the prefix's holds less
/// than 1024 bytes or is not there.
pub proof fn lemma_registry_taken(pfx: Seq<char>, home: Seq<char>, metas: Metas, name: Seq<char>)
    ensures
        ({
            let from = path_join(path_join(home, ".wine"@), name);
            let to = path_join(pfx, name);
            let r = registry_copy(pfx, Some(home), metas, name);
            &&& r.len() <= 1
            &&& r.contains(Op::Copy { from, to }) <==> metas.of(from) is Some && (metas.of(to) matches Some(m)
                ==> m.len < 1024)
        }),
        registry_copy(pfx, None, metas, name) == registry_copy(pfx, Some("/root"@), metas, name),
{
    let from = path_join(path_join(home, ".wine"@), name);
    let r = registry_copy(pfx, Some(home), metas, name);
    if r.len() == 1 {
        assert(r[0] == Op::Copy { from, to: path_join(pfx, name) });
    }
}

/// Steam's keys are added to each registry file exactly where it lacks them.
pub proof fn lemma_which_keys(pfx: Seq<char>, system: Seq<char>, user: Seq<char>)
    ensures
        ({
            let m = missing_keys(pfx, system, user);
            let a = Op::Append { path: path_join(pfx, "system.reg"@), text: machine_keys() };
            let b = Op::Append { path: path_join(pfx, "user.reg"@), text: user_keys() };
            &&& !has_sub(system, "[Software\\\\Valve\\\\Steam]"@) ==> m.contains(a)
            &&& !has_sub(user, "Valve\\\\Steam\\\\ActiveProcess"@) ==> m.contains(b)
            &&& has_sub(system, "[Software\\\\Valve\\\\Steam]"@) && has_sub(
                user,
                "Valve\\\\Steam\\\\ActiveProcess"@,
            ) ==> m.len() == 0
            &&& m.len() <= 2
        }),
{
    let m = missing_keys(pfx, system, user);
    let a = Op::Append { path: path_join(pfx, "system.reg"@), text: machine_keys() };
    let b = Op::Append { path: path_join(pfx, "user.reg"@), text: user_keys() };
    if !has_sub(system, "[Software\\\\Valve\\\\Steam]"@) {
        assert(m[0] == a);
    }
    if !has_sub(user, "Valve\\\\Steam\\\\ActiveProcess"@) {
        assert(m[m.len() - 1] == b);
    }
}

/// Of the libraries that are loaded in front of all others exactly those stay that have a name and are not
/// Steam's overlay.
pub proof fn lemma_preloads_that_stay(parts: Seq<Seq<char>>, x: Seq<char>)
    ensures
        kept_preloads(parts).contains(x) <==> parts.contains(x) && x.len() > 0 && !has_sub(
            x,
            "gameoverlayrenderer"@,
        ),
    decreases parts.len(),
{
    let all = kept_preloads(parts);
    if parts.len() > 0 {
        let d = parts.drop_last();
        let before = kept_preloads(d);
        lemma_preloads_that_stay(d, x);
        assert(parts[parts.len() - 1] == parts.last());
        if parts.contains(x) && x != parts.last() {
            let i = choose|i: int| 0 <= i < parts.len() && parts[i] == x;
            assert(d[i] == x);
        }
        if d.contains(x) {
            let i = choose|i: int| 0 <= i < d.len() && d[i] == x;
            assert(parts[i] == x);
        }
        if before.contains(x) {
            let i = choose|i: int| 0 <= i < before.len() && before[i] == x;
            assert(all[i] == x);
        }
        if wanted_preload(parts.last()) {
            assert(all[all.len() - 1] == parts.last());
            if all.contains(x) && x != parts.last() {
                let i = choose|i: int| 0 <= i < all.len() && all[i] == x;
                assert(before[i] == x);
            }
        }
    }
}

/// The first start of Wine: `wineboot --init` in the prefix, with this session's server, Wine's own modules
/// and without its other ways of waiting.
pub proof fn lemma_first_start(f: PrefixFacts, present: Set<Seq<char>>)
    ensures
        ({
            let r = boot_program(f, present);
            let w = r.words;
            &&& w.len() >= 2 && w[w.len() - 2] == "wineboot"@ && w[w.len() - 1] == "--init"@
            &&& r.env[0] == ("WINEPREFIX"@, f.pfx@)
            &&& r.env[1] == ("WINESERVER"@, f.server@)
            &&& r.env[2] == ("QUARK_FAST_BOOT"@, "1"@)
            &&& r.env.contains(("WINELOADER"@, f.wine64@))
            &&& r.env.contains(("WINEESYNC"@, "0"@))
            &&& r.env.contains(("WINEDLLDIR0"@, "\\??\\Z:"@ + path_join(f.wine_dir@, "lib/wine"@)))
            &&& r.env.contains(("WINEDEBUG"@, winedebug(opt_view(f.winedebug), false, f.verbose)))
            &&& present.contains(path_join(f.wine_dir@, "lib/wine/proton"@)) ==> r.env.contains(
                (
                    "WINEDLLPATH"@,
                    path_join(f.wine_dir@, "lib/wine/proton"@) + ":"@ + path_join(f.wine_dir@, "lib/wine"@),
                ),
            )
            &&& !present.contains(path_join(f.wine_dir@, "lib/wine/proton"@)) ==> r.env.contains(
                ("WINEDLLPATH"@, path_join(f.wine_dir@, "lib/wine"@)),
            )
        }),
{
    let r = boot_program(f, present);
    let k = if boot_libraries(f, present).len() > 0 {
        4int
    } else {
        3int
    };
    assert(r.env[k] == ("WINELOADER"@, f.wine64@));
    assert(r.env[k + 1] == ("WINEDLLPATH"@, boot_dll_path(f, present)));
    assert(r.env[k + 2] == ("WINEDLLDIR0"@, "\\??\\Z:"@ + path_join(f.wine_dir@, "lib/wine"@)));
    assert(r.env[k + 3] == ("WINEDEBUG"@, winedebug(opt_view(f.winedebug), false, f.verbose)));
    assert(r.env[k + 4] == ("WINEESYNC"@, "0"@));
}

/// Wine's template is copied where there is one, and then Wine is not started. Else Wine is started unless
/// it was before. In the end Wine is told in any case not to set the prefix up again.
pub proof fn lemma_prefix_is_set_up(f: PrefixFacts, present: Set<Seq<char>>)
    ensures
        ({
            let o = setup_ops(f, present);
            let tpl = path_join(path_join(f.wine_dir@, "share"@), "default_pfx"@);
            let fonts = path_join(f.pfx@, "drive_c/windows/Fonts"@);
            let boot = Op::Run { program: boot_program(f, present) };
            &&& o.last() == (Op::WriteText {
                path: path_join(f.pfx@, ".update-timestamp"@),
                text: "disable\n"@,
            })
            &&& present.contains(tpl) ==> o.len() == 6 && o[0] == (Op::CopyTree { from: tpl, to: f.pfx@ })
            &&& !present.contains(tpl) && !present.contains(fonts) ==> o[o.len() - 2] == boot
            &&& !present.contains(tpl) && present.contains(fonts) ==> !o.contains(boot)
        }),
        f.self_dir matches Some(d) ==> present.contains(path_join(path_join(d@, "default_pfx"@), "system.reg"@))
            ==> template_ops(f, present).len() == 3 && template_ops(f, present)[0] == (Op::CopyNew {
            from: path_join(path_join(d@, "default_pfx"@), "system.reg"@),
            to: path_join(f.pfx@, "system.reg"@),
        }),
        f.self_dir is None ==> template_ops(f, present).len() == 0,
{
    let o = setup_ops(f, present);
    let boot = Op::Run { program: boot_program(f, present) };
    if o.contains(boot) {
        let i = choose|i: int| 0 <= i < o.len() && o[i] == boot;
        assert(o[i] is Run);
    }
}

} // verus!
