//! The paths that are looked up before a decision: what a decision rests on is among them.
use crate::deploy::dll_file;
use crate::discovery::{first_usable, place_views, usable, WinePlace};
use crate::env::{
    concat, dll_places, eac_runtime, env_vars, library_path, library_places, machine_vars, main_vars,
    or_text, push_text, shader_vars, text_or, EnvFacts,
};
use crate::launch::{launch_program, LaunchFacts};
use crate::paths::{join_path, path_join};
use crate::prefix::{boot_program, setup_ops, stock_prefix, PrefixFacts};
use crate::text::views;
use crate::wire::opt_view;
use vstd::prelude::*;

verus! {

/// Two worlds agree on some paths.
pub open spec fn agree(a: Set<Seq<char>>, b: Set<Seq<char>>, paths: Seq<Seq<char>>) -> bool {
    forall|i: int|
        0 <= i < paths.len() ==> a.contains(#[trigger] paths[i]) == b.contains(paths[i])
}

proof fn lemma_agree_split(
    a: Set<Seq<char>>,
    b: Set<Seq<char>>,
    p: Seq<Seq<char>>,
    q: Seq<Seq<char>>,
)
    requires
        agree(a, b, p + q),
    ensures
        agree(a, b, p),
        agree(a, b, q),
{
    assert forall|i: int| 0 <= i < p.len() implies a.contains(#[trigger] p[i]) == b.contains(
        p[i],
    ) by {
        assert((p + q)[i] == p[i]);
    }
    assert forall|i: int| 0 <= i < q.len() implies a.contains(#[trigger] q[i]) == b.contains(
        q[i],
    ) by {
        assert((p + q)[p.len() + i] == q[i]);
    }
}

/// What is looked up in a place where Wine may be.
pub open spec fn place_paths(dir: Seq<char>) -> Seq<Seq<char>> {
    seq![
        path_join(dir, "lib/wine/x86_64-unix/wine"@),
        path_join(dir, "bin/wine64"@),
        path_join(dir, "bin/wine"@),
        path_join(dir, "lib/wine/x86_64-unix/ntdll.so"@),
    ]
}

/// What is looked up to find Wine.
pub open spec fn wine_paths(places: Seq<(Seq<char>, bool)>) -> Seq<Seq<char>>
    decreases places.len(),
{
    if places.len() == 0 {
        Seq::empty()
    } else {
        wine_paths(places.drop_last()) + place_paths(places.last().0)
    }
}

pub fn wine_lookups(places: &Vec<WinePlace>) -> (r: Vec<String>)
    ensures
        views(r@) == wine_paths(place_views(places@)),
{
    let mut out: Vec<String> = Vec::new();
    let mut i: usize = 0;
    assert(views(out@) =~= wine_paths(place_views(places@).take(0)));
    while i < places.len()
        invariant
            i <= places@.len(),
            views(out@) == wine_paths(place_views(places@).take(i as int)),
        decreases places@.len() - i,
    {
        let ghost before = views(out@);
        assert(place_views(places@).take(i + 1).drop_last() =~= place_views(places@).take(
            i as int,
        ));
        let d = places[i].dir.as_str();
        push_text(&mut out, join_path(d, "lib/wine/x86_64-unix/wine"));
        push_text(&mut out, join_path(d, "bin/wine64"));
        push_text(&mut out, join_path(d, "bin/wine"));
        push_text(&mut out, join_path(d, "lib/wine/x86_64-unix/ntdll.so"));
        assert(views(out@) =~= before + place_paths(d@));
        i = i + 1;
    }
    assert(place_views(places@).take(places@.len() as int) =~= place_views(places@));
    out
}

proof fn lemma_wine_paths_hold(places: Seq<(Seq<char>, bool)>, a: Set<Seq<char>>, b: Set<Seq<char>>, k: int)
    requires
        0 <= k < places.len(),
        agree(a, b, wine_paths(places)),
    ensures
        agree(a, b, place_paths(places[k].0)),
    decreases places.len(),
{
    lemma_agree_split(a, b, wine_paths(places.drop_last()), place_paths(places.last().0));
    if k < places.len() - 1 {
        assert(places.drop_last()[k] == places[k]);
        lemma_wine_paths_hold(places.drop_last(), a, b, k);
    }
}

proof fn lemma_same_usable(a: Set<Seq<char>>, b: Set<Seq<char>>, place: (Seq<char>, bool))
    requires
        agree(a, b, place_paths(place.0)),
    ensures
        usable(a, place) == usable(b, place),
{
    let p = place_paths(place.0);
    assert(a.contains(p[0]) == b.contains(p[0]));
    assert(a.contains(p[1]) == b.contains(p[1]));
    assert(a.contains(p[2]) == b.contains(p[2]));
    assert(a.contains(p[3]) == b.contains(p[3]));
}

proof fn lemma_same_first(a: Set<Seq<char>>, b: Set<Seq<char>>, places: Seq<(Seq<char>, bool)>)
    requires
        forall|k: int|
            0 <= k < places.len() ==> usable(a, #[trigger] places[k]) == usable(b, places[k]),
    ensures
        first_usable(a, places) == first_usable(b, places),
    decreases places.len(),
{
    if places.len() > 0 {
        assert(usable(a, places[0]) == usable(b, places[0]));
        assert forall|k: int| 0 <= k < places.skip(1).len() implies usable(
            a,
            #[trigger] places.skip(1)[k],
        ) == usable(b, places.skip(1)[k]) by {
            assert(places.skip(1)[k] == places[k + 1]);
        }
        lemma_same_first(a, b, places.skip(1));
    }
}

/// Which Wine is found rests on the paths that are looked up and on nothing else.
pub proof fn lemma_wine_lookups_suffice(
    a: Set<Seq<char>>,
    b: Set<Seq<char>>,
    places: Seq<(Seq<char>, bool)>,
)
    requires
        agree(a, b, wine_paths(places)),
    ensures
        first_usable(a, places) == first_usable(b, places),
{
    assert forall|k: int| 0 <= k < places.len() implies usable(a, #[trigger] places[k]) == usable(
        b,
        places[k],
    ) by {
        lemma_wine_paths_hold(places, a, b, k);
        lemma_same_usable(a, b, places[k]);
    }
    lemma_same_first(a, b, places);
}

/// The same path below some directories.
pub fn lookups_in(dirs: &Vec<String>, rel: &str) -> (r: Vec<String>)
    ensures
        views(r@) == views(dirs@).map_values(|d: Seq<char>| path_join(d, rel@)),
{
    let mut out: Vec<String> = Vec::new();
    let mut i: usize = 0;
    while i < dirs.len()
        invariant
            i <= dirs@.len(),
            views(out@) == views(dirs@).take(i as int).map_values(
                |d: Seq<char>| path_join(d, rel@),
            ),
        decreases dirs@.len() - i,
    {
        push_text(&mut out, join_path(dirs[i].as_str(), rel));
        i = i + 1;
        assert(views(out@) =~= views(dirs@).take(i as int).map_values(
            |d: Seq<char>| path_join(d, rel@),
        ));
    }
    assert(views(dirs@).take(dirs@.len() as int) =~= views(dirs@));
    out
}

/// What is looked up to start Wine.
pub open spec fn command_paths(wine_dir: Seq<char>) -> Seq<Seq<char>> {
    seq![
        "/usr/bin/bwrap"@,
        path_join(wine_dir, "lib/wine"@),
        path_join(wine_dir, "share/wine"@),
    ]
}

fn push_command_lookups(out: &mut Vec<String>, wine_dir: &str)
    ensures
        views(final(out)@) == views(old(out)@) + command_paths(wine_dir@),
{
    push_text(out, "/usr/bin/bwrap".to_string());
    push_text(out, join_path(wine_dir, "lib/wine"));
    push_text(out, join_path(wine_dir, "share/wine"));
    assert(views(out@) =~= views(old(out)@) + command_paths(wine_dir@));
}

/// What is looked up below a directory that there may be.
pub open spec fn below(dir: Option<Seq<char>>, rels: Seq<Seq<char>>) -> Seq<Seq<char>> {
    match dir {
        Some(d) => rels.map_values(|r: Seq<char>| path_join(d, r)),
        None => Seq::empty(),
    }
}

/// What is looked up for the environment.
pub open spec fn env_paths(f: EnvFacts) -> Seq<Seq<char>> {
    seq![
        path_join(
            or_text(f.home, ""@),
            ".local/share/Steam/compatibilitytools.d/quark/lib/wine/proton"@,
        ),
        eac_runtime(f),
        path_join(f.wine_dir@, "lib/vkd3d"@),
        path_join(f.wine_dir@, "lib/x86_64-linux-gnu"@),
        path_join(f.wine_dir@, "lib/wine/x86_64-unix"@),
        path_join(f.wine_dir@, "lib/wine/x86_64-unix/wine"@),
        path_join(f.wine_dir@, "bin/wine64"@),
        path_join(f.steam_dir@, "linux64"@),
        f.steam_dir@ + "/ubuntu12_64/video/"@,
        "/dev/ntsync"@,
        "/proc/driver/nvidia/version"@,
        "/usr/share/glvnd/egl_vendor.d/10_nvidia.json"@,
    ] + (match f.self_dir {
        Some(d) => seq![
            path_join(d@, "lib/wine"@),
            path_join(path_join(d@, "lib/wine"@), "x86_64-unix"@),
        ],
        None => Seq::empty(),
    }) + (match f.proton_dir {
        Some(p) => seq![
            path_join(p@, "lib/vkd3d"@),
            path_join(p@, "lib/wine"@),
            path_join(p@, "lib/x86_64-linux-gnu"@),
            path_join(p@, "lib"@),
        ],
        None => Seq::empty(),
    })
}

pub fn env_lookups(f: &EnvFacts) -> (r: Vec<String>)
    ensures
        views(r@) == env_paths(*f),
{
    let mut out: Vec<String> = Vec::new();
    let w = f.wine_dir.as_str();
    let h = text_or(&f.home, "");
    push_text(
        &mut out,
        join_path(
            h.as_str(),
            ".local/share/Steam/compatibilitytools.d/quark/lib/wine/proton",
        ),
    );
    let h = text_or(&f.home, "/home/user");
    push_text(
        &mut out,
        join_path(
            h.as_str(),
            ".local/share/Steam/steamapps/common/Proton EasyAntiCheat Runtime",
        ),
    );
    push_text(&mut out, join_path(w, "lib/vkd3d"));
    push_text(&mut out, join_path(w, "lib/x86_64-linux-gnu"));
    push_text(&mut out, join_path(w, "lib/wine/x86_64-unix"));
    push_text(&mut out, join_path(w, "lib/wine/x86_64-unix/wine"));
    push_text(&mut out, join_path(w, "bin/wine64"));
    push_text(&mut out, join_path(f.steam_dir.as_str(), "linux64"));
    push_text(&mut out, concat(f.steam_dir.as_str(), "/ubuntu12_64/video/"));
    push_text(&mut out, "/dev/ntsync".to_string());
    push_text(&mut out, "/proc/driver/nvidia/version".to_string());
    push_text(&mut out, "/usr/share/glvnd/egl_vendor.d/10_nvidia.json".to_string());
    match &f.self_dir {
        Some(d) => {
            let lib = join_path(d.as_str(), "lib/wine");
            push_text(&mut out, lib.clone());
            push_text(&mut out, join_path(lib.as_str(), "x86_64-unix"));
        },
        None => {},
    }
    match &f.proton_dir {
        Some(p) => {
            push_text(&mut out, join_path(p.as_str(), "lib/vkd3d"));
            push_text(&mut out, join_path(p.as_str(), "lib/wine"));
            push_text(&mut out, join_path(p.as_str(), "lib/x86_64-linux-gnu"));
            push_text(&mut out, join_path(p.as_str(), "lib"));
        },
        None => {},
    }
    assert(views(out@) =~= env_paths(*f));
    out
}

/// Two worlds agree on a path.
pub open spec fn agree_on(a: Set<Seq<char>>, b: Set<Seq<char>>, p: Seq<char>) -> bool {
    a.contains(p) == b.contains(p)
}

/// Two worlds agree on what the environment rests on.
pub open spec fn env_agree(a: Set<Seq<char>>, b: Set<Seq<char>>, f: EnvFacts) -> bool {
    &&& agree_on(
        a,
        b,
        path_join(
            or_text(f.home, ""@),
            ".local/share/Steam/compatibilitytools.d/quark/lib/wine/proton"@,
        ),
    )
    &&& agree_on(a, b, eac_runtime(f))
    &&& agree_on(a, b, path_join(f.wine_dir@, "lib/vkd3d"@))
    &&& agree_on(a, b, path_join(f.wine_dir@, "lib/x86_64-linux-gnu"@))
    &&& agree_on(a, b, path_join(f.wine_dir@, "lib/wine/x86_64-unix"@))
    &&& agree_on(a, b, path_join(f.wine_dir@, "lib/wine/x86_64-unix/wine"@))
    &&& agree_on(a, b, path_join(f.wine_dir@, "bin/wine64"@))
    &&& agree_on(a, b, path_join(f.steam_dir@, "linux64"@))
    &&& agree_on(a, b, f.steam_dir@ + "/ubuntu12_64/video/"@)
    &&& agree_on(a, b, "/dev/ntsync"@)
    &&& agree_on(a, b, "/proc/driver/nvidia/version"@)
    &&& agree_on(a, b, "/usr/share/glvnd/egl_vendor.d/10_nvidia.json"@)
    &&& match f.self_dir {
        Some(d) => agree_on(a, b, path_join(d@, "lib/wine"@)) && agree_on(
            a,
            b,
            path_join(path_join(d@, "lib/wine"@), "x86_64-unix"@),
        ),
        None => true,
    }
    &&& match f.proton_dir {
        Some(p) => agree_on(a, b, path_join(p@, "lib/vkd3d"@)) && agree_on(
            a,
            b,
            path_join(p@, "lib/wine"@),
        ) && agree_on(a, b, path_join(p@, "lib/x86_64-linux-gnu"@)) && agree_on(
            a,
            b,
            path_join(p@, "lib"@),
        ),
        None => true,
    }
}

proof fn lemma_env_agree(a: Set<Seq<char>>, b: Set<Seq<char>>, f: EnvFacts)
    requires
        agree(a, b, env_paths(f)),
    ensures
        env_agree(a, b, f),
{
    let p = env_paths(f);
    let n: int = match f.self_dir {
        Some(d) => 14,
        None => 12,
    };
    assert(agree_on(a, b, p[0]) && agree_on(a, b, p[1]) && agree_on(a, b, p[2]) && agree_on(
        a,
        b,
        p[3],
    ));
    assert(agree_on(a, b, p[4]) && agree_on(a, b, p[5]) && agree_on(a, b, p[6]) && agree_on(
        a,
        b,
        p[7],
    ));
    assert(agree_on(a, b, p[8]) && agree_on(a, b, p[9]) && agree_on(a, b, p[10]) && agree_on(
        a,
        b,
        p[11],
    ));
    if f.self_dir is Some {
        assert(agree_on(a, b, p[12]) && agree_on(a, b, p[13]));
    }
    if f.proton_dir is Some {
        assert(agree_on(a, b, p[n]) && agree_on(a, b, p[n + 1]));
        assert(agree_on(a, b, p[n + 2]) && agree_on(a, b, p[n + 3]));
    }
}

proof fn lemma_same_dll_places(a: Set<Seq<char>>, b: Set<Seq<char>>, f: EnvFacts)
    requires
        env_agree(a, b, f),
    ensures
        dll_places(f, a) == dll_places(f, b),
{
}

proof fn lemma_same_library_path(a: Set<Seq<char>>, b: Set<Seq<char>>, f: EnvFacts)
    requires
        env_agree(a, b, f),
    ensures
        library_path(f, a) == library_path(f, b),
{
    assert(library_places(f, a) == library_places(f, b));
}

/// The environment rests on the paths that are looked up and on nothing else.
pub proof fn lemma_env_lookups_suffice(a: Set<Seq<char>>, b: Set<Seq<char>>, f: EnvFacts)
    requires
        agree(a, b, env_paths(f)),
    ensures
        env_vars(f, a) == env_vars(f, b),
{
    lemma_env_agree(a, b, f);
    lemma_same_dll_places(a, b, f);
    lemma_same_library_path(a, b, f);
    assert(main_vars(f, a) == main_vars(f, b));
    assert(machine_vars(a) == machine_vars(b));
    assert(shader_vars(f, a) == shader_vars(f, b));
}

/// What is looked up to set up a prefix.
pub open spec fn setup_paths(f: PrefixFacts) -> Seq<Seq<char>> {
    command_paths(f.wine_dir@) + seq![
        path_join(path_join(f.wine_dir@, "share"@), "default_pfx"@),
        path_join(f.pfx@, "drive_c/windows/Fonts"@),
        path_join(f.wine_dir@, "lib/wine/x86_64-unix"@),
        path_join(f.wine_dir@, "lib"@),
        path_join(f.wine_dir@, "lib/wine/proton"@),
        path_join(
            or_text(f.home, ""@),
            ".local/share/Steam/compatibilitytools.d/quark/lib/noassert.so"@,
        ),
        path_join(or_text(f.self_dir, "."@), "lib/noassert.so"@),
    ] + (match f.self_dir {
        Some(d) => seq![path_join(path_join(d@, "default_pfx"@), "system.reg"@)],
        None => Seq::empty(),
    })
}

pub fn setup_lookups(f: &PrefixFacts) -> (r: Vec<String>)
    ensures
        views(r@) == setup_paths(*f),
{
    let mut out: Vec<String> = Vec::new();
    let w = f.wine_dir.as_str();
    push_command_lookups(&mut out, w);
    let share = join_path(w, "share");
    push_text(&mut out, join_path(share.as_str(), "default_pfx"));
    push_text(&mut out, join_path(f.pfx.as_str(), "drive_c/windows/Fonts"));
    push_text(&mut out, join_path(w, "lib/wine/x86_64-unix"));
    push_text(&mut out, join_path(w, "lib"));
    push_text(&mut out, join_path(w, "lib/wine/proton"));
    let h = text_or(&f.home, "");
    push_text(
        &mut out,
        join_path(
            h.as_str(),
            ".local/share/Steam/compatibilitytools.d/quark/lib/noassert.so",
        ),
    );
    let d = text_or(&f.self_dir, ".");
    push_text(&mut out, join_path(d.as_str(), "lib/noassert.so"));
    match &f.self_dir {
        Some(d) => {
            let tpl = join_path(d.as_str(), "default_pfx");
            push_text(&mut out, join_path(tpl.as_str(), "system.reg"));
        },
        None => {},
    }
    assert(views(out@) =~= setup_paths(*f));
    out
}

/// How a prefix is set up rests on the paths that are looked up and on nothing else.
#[verifier::rlimit(60)]
pub proof fn lemma_setup_lookups_suffice(a: Set<Seq<char>>, b: Set<Seq<char>>, f: PrefixFacts)
    requires
        agree(a, b, setup_paths(f)),
    ensures
        setup_ops(f, a) == setup_ops(f, b),
{
    let p = setup_paths(f);
    assert(a.contains(p[0]) == b.contains(p[0]));
    assert(a.contains(p[1]) == b.contains(p[1]));
    assert(a.contains(p[2]) == b.contains(p[2]));
    assert(a.contains(p[3]) == b.contains(p[3]));
    assert(a.contains(p[4]) == b.contains(p[4]));
    assert(a.contains(p[5]) == b.contains(p[5]));
    assert(a.contains(p[6]) == b.contains(p[6]));
    assert(a.contains(p[7]) == b.contains(p[7]));
    assert(a.contains(p[8]) == b.contains(p[8]));
    assert(a.contains(p[9]) == b.contains(p[9]));
    if f.self_dir is Some {
        assert(a.contains(p[10]) == b.contains(p[10]));
    }
    assert(boot_program(f, a) == boot_program(f, b));
}

/// What is looked up for the command that is run.
pub open spec fn launch_paths(wine_dir: Seq<char>) -> Seq<Seq<char>> {
    command_paths(wine_dir) + seq![
        path_join(wine_dir, "lib/wine/x86_64-unix"@),
        path_join(wine_dir, "lib/wine/x86_64-windows"@),
        "/usr/lib/wine/x86_64-unix"@,
        "/usr/lib/wine/x86_64-windows"@,
        path_join(wine_dir, "lib"@),
    ]
}

pub fn launch_lookups(wine_dir: &str) -> (r: Vec<String>)
    ensures
        views(r@) == launch_paths(wine_dir@),
{
    let mut out: Vec<String> = Vec::new();
    push_command_lookups(&mut out, wine_dir);
    push_text(&mut out, join_path(wine_dir, "lib/wine/x86_64-unix"));
    push_text(&mut out, join_path(wine_dir, "lib/wine/x86_64-windows"));
    push_text(&mut out, "/usr/lib/wine/x86_64-unix".to_string());
    push_text(&mut out, "/usr/lib/wine/x86_64-windows".to_string());
    push_text(&mut out, join_path(wine_dir, "lib"));
    assert(views(out@) =~= launch_paths(wine_dir@));
    out
}

/// The command that is run rests on the paths that are looked up and on nothing else.
#[verifier::rlimit(60)]
pub proof fn lemma_launch_lookups_suffice(a: Set<Seq<char>>, b: Set<Seq<char>>, f: LaunchFacts)
    requires
        agree(a, b, launch_paths(f.wine_dir@)),
    ensures
        launch_program(f, a) == launch_program(f, b),
{
    let p = launch_paths(f.wine_dir@);
    assert(a.contains(p[0]) == b.contains(p[0]));
    assert(a.contains(p[1]) == b.contains(p[1]));
    assert(a.contains(p[2]) == b.contains(p[2]));
    assert(a.contains(p[3]) == b.contains(p[3]));
    assert(a.contains(p[4]) == b.contains(p[4]));
    assert(a.contains(p[5]) == b.contains(p[5]));
    assert(a.contains(p[6]) == b.contains(p[6]));
    assert(a.contains(p[7]) == b.contains(p[7]));
}

/// The files of some libraries, at the source and in the prefix.
pub open spec fn dll_paths(from: Seq<char>, to: Seq<char>, names: Seq<Seq<char>>) -> Seq<Seq<char>>
    decreases names.len(),
{
    if names.len() == 0 {
        Seq::empty()
    } else {
        dll_paths(from, to, names.drop_last()) + seq![
            dll_file(from, names.last()),
            dll_file(to, names.last()),
        ]
    }
}

pub fn dll_lookups(from: &str, to: &str, names: &Vec<String>) -> (r: Vec<String>)
    ensures
        views(r@) == dll_paths(from@, to@, views(names@)),
{
    let mut out: Vec<String> = Vec::new();
    let mut i: usize = 0;
    assert(views(out@) =~= dll_paths(from@, to@, views(names@).take(0)));
    while i < names.len()
        invariant
            i <= names@.len(),
            views(out@) == dll_paths(from@, to@, views(names@).take(i as int)),
        decreases names@.len() - i,
    {
        let ghost before = views(out@);
        assert(views(names@).take(i + 1).drop_last() =~= views(names@).take(i as int));
        let file = concat(names[i].as_str(), ".dll");
        push_text(&mut out, join_path(from, file.as_str()));
        push_text(&mut out, join_path(to, file.as_str()));
        assert(views(out@) =~= before + seq![
            dll_file(from@, names@[i as int]@),
            dll_file(to@, names@[i as int]@),
        ]);
        i = i + 1;
    }
    assert(views(names@).take(names@.len() as int) =~= views(names@));
    out
}

/// What is looked up for the registry files and the system's own libraries.
pub fn registry_lookups(pfx: &str, home: &Option<String>) -> (r: Vec<String>)
    ensures
        views(r@) == seq![
            path_join(stock_prefix(opt_view(*home)), "system.reg"@),
            path_join(stock_prefix(opt_view(*home)), "user.reg"@),
            path_join(stock_prefix(opt_view(*home)), "userdef.reg"@),
            path_join(pfx@, "system.reg"@),
            path_join(pfx@, "user.reg"@),
            path_join(pfx@, "userdef.reg"@),
            "/usr/lib/wine/x86_64-windows/ntdll.dll"@,
            path_join(path_join(pfx@, "drive_c/windows/system32"@), "ntdll.dll"@),
        ],
{
    let stock = match home {
        Some(h) => join_path(h.as_str(), ".wine"),
        None => join_path("/root", ".wine"),
    };
    let mut out: Vec<String> = Vec::new();
    push_text(&mut out, join_path(stock.as_str(), "system.reg"));
    push_text(&mut out, join_path(stock.as_str(), "user.reg"));
    push_text(&mut out, join_path(stock.as_str(), "userdef.reg"));
    push_text(&mut out, join_path(pfx, "system.reg"));
    push_text(&mut out, join_path(pfx, "user.reg"));
    push_text(&mut out, join_path(pfx, "userdef.reg"));
    push_text(&mut out, "/usr/lib/wine/x86_64-windows/ntdll.dll".to_string());
    let sys32 = join_path(pfx, "drive_c/windows/system32");
    push_text(&mut out, join_path(sys32.as_str(), "ntdll.dll"));
    assert(views(out@) =~= seq![
        path_join(stock_prefix(opt_view(*home)), "system.reg"@),
        path_join(stock_prefix(opt_view(*home)), "user.reg"@),
        path_join(stock_prefix(opt_view(*home)), "userdef.reg"@),
        path_join(pfx@, "system.reg"@),
        path_join(pfx@, "user.reg"@),
        path_join(pfx@, "userdef.reg"@),
        "/usr/lib/wine/x86_64-windows/ntdll.dll"@,
        path_join(path_join(pfx@, "drive_c/windows/system32"@), "ntdll.dll"@),
    ]);
    out
}

/// What is looked up for Steam's client.
pub fn client_lookups(steam: &str, install: &str, pfx: &str) -> (r: Vec<String>)
    ensures
        views(r@) == seq![
            path_join(steam@, "legacycompat"@),
            path_join(path_join(steam@, "legacycompat"@), "steamclient64.dll"@),
            path_join(path_join(steam@, "legacycompat"@), "steamclient.dll"@),
            path_join(path_join(steam@, "legacycompat"@), "GameOverlayRenderer64.dll"@),
            path_join(path_join(steam@, "legacycompat"@), "SteamService.exe"@),
            path_join(path_join(steam@, "legacycompat"@), "Steam.dll"@),
            path_join(path_join(pfx@, "drive_c/Program Files (x86)/Steam"@), "steamclient64.dll"@),
            path_join(path_join(pfx@, "drive_c/Program Files (x86)/Steam"@), "steamclient.dll"@),
            path_join(
                path_join(pfx@, "drive_c/Program Files (x86)/Steam"@),
                "GameOverlayRenderer64.dll"@,
            ),
            path_join(path_join(pfx@, "drive_c/Program Files (x86)/Steam"@), "steam.exe"@),
            path_join(path_join(pfx@, "drive_c/Program Files (x86)/Steam"@), "Steam.dll"@),
            path_join(path_join(pfx@, "drive_c/windows/system32"@), "steamclient64.dll"@),
            path_join(install@, "steamclient64.dll"@),
        ],
{
    let legacy = join_path(steam, "legacycompat");
    let dir = join_path(pfx, "drive_c/Program Files (x86)/Steam");
    let sys32 = join_path(pfx, "drive_c/windows/system32");
    let (l, d): (&str, &str) = (legacy.as_str(), dir.as_str());
    let mut out: Vec<String> = Vec::new();
    push_text(&mut out, legacy.clone());
    push_text(&mut out, join_path(l, "steamclient64.dll"));
    push_text(&mut out, join_path(l, "steamclient.dll"));
    push_text(&mut out, join_path(l, "GameOverlayRenderer64.dll"));
    push_text(&mut out, join_path(l, "SteamService.exe"));
    push_text(&mut out, join_path(l, "Steam.dll"));
    push_text(&mut out, join_path(d, "steamclient64.dll"));
    push_text(&mut out, join_path(d, "steamclient.dll"));
    push_text(&mut out, join_path(d, "GameOverlayRenderer64.dll"));
    push_text(&mut out, join_path(d, "steam.exe"));
    push_text(&mut out, join_path(d, "Steam.dll"));
    push_text(&mut out, join_path(sys32.as_str(), "steamclient64.dll"));
    push_text(&mut out, join_path(install, "steamclient64.dll"));
    out
}

/// Of each library the file at the source and the one in the prefix are looked up.
pub proof fn lemma_libraries_are_looked_up(from: Seq<char>, to: Seq<char>, names: Seq<Seq<char>>, k: int)
    requires
        0 <= k < names.len(),
    ensures
        dll_paths(from, to, names).len() == 2 * names.len(),
        dll_paths(from, to, names)[2 * k] == path_join(from, names[k] + ".dll"@),
        dll_paths(from, to, names)[2 * k + 1] == path_join(to, names[k] + ".dll"@),
    decreases names.len(),
{
    let d = names.drop_last();
    if d.len() == 0 {
        assert(dll_paths(from, to, d).len() == 0);
    } else {
        lemma_libraries_are_looked_up(
            from,
            to,
            d,
            if k < d.len() {
                k
            } else {
                0
            },
        );
    }
}

} // verus!
