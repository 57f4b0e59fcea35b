use std::collections::hash_map::{DefaultHasher, HashMap};
use std::hash::{Hash, Hasher};
use triskelion::copytree::{
    decide_entry, deployed_by, dirents_fit, parse_dirents, EntryKind, EntryStep, DT_DIR, DT_LNK, DT_REG, DT_UNKNOWN,
};
use triskelion::deploy::{
    deploy_dlls, deploy_lsteamclient_to_prefix, deploy_steam_client, deploy_steam_exe, deployed,
    dll_routes, dlss_dlls, dlss_route, dxvk_dlls, kept_dlls, nvapi_dlls, nvapi_route, repair_steamclient64, sync_needed, sync_system_dlls,
    vkd3d_dlls, DeployPlan, DllRoute, PeScanResult,
};
use triskelion::discovery::{
    build_wine_command, dir_hash, dxvk_source, find_proton_files, find_steam_dir, find_wine,
    has_wine_bin, proton_candidates, wine_binary, wine_candidates, Present,
};
use triskelion::env::{build_env_vars, shader_ops, EnvFacts};
use triskelion::fileops::{file_matches, FileMeta, FileOp, Metas};
use triskelion::launch::{
    deploy_jobs, dominated, exit_code, exit_info, game_of, is_run, is_stale_segment, launch_command,
    merged_scan, missing_libraries, parallax_exe, prefix_jobs, session_prefix, shipping_candidates, shipping_dir,
    start, steam_install_dir, sync_prefix_env, triskelion_exe_pub, validity, Exit, Job, LaunchFacts,
    Start,
};
use triskelion::lookups::{env_lookups, launch_lookups, lookups_in, setup_lookups, wine_lookups};
use triskelion::prefix::{
    inject_registry_keys, profile_dirs, registry_copies, registry_stubs, setup_prefix, strip_overlay,
    windows_dirs, PrefixFacts,
};
use triskelion::saves::{
    backup_done_with, clean_crash_dumps, count_files, eq_ignore_case, restore_missing_files,
    restore_save_data, save_places, save_scan_dirs, snapshot_save_data, Found, SaveDir,
};
use triskelion::settings::DeployCache;

fn texts(v: &[&str]) -> Vec<String> {
    v.iter().map(|s| s.to_string()).collect()
}

fn there(v: &[&str]) -> Present {
    Present::new(texts(v))
}

fn var<'a>(env: &'a [(String, String)], name: &str) -> Option<&'a str> {
    env.iter().rev().find(|(k, _)| k == name).map(|(_, v)| v.as_str())
}

fn cache(n: u64) -> DeployCache {
    DeployCache { wine_hash: n, dxvk_hash: n, vkd3d_hash: n, steam_hash: n, scan_hash: n }
}

fn meta(len: u64, t: i128) -> FileMeta {
    FileMeta { len, modified: Some(t) }
}

fn metas(v: &[(&str, u64, i128)]) -> Metas {
    Metas { entries: v.iter().map(|(p, l, t)| (p.to_string(), meta(*l, *t))).collect() }
}

fn found(path: &str, dir: bool, size: u64) -> Found {
    Found { path: path.to_string(), dir, size }
}

#[test]
fn wine_is_found_in_order() {
    let p = there(&["/usr/bin/wine", "/own/bin/wine64", "/quark/bin/wine"]);
    assert!(has_wine_bin(&p, "/usr") && !has_wine_bin(&p, "/opt"));
    assert_eq!(wine_binary(&p, "/own"), "/own/bin/wine64");
    assert_eq!(wine_binary(&p, "/none"), "/none/bin/wine");
    let places = |own: &[&str]| wine_candidates(&texts(own), Some("/quark".to_string()), "/home/a", &texts(&[]));
    assert_eq!(find_wine(&p, &places(&["/own"])), "/own");
    assert_eq!(find_wine(&p, &places(&[])), "/usr");
    let staged = there(&["/quark/bin/wine", "/quark/lib/wine/x86_64-unix/ntdll.so", "/usr/bin/wine"]);
    assert_eq!(find_wine(&staged, &places(&[])), "/quark");
    assert_eq!(find_wine(&there(&[]), &places(&[])), "/nonexistent/wine");
    for l in wine_lookups(&places(&["/own"])) {
        assert!(l.starts_with('/'));
    }
}

#[test]
fn proton_is_taken_experimental_first() {
    let names = texts(&["Proton 9.0", "Game", "Proton - Experimental"]);
    let c = proton_candidates("/h", &names);
    assert_eq!(c[0], "/h/.steam/root/steamapps/common/Proton - Experimental/files");
    assert_eq!(c[1], "/h/.steam/root/steamapps/common/Proton 9.0/files");
    assert_eq!(c.len(), 3);
    let p = there(&["/h/.steam/root/steamapps/common/Proton 9.0/files/lib/wine"]);
    assert_eq!(find_proton_files(&p, "/h", &names), Some(c[1].clone()));
    assert_eq!(find_proton_files(&there(&[]), "/h", &names), None);
    assert_eq!(lookups_in(&c, "lib/wine").len(), 3);
}

#[test]
fn steam_and_its_libraries() {
    let s = find_steam_dir(&there(&[]), Some("/steam".to_string()), "/h");
    assert!(!s.is_empty());
    assert_eq!(steam_install_dir(&None, &Some("/h".to_string())), "/h/.local/share/Steam");
    assert_eq!(steam_install_dir(&Some("/s".to_string()), &None), "/s");
    let p = there(&["/tool/lib/wine/dxvk/x86_64-windows/d3d11.dll"]);
    assert_eq!(dxvk_source(&p, "/tool", "/wine", &None), "/tool");
    assert_eq!(dxvk_source(&there(&[]), "/tool", "/wine", &None), "/wine");
}

#[test]
fn wine_runs_in_its_own_namespace() {
    let p = there(&["/usr/bin/bwrap", "/w/lib/wine", "/w/share/wine"]);
    let c = build_wine_command(&p, "/w/bin/wine", "/w");
    assert_eq!(c[0], "/usr/bin/bwrap");
    assert_eq!(c.last().unwrap(), "/w/bin/wine");
    assert!(c.contains(&"/usr/lib/wine".to_string()));
    assert_eq!(build_wine_command(&there(&[]), "/w/bin/wine", "/w"), texts(&["/w/bin/wine"]));
}

#[test]
fn a_directory_has_a_number() {
    assert_eq!(dir_hash(None), 0);
    assert_eq!(
        dir_hash(Some((3, 5, -1))),
        3u64.wrapping_mul(6364136223846793005) ^ 5u64.wrapping_mul(1442695040888963407) ^ u64::MAX
    );
    assert_ne!(dir_hash(Some((3, 5, 1))), dir_hash(Some((3, 5, 2))));
}

fn env_facts() -> EnvFacts {
    EnvFacts {
        wine_dir: "/w".to_string(),
        proton_dir: None,
        steam_dir: "/steam".to_string(),
        pfx: "/c/pfx".to_string(),
        self_dir: None,
        server: "/q/triskelion".to_string(),
        version: "1".to_string(),
        dxvk: dxvk_dlls(),
        vkd3d: vkd3d_dlls(),
        nvapi: vec![],
        dlss: vec![],
        shader_cache: false,
        path: "/usr/bin".to_string(),
        ld_library_path: None,
        orig_ld_library_path: false,
        home: Some("/h".to_string()),
        user: Some("a".to_string()),
        dxvk_log_level: None,
        host_lc_all: None,
        gamepads: None,
    }
}

#[test]
fn variables_for_wine() {
    let f = env_facts();
    let v = build_env_vars(&f, &there(&[]));
    assert!(!v.is_empty());
    let overrides = var(&v, "WINEDLLOVERRIDES").unwrap();
    assert!(overrides.contains("d3d11=n"));
    assert!(overrides.contains("d3d12=n"));
    assert!(overrides.contains("lsteamclient=b"));
    for l in env_lookups(&f) {
        assert!(!l.is_empty());
    }
}

#[test]
fn shaders_are_kept_in_the_prefix() {
    let mut f = env_facts();
    assert!(shader_ops(&f).is_empty());
    assert!(var(&build_env_vars(&f, &there(&[])), "DXVK_SHADER_CACHE_PATH").is_none());
    f.shader_cache = true;
    let ops = shader_ops(&f);
    assert_eq!(ops.len(), 1);
    assert!(matches!(&ops[0], FileOp::MakeDir { path } if path == "/c/pfx/shader_cache"));
    assert_eq!(var(&build_env_vars(&f, &there(&[])), "DXVK_SHADER_CACHE_PATH").unwrap(), "/c/pfx/shader_cache");
}

#[test]
fn only_what_matters_decides() {
    let f = env_facts();
    let looked: Vec<String> = env_lookups(&f);
    let all = Present::new(looked.clone());
    let mut more = looked;
    more.push("/somewhere/else".to_string());
    assert_eq!(build_env_vars(&f, &all), build_env_vars(&f, &Present::new(more)));
}

#[test]
fn the_prefix_has_its_directories() {
    let ops = windows_dirs("/p");
    assert!(ops.iter().any(|o| matches!(o, FileOp::MakeDir { path } if path.ends_with("syswow64"))));
    let ops = profile_dirs("/p", &Some("bob".to_string()));
    assert!(!ops.is_empty());
    let ops = registry_stubs("/p");
    assert_eq!(ops.len(), 3);
    match &ops[1] {
        FileOp::WriteNew { path, text } => {
            assert_eq!(path, "/p/user.reg");
            assert!(text.starts_with("WINE REGISTRY Version 2\n"));
        }
        _ => panic!("a registry file"),
    }
}

#[test]
fn registry_files_are_taken_from_the_user() {
    let m = metas(&[("/h/.wine/system.reg", 5000, 1), ("/p/user.reg", 5000, 1), ("/h/.wine/user.reg", 5000, 1)]);
    let ops = registry_copies("/p", &Some("/h".to_string()), &m);
    assert_eq!(ops.len(), 1);
    assert!(matches!(&ops[0], FileOp::Copy { from, to } if from == "/h/.wine/system.reg" && to == "/p/system.reg"));
}

#[test]
fn keys_are_added_once() {
    let ops = inject_registry_keys("/p", "", "");
    assert_eq!(ops.len(), 2);
    let mut files = vec![String::new(), String::new()];
    for (i, o) in ops.iter().enumerate() {
        match o {
            FileOp::Append { text, .. } => files[i].push_str(text),
            _ => panic!("text is appended"),
        }
    }
    assert!(inject_registry_keys("/p", &files[0], &files[1]).is_empty());
}

#[test]
fn the_overlay_is_not_loaded() {
    let v = strip_overlay(&Some("/a.so:/x/gameoverlayrenderer.so::/b.so".to_string()));
    assert_eq!(v, texts(&["/a.so", "/b.so"]));
    assert!(strip_overlay(&None).is_empty());
}

#[test]
fn a_prefix_is_set_up() {
    let f = PrefixFacts {
        wine_dir: "/w".to_string(),
        pfx: "/p".to_string(),
        wine64: "/w/bin/wine64".to_string(),
        server: "/q/triskelion".to_string(),
        self_dir: None,
        home: Some("/h".to_string()),
        user: Some("a".to_string()),
        ld_library_path: None,
        ld_preload: None,
        winedebug: None,
        verbose: false,
    };
    let ops = setup_prefix(&f, &Present::new(setup_lookups(&f)));
    assert!(!ops.is_empty());
    let again = setup_prefix(&f, &Present::new(setup_lookups(&f)));
    assert_eq!(ops.len(), again.len());
}

#[test]
fn what_a_program_needs() {
    let scan =
        |imports: &[&str], nvapi| Some(PeScanResult { render_api: 3, imports: texts(imports), needs_nvapi: nvapi });
    let p = DeployPlan::from_scan(&scan(&["d3d11.dll", "nvngx.dll"], true), true);
    assert!(p.needs_dxvk && p.needs_vkd3d && p.needs_nvapi && p.needs_dlss);
    let mut h = DefaultHasher::new();
    3u64.hash(&mut h);
    2usize.hash(&mut h);
    for import in texts(&["d3d11.dll", "nvngx.dll"]) {
        import.hash(&mut h);
    }
    assert_eq!(p.scan_hash, h.finish());
    let other = DeployPlan::from_scan(&scan(&["d3d11.dll", "nvngy.dll"], true), true);
    assert_ne!(p.scan_hash, other.scan_hash);
    let p = DeployPlan::from_scan(&scan(&["nvngx.dll"], true), false);
    assert!(!p.needs_nvapi && !p.needs_dlss);
    let p = DeployPlan::from_scan(&None, true);
    assert!(p.needs_dxvk && p.needs_vkd3d && !p.needs_nvapi);
    assert_eq!(p.scan_hash, 0);
    assert_eq!(nvapi_dlls(), texts(&["nvapi64", "nvofapi64"]));
    assert_eq!(dlss_dlls(), texts(&["nvngx", "_nvngx", "nvngx_dlssg"]));
    assert!(dominated(&Some(texts(&["kernel32.dll"]))));
    assert!(!dominated(&Some(texts(&["d3d11.dll"]))) && !dominated(&None));
}

#[test]
fn libraries_are_copied_where_they_differ() {
    let (a, b) = dll_routes("/w", "dxvk", "/p");
    assert_eq!(a.from, "/w/lib/wine/dxvk/x86_64-windows");
    assert_eq!(a.to, "/p/drive_c/windows/system32");
    assert_eq!(b.to, "/p/drive_c/windows/syswow64");
    let r = DllRoute { from: "/f".to_string(), to: "/t".to_string() };
    let m = metas(&[("/f/d3d11.dll", 10, 5), ("/f/d3d9.dll", 10, 5), ("/t/d3d9.dll", 10, 5)]);
    let steps = deploy_dlls(&r, &texts(&["d3d11", "d3d9", "dxgi"]), &m);
    assert_eq!(steps.len(), 2);
    assert!(matches!(&steps[0].op, Some(FileOp::Replace { from, to }) if from == "/f/d3d11.dll" && to == "/t/d3d11.dll"));
    assert!(steps[1].op.is_none());
    assert_eq!(deployed(&steps, &vec![true, true]), texts(&["d3d11", "d3d9"]));
    assert!(file_matches(Some(meta(10, 5)), Some(meta(10, 6))));
    assert!(!file_matches(Some(meta(10, 5)), Some(meta(11, 6))));
    assert!(!file_matches(Some(meta(10, 5)), None));
}

#[test]
fn steam_stands_in_the_prefix() {
    let m = metas(&[("/steam/legacycompat", 0, 0), ("/steam/legacycompat/steamclient64.dll", 10, 5)]);
    let ops = deploy_steam_client("/steam", "/p", &m);
    assert_eq!(ops.len(), 2);
    assert!(matches!(&ops[1], FileOp::Replace { to, .. }
        if to == "/p/drive_c/Program Files (x86)/Steam/steamclient64.dll"));
    assert!(deploy_steam_client("/steam", "/p", &metas(&[])).is_empty());
    assert!(repair_steamclient64("/steam", "/p", &metas(&[])).is_empty());
    let m = metas(&[("/steam/steamclient64.dll", 10, 5), ("/p/drive_c/windows/system32/steamclient64.dll", 9, 5)]);
    assert_eq!(repair_steamclient64("/steam", "/p", &m).len(), 1);
    assert!(deploy_steam_exe(&None, "/p", &there(&[])).is_empty());
    assert!(deploy_lsteamclient_to_prefix(&None, "/p", &there(&[])).is_empty());
    assert!(!sync_needed("/p", &metas(&[])));
    assert!(sync_needed("/p", &metas(&[("/usr/lib/wine/x86_64-windows/ntdll.dll", 5, 1)])));
    assert_eq!(sync_system_dlls(&texts(&["a.dll", "b.txt"]), "/p").len(), 1);
}

#[test]
fn verbs_of_the_launcher() {
    assert!(is_run("run") && is_run("waitforexitandrun") && !is_run("getcompatpath"));
    assert!(matches!(start("getcompatpath", &texts(&["/x"])), Start::Print { path: Some(p) } if p == "/x"));
    assert!(matches!(start("getnativepath", &texts(&[])), Start::Print { path: None }));
    assert!(matches!(start("installscript", &texts(&[])), Start::Nothing));
    assert!(matches!(start("run", &texts(&["/x"])), Start::Session));
    assert_eq!(session_prefix(true, "/c/123", "run"), Ok("/c/123/pfx".to_string()));
    assert_eq!(session_prefix(false, "/c/123", "run"), Err(1));
    assert_eq!(session_prefix(true, "", "run"), Err(1));
    assert_eq!(session_prefix(true, "/c/0", "run"), Err(0));
    assert_eq!(session_prefix(true, "/c/0", "waitforexitandrun"), Ok("/c/0/pfx".to_string()));
    assert_eq!(game_of("run", &texts(&["/g/a.exe"])), Ok("/g/a.exe".to_string()));
    assert_eq!(game_of("run", &texts(&["/g/IScriptEvaluator.exe"])), Err(0));
    assert_eq!(game_of("run", &texts(&[])), Err(1));
}

#[test]
fn a_launch_that_changed_nothing_deploys_nothing() {
    let v = validity(Some(cache(3)), cache(3));
    let plan = DeployPlan { needs_dxvk: true, needs_vkd3d: true, needs_nvapi: true, needs_dlss: true, scan_hash: 3 };
    assert_eq!(prefix_jobs(v), vec![Job::ProfileDirs]);
    assert_eq!(
        deploy_jobs(plan, v, true),
        vec![Job::KeepDxvk, Job::KeepVkd3d, Job::KeepNvapi, Job::KeepDlss]
    );
    let mut other = cache(3);
    other.steam_hash = other.steam_hash + 1;
    let v = validity(Some(cache(3)), other);
    let first = prefix_jobs(v);
    assert!(first.contains(&Job::InjectKeys) && !first.contains(&Job::SetupPrefix));
    let jobs = deploy_jobs(plan, v, true);
    assert!(jobs.contains(&Job::DeploySteamClient) && jobs.contains(&Job::DeployDlss));
    let v = validity(None, cache(3));
    let plan = DeployPlan { needs_dxvk: true, needs_vkd3d: true, needs_nvapi: true, needs_dlss: false, scan_hash: 3 };
    let jobs = deploy_jobs(plan, v, true);
    assert!(jobs.contains(&Job::DeployDxvk) && jobs.contains(&Job::DeployNvapi));
    assert_eq!(*jobs.last().unwrap(), Job::SaveCache);
    let first = prefix_jobs(v);
    let at = first.iter().position(|j| *j == Job::SetupPrefix).unwrap();
    assert!(first[..at].contains(&Job::InjectKeys) && first[..at].contains(&Job::SteamExe));
}

#[test]
fn a_small_program_and_the_one_it_starts_count_together() {
    let small = PeScanResult { render_api: 0, imports: texts(&["user32.dll", "nvngx.dll"]), needs_nvapi: false };
    let started = PeScanResult { render_api: 4, imports: texts(&["d3d12.dll", "user32.dll"]), needs_nvapi: true };
    let both = merged_scan(small, &started);
    assert_eq!(both.imports, texts(&["user32.dll", "nvngx.dll", "d3d12.dll"]));
    assert!(both.needs_nvapi);
    assert_eq!(both.render_api, 4);
    let plan = DeployPlan::from_scan(&Some(both), true);
    assert!(plan.needs_nvapi && plan.needs_dlss && plan.scan_hash != 0);
}

#[test]
fn libraries_of_an_earlier_launch_are_kept() {
    let route = nvapi_route("/proton", "/p");
    let there = Present::new(texts(&["/p/drive_c/windows/system32/nvapi64.dll"]));
    assert_eq!(kept_dlls(&route, &nvapi_dlls(), &there), texts(&["nvapi64"]));
}

#[test]
fn the_program_behind_a_small_one() {
    assert_eq!(shipping_dir("/g", "Game"), "/g/Game/Binaries/Win64");
    assert_eq!(
        shipping_candidates("Game", &texts(&["game-win64-shipping.EXE", "Game.exe"])),
        texts(&["game-win64-shipping.EXE"])
    );
    assert!(is_stale_segment("triskelion-1") && !is_stale_segment("x-triskelion-1"));
    assert_eq!(triskelion_exe_pub("/q/quark"), "/q/triskelion");
    assert_eq!(parallax_exe("/q/quark"), "/q/parallax");
    let plan = DeployPlan { needs_dxvk: true, needs_vkd3d: true, needs_nvapi: false, needs_dlss: false, scan_hash: 0 };
    assert_eq!(missing_libraries(plan, "/s", &there(&["/s/d3d11.dll"])), texts(&["d3d12.dll (VKD3D-Proton)"]));
}

fn launch_facts() -> LaunchFacts {
    LaunchFacts {
        wine64: "/w/bin/wine64".to_string(),
        wine_dir: "/w".to_string(),
        pfx: "/p".to_string(),
        server: "/q/triskelion".to_string(),
        args: texts(&["/g/a.exe", "-x"]),
        env: vec![("A".to_string(), "1".to_string()), ("WINEDLLPATH".to_string(), "old".to_string())],
        custom: vec![
            ("A".to_string(), "2".to_string()),
            ("WINEPREFIX".to_string(), "/elsewhere".to_string()),
        ],
        game_size: Some(77),
        steam_game_id: None,
        steam_app_id: Some("480".to_string()),
        compat_app_id: None,
        install_path: None,
        home: Some("/h".to_string()),
        winedebug: "-all".to_string(),
        ld_library_path: None,
        ld_preload: Some("/x/gameoverlayrenderer.so".to_string()),
    }
}

#[test]
fn the_command_that_is_run() {
    let f = launch_facts();
    let c = launch_command(&f, &there(&["/w/lib/wine/x86_64-unix"]));
    assert_eq!(c.words, texts(&["/w/bin/wine64", "C:\\windows\\system32\\steam.exe", "/g/a.exe", "-x"]));
    assert_eq!(var(&c.env, "A"), Some("2"));
    assert_eq!(var(&c.env, "WINEPREFIX"), Some("/p"));
    assert_eq!(var(&c.env, "WINESERVER"), Some("/q/triskelion"));
    assert_eq!(var(&c.env, "SteamAppId"), Some("480"));
    assert_eq!(var(&c.env, "QUARK_LINGER_HINT"), Some("77"));
    assert_eq!(var(&c.env, "WINEDLLPATH"), Some("/w/lib/wine/x86_64-unix"));
    assert_eq!(c.unset, texts(&["LD_PRELOAD"]));
    let asked = launch_lookups("/w");
    assert!(asked.contains(&"/w/lib/wine/x86_64-unix".to_string()));
}

#[test]
fn a_prefix_is_synced_when_variables_change() {
    let mut f = launch_facts();
    let (program, mark) = sync_prefix_env(&f, &there(&[]), &None).unwrap();
    let mut h = DefaultHasher::new();
    for (k, v) in &f.custom {
        k.hash(&mut h);
        v.hash(&mut h);
    }
    assert_eq!(mark, format!("{:016x}", h.finish()));
    assert_eq!(program.words, texts(&["/w/bin/wine64", "wineboot", "--update"]));
    assert_eq!(var(&program.env, "WINEDLLPATH"), None);
    assert!(sync_prefix_env(&f, &there(&[]), &Some(mark.clone() + "\n")).is_none());
    assert!(sync_prefix_env(&f, &there(&[]), &Some("1".to_string())).is_some());
    f.custom.push(("B".to_string(), "3".to_string()));
    let (_, other) = sync_prefix_env(&f, &there(&[]), &Some(mark.clone())).unwrap();
    assert_ne!(other, mark);
}

#[test]
fn how_a_program_ended() {
    assert_eq!(exit_code(Exit::Code { code: 3 }), 3);
    assert_eq!(exit_code(Exit::Signal { signal: 11 }), 1);
    assert_eq!(exit_info(Exit::Code { code: 0 }), "exit: 0 (clean)");
    assert_eq!(exit_info(Exit::Code { code: -2 }), "exit: -2 (error)");
    assert_eq!(exit_info(Exit::Signal { signal: 11 }), "killed by signal 11");
    assert_eq!(exit_info(Exit::Unknown), "unknown exit");
}

#[test]
fn saved_games_are_copied_and_put_back() {
    assert_eq!(save_scan_dirs().len(), 4);
    assert!(eq_ignore_case("MicroSoft", "Microsoft") && !eq_ignore_case("a", "b"));
    let all = vec![found("slot", true, 0), found("slot/1.sav", false, 10), found("2.sav", false, 5)];
    assert_eq!(count_files(&all), (2, 15));
    let dirs = vec![
        SaveDir { place: "Documents".to_string(), name: "Game".to_string(), dir: true, found: all },
        SaveDir { place: "Documents".to_string(), name: "x.txt".to_string(), dir: false, found: vec![] },
    ];
    let (ops, note) = snapshot_save_data("/u", "/b", &dirs).unwrap();
    assert_eq!(note, "2 files, 15 bytes\n");
    assert!(ops.iter().any(|o| matches!(o, FileOp::Copy { from, to }
        if from == "/u/Documents/Game/slot/1.sav" && to == "/b/Documents/Game/slot/1.sav")));
    assert!(snapshot_save_data("/u", "/b", &vec![]).is_none());
    let back = vec![found("slot", true, 0), found("slot/1.sav", false, 10), found("2.sav", false, 5)];
    let (ops, kept) = restore_missing_files("/b/g", "/u/g", &back, &there(&["/u/g/2.sav"]));
    assert_eq!(kept, 1);
    assert!(ops.iter().any(|o| matches!(o, FileOp::Restore { to, .. } if to == "/u/g/slot/1.sav")));
    assert!(!ops.iter().any(|o| matches!(o, FileOp::Restore { to, .. } if to == "/u/g/2.sav")));
    assert!(backup_done_with(0) != backup_done_with(3));
}

#[test]
fn lost_saves_are_put_back() {
    let copies = vec![SaveDir {
        place: "Documents".to_string(),
        name: "Game".to_string(),
        dir: true,
        found: vec![found("slot", true, 0), found("slot/1.sav", false, 10), found("2.sav", false, 5)],
    }];
    let (ops, unchanged) = restore_save_data("/u", "/b", &copies, &there(&["/u/Documents/Game/2.sav"]));
    assert_eq!((ops.len(), unchanged), (1, 1));
    assert!(matches!(&ops[0], FileOp::Restore { from, to }
        if from == "/b/Documents/Game/slot/1.sav" && to == "/u/Documents/Game/slot/1.sav"));
    let all = there(&["/u/Documents/Game/2.sav", "/u/Documents/Game/slot/1.sav"]);
    let (ops, unchanged) = restore_save_data("/u", "/b", &copies, &all);
    assert_eq!((ops.len(), unchanged), (0, 2));
    assert!(backup_done_with(ops.len() as u64));
}

#[test]
fn copies_of_saves_stand_beside_the_prefix() {
    let places = |pfx: &str| save_places(pfx);
    assert_eq!(
        places("/c/480/pfx"),
        ("/c/480/pfx/drive_c/users/steamuser".to_string(), "/c/480/save_backup".to_string())
    );
    assert_eq!(places("/pfx").1, "/save_backup");
    assert_eq!(places("pfx").1, "save_backup");
}

#[test]
fn saves_survive_a_launch() {
    let (user, backup) = save_places("/c/pfx");
    let listed = || {
        vec![SaveDir {
            place: "Documents".to_string(),
            name: "Game".to_string(),
            dir: true,
            found: vec![found("1.sav", false, 1), found("2.sav", false, 1)],
        }]
    };
    let (one, two) = (format!("{user}/Documents/Game/1.sav"), format!("{user}/Documents/Game/2.sav"));
    let mut files: HashMap<String, &'static str> = HashMap::new();
    files.insert(one.clone(), "old");
    files.insert(two.clone(), "old");
    let perform = |files: &mut HashMap<String, &'static str>, ops: &[FileOp]| {
        for op in ops {
            if let FileOp::Copy { from, to } | FileOp::Restore { from, to } = op {
                let text = files[from];
                files.insert(to.clone(), text);
            }
        }
    };
    let (ops, _) = snapshot_save_data(&user, &backup, &listed()).unwrap();
    perform(&mut files, &ops);
    files.remove(&one);
    files.insert(two.clone(), "new");
    let (ops, unchanged) = restore_save_data(&user, &backup, &listed(), &there(&[&two]));
    perform(&mut files, &ops);
    assert_eq!(unchanged, 1);
    assert_eq!((files[&one], files[&two]), ("old", "new"));
}

#[test]
fn crash_dumps_are_cleaned_up() {
    let all = vec![found("a.dmp", false, 1), found("b.sav", false, 1), found("c", true, 0), found("c/d.mdmp", false, 1)];
    let ops = clean_crash_dumps("/d", &all);
    assert!(ops.iter().any(|o| matches!(o, FileOp::Remove { path } if path == "/d/a.dmp")));
    assert!(!ops.iter().any(|o| matches!(o, FileOp::Remove { path } if path == "/d/b.sav")));
}

fn dirent(name: &str, d_type: u8) -> Vec<u8> {
    let len = (19 + name.len() + 1 + 7) / 8 * 8;
    let mut b = vec![0u8; len];
    b[16..18].copy_from_slice(&(len as u16).to_le_bytes());
    b[18] = d_type;
    b[19..19 + name.len()].copy_from_slice(name.as_bytes());
    b
}

#[test]
fn entries_of_a_directory() {
    let mut b = dirent(".", DT_DIR);
    b.extend(dirent("..", DT_DIR));
    b.extend(dirent("file", DT_REG));
    b.extend(dirent("link", DT_LNK));
    let n = b.len();
    assert!(dirents_fit(&b, n));
    let v = parse_dirents(&b, n);
    assert_eq!(v.len(), 2);
    assert_eq!((v[0].name.as_slice(), v[0].d_type), (&b"file"[..], DT_REG));
    assert_eq!(v[1].name, b"link".to_vec());
    assert!(!dirents_fit(&b, n + 1));
    assert!(!dirents_fit(&[0; 24], 24));
}

#[test]
fn what_becomes_of_an_entry() {
    assert_eq!(decide_entry(DT_DIR, None, None, true), EntryStep::Descend);
    assert_eq!(decide_entry(DT_REG, None, None, true), EntryStep::Keep);
    assert_eq!(decide_entry(DT_REG, None, None, false), EntryStep::Deploy);
    assert_eq!(decide_entry(DT_LNK, None, Some(true), true), EntryStep::Keep);
    assert_eq!(decide_entry(DT_LNK, None, Some(true), false), EntryStep::Relink);
    assert_eq!(decide_entry(DT_UNKNOWN, None, None, false), EntryStep::Skip);
    assert_eq!(decide_entry(DT_UNKNOWN, Some(EntryKind::Dir), None, false), EntryStep::Descend);
    assert_eq!(decide_entry(DT_UNKNOWN, Some(EntryKind::Other), None, false), EntryStep::Deploy);
    assert_eq!(deployed_by(EntryStep::Descend, true, 7), 7);
    assert_eq!(deployed_by(EntryStep::Relink, true, 7), 1);
    assert_eq!(deployed_by(EntryStep::Relink, false, 7), 0);
    assert_eq!(deployed_by(EntryStep::Deploy, true, 0), 1);
    assert_eq!(deployed_by(EntryStep::Deploy, false, 0), 0);
    assert_eq!(deployed_by(EntryStep::Keep, true, 7), 0);
    assert_eq!(deployed_by(EntryStep::Skip, false, 7), 0);
}

#[test]
fn where_the_libraries_of_nvidia_go() {
    let r = nvapi_route("/proton", "/p");
    assert_eq!(r.from, "/proton/lib/wine/nvapi/x86_64-windows");
    assert_eq!(r.to, "/p/drive_c/windows/system32");
    let r = dlss_route("/p");
    assert_eq!((r.from.as_str(), r.to.as_str()), ("/usr/lib/nvidia/wine", "/p/drive_c/windows/system32"));
}
