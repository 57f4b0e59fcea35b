//! Where Wine, Proton and Steam are.
use crate::bytes::{bits_of_i64, i64_bits};
use crate::paths::{join_path, path_join};
use crate::text::{same, starts_in, starts_with_text, views};
use crate::wire::opt_view;
use vstd::prelude::*;

verus! {

/// The paths, out of those that were looked up, at which there is something.
pub struct Present {
    paths: Vec<String>,
}

impl View for Present {
    type V = Set<Seq<char>>;

    closed spec fn view(&self) -> Set<Seq<char>> {
        Set::new(|p: Seq<char>| views(self.paths@).contains(p))
    }
}

impl Present {
    pub fn new(paths: Vec<String>) -> (r: Present)
        ensures
            forall|p: Seq<char>| #[trigger] r@.contains(p) <==> views(paths@).contains(p),
    {
        Present { paths }
    }

    /// Whether there is something at a path.
    pub fn holds(&self, path: &str) -> (r: bool)
        ensures
            r == self@.contains(path@),
    {
        let mut i: usize = 0;
        while i < self.paths.len()
            invariant
                i <= self.paths@.len(),
                forall|j: int| 0 <= j < i ==> #[trigger] self.paths@[j]@ != path@,
            decreases self.paths@.len() - i,
        {
            if same(self.paths[i].as_str(), path) {
                assert(views(self.paths@)[i as int] == path@);
                return true;
            }
            i = i + 1;
        }
        assert(!views(self.paths@).contains(path@)) by {
            if views(self.paths@).contains(path@) {
                let j = choose|j: int| 0 <= j < views(self.paths@).len() && views(self.paths@)[j] == path@;
                assert(self.paths@[j]@ == path@);
            }
        }
        false
    }

    /// Whether there is something at a path below a directory.
    pub fn holds_in(&self, dir: &str, rel: &str) -> (r: bool)
        ensures
            r == self@.contains(path_join(dir@, rel@)),
    {
        let p = join_path(dir, rel);
        self.holds(p.as_str())
    }
}

/// A directory has a Wine program: newer ones are called `wine`, older ones `wine64`.
pub open spec fn has_wine(present: Set<Seq<char>>, dir: Seq<char>) -> bool {
    present.contains(path_join(dir, "lib/wine/x86_64-unix/wine"@)) || present.contains(
        path_join(dir, "bin/wine64"@),
    ) || present.contains(path_join(dir, "bin/wine"@))
}

pub fn has_wine_bin(present: &Present, dir: &str) -> (r: bool)
    ensures
        r == has_wine(present@, dir@),
{
    present.holds_in(dir, "lib/wine/x86_64-unix/wine") || present.holds_in(dir, "bin/wine64")
        || present.holds_in(dir, "bin/wine")
}

/// The Wine program of a directory: the one beside its libraries comes first, for Wine finds its own
/// modules relative to them.
pub open spec fn wine_program(present: Set<Seq<char>>, dir: Seq<char>) -> Seq<char> {
    if present.contains(path_join(dir, "lib/wine/x86_64-unix/wine"@)) {
        path_join(dir, "lib/wine/x86_64-unix/wine"@)
    } else if present.contains(path_join(dir, "bin/wine64"@)) {
        path_join(dir, "bin/wine64"@)
    } else {
        path_join(dir, "bin/wine"@)
    }
}

pub fn wine_binary(present: &Present, dir: &str) -> (r: String)
    ensures
        r@ == wine_program(present@, dir@),
{
    if present.holds_in(dir, "lib/wine/x86_64-unix/wine") {
        join_path(dir, "lib/wine/x86_64-unix/wine")
    } else if present.holds_in(dir, "bin/wine64") {
        join_path(dir, "bin/wine64")
    } else {
        join_path(dir, "bin/wine")
    }
}

/// The directory of one Proton version.
pub open spec fn proton_files(home: Seq<char>, name: Seq<char>) -> Seq<char> {
    path_join(path_join(path_join(home, ".steam/root/steamapps/common"@), name), "files"@)
}

fn proton_dir(home: &str, name: &str) -> (r: String)
    ensures
        r@ == proton_files(home@, name@),
{
    let common = join_path(home, ".steam/root/steamapps/common");
    let dir = join_path(common.as_str(), name);
    join_path(dir.as_str(), "files")
}

/// The directories of the Proton versions among some names.
pub open spec fn protons_of(home: Seq<char>, names: Seq<Seq<char>>) -> Seq<Seq<char>>
    decreases names.len(),
{
    if names.len() == 0 {
        Seq::empty()
    } else {
        let before = protons_of(home, names.drop_last());
        if starts_in(names.last(), "Proton"@) {
            before.push(proton_files(home, names.last()))
        } else {
            before
        }
    }
}

/// Where Proton may be: the experimental version first, then any other in the order of the directory.
pub open spec fn proton_places(home: Seq<char>, names: Seq<Seq<char>>) -> Seq<Seq<char>> {
    seq![proton_files(home, "Proton - Experimental"@)] + protons_of(home, names)
}

/// The places where Proton may be, out of the names in Steam's directory of tools.
pub fn proton_candidates(home: &str, names: &Vec<String>) -> (r: Vec<String>)
    ensures
        views(r@) == proton_places(home@, views(names@)),
{
    let mut out: Vec<String> = Vec::new();
    out.push(proton_dir(home, "Proton - Experimental"));
    assert(views(out@) =~= proton_places(home@, views(names@).take(0)));
    let mut i: usize = 0;
    while i < names.len()
        invariant
            i <= names@.len(),
            views(out@) == proton_places(home@, views(names@).take(i as int)),
        decreases names@.len() - i,
    {
        let ghost before = views(out@);
        assert(views(names@).take(i + 1).drop_last() =~= views(names@).take(i as int));
        if starts_with_text(names[i].as_str(), "Proton") {
            let d = proton_dir(home, names[i].as_str());
            let ghost dv = d@;
            out.push(d);
            assert(views(out@) =~= before.push(dv));
        }
        i = i + 1;
        assert(views(out@) =~= proton_places(home@, views(names@).take(i as int)));
    }
    assert(views(names@).take(names@.len() as int) =~= views(names@));
    out
}

/// The first of some directories that holds something.
pub open spec fn first_holding(
    present: Set<Seq<char>>,
    dirs: Seq<Seq<char>>,
    rel: Seq<char>,
) -> Option<Seq<char>>
    decreases dirs.len(),
{
    if dirs.len() == 0 {
        None
    } else if present.contains(path_join(dirs[0], rel)) {
        Some(dirs[0])
    } else {
        first_holding(present, dirs.skip(1), rel)
    }
}

fn find_holding(present: &Present, dirs: &Vec<String>, rel: &str) -> (r: Option<String>)
    ensures
        opt_view(r) == first_holding(present@, views(dirs@), rel@),
{
    let mut i: usize = 0;
    assert(views(dirs@).skip(0) =~= views(dirs@));
    while i < dirs.len()
        invariant
            i <= dirs@.len(),
            first_holding(present@, views(dirs@).skip(i as int), rel@) == first_holding(
                present@,
                views(dirs@),
                rel@,
            ),
        decreases dirs@.len() - i,
    {
        assert(views(dirs@).skip(i as int).skip(1) =~= views(dirs@).skip(i + 1));
        if present.holds_in(dirs[i].as_str(), rel) {
            return Some(dirs[i].clone());
        }
        i = i + 1;
    }
    None
}

/// Finds the files of a Proton version, for what only Proton has.
pub fn find_proton_files(present: &Present, home: &str, names: &Vec<String>) -> (r: Option<String>)
    ensures
        opt_view(r) == first_holding(
            present@,
            proton_places(home@, views(names@)),
            "lib/wine"@,
        ),
{
    let dirs = proton_candidates(home, names);
    find_holding(present, &dirs, "lib/wine")
}

/// Where Steam may be: where it says that it is, its usual link, and its usual place.
pub open spec fn steam_places(own: Option<Seq<char>>, home: Seq<char>) -> Seq<Seq<char>> {
    (match own {
        Some(d) => seq![d],
        None => Seq::empty(),
    }) + seq![path_join(home, ".steam/root"@), path_join(home, ".local/share/Steam"@)]
}

/// The directories in which Steam is looked for.
pub fn steam_candidates(own: Option<String>, home: &str) -> (r: Vec<String>)
    ensures
        views(r@) == steam_places(opt_view(own), home@),
{
    let mut dirs: Vec<String> = Vec::new();
    match own {
        Some(d) => {
            dirs.push(d);
        },
        None => {},
    }
    dirs.push(join_path(home, ".steam/root"));
    dirs.push(join_path(home, ".local/share/Steam"));
    assert(views(dirs@) =~= steam_places(opt_view(own), home@));
    dirs
}

/// Finds Steam; the usual link where it is nowhere.
pub fn find_steam_dir(present: &Present, own: Option<String>, home: &str) -> (r: String)
    ensures
        r@ == match first_holding(
            present@,
            steam_places(opt_view(own), home@),
            "linux64/steamclient.so"@,
        ) {
            Some(d) => d,
            None => path_join(home@, ".steam/root"@),
        },
{
    let dirs = steam_candidates(own, home);
    match find_holding(present, &dirs, "linux64/steamclient.so") {
        Some(d) => d,
        None => join_path(home, ".steam/root"),
    }
}

/// A directory in which Wine may be.
pub struct WinePlace {
    pub dir: String,
    /// It is the launcher's own, which counts only with its own system library.
    pub staged: bool,
}

pub open spec fn place_views(v: Seq<WinePlace>) -> Seq<(Seq<char>, bool)> {
    v.map_values(|p: WinePlace| (p.dir@, p.staged))
}

/// Places that count whatever stands there.
pub open spec fn unstaged(dirs: Seq<Seq<char>>) -> Seq<(Seq<char>, bool)> {
    dirs.map_values(|d: Seq<char>| (d, false))
}

/// Where Wine may be: the user's choices, the launcher's own directory, Proton, the system.
pub open spec fn wine_places(
    own: Seq<Seq<char>>,
    self_dir: Option<Seq<char>>,
    home: Seq<char>,
    names: Seq<Seq<char>>,
) -> Seq<(Seq<char>, bool)> {
    unstaged(own) + (match self_dir {
        Some(d) => seq![(d, true)],
        None => Seq::empty(),
    }) + unstaged(proton_places(home, names)) + seq![("/usr"@, false)]
}

/// Wine can be run from a place.
pub open spec fn usable(present: Set<Seq<char>>, place: (Seq<char>, bool)) -> bool {
    has_wine(present, place.0) && (place.1 ==> present.contains(
        path_join(place.0, "lib/wine/x86_64-unix/ntdll.so"@),
    ))
}

/// The first place from which Wine can be run, or a path that does not exist.
pub open spec fn first_usable(present: Set<Seq<char>>, places: Seq<(Seq<char>, bool)>) -> Seq<char>
    decreases places.len(),
{
    if places.len() == 0 {
        "/nonexistent/wine"@
    } else if usable(present, places[0]) {
        places[0].0
    } else {
        first_usable(present, places.skip(1))
    }
}

fn push_places(out: &mut Vec<WinePlace>, dirs: &Vec<String>)
    ensures
        place_views(final(out)@) == place_views(old(out)@) + unstaged(views(dirs@)),
{
    let mut i: usize = 0;
    assert(place_views(out@) =~= place_views(out@) + unstaged(views(dirs@).take(0)));
    while i < dirs.len()
        invariant
            i <= dirs@.len(),
            place_views(out@) == place_views(old(out)@) + unstaged(views(dirs@).take(i as int)),
        decreases dirs@.len() - i,
    {
        let ghost before = out@;
        out.push(WinePlace { dir: dirs[i].clone(), staged: false });
        assert(place_views(out@) =~= place_views(before).push((dirs@[i as int]@, false)));
        i = i + 1;
        assert(unstaged(views(dirs@).take(i as int)) =~= unstaged(views(dirs@).take(i - 1)).push(
            (dirs@[i - 1]@, false),
        ));
        assert(place_views(out@) =~= place_views(old(out)@) + unstaged(
            views(dirs@).take(i as int),
        ));
    }
    assert(views(dirs@).take(dirs@.len() as int) =~= views(dirs@));
}

/// The places where Wine is looked for. `own` holds the directories that the user chose.
pub fn wine_candidates(
    own: &Vec<String>,
    self_dir: Option<String>,
    home: &str,
    names: &Vec<String>,
) -> (r: Vec<WinePlace>)
    ensures
        place_views(r@) == wine_places(views(own@), opt_view(self_dir), home@, views(names@)),
{
    let mut out: Vec<WinePlace> = Vec::new();
    push_places(&mut out, own);
    assert(place_views(out@) =~= unstaged(views(own@)));
    match self_dir {
        Some(d) => {
            let ghost before = out@;
            let ghost dv = d@;
            out.push(WinePlace { dir: d, staged: true });
            assert(place_views(out@) =~= place_views(before).push((dv, true)));
        },
        None => {},
    }
    let protons = proton_candidates(home, names);
    push_places(&mut out, &protons);
    let ghost before = out@;
    out.push(WinePlace { dir: "/usr".to_string(), staged: false });
    assert(place_views(out@) =~= place_views(before).push(("/usr"@, false)));
    assert(place_views(out@) =~= wine_places(
        views(own@),
        opt_view(self_dir),
        home@,
        views(names@),
    ));
    out
}

/// Finds the Wine that is run.
pub fn find_wine(present: &Present, places: &Vec<WinePlace>) -> (r: String)
    ensures
        r@ == first_usable(present@, place_views(places@)),
{
    let mut i: usize = 0;
    assert(place_views(places@).skip(0) =~= place_views(places@));
    while i < places.len()
        invariant
            i <= places@.len(),
            first_usable(present@, place_views(places@).skip(i as int)) == first_usable(
                present@,
                place_views(places@),
            ),
        decreases places@.len() - i,
    {
        assert(place_views(places@).skip(i as int).skip(1) =~= place_views(places@).skip(i + 1));
        let dir = places[i].dir.as_str();
        if has_wine_bin(present, dir) && (!places[i].staged || present.holds_in(
            dir,
            "lib/wine/x86_64-unix/ntdll.so",
        )) {
            return places[i].dir.clone();
        }
        i = i + 1;
    }
    "/nonexistent/wine".to_string()
}

/// An earlier place from which Wine can be run wins over all later ones.
pub proof fn lemma_earlier_place_wins(
    present: Set<Seq<char>>,
    places: Seq<(Seq<char>, bool)>,
    i: int,
)
    requires
        0 <= i < places.len(),
        usable(present, places[i]),
        forall|j: int| 0 <= j < i ==> !usable(present, #[trigger] places[j]),
    ensures
        first_usable(present, places) == places[i].0,
    decreases i,
{
    if i > 0 {
        assert(!usable(present, places[0]));
        assert forall|j: int| 0 <= j < i - 1 implies !usable(
            present,
            #[trigger] places.skip(1)[j],
        ) by {
            assert(places.skip(1)[j] == places[j + 1]);
        }
        lemma_earlier_place_wins(present, places.skip(1), i - 1);
    }
}

/// The directory whose graphics libraries are deployed: the first that has them, else Wine's own.
pub fn dxvk_source(
    present: &Present,
    tool_dir: &str,
    wine_dir: &str,
    proton: &Option<String>,
) -> (r: String)
    ensures
        r@ == match first_holding(
            present@,
            seq![tool_dir@, wine_dir@] + (match *proton {
                Some(p) => seq![p@],
                None => Seq::empty(),
            }),
            "lib/wine/dxvk/x86_64-windows/d3d11.dll"@,
        ) {
            Some(d) => d,
            None => wine_dir@,
        },
{
    let mut dirs: Vec<String> = Vec::new();
    dirs.push(tool_dir.to_string());
    dirs.push(wine_dir.to_string());
    match proton {
        Some(p) => {
            dirs.push(p.clone());
        },
        None => {},
    }
    assert(views(dirs@) =~= seq![tool_dir@, wine_dir@] + (match *proton {
        Some(p) => seq![p@],
        None => Seq::empty(),
    }));
    match find_holding(present, &dirs, "lib/wine/dxvk/x86_64-windows/d3d11.dll") {
        Some(d) => d,
        None => wine_dir.to_string(),
    }
}

/// The words that start Wine. Where it can be, Wine runs in a mount namespace of its own in which the
/// system's Wine directories are those of `wine_dir`.
pub open spec fn wine_words(
    present: Set<Seq<char>>,
    wine_bin: Seq<char>,
    wine_dir: Seq<char>,
) -> Seq<Seq<char>> {
    let lib = path_join(wine_dir, "lib/wine"@);
    let share = path_join(wine_dir, "share/wine"@);
    if present.contains("/usr/bin/bwrap"@) && present.contains(lib) && present.contains(share) {
        seq![
            "/usr/bin/bwrap"@,
            "--dev-bind"@,
            "/"@,
            "/"@,
            "--bind"@,
            lib,
            "/usr/lib/wine"@,
            "--bind"@,
            share,
            "/usr/share/wine"@,
            "--die-with-parent"@,
            "--"@,
            wine_bin,
        ]
    } else {
        seq![wine_bin]
    }
}

pub fn build_wine_command(present: &Present, wine_bin: &str, wine_dir: &str) -> (r: Vec<String>)
    ensures
        views(r@) == wine_words(present@, wine_bin@, wine_dir@),
{
    let lib = join_path(wine_dir, "lib/wine");
    let share = join_path(wine_dir, "share/wine");
    let ghost (lv, sv) = (lib@, share@);
    let mut out: Vec<String> = Vec::new();
    if present.holds("/usr/bin/bwrap") && present.holds(lib.as_str()) && present.holds(
        share.as_str(),
    ) {
        out.push("/usr/bin/bwrap".to_string());
        out.push("--dev-bind".to_string());
        out.push("/".to_string());
        out.push("/".to_string());
        out.push("--bind".to_string());
        out.push(lib);
        out.push("/usr/lib/wine".to_string());
        out.push("--bind".to_string());
        out.push(share);
        out.push("/usr/share/wine".to_string());
        out.push("--die-with-parent".to_string());
        out.push("--".to_string());
    }
    out.push(wine_bin.to_string());
    assert(views(out@) =~= wine_words(present@, wine_bin@, wine_dir@));
    out
}

/// A number for the state of a directory, from its device, its number on the device and the time of its
/// last change; 0 where it cannot be looked up.
pub fn dir_hash(meta: Option<(u64, u64, i64)>) -> (r: u64)
    ensures
        r == match meta {
            Some((dev, ino, mtime)) => (dev.wrapping_mul(6364136223846793005) ^ ino.wrapping_mul(
                1442695040888963407,
            )) ^ i64_bits(mtime),
            None => 0,
        },
{
    match meta {
        Some((dev, ino, mtime)) => dev.wrapping_mul(6364136223846793005) ^ ino.wrapping_mul(
            1442695040888963407,
        ) ^ bits_of_i64(mtime),
        None => 0,
    }
}

/// Any of three programs makes a directory one that has Wine, and the one beside the libraries is run before
/// `wine64`, and that before `wine`.
pub proof fn lemma_wine_programs(present: Set<Seq<char>>, dir: Seq<char>)
    ensures
        ({
            let a = path_join(dir, "lib/wine/x86_64-unix/wine"@);
            let b = path_join(dir, "bin/wine64"@);
            let c = path_join(dir, "bin/wine"@);
            &&& present.contains(a) ==> has_wine(present, dir) && wine_program(present, dir) == a
            &&& !present.contains(a) && present.contains(b) ==> has_wine(present, dir) && wine_program(
                present,
                dir,
            ) == b
            &&& !present.contains(a) && !present.contains(b) ==> wine_program(present, dir) == c
            &&& !present.contains(a) && !present.contains(b) ==> (has_wine(present, dir) <==> present.contains(c))
        }),
{
}

/// The experimental Proton is looked at before every other; any other is told by how its name starts.
pub proof fn lemma_protons(home: Seq<char>, names: Seq<Seq<char>>, k: int)
    ensures
        proton_places(home, names)[0] == path_join(
            path_join(path_join(home, ".steam/root/steamapps/common"@), "Proton - Experimental"@),
            "files"@,
        ),
        0 <= k < names.len() && names[k].len() >= 6 && names[k].subrange(0, 6) == seq!['P', 'r', 'o', 't', 'o', 'n']
            ==> proton_places(home, names).contains(
            path_join(path_join(path_join(home, ".steam/root/steamapps/common"@), names[k]), "files"@),
        ),
        names.len() == 0 ==> proton_places(home, names).len() == 1,
        proton_places(home, names).len() <= 1 + names.len(),
    decreases names.len(),
{
    reveal_strlit("Proton");
    assert("Proton"@ =~= seq!['P', 'r', 'o', 't', 'o', 'n']);
    if names.len() > 0 {
        let d = names.drop_last();
        let all = protons_of(home, names);
        let before = protons_of(home, d);
        lemma_protons(home, d, k);
        if 0 <= k < names.len() && starts_in(names[k], "Proton"@) {
            let x = proton_files(home, names[k]);
            let p = proton_places(home, names);
            if k < d.len() {
                assert(d[k] == names[k]);
                let q = proton_places(home, d);
                let j = choose|j: int| 0 <= j < q.len() && q[j] == x;
                assert(p[j] == x);
            } else {
                assert(p[p.len() - 1] == x);
            }
        }
    }
}

/// Of several directories the first that holds what is looked for is taken.
pub proof fn lemma_first_that_holds(present: Set<Seq<char>>, dirs: Seq<Seq<char>>, rel: Seq<char>, k: int)
    ensures
        0 <= k < dirs.len() && present.contains(path_join(dirs[k], rel)) && (forall|i: int|
            0 <= i < k ==> !present.contains(path_join(#[trigger] dirs[i], rel))) ==> first_holding(
            present,
            dirs,
            rel,
        ) == Some(dirs[k]),
        (forall|i: int| 0 <= i < dirs.len() ==> !present.contains(path_join(#[trigger] dirs[i], rel)))
            ==> first_holding(present, dirs, rel) is None,
    decreases dirs.len(),
{
    if dirs.len() > 0 {
        let d = dirs.skip(1);
        lemma_first_that_holds(present, d, rel, k - 1);
        assert forall|i: int| 0 <= i < d.len() implies #[trigger] d[i] == dirs[i + 1] by {}
        if k > 0 && k < dirs.len() {
            assert(d[k - 1] == dirs[k]);
        }
    }
}

/// Steam is looked for where it says that it is, then behind its link, then at its usual place.
pub proof fn lemma_places_of_steam(own: Seq<char>, home: Seq<char>)
    ensures
        steam_places(Some(own), home) == seq![
            own,
            path_join(home, ".steam/root"@),
            path_join(home, ".local/share/Steam"@),
        ],
        steam_places(None, home) == seq![path_join(home, ".steam/root"@), path_join(home, ".local/share/Steam"@)],
{
}

/// Wine is looked for first where the user says, then in the launcher's own directory, then in Proton's, the
/// experimental one first, and last in the system. Only the launcher's own place needs its own system library.
pub proof fn lemma_places_of_wine(
    own: Seq<Seq<char>>,
    d: Seq<char>,
    home: Seq<char>,
    names: Seq<Seq<char>>,
    present: Set<Seq<char>>,
    k: int,
)
    ensures
        ({
            let w = wine_places(own, Some(d), home, names);
            &&& 0 <= k < own.len() ==> w[k] == (own[k], false)
            &&& w[own.len() as int] == (d, true)
            &&& w[own.len() as int + 1] == (proton_places(home, names)[0], false)
            &&& w.last() == ("/usr"@, false)
            &&& w.len() == own.len() + 2 + proton_places(home, names).len()
        }),
        usable(present, (d, false)) <==> has_wine(present, d),
        usable(present, (d, true)) <==> has_wine(present, d) && present.contains(
            path_join(d, "lib/wine/x86_64-unix/ntdll.so"@),
        ),
        first_usable(present, Seq::empty()) == "/nonexistent/wine"@,
{
}

/// Where the tool for it, Wine's modules and its data are there Wine runs with its own modules and data in
/// place of the system's; else it runs as it is. The program stands last either way.
pub proof fn lemma_words_of_wine(present: Set<Seq<char>>, wine_bin: Seq<char>, wine_dir: Seq<char>)
    ensures
        ({
            let lib = path_join(wine_dir, "lib/wine"@);
            let share = path_join(wine_dir, "share/wine"@);
            let w = wine_words(present, wine_bin, wine_dir);
            &&& w.last() == wine_bin
            &&& present.contains("/usr/bin/bwrap"@) && present.contains(lib) && present.contains(share) ==> w.len()
                == 13 && w[0] == "/usr/bin/bwrap"@ && w[1] == "--dev-bind"@ && w[2] == "/"@ && w[3] == "/"@ && w[4]
                == "--bind"@ && w[5] == lib && w[6] == "/usr/lib/wine"@ && w[7] == "--bind"@ && w[8] == share
                && w[9] == "/usr/share/wine"@ && w[10] == "--die-with-parent"@ && w[11] == "--"@
            &&& !present.contains("/usr/bin/bwrap"@) || !present.contains(lib) || !present.contains(share)
                ==> w.len() == 1
        }),
{
}

} // verus!
