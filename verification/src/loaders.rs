//! The loader installation strategies' decisions.
//!
//! Four installation mechanisms converge on one `LoaderProfile`: Fabric and
//! Quilt translate a fetched profile document, Forge and NeoForge run the
//! processor engine over an installer archive. Everything here is the
//! deciding and translating; fetching and writing happen around it.

use vstd::prelude::*;

use crate::instance::ModLoader;
use crate::maven::{maven_rel_path, maven_to_path, maven_wellformed};
use crate::models::{
    ForgeArgValue, ForgeArguments, ForgeLibEntry, ForgeVersionJson, LoaderLibrary, LoaderProfile,
};
use crate::text::{chars_of, is_suffix_of, push_all, push_str_chars, string_from_chars};

verus! {

// ---------------------------------------------------------------------------
// Dispatch
// ---------------------------------------------------------------------------

/// Checks an installation request before any work: vanilla is not an
/// installable loader, and the two installer-driven loaders need a resolved
/// Java runtime for their processors.
pub fn validate_install_request(loader: &ModLoader, has_java: bool) -> (r: Result<(), String>)
    ensures
        loader is Vanilla ==> r is Err && r->Err_0@ == "Cannot install Vanilla as a loader"@,
        loader is Forge && !has_java ==> r is Err && r->Err_0@
            == "Java path required for Forge installation"@,
        loader is NeoForge && !has_java ==> r is Err && r->Err_0@
            == "Java path required for NeoForge installation"@,
        loader is Fabric || loader is Quilt ==> r is Ok,
        (loader is Forge || loader is NeoForge) && has_java ==> r is Ok,
{
    match loader {
        ModLoader::Vanilla => {
            let m = chars_of("Cannot install Vanilla as a loader");
            Err(string_from_chars(&m))
        },
        ModLoader::Forge => {
            if has_java {
                Ok(())
            } else {
                let m = chars_of("Java path required for Forge installation");
                Err(string_from_chars(&m))
            }
        },
        ModLoader::NeoForge => {
            if has_java {
                Ok(())
            } else {
                let m = chars_of("Java path required for NeoForge installation");
                Err(string_from_chars(&m))
            }
        },
        ModLoader::Fabric => Ok(()),
        ModLoader::Quilt => Ok(()),
    }
}

// ---------------------------------------------------------------------------
// Fabric and Quilt
// ---------------------------------------------------------------------------

/// The Fabric metadata service's profile document for one game/loader pair.
pub fn fabric_profile_url(game_version: &str, loader_version: &str) -> (r: String)
    ensures
        r@ == "https://meta.fabricmc.net/v2/versions/loader/"@ + game_version@ + "/"@
            + loader_version@ + "/profile/json"@,
{
    let mut out: Vec<char> = Vec::new();
    push_str_chars(&mut out, "https://meta.fabricmc.net/v2/versions/loader/");
    push_str_chars(&mut out, game_version);
    push_str_chars(&mut out, "/");
    push_str_chars(&mut out, loader_version);
    push_str_chars(&mut out, "/profile/json");
    string_from_chars(&out)
}

/// The Quilt metadata service's profile document for one game/loader pair.
pub fn quilt_profile_url(game_version: &str, loader_version: &str) -> (r: String)
    ensures
        r@ == "https://meta.quiltmc.org/v3/versions/loader/"@ + game_version@ + "/"@
            + loader_version@ + "/profile/json"@,
{
    let mut out: Vec<char> = Vec::new();
    push_str_chars(&mut out, "https://meta.quiltmc.org/v3/versions/loader/");
    push_str_chars(&mut out, game_version);
    push_str_chars(&mut out, "/");
    push_str_chars(&mut out, loader_version);
    push_str_chars(&mut out, "/profile/json");
    string_from_chars(&out)
}

/// Name and repository views of loader libraries.
pub open spec fn lib_views(s: Seq<LoaderLibrary>) -> Seq<(Seq<char>, Option<Seq<char>>)> {
    s.map_values(
        |l: LoaderLibrary|
            (
                l.name@,
                match l.url {
                    Some(u) => Some(u@),
                    None => None,
                },
            ),
    )
}

/// A fetched profile's libraries with every missing repository defaulted to
/// the loader's canonical Maven host.
pub open spec fn defaulted_lib_views(s: Seq<LoaderLibrary>, default_maven: Seq<char>) -> Seq<
    (Seq<char>, Option<Seq<char>>),
> {
    s.map_values(
        |l: LoaderLibrary|
            (
                l.name@,
                Some(
                    match l.url {
                        Some(u) => u@,
                        None => default_maven,
                    },
                ),
            ),
    )
}

/// Translates a fetched profile document one-to-one into the normalized
/// `LoaderProfile`, defaulting each library's repository to the loader's
/// canonical Maven host when the document names none.
pub fn loader_profile_from_parts(
    main_class: String,
    libraries: Vec<LoaderLibrary>,
    jvm_args: Vec<String>,
    game_args: Vec<String>,
    default_maven: &str,
) -> (r: LoaderProfile)
    ensures
        r.main_class@ == main_class@,
        lib_views(r.libraries@) == defaulted_lib_views(libraries@, default_maven@),
        r.jvm_args@ == jvm_args@,
        r.game_args@ == game_args@,
{
    let mut out_libs: Vec<LoaderLibrary> = Vec::new();
    let mut i: usize = 0;
    while i < libraries.len()
        invariant
            i <= libraries@.len(),
            lib_views(out_libs@) == defaulted_lib_views(
                libraries@.subrange(0, i as int),
                default_maven@,
            ),
        decreases libraries@.len() - i,
    {
        let url: String = match &libraries[i].url {
            Some(u) => u.clone(),
            None => {
                let d = chars_of(default_maven);
                string_from_chars(&d)
            },
        };
        let lib = LoaderLibrary { name: libraries[i].name.clone(), url: Some(url) };
        let ghost x = lib;
        let ghost pre = out_libs@;
        out_libs.push(lib);
        proof {
            let cur = libraries@.subrange(0, i as int + 1);
            assert(cur.drop_last() =~= libraries@.subrange(0, i as int));
            assert(lib_views(pre.push(x)) =~= lib_views(pre).push(
                (
                    x.name@,
                    match x.url {
                        Some(u) => Some(u@),
                        None => None,
                    },
                ),
            ));
            assert(defaulted_lib_views(cur, default_maven@) =~= defaulted_lib_views(
                libraries@.subrange(0, i as int),
                default_maven@,
            ).push(
                (
                    libraries@[i as int].name@,
                    Some(
                        match libraries@[i as int].url {
                            Some(u) => u@,
                            None => default_maven@,
                        },
                    ),
                ),
            ));
            assert(lib_views(out_libs@) =~= defaulted_lib_views(cur, default_maven@));
        }
        i += 1;
    }
    proof {
        assert(libraries@.subrange(0, libraries@.len() as int) =~= libraries@);
    }
    LoaderProfile { main_class, libraries: out_libs, jvm_args, game_args }
}

/// The download of one loader library: its Maven-derived relative path under
/// the libraries directory, fetched from its repository — or from the
/// game's canonical library host when the profile named none.
pub open spec fn loader_download_views(
    libs: Seq<LoaderLibrary>,
    present: Seq<bool>,
) -> Seq<(Seq<char>, Seq<char>)>
    recommends
        libs.len() == present.len(),
    decreases libs.len(),
{
    if libs.len() == 0 {
        Seq::empty()
    } else {
        let rest = loader_download_views(libs.drop_last(), present.drop_last());
        let l = libs.last();
        if !present.last() {
            let rel = maven_rel_path(l.name@);
            let base = match l.url {
                Some(u) => u@,
                None => "https://libraries.minecraft.net/"@,
            };
            rest.push((base + rel, rel))
        } else {
            rest
        }
    }
}

/// Plans the downloads for a profile's libraries: one per absent file, in
/// profile order, each `(url, relative path)`.
pub fn plan_loader_downloads(libs: &Vec<LoaderLibrary>, present: &Vec<bool>) -> (r: Vec<
    (String, String),
>)
    requires
        libs@.len() == present@.len(),
        forall|i: int| 0 <= i < libs@.len() ==> maven_wellformed((#[trigger] libs@[i]).name@),
    ensures
        crate::forge::kv_views(r@) == loader_download_views(libs@, present@),
{
    let mut out: Vec<(String, String)> = Vec::new();
    let mut i: usize = 0;
    while i < libs.len()
        invariant
            i <= libs@.len(),
            libs@.len() == present@.len(),
            forall|k: int| 0 <= k < libs@.len() ==> maven_wellformed((#[trigger] libs@[k]).name@),
            crate::forge::kv_views(out@) == loader_download_views(
                libs@.subrange(0, i as int),
                present@.subrange(0, i as int),
            ),
        decreases libs@.len() - i,
    {
        proof {
            let cl = libs@.subrange(0, i as int + 1);
            let cp = present@.subrange(0, i as int + 1);
            assert(cl.drop_last() =~= libs@.subrange(0, i as int));
            assert(cp.drop_last() =~= present@.subrange(0, i as int));
            assert(cl.last() == libs@[i as int]);
            assert(cp.last() == present@[i as int]);
        }
        if !present[i] {
            let rel = maven_to_path(libs[i].name.as_str());
            let mut u: Vec<char> = Vec::new();
            match &libs[i].url {
                Some(base) => {
                    push_str_chars(&mut u, base.as_str());
                },
                None => {
                    push_str_chars(&mut u, "https://libraries.minecraft.net/");
                },
            }
            push_str_chars(&mut u, rel.as_str());
            let url = string_from_chars(&u);
            let ghost pre = out@;
            let ghost x = (url, rel);
            out.push((url, rel));
            proof {
                assert(out@ == pre.push(x));
                assert(crate::forge::kv_views(pre.push(x)) =~= crate::forge::kv_views(pre).push(
                    (x.0@, x.1@),
                ));
            }
        }
        i += 1;
    }
    proof {
        assert(libs@.subrange(0, libs@.len() as int) =~= libs@);
        assert(present@.subrange(0, present@.len() as int) =~= present@);
    }
    out
}

// ---------------------------------------------------------------------------
// Forge and NeoForge
// ---------------------------------------------------------------------------

/// The Forge installer's download URL for one game/loader pair.
pub fn forge_installer_url(game_version: &str, forge_version: &str) -> (r: String)
    ensures
        r@ == "https://maven.minecraftforge.net/net/minecraftforge/forge/"@ + game_version@ + "-"@
            + forge_version@ + "/forge-"@ + game_version@ + "-"@ + forge_version@
            + "-installer.jar"@,
{
    let mut out: Vec<char> = Vec::new();
    push_str_chars(&mut out, "https://maven.minecraftforge.net/net/minecraftforge/forge/");
    push_str_chars(&mut out, game_version);
    push_str_chars(&mut out, "-");
    push_str_chars(&mut out, forge_version);
    push_str_chars(&mut out, "/forge-");
    push_str_chars(&mut out, game_version);
    push_str_chars(&mut out, "-");
    push_str_chars(&mut out, forge_version);
    push_str_chars(&mut out, "-installer.jar");
    string_from_chars(&out)
}

/// The NeoForge installer's download URL for one release.
pub fn neoforge_installer_url(neoforge_version: &str) -> (r: String)
    ensures
        r@ == "https://maven.neoforged.net/releases/net/neoforged/neoforge/"@ + neoforge_version@
            + "/neoforge-"@ + neoforge_version@ + "-installer.jar"@,
{
    let mut out: Vec<char> = Vec::new();
    push_str_chars(&mut out, "https://maven.neoforged.net/releases/net/neoforged/neoforge/");
    push_str_chars(&mut out, neoforge_version);
    push_str_chars(&mut out, "/neoforge-");
    push_str_chars(&mut out, neoforge_version);
    push_str_chars(&mut out, "-installer.jar");
    string_from_chars(&out)
}

/// The library base host the two installer-driven loaders fall back to when
/// an artifact brings no direct URL.
pub fn vendor_maven_host(loader: &ModLoader) -> (r: String)
    ensures
        loader is NeoForge ==> r@ == "https://maven.neoforged.net/releases/"@,
        !(loader is NeoForge) ==> r@ == "https://maven.minecraftforge.net/"@,
{
    match loader {
        ModLoader::NeoForge => {
            let m = chars_of("https://maven.neoforged.net/releases/");
            string_from_chars(&m)
        },
        _ => {
            let m = chars_of("https://maven.minecraftforge.net/");
            string_from_chars(&m)
        },
    }
}

/// The NeoForge release prefix of a game version: the version without its
/// leading `1.`, a dot appended — releases are listed as `minor.patch.build`.
pub open spec fn neoforge_prefix_of(game: Seq<char>) -> Seq<char> {
    if crate::text::is_prefix_of("1."@, game) {
        game.subrange(2, game.len() as int) + "."@
    } else {
        game + "."@
    }
}

/// Builds the NeoForge release prefix for a game version.
pub fn neoforge_version_prefix(game_version: &str) -> (r: String)
    ensures
        r@ == neoforge_prefix_of(game_version@),
{
    let g = chars_of(game_version);
    let one_dot = chars_of("1.");
    proof {
        reveal_strlit("1.");
    }
    let mut out: Vec<char> = Vec::new();
    if crate::text::starts_with(&g, &one_dot) {
        let rest = crate::text::slice_range(&g, 2, g.len());
        push_all(&mut out, &rest);
    } else {
        push_all(&mut out, &g);
    }
    push_str_chars(&mut out, ".");
    string_from_chars(&out)
}

/// The releases that carry the prefix, newest first: the listing is oldest
/// first, so the kept entries are reversed.
pub open spec fn neoforge_filtered(versions: Seq<Seq<char>>, prefix: Seq<char>) -> Seq<Seq<char>>
    decreases versions.len(),
{
    if versions.len() == 0 {
        Seq::empty()
    } else {
        let rest = neoforge_filtered(versions.drop_first(), prefix);
        if crate::text::is_prefix_of(prefix, versions.first()) {
            rest.push(versions.first())
        } else {
            rest
        }
    }
}

/// Filters a NeoForge release listing down to the game version's releases,
/// newest first.
pub fn filter_neoforge_versions(versions: &Vec<String>, game_version: &str) -> (r: Vec<String>)
    ensures
        crate::resolver::string_views(r@) == neoforge_filtered(
            crate::resolver::string_views(versions@),
            neoforge_prefix_of(game_version@),
        ),
{
    let prefix_s = neoforge_version_prefix(game_version);
    let prefix = chars_of(prefix_s.as_str());
    let ghost vs = crate::resolver::string_views(versions@);
    let mut out: Vec<String> = Vec::new();
    let mut i: usize = versions.len();
    proof {
        assert(vs.subrange(versions@.len() as int, versions@.len() as int)
            =~= Seq::<Seq<char>>::empty());
    }
    while i > 0
        invariant
            i <= versions@.len(),
            vs == crate::resolver::string_views(versions@),
            vs.len() == versions@.len(),
            prefix@ == neoforge_prefix_of(game_version@),
            crate::resolver::string_views(out@) == neoforge_filtered(
                vs.subrange(i as int, vs.len() as int),
                prefix@,
            ),
        decreases i,
    {
        i -= 1;
        proof {
            let cur = vs.subrange(i as int, vs.len() as int);
            let pre = vs.subrange(i as int + 1, vs.len() as int);
            assert(cur.drop_first() =~= pre);
            assert(cur.first() == vs[i as int]);
            assert(vs[i as int] == versions@[i as int]@);
        }
        let v = chars_of(versions[i].as_str());
        if crate::text::starts_with(&v, &prefix) {
            let ghost pre_out = out@;
            let ghost x = versions@[i as int];
            out.push(versions[i].clone());
            proof {
                assert(out@ == pre_out.push(x));
                assert(crate::resolver::string_views(pre_out.push(x))
                    =~= crate::resolver::string_views(pre_out).push(x@));
                assert(crate::resolver::string_views(out@) =~= neoforge_filtered(
                    vs.subrange(i as int, vs.len() as int),
                    prefix@,
                ));
            }
        }
    }
    proof {
        assert(vs.subrange(0, vs.len() as int) =~= vs);
    }
    out
}

// ---------------------------------------------------------------------------
// The version document's translation
// ---------------------------------------------------------------------------

/// The repository a version-document library downloads from: the per-library
/// path suffix stripped off its known artifact URL, the vendor host when the
/// stripping fails or no artifact is given.
pub open spec fn reverse_base_of(lib: ForgeLibEntry, fallback: Seq<char>) -> Option<Seq<char>> {
    if lib.downloads is Some && lib.downloads->Some_0.artifact is Some {
        let url = lib.downloads->Some_0.artifact->Some_0.url@;
        let rel = maven_rel_path(lib.name@);
        if is_suffix_of(rel, url) {
            Some(url.subrange(0, url.len() - rel.len()))
        } else {
            Some(fallback)
        }
    } else {
        None
    }
}

/// The plain-text arguments of an argument list, structured entries dropped.
pub open spec fn text_args(args: Seq<ForgeArgValue>) -> Seq<Seq<char>>
    decreases args.len(),
{
    if args.len() == 0 {
        Seq::empty()
    } else {
        let rest = text_args(args.drop_last());
        match args.last() {
            ForgeArgValue::Text(s) => rest.push(s@),
            ForgeArgValue::Structured => rest,
        }
    }
}

/// The plain-text arguments of an optional argument list.
pub open spec fn opt_text_args(args: Option<Vec<ForgeArgValue>>) -> Seq<Seq<char>> {
    match args {
        None => Seq::empty(),
        Some(v) => text_args(v@),
    }
}

fn collect_text_args(args: &Option<Vec<ForgeArgValue>>) -> (r: Vec<String>)
    ensures
        crate::resolver::string_views(r@) == opt_text_args(*args),
{
    let mut out: Vec<String> = Vec::new();
    match args {
        None => {
            proof {
                assert(crate::resolver::string_views(out@) =~= Seq::<Seq<char>>::empty());
            }
            out
        },
        Some(v) => {
            let mut i: usize = 0;
            while i < v.len()
                invariant
                    i <= v@.len(),
                    *args is Some,
                    v@ == (*args)->Some_0@,
                    crate::resolver::string_views(out@) == text_args(v@.subrange(0, i as int)),
                decreases v@.len() - i,
            {
                proof {
                    let cur = v@.subrange(0, i as int + 1);
                    assert(cur.drop_last() =~= v@.subrange(0, i as int));
                    assert(cur.last() == v@[i as int]);
                }
                match &v[i] {
                    ForgeArgValue::Text(s) => {
                        let ghost pre = out@;
                        let ghost x = s;
                        out.push(s.clone());
                        proof {
                            assert(out@ == pre.push(*x));
                            assert(crate::resolver::string_views(pre.push(*x))
                                =~= crate::resolver::string_views(pre).push(x@));
                            assert(crate::resolver::string_views(out@) =~= text_args(
                                v@.subrange(0, i as int + 1),
                            ));
                        }
                    },
                    ForgeArgValue::Structured => {},
                }
                i += 1;
            }
            proof {
                assert(v@.subrange(0, v@.len() as int) =~= v@);
            }
            out
        },
    }
}

/// The library views a version document translates to: each library with its
/// reverse-derived repository.
pub open spec fn forge_lib_views(libs: Seq<ForgeLibEntry>, fallback: Seq<char>) -> Seq<
    (Seq<char>, Option<Seq<char>>),
> {
    libs.map_values(|l: ForgeLibEntry| (l.name@, reverse_base_of(l, fallback)))
}

/// Every library name of the document is a well-formed coordinate.
pub open spec fn forge_libs_resolvable(libs: Seq<ForgeLibEntry>) -> bool {
    forall|i: int| 0 <= i < libs.len() ==> maven_wellformed((#[trigger] libs[i]).name@)
}

/// Translates the installer's embedded version document into the normalized
/// `LoaderProfile`: each library's repository is reverse-derived by stripping
/// its Maven path off its artifact URL, falling back to the Forge vendor
/// host, and only plain-text arguments carry over.
pub fn forge_version_to_loader_profile(version_json: &ForgeVersionJson) -> (r: LoaderProfile)
    requires
        forge_libs_resolvable(version_json.libraries@),
    ensures
        r.main_class@ == version_json.main_class@,
        lib_views(r.libraries@) == forge_lib_views(
            version_json.libraries@,
            "https://maven.minecraftforge.net/"@,
        ),
        crate::resolver::string_views(r.jvm_args@) == opt_text_args(
            match version_json.arguments {
                Some(a) => a.jvm,
                None => None,
            },
        ),
        crate::resolver::string_views(r.game_args@) == opt_text_args(
            match version_json.arguments {
                Some(a) => a.game,
                None => None,
            },
        ),
{
    let ghost fallback = "https://maven.minecraftforge.net/"@;
    let mut out_libs: Vec<LoaderLibrary> = Vec::new();
    let mut i: usize = 0;
    while i < version_json.libraries.len()
        invariant
            i <= version_json.libraries@.len(),
            forge_libs_resolvable(version_json.libraries@),
            fallback == "https://maven.minecraftforge.net/"@,
            lib_views(out_libs@) == forge_lib_views(
                version_json.libraries@.subrange(0, i as int),
                fallback,
            ),
        decreases version_json.libraries@.len() - i,
    {
        let lib = &version_json.libraries[i];
        let url: Option<String> = match &lib.downloads {
            Some(d) => match &d.artifact {
                Some(a) => {
                    let rel = maven_to_path(lib.name.as_str());
                    let u = chars_of(a.url.as_str());
                    let relc = chars_of(rel.as_str());
                    if crate::text::ends_with(&u, &relc) {
                        let base = crate::text::slice_range(&u, 0, u.len() - relc.len());
                        Some(string_from_chars(&base))
                    } else {
                        let f = chars_of("https://maven.minecraftforge.net/");
                        Some(string_from_chars(&f))
                    }
                },
                None => None,
            },
            None => None,
        };
        proof {
            assert((match url {
                Some(u) => Some(u@),
                None => None,
            }) == reverse_base_of(version_json.libraries@[i as int], fallback));
        }
        let entry = LoaderLibrary { name: lib.name.clone(), url };
        let ghost x = entry;
        let ghost pre = out_libs@;
        out_libs.push(entry);
        proof {
            let cur = version_json.libraries@.subrange(0, i as int + 1);
            assert(cur.drop_last() =~= version_json.libraries@.subrange(0, i as int));
            assert(lib_views(pre.push(x)) =~= lib_views(pre).push(
                (
                    x.name@,
                    match x.url {
                        Some(u) => Some(u@),
                        None => None,
                    },
                ),
            ));
            assert(forge_lib_views(cur, fallback) =~= forge_lib_views(
                version_json.libraries@.subrange(0, i as int),
                fallback,
            ).push(
                (
                    version_json.libraries@[i as int].name@,
                    reverse_base_of(version_json.libraries@[i as int], fallback),
                ),
            ));
            assert(lib_views(out_libs@) =~= forge_lib_views(cur, fallback));
        }
        i += 1;
    }
    proof {
        assert(version_json.libraries@.subrange(0, version_json.libraries@.len() as int)
            =~= version_json.libraries@);
    }
    let jvm_args = match &version_json.arguments {
        Some(a) => collect_text_args(&a.jvm),
        None => Vec::new(),
    };
    let game_args = match &version_json.arguments {
        Some(a) => collect_text_args(&a.game),
        None => Vec::new(),
    };
    proof {
        if version_json.arguments is None {
            assert(crate::resolver::string_views(Seq::<String>::empty())
                =~= Seq::<Seq<char>>::empty());
        }
    }
    LoaderProfile {
        main_class: version_json.main_class.clone(),
        libraries: out_libs,
        jvm_args,
        game_args,
    }
}



/// The Fabric metadata service's loader listing.
pub fn fabric_loaders_url() -> (r: String)
    ensures
        r@ == "https://meta.fabricmc.net/v2/versions/loader"@,
{
    let m = chars_of("https://meta.fabricmc.net/v2/versions/loader");
    string_from_chars(&m)
}

/// The Fabric metadata service's game version listing.
pub fn fabric_game_versions_url() -> (r: String)
    ensures
        r@ == "https://meta.fabricmc.net/v2/versions/game"@,
{
    let m = chars_of("https://meta.fabricmc.net/v2/versions/game");
    string_from_chars(&m)
}

/// The Fabric loaders compatible with one game version.
pub fn fabric_compatible_loaders_url(game_version: &str) -> (r: String)
    ensures
        r@ == "https://meta.fabricmc.net/v2/versions/loader/"@ + game_version@,
{
    let mut out: Vec<char> = Vec::new();
    push_str_chars(&mut out, "https://meta.fabricmc.net/v2/versions/loader/");
    push_str_chars(&mut out, game_version);
    string_from_chars(&out)
}

/// The Quilt metadata service's loader listing.
pub fn quilt_loaders_url() -> (r: String)
    ensures
        r@ == "https://meta.quiltmc.org/v3/versions/loader"@,
{
    let m = chars_of("https://meta.quiltmc.org/v3/versions/loader");
    string_from_chars(&m)
}

/// The Forge promotions index.
pub fn forge_promotions_url() -> (r: String)
    ensures
        r@ == "https://files.minecraftforge.net/net/minecraftforge/forge/promotions_slim.json"@,
{
    let m = chars_of(
        "https://files.minecraftforge.net/net/minecraftforge/forge/promotions_slim.json",
    );
    string_from_chars(&m)
}

/// The Forge Maven metadata listing.
pub fn forge_maven_metadata_url() -> (r: String)
    ensures
        r@ == "https://maven.minecraftforge.net/net/minecraftforge/forge/maven-metadata.xml"@,
{
    let m = chars_of(
        "https://maven.minecraftforge.net/net/minecraftforge/forge/maven-metadata.xml",
    );
    string_from_chars(&m)
}

/// The NeoForge release listing API.
pub fn neoforge_versions_url() -> (r: String)
    ensures
        r@ == "https://maven.neoforged.net/api/maven/versions/releases/net/neoforged/neoforge"@,
{
    let m = chars_of(
        "https://maven.neoforged.net/api/maven/versions/releases/net/neoforged/neoforge",
    );
    string_from_chars(&m)
}

/// The global version manifest.
pub fn version_manifest_url() -> (r: String)
    ensures
        r@ == "https://piston-meta.mojang.com/mc/game/version_manifest_v2.json"@,
{
    let m = chars_of("https://piston-meta.mojang.com/mc/game/version_manifest_v2.json");
    string_from_chars(&m)
}

// ---------------------------------------------------------------------------
// Forge version discovery
// ---------------------------------------------------------------------------

/// Lexicographic order on version texts, by code point — the order the
/// listing is presented in, newest first once reversed.
pub open spec fn lex_leq(a: Seq<char>, b: Seq<char>) -> bool
    decreases a.len(),
{
    if a.len() == 0 {
        true
    } else if b.len() == 0 {
        false
    } else if a.first() != b.first() {
        a.first() < b.first()
    } else {
        lex_leq(a.drop_first(), b.drop_first())
    }
}

/// The order is total.
pub proof fn lemma_lex_total(a: Seq<char>, b: Seq<char>)
    ensures
        lex_leq(a, b) || lex_leq(b, a),
    decreases a.len(),
{
    if a.len() > 0 && b.len() > 0 && a.first() == b.first() {
        lemma_lex_total(a.drop_first(), b.drop_first());
    }
}

/// The order carries over chains.
pub proof fn lemma_lex_trans(a: Seq<char>, b: Seq<char>, c: Seq<char>)
    requires
        lex_leq(a, b),
        lex_leq(b, c),
    ensures
        lex_leq(a, c),
    decreases a.len(),
{
    if a.len() > 0 && b.len() > 0 && c.len() > 0 {
        if a.first() == b.first() && b.first() == c.first() {
            lemma_lex_trans(a.drop_first(), b.drop_first(), c.drop_first());
        }
    }
}

fn lex_leq_exec(a: &Vec<char>, b: &Vec<char>) -> (r: bool)
    ensures
        r == lex_leq(a@, b@),
{
    proof {
        assert(a@.subrange(0, a@.len() as int) =~= a@);
        assert(b@.subrange(0, b@.len() as int) =~= b@);
    }
    let mut i: usize = 0;
    while i < a.len() && i < b.len()
        invariant
            i <= a@.len(),
            i <= b@.len(),
            lex_leq(a@, b@) == lex_leq(a@.subrange(i as int, a@.len() as int), b@.subrange(
                i as int,
                b@.len() as int,
            )),
        decreases a@.len() - i,
    {
        proof {
            let ra = a@.subrange(i as int, a@.len() as int);
            let rb = b@.subrange(i as int, b@.len() as int);
            assert(ra.first() == a@[i as int]);
            assert(rb.first() == b@[i as int]);
            assert(ra.drop_first() =~= a@.subrange(i as int + 1, a@.len() as int));
            assert(rb.drop_first() =~= b@.subrange(i as int + 1, b@.len() as int));
        }
        if a[i] != b[i] {
            proof {
                let ra = a@.subrange(i as int, a@.len() as int);
                let rb = b@.subrange(i as int, b@.len() as int);
                assert(lex_leq(ra, rb) == (ra.first() < rb.first()));
            }
            return a[i] < b[i];
        }
        i += 1;
    }
    proof {
        let ra = a@.subrange(i as int, a@.len() as int);
        let rb = b@.subrange(i as int, b@.len() as int);
        if i >= a@.len() {
            assert(ra.len() == 0);
        } else {
            assert(rb.len() == 0);
            assert(ra.len() > 0);
        }
    }
    i >= a.len()
}

/// `x` put into its place in a descending list: before the first entry that
/// does not exceed it.
pub open spec fn insert_desc(s: Seq<Seq<char>>, x: Seq<char>) -> Seq<Seq<char>>
    decreases s.len(),
{
    if s.len() == 0 {
        seq![x]
    } else if lex_leq(s.first(), x) {
        seq![x] + s
    } else {
        seq![s.first()] + insert_desc(s.drop_first(), x)
    }
}

/// The list sorted in descending order, by insertion from the front.
pub open spec fn sort_desc(s: Seq<Seq<char>>) -> Seq<Seq<char>>
    decreases s.len(),
{
    if s.len() == 0 {
        Seq::empty()
    } else {
        insert_desc(sort_desc(s.drop_first()), s.first())
    }
}

pub open spec fn desc_sorted(s: Seq<Seq<char>>) -> bool {
    forall|i: int, j: int| 0 <= i < j < s.len() ==> lex_leq(#[trigger] s[j], #[trigger] s[i])
}

/// Inserting into a descending list keeps it descending and only adds the
/// element.
pub proof fn lemma_insert_desc(s: Seq<Seq<char>>, x: Seq<char>)
    requires
        desc_sorted(s),
    ensures
        desc_sorted(insert_desc(s, x)),
        insert_desc(s, x).to_multiset() == s.to_multiset().insert(x),
        insert_desc(s, x).len() == s.len() + 1,
    decreases s.len(),
{
    broadcast use vstd::seq_lib::group_seq_properties;

    if s.len() == 0 {
        assert(seq![x] =~= Seq::<Seq<char>>::empty().push(x));
        assert(seq![x].to_multiset() =~= Seq::<Seq<char>>::empty().to_multiset().insert(x));
    } else if lex_leq(s.first(), x) {
        let r = seq![x] + s;
        assert forall|i: int, j: int| 0 <= i < j < r.len() implies lex_leq(
            #[trigger] r[j],
            #[trigger] r[i],
        ) by {
            if i == 0 {
                assert(r[j] == s[j - 1]);
                if j > 1 {
                    assert(lex_leq(s[j - 1], s[0]));
                    lemma_lex_trans(r[j], s.first(), x);
                } else {
                    assert(r[j] == s.first());
                }
            } else {
                assert(r[i] == s[i - 1] && r[j] == s[j - 1]);
            }
        }
        vstd::seq_lib::lemma_multiset_commutative(seq![x], s);
        assert(s + seq![x] =~= s.push(x));
        assert((s + seq![x]).to_multiset() == s.to_multiset().insert(x));
    } else {
        let rest = insert_desc(s.drop_first(), x);
        assert(desc_sorted(s.drop_first())) by {
            assert(forall|i: int, j: int|
                0 <= i < j < s.drop_first().len() ==> lex_leq(
                    #[trigger] s.drop_first()[j],
                    #[trigger] s.drop_first()[i],
                ));
        }
        lemma_insert_desc(s.drop_first(), x);
        lemma_lex_total(s.first(), x);
        let r = seq![s.first()] + rest;
        assert forall|i: int, j: int| 0 <= i < j < r.len() implies lex_leq(
            #[trigger] r[j],
            #[trigger] r[i],
        ) by {
            if i == 0 {
                assert(r[j] == rest[j - 1]);
                lemma_insert_desc_members(s.drop_first(), x, j - 1);
                let e = rest[j - 1];
                if e == x {
                    assert(lex_leq(x, s.first()));
                } else {
                    let w = choose|k: int|
                        0 <= k < s.drop_first().len() && #[trigger] s.drop_first()[k] == e;
                    assert(s[w + 1] == e);
                    assert(lex_leq(s[w + 1], s[0]));
                }
            } else {
                assert(r[i] == rest[i - 1] && r[j] == rest[j - 1]);
            }
        }
        assert(seq![s.first()] + s.drop_first() =~= s);
        vstd::seq_lib::lemma_multiset_commutative(seq![s.first()], rest);
        vstd::seq_lib::lemma_multiset_commutative(seq![s.first()], s.drop_first());
        assert(rest + seq![s.first()] =~= rest.push(s.first()));
        assert(s.drop_first() + seq![s.first()] =~= s.drop_first().push(s.first()));
        assert(r.to_multiset() == rest.to_multiset().insert(s.first()));
        assert(s.to_multiset() == s.drop_first().to_multiset().insert(s.first()));
        assert(rest.to_multiset().insert(s.first()) =~= s.drop_first().to_multiset().insert(
            x,
        ).insert(s.first()));
        assert(s.drop_first().to_multiset().insert(x).insert(s.first())
            =~= s.drop_first().to_multiset().insert(s.first()).insert(x));
    }
}

/// Every member of an insertion result is the new element or an old member.
proof fn lemma_insert_desc_members(s: Seq<Seq<char>>, x: Seq<char>, n: int)
    requires
        0 <= n < insert_desc(s, x).len(),
    ensures
        insert_desc(s, x)[n] == x || exists|k: int| 0 <= k < s.len() && #[trigger] s[k] == insert_desc(
            s,
            x,
        )[n],
    decreases s.len(),
{
    if s.len() == 0 {
    } else if lex_leq(s.first(), x) {
        if n > 0 {
            assert(insert_desc(s, x)[n] == s[n - 1]);
        }
    } else {
        if n > 0 {
            lemma_insert_desc_members(s.drop_first(), x, n - 1);
            let e = insert_desc(s, x)[n];
            assert(e == insert_desc(s.drop_first(), x)[n - 1]);
            if e != x {
                let w = choose|k: int|
                    0 <= k < s.drop_first().len() && #[trigger] s.drop_first()[k] == e;
                assert(s[w + 1] == e);
            }
        } else {
            assert(insert_desc(s, x)[0] == s[0]);
        }
    }
}

/// Sorting yields a descending permutation of the input.
pub proof fn lemma_sort_desc(s: Seq<Seq<char>>)
    ensures
        desc_sorted(sort_desc(s)),
        sort_desc(s).to_multiset() == s.to_multiset(),
        sort_desc(s).len() == s.len(),
    decreases s.len(),
{
    broadcast use vstd::seq_lib::group_seq_properties;

    if s.len() > 0 {
        lemma_sort_desc(s.drop_first());
        lemma_insert_desc(sort_desc(s.drop_first()), s.first());
        vstd::seq_lib::lemma_multiset_commutative(seq![s.first()], s.drop_first());
        assert(seq![s.first()] + s.drop_first() =~= s);
        assert(s.drop_first() + seq![s.first()] =~= s.drop_first().push(s.first()));
        assert(s.to_multiset() == s.drop_first().to_multiset().insert(s.first()));
    }
}

fn insert_desc_exec(out: &mut Vec<String>, x: String)
    ensures
        crate::resolver::string_views(final(out)@) == insert_desc(
            crate::resolver::string_views(old(out)@),
            x@,
        ),
{
    let xc = crate::text::chars_of(x.as_str());
    let ghost whole = crate::resolver::string_views(old(out)@);
    proof {
        assert(whole.subrange(0, 0) =~= Seq::<Seq<char>>::empty());
        assert(whole.subrange(0, whole.len() as int) =~= whole);
        assert(Seq::<Seq<char>>::empty() + insert_desc(whole, x@) =~= insert_desc(whole, x@));
    }
    let mut i: usize = 0;
    while i < out.len()
        invariant
            i <= out@.len(),
            out@ == old(out)@,
            whole == crate::resolver::string_views(out@),
            xc@ == x@,
            insert_desc(whole, x@) == whole.subrange(0, i as int) + insert_desc(
                whole.subrange(i as int, whole.len() as int),
                x@,
            ),
        decreases out@.len() - i,
    {
        proof {
            let suf = whole.subrange(i as int, whole.len() as int);
            assert(suf.first() == whole[i as int]);
            assert(suf.drop_first() =~= whole.subrange(i as int + 1, whole.len() as int));
        }
        let oc = crate::text::chars_of(out[i].as_str());
        if lex_leq_exec(&oc, &xc) {
            let ghost pre = out@;
            out.insert(i, x);
            proof {
                let suf = whole.subrange(i as int, whole.len() as int);
                assert(insert_desc(suf, x@) == seq![x@] + suf);
                assert(crate::resolver::string_views(pre.insert(i as int, x)) =~= whole.subrange(
                    0,
                    i as int,
                ) + (seq![x@] + suf));
            }
            return ;
        }
        proof {
            let suf = whole.subrange(i as int, whole.len() as int);
            assert(insert_desc(suf, x@) == seq![whole[i as int]] + insert_desc(
                suf.drop_first(),
                x@,
            ));
            assert(whole.subrange(0, i as int) + (seq![whole[i as int]] + insert_desc(
                whole.subrange(i as int + 1, whole.len() as int),
                x@,
            )) =~= whole.subrange(0, i as int + 1) + insert_desc(
                whole.subrange(i as int + 1, whole.len() as int),
                x@,
            ));
        }
        i += 1;
    }
    let ghost pre = out@;
    out.push(x);
    proof {
        let suf = whole.subrange(whole.len() as int, whole.len() as int);
        assert(suf =~= Seq::<Seq<char>>::empty());
        assert(insert_desc(suf, x@) =~= seq![x@]);
        assert(crate::resolver::string_views(pre.push(x)) =~= whole.subrange(
            0,
            whole.len() as int,
        ) + seq![x@]);
    }
}

/// A promotions entry for the game version: its value and its channel label,
/// as `value (label)`.
pub open spec fn promo_entries(
    promos: Seq<(Seq<char>, Seq<char>)>,
    prefix: Seq<char>,
) -> Seq<Seq<char>>
    decreases promos.len(),
{
    if promos.len() == 0 {
        Seq::empty()
    } else {
        let rest = promo_entries(promos.drop_last(), prefix);
        let p = promos.last();
        if crate::text::is_prefix_of(prefix, p.0) {
            rest.push(p.1 + " ("@ + p.0.subrange(prefix.len() as int, p.0.len() as int) + ")"@)
        } else {
            rest
        }
    }
}

/// Some collected entry starts with the candidate text.
pub open spec fn any_starts_with(acc: Seq<Seq<char>>, part: Seq<char>) -> bool {
    exists|k: int| 0 <= k < acc.len() && crate::text::is_prefix_of(part, #[trigger] acc[k])
}

/// The versions the Maven metadata lines add: each `<version>` line whose
/// version carries the game prefix contributes its loader part, unless some
/// already collected entry starts with it.
pub open spec fn xml_versions(
    lines: Seq<Seq<char>>,
    prefix: Seq<char>,
    acc: Seq<Seq<char>>,
) -> Seq<Seq<char>>
    decreases lines.len(),
{
    if lines.len() == 0 {
        acc
    } else {
        let t = crate::archive::trim_chars(lines.first());
        let acc2 = if crate::text::is_prefix_of("<version>"@, t) && crate::text::is_suffix_of(
            "</version>"@,
            t,
        ) && t.len() >= 19 {
            let ver = t.subrange(9, t.len() - 10);
            if crate::text::is_prefix_of(prefix, ver) {
                let part = ver.subrange(prefix.len() as int, ver.len() as int);
                if !any_starts_with(acc, part) {
                    acc.push(part)
                } else {
                    acc
                }
            } else {
                acc
            }
        } else {
            acc
        };
        xml_versions(lines.drop_first(), prefix, acc2)
    }
}

/// Everything version discovery collects before ordering.
pub open spec fn collected_versions(
    promos: Seq<(Seq<char>, Seq<char>)>,
    lines: Seq<Seq<char>>,
    game: Seq<char>,
) -> Seq<Seq<char>> {
    xml_versions(lines, game + "-"@, promo_entries(promos, game + "-"@))
}

fn any_starts_with_exec(acc: &Vec<String>, part: &Vec<char>) -> (b: bool)
    ensures
        b == any_starts_with(crate::resolver::string_views(acc@), part@),
{
    let ghost av = crate::resolver::string_views(acc@);
    let mut k: usize = 0;
    while k < acc.len()
        invariant
            k <= acc@.len(),
            av == crate::resolver::string_views(acc@),
            av.len() == acc@.len(),
            forall|j: int| 0 <= j < k ==> !crate::text::is_prefix_of(part@, #[trigger] av[j]),
        decreases acc@.len() - k,
    {
        let ec = chars_of(acc[k].as_str());
        proof {
            assert(av[k as int] == acc@[k as int]@);
        }
        if crate::text::starts_with(&ec, part) {
            proof {
                assert(crate::text::is_prefix_of(part@, av[k as int]));
            }
            return true;
        }
        k += 1;
    }
    false
}

/// Collects the Forge builds available for one game version out of the two
/// discovery documents — the promotions index and the Maven metadata listing —
/// and orders them newest first; an empty collection is an error naming the
/// game version.
pub fn collect_forge_versions(
    promos: &Vec<(String, String)>,
    metadata_lines: &Vec<String>,
    game_version: &str,
) -> (r: Result<Vec<String>, String>)
    ensures
        r is Ok <==> collected_versions(
            crate::forge::kv_views(promos@),
            crate::resolver::string_views(metadata_lines@),
            game_version@,
        ).len() > 0,
        r is Ok ==> crate::resolver::string_views(r->Ok_0@) == sort_desc(
            collected_versions(
                crate::forge::kv_views(promos@),
                crate::resolver::string_views(metadata_lines@),
                game_version@,
            ),
        ),
        r is Err ==> r->Err_0@ == "No Forge versions found for "@ + game_version@,
{
    let ghost pv = crate::forge::kv_views(promos@);
    let ghost lv = crate::resolver::string_views(metadata_lines@);
    let mut prefix_chars = chars_of(game_version);
    push_str_chars(&mut prefix_chars, "-");
    let ghost prefix = game_version@ + "-"@;

    let mut out: Vec<String> = Vec::new();
    let mut i: usize = 0;
    while i < promos.len()
        invariant
            i <= promos@.len(),
            pv == crate::forge::kv_views(promos@),
            pv.len() == promos@.len(),
            prefix_chars@ == prefix,
            crate::resolver::string_views(out@) == promo_entries(
                pv.subrange(0, i as int),
                prefix,
            ),
        decreases promos@.len() - i,
    {
        proof {
            let cur = pv.subrange(0, i as int + 1);
            assert(cur.drop_last() =~= pv.subrange(0, i as int));
            assert(cur.last() == pv[i as int]);
            assert(pv[i as int] == (promos@[i as int].0@, promos@[i as int].1@));
        }
        let key = chars_of(promos[i].0.as_str());
        if crate::text::starts_with(&key, &prefix_chars) {
            let label = crate::text::slice_range(&key, prefix_chars.len(), key.len());
            let mut e = chars_of(promos[i].1.as_str());
            push_str_chars(&mut e, " (");
            push_all(&mut e, &label);
            push_str_chars(&mut e, ")");
            let entry = string_from_chars(&e);
            let ghost pre = out@;
            let ghost x = entry;
            out.push(entry);
            proof {
                assert(crate::resolver::string_views(pre.push(x))
                    =~= crate::resolver::string_views(pre).push(x@));
            }
        }
        i += 1;
    }
    proof {
        assert(pv.subrange(0, pv.len() as int) =~= pv);
    }

    proof {
        assert(lv.subrange(0, lv.len() as int) =~= lv);
    }
    let mut j: usize = 0;
    let open_tag = chars_of("<version>");
    let close_tag = chars_of("</version>");
    while j < metadata_lines.len()
        invariant
            j <= metadata_lines@.len(),
            lv == crate::resolver::string_views(metadata_lines@),
            lv.len() == metadata_lines@.len(),
            prefix_chars@ == prefix,
            open_tag@ == "<version>"@,
            close_tag@ == "</version>"@,
            xml_versions(lv, prefix, promo_entries(pv, prefix)) == xml_versions(
                lv.subrange(j as int, lv.len() as int),
                prefix,
                crate::resolver::string_views(out@),
            ),
        decreases metadata_lines@.len() - j,
    {
        proof {
            let suf = lv.subrange(j as int, lv.len() as int);
            assert(suf.first() == lv[j as int]);
            assert(suf.drop_first() =~= lv.subrange(j as int + 1, lv.len() as int));
            assert(lv[j as int] == metadata_lines@[j as int]@);
            reveal_strlit("<version>");
            reveal_strlit("</version>");
        }
        let line = chars_of(metadata_lines[j].as_str());
        let t = crate::archive::trim_exec(&line);
        if crate::text::starts_with(&t, &open_tag) && crate::text::ends_with(&t, &close_tag)
            && t.len() >= 19 {
            let ver = crate::text::slice_range(&t, 9, t.len() - 10);
            if crate::text::starts_with(&ver, &prefix_chars) {
                let part = crate::text::slice_range(&ver, prefix_chars.len(), ver.len());
                if !any_starts_with_exec(&out, &part) {
                    let entry = string_from_chars(&part);
                    let ghost pre = out@;
                    let ghost x = entry;
                    out.push(entry);
                    proof {
                        assert(crate::resolver::string_views(pre.push(x))
                            =~= crate::resolver::string_views(pre).push(x@));
                    }
                }
            }
        }
        j += 1;
    }
    proof {
        assert(lv.subrange(0, lv.len() as int) =~= lv);
        assert(lv.subrange(lv.len() as int, lv.len() as int) =~= Seq::<Seq<char>>::empty());
    }

    if out.len() == 0 {
        proof {
            assert(crate::resolver::string_views(out@).len() == out@.len());
        }
        let mut m = chars_of("No Forge versions found for ");
        push_str_chars(&mut m, game_version);
        return Err(string_from_chars(&m));
    }

    let mut sorted: Vec<String> = Vec::new();
    let mut k: usize = out.len();
    let ghost collected = crate::resolver::string_views(out@);
    proof {
        assert(collected.subrange(collected.len() as int, collected.len() as int)
            =~= Seq::<Seq<char>>::empty());
        assert(crate::resolver::string_views(Seq::<String>::empty()) =~= Seq::<Seq<char>>::empty());
    }
    while k > 0
        invariant
            k <= out@.len(),
            collected == crate::resolver::string_views(out@),
            collected.len() == out@.len(),
            crate::resolver::string_views(sorted@) == sort_desc(
                collected.subrange(k as int, collected.len() as int),
            ),
        decreases k,
    {
        k -= 1;
        proof {
            let cur = collected.subrange(k as int, collected.len() as int);
            assert(cur.first() == collected[k as int]);
            assert(cur.drop_first() =~= collected.subrange(k as int + 1, collected.len() as int));
            assert(collected[k as int] == out@[k as int]@);
        }
        insert_desc_exec(&mut sorted, out[k].clone());
    }
    proof {
        assert(collected.subrange(0, collected.len() as int) =~= collected);
        assert(collected.len() > 0);
    }
    Ok(sorted)
}

} // verus!
