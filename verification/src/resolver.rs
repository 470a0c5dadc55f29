//! Library and native resolution planning for one game version.
//!
//! Each library either carries a direct artifact descriptor or is resolved by
//! Maven-path derivation from its coordinate; files already on disk are never
//! downloaded again. Native bundles are picked by the platform's classifier
//! and extracted beside the version, skipping archive metadata.

use vstd::prelude::*;

use crate::maven::{is_maven_coordinate, maven_rel_path, maven_to_path, maven_wellformed};
use crate::text::{
    chars_of, contains_pattern, contains_seq, push_all, push_str_chars, replace_char, replaced,
    string_from_chars,
};

verus! {

/// A downloadable artifact of a library: its URL and, when given, its
/// repository-relative path.
#[derive(Debug, Clone)]
pub struct LibraryArtifact {
    pub url: String,
    pub sha1: String,
    pub size: u64,
    pub path: Option<String>,
}

/// One library of a version document: its coordinate, its direct artifact
/// when the document carries one, and its platform-native bundles keyed by
/// classifier name.
#[derive(Debug, Clone)]
pub struct LibraryEntry {
    pub name: String,
    pub artifact: Option<LibraryArtifact>,
    pub natives: Vec<(String, LibraryArtifact)>,
}

/// The repository-relative path of a library's artifact: the descriptor's own
/// path when present, the Maven derivation otherwise.
pub open spec fn library_rel_path(lib: LibraryEntry) -> Seq<char>
    recommends
        lib.artifact is Some,
{
    match lib.artifact->Some_0.path {
        Some(p) => p@,
        None => maven_rel_path(lib.name@),
    }
}

/// A library's coordinate must be derivable when its artifact brings no path.
pub open spec fn library_resolvable(lib: LibraryEntry) -> bool {
    lib.artifact is Some && lib.artifact->Some_0.path is None ==> maven_wellformed(lib.name@)
}

/// Computes one library's repository-relative path.
pub fn resolve_library_rel_path(lib: &LibraryEntry) -> (r: String)
    requires
        lib.artifact is Some,
        library_resolvable(*lib),
    ensures
        r@ == library_rel_path(*lib),
{
    let artifact = lib.artifact.as_ref().unwrap();
    match &artifact.path {
        Some(p) => p.clone(),
        None => maven_to_path(lib.name.as_str()),
    }
}

/// Decides whether a library's path can be resolved.
pub fn library_resolvable_check(lib: &LibraryEntry) -> (b: bool)
    ensures
        b == library_resolvable(*lib),
{
    match &lib.artifact {
        Some(a) => match &a.path {
            Some(_) => true,
            None => is_maven_coordinate(lib.name.as_str()),
        },
        None => true,
    }
}

/// The classpath of a version: each library with a direct artifact, as
/// `<libraries_dir>/<relative path>` in document order, and the client jar
/// last.
pub open spec fn classpath_spec(
    libs: Seq<LibraryEntry>,
    libraries_dir: Seq<char>,
    client_jar: Seq<char>,
) -> Seq<Seq<char>>
    decreases libs.len(),
{
    if libs.len() == 0 {
        seq![client_jar]
    } else {
        let rest = classpath_spec(libs.drop_first(), libraries_dir, client_jar);
        if libs.first().artifact is Some {
            seq![libraries_dir + "/"@ + library_rel_path(libs.first())] + rest
        } else {
            rest
        }
    }
}

pub open spec fn string_views(s: Seq<String>) -> Seq<Seq<char>> {
    s.map_values(|p: String| p@)
}

/// Resolves the classpath for a version's library list: every library with a
/// direct artifact in order, then the client jar.
pub fn resolve_classpath(libs: &Vec<LibraryEntry>, libraries_dir: &str, client_jar: &str) -> (r:
    Vec<String>)
    requires
        forall|i: int| 0 <= i < libs@.len() ==> library_resolvable(#[trigger] libs@[i]),
    ensures
        string_views(r@) == classpath_spec(libs@, libraries_dir@, client_jar@),
{
    let ghost whole = classpath_spec(libs@, libraries_dir@, client_jar@);
    let mut out: Vec<String> = Vec::new();
    let mut i: usize = libs.len();
    proof {
        assert(libs@.subrange(libs@.len() as int, libs@.len() as int)
            =~= Seq::<LibraryEntry>::empty());
    }
    let cj = chars_of(client_jar);
    out.push(string_from_chars(&cj));
    proof {
        assert(string_views(out@) =~= classpath_spec(
            libs@.subrange(libs@.len() as int, libs@.len() as int),
            libraries_dir@,
            client_jar@,
        ));
    }
    while i > 0
        invariant
            i <= libs@.len(),
            forall|k: int| 0 <= k < libs@.len() ==> library_resolvable(#[trigger] libs@[k]),
            string_views(out@) == classpath_spec(
                libs@.subrange(i as int, libs@.len() as int),
                libraries_dir@,
                client_jar@,
            ),
        decreases i,
    {
        i -= 1;
        proof {
            let cur = libs@.subrange(i as int, libs@.len() as int);
            let pre = libs@.subrange(i as int + 1, libs@.len() as int);
            assert(cur.drop_first() =~= pre);
            assert(cur.first() == libs@[i as int]);
        }
        if libs[i].artifact.is_some() {
            let rel = resolve_library_rel_path(&libs[i]);
            let mut p: Vec<char> = Vec::new();
            push_str_chars(&mut p, libraries_dir);
            push_str_chars(&mut p, "/");
            push_str_chars(&mut p, rel.as_str());
            let entry = string_from_chars(&p);
            let ghost x = entry;
            let ghost pre_out = out@;
            let mut nout: Vec<String> = Vec::new();
            nout.push(entry);
            let mut rest = out;
            nout.append(&mut rest);
            out = nout;
            proof {
                assert(out@ == seq![x] + pre_out);
                assert(string_views(seq![x] + pre_out) =~= seq![x@] + string_views(pre_out));
                assert(string_views(out@) =~= classpath_spec(
                    libs@.subrange(i as int, libs@.len() as int),
                    libraries_dir@,
                    client_jar@,
                ));
            }
        }
    }
    proof {
        assert(libs@.subrange(0, libs@.len() as int) =~= libs@);
    }
    out
}

/// The natives classifier the running platform looks for.
pub fn native_classifier_for(os: &str) -> (r: String)
    ensures
        os@ == "windows"@ ==> r@ == "natives-windows"@,
        os@ == "macos"@ ==> r@ == "natives-macos"@,
        os@ == "linux"@ ==> r@ == "natives-linux"@,
        os@ != "windows"@ && os@ != "macos"@ && os@ != "linux"@ ==> r@ == "natives-unknown"@,
{
    proof {
        reveal_strlit("windows");
        reveal_strlit("macos");
        reveal_strlit("linux");
        assert("windows"@.len() == 7);
        assert("macos"@.len() == 5);
        assert("linux"@.len() == 5);
        assert("macos"@[0] == 'm');
        assert("linux"@[0] == 'l');
    }
    let o = chars_of(os);
    let windows = chars_of("windows");
    let macos = chars_of("macos");
    let linux = chars_of("linux");
    if eq_vecs(&o, &windows) {
        let r = chars_of("natives-windows");
        string_from_chars(&r)
    } else if eq_vecs(&o, &macos) {
        let r = chars_of("natives-macos");
        string_from_chars(&r)
    } else if eq_vecs(&o, &linux) {
        let r = chars_of("natives-linux");
        string_from_chars(&r)
    } else {
        let r = chars_of("natives-unknown");
        string_from_chars(&r)
    }
}

fn eq_vecs(a: &Vec<char>, b: &Vec<char>) -> (r: bool)
    ensures
        r == (a@ == b@),
{
    if a.len() != b.len() {
        proof {
            assert(a@.len() != b@.len());
        }
        return false;
    }
    let mut i: usize = 0;
    while i < a.len()
        invariant
            i <= a@.len(),
            a@.len() == b@.len(),
            forall|j: int| 0 <= j < i ==> a@[j] == b@[j],
        decreases a@.len() - i,
    {
        if a[i] != b[i] {
            return false;
        }
        i += 1;
    }
    proof {
        assert(a@ =~= b@);
    }
    true
}

/// The first native bundle of a library that matches the classifier.
pub fn native_artifact_index(lib: &LibraryEntry, classifier: &str) -> (r: Option<usize>)
    ensures
        match r {
            Some(i) => i < lib.natives@.len() && (#[trigger] lib.natives@[i as int]).0@
                == classifier@ && forall|j: int|
                0 <= j < i ==> (#[trigger] lib.natives@[j]).0@ != classifier@,
            None => forall|j: int|
                0 <= j < lib.natives@.len() ==> (#[trigger] lib.natives@[j]).0@ != classifier@,
        },
{
    let c = chars_of(classifier);
    let mut i: usize = 0;
    while i < lib.natives.len()
        invariant
            i <= lib.natives@.len(),
            c@ == classifier@,
            forall|j: int| 0 <= j < i ==> (#[trigger] lib.natives@[j]).0@ != classifier@,
        decreases lib.natives@.len() - i,
    {
        let nc = chars_of(lib.natives[i].0.as_str());
        if eq_vecs(&nc, &c) {
            return Some(i);
        }
        i += 1;
    }
    None
}

/// The file name a native bundle is saved under, distinct per classifier so
/// bundles of one library cannot collide: the coordinate with `:` turned into
/// `-`, the classifier, and the jar suffix.
pub open spec fn native_jar_name(name: Seq<char>, classifier: Seq<char>) -> Seq<char> {
    replaced(name, ':', '-') + "-"@ + classifier + ".jar"@
}

/// Builds the save name for a library's native bundle.
pub fn native_jar_file_name(name: &str, classifier: &str) -> (r: String)
    ensures
        r@ == native_jar_name(name@, classifier@),
{
    let n = chars_of(name);
    let mut out = replace_char(&n, ':', '-');
    push_str_chars(&mut out, "-");
    push_str_chars(&mut out, classifier);
    push_str_chars(&mut out, ".jar");
    string_from_chars(&out)
}

/// Whether a native archive entry is extracted: everything but archive
/// metadata under `META-INF`.
pub fn should_extract_native(entry_name: &str) -> (b: bool)
    ensures
        b == !contains_seq(entry_name@, "META-INF"@),
{
    let n = chars_of(entry_name);
    let p = chars_of("META-INF");
    !contains_pattern(&n, &p)
}

} // verus!
