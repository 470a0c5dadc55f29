//! Reading the installer archive and processor jars.
//!
//! The archive bytes are handed in whole; which entries exist and what they
//! hold is read through two trusted calls into the zip crate, and everything
//! decided from them — which entries belong to the bundled Maven tree, which
//! data payloads to stage, and a jar manifest's `Main-Class:` header — is
//! verified logic.

use vstd::prelude::*;

use crate::metadata::{bytes_to_string_lossy, lossy_of, ws_char};
use crate::text::{
    chars_of, find_char_from, is_prefix_of, push_all, push_str_chars, slice_range, starts_with,
    string_from_chars,
};

verus! {

// ---------------------------------------------------------------------------
// The trusted view of a zip archive
// ---------------------------------------------------------------------------

/// The entry names a zip archive lists, in central-directory order, or
/// nothing when the bytes are not a readable archive.
pub uninterp spec fn zip_names_of(data: Seq<u8>) -> Option<Seq<Seq<char>>>;

/// The decompressed bytes of one entry, or nothing when the archive is
/// unreadable, the entry is absent, or its decompression fails.
pub uninterp spec fn zip_data_of(data: Seq<u8>, name: Seq<char>) -> Option<Seq<u8>>;

/// Relies on `zip::ZipArchive::new` over an in-memory reader and its
/// `file_names` iterator: the entry list is a function of the archive bytes
/// alone.
#[verifier::external_body]
fn zip_entry_names(data: &Vec<u8>) -> (r: Option<Vec<String>>)
    ensures
        r is Some <==> zip_names_of(data@) is Some,
        r is Some ==> r->Some_0.deep_view() == zip_names_of(data@)->Some_0,
{
    let cursor = std::io::Cursor::new(data.as_slice());
    match zip::ZipArchive::new(cursor) {
        Ok(archive) => Some(archive.file_names().map(|n| n.to_string()).collect()),
        Err(_) => None,
    }
}

/// Relies on `zip::ZipArchive::by_name` and `Read::read_to_end`: an entry's
/// decompressed bytes are a function of the archive bytes and the name alone.
#[verifier::external_body]
fn zip_entry_bytes(data: &Vec<u8>, name: &str) -> (r: Option<Vec<u8>>)
    ensures
        r is Some <==> zip_data_of(data@, name@) is Some,
        r is Some ==> r->Some_0@ == zip_data_of(data@, name@)->Some_0,
{
    let cursor = std::io::Cursor::new(data.as_slice());
    let mut archive = match zip::ZipArchive::new(cursor) {
        Ok(a) => a,
        Err(_) => return None,
    };
    let mut entry = match archive.by_name(name) {
        Ok(e) => e,
        Err(_) => return None,
    };
    let mut buf = Vec::new();
    match std::io::Read::read_to_end(&mut entry, &mut buf) {
        Ok(_) => Some(buf),
        Err(_) => None,
    }
}

// ---------------------------------------------------------------------------
// The bundled Maven tree
// ---------------------------------------------------------------------------

/// Where a maven-tree entry lands under the libraries directory: its name
/// with the `maven/` prefix stripped; directories and other entries land
/// nowhere.
pub open spec fn maven_dest(name: Seq<char>) -> Option<Seq<char>> {
    if is_prefix_of("maven/"@, name) && !(name.len() > 0 && name.last() == '/') {
        Some(name.subrange(6, name.len() as int))
    } else {
        None
    }
}

/// Key/value views of extracted files.
pub open spec fn file_views(s: Seq<(String, Vec<u8>)>) -> Seq<(Seq<char>, Seq<u8>)> {
    s.map_values(|p: (String, Vec<u8>)| (p.0@, p.1@))
}

/// The maven-tree files from `names[from..]`, each read out of the archive,
/// failing on the first entry that cannot be read.
pub open spec fn collect_maven_from(names: Seq<Seq<char>>, data: Seq<u8>, from: int) -> Result<
    Seq<(Seq<char>, Seq<u8>)>,
    Seq<char>,
>
    recommends
        0 <= from <= names.len(),
    decreases names.len() - from
        when 0 <= from <= names.len()
{
    if from >= names.len() {
        Ok(Seq::empty())
    } else {
        match maven_dest(names[from]) {
            None => collect_maven_from(names, data, from + 1),
            Some(dest) => match zip_data_of(data, names[from]) {
                None => Err("Failed to read "@ + names[from]),
                Some(bytes) => match collect_maven_from(names, data, from + 1) {
                    Err(e) => Err(e),
                    Ok(rest) => Ok(seq![(dest, bytes)] + rest),
                },
            },
        }
    }
}

/// Everything the engine needs out of an installer archive: the two embedded
/// documents, raw, and the bundled Maven tree as files relative to the
/// libraries directory.
#[derive(Debug, Clone)]
pub struct ForgeInstallerContents {
    pub install_profile: Vec<u8>,
    pub version_json: Vec<u8>,
    pub maven_files: Vec<(String, Vec<u8>)>,
}

/// What extraction yields on given archive bytes.
pub open spec fn extract_spec(data: Seq<u8>) -> Result<
    (Seq<u8>, Seq<u8>, Seq<(Seq<char>, Seq<u8>)>),
    Seq<char>,
> {
    match zip_names_of(data) {
        None => Err("Invalid installer JAR"@),
        Some(names) => match zip_data_of(data, "install_profile.json"@) {
            None => Err("Missing install_profile.json"@),
            Some(ip) => match zip_data_of(data, "version.json"@) {
                None => Err("Missing version.json"@),
                Some(vj) => match collect_maven_from(names, data, 0) {
                    Err(e) => Err(e),
                    Ok(files) => Ok((ip, vj, files)),
                },
            },
        },
    }
}

/// Opens an installer archive and takes out the embedded install profile, the
/// embedded version document, and every file of the bundled `maven/` tree.
pub fn extract_forge_installer(data: &Vec<u8>) -> (r: Result<ForgeInstallerContents, String>)
    ensures
        r is Ok <==> extract_spec(data@) is Ok,
        r is Ok ==> ({
            let (ip, vj, files) = extract_spec(data@)->Ok_0;
            r->Ok_0.install_profile@ == ip && r->Ok_0.version_json@ == vj && file_views(
                r->Ok_0.maven_files@,
            ) == files
        }),
        r is Err ==> r->Err_0@ == extract_spec(data@)->Err_0,
{
    let names = match zip_entry_names(data) {
        Some(n) => n,
        None => {
            let m = chars_of("Invalid installer JAR");
            return Err(string_from_chars(&m));
        },
    };
    let install_profile = match zip_entry_bytes(data, "install_profile.json") {
        Some(b) => b,
        None => {
            let m = chars_of("Missing install_profile.json");
            return Err(string_from_chars(&m));
        },
    };
    let version_json = match zip_entry_bytes(data, "version.json") {
        Some(b) => b,
        None => {
            let m = chars_of("Missing version.json");
            return Err(string_from_chars(&m));
        },
    };

    let ghost nv = zip_names_of(data@)->Some_0;
    proof {
        assert(names.deep_view() == nv);
        assert(names.deep_view().len() == names@.len());
    }
    let mut out: Vec<(String, Vec<u8>)> = Vec::new();
    let mut i: usize = 0;
    let prefix = chars_of("maven/");
    let slash = chars_of("/");
    while i < names.len()
        invariant
            i <= names@.len(),
            names.deep_view() == nv,
            nv.len() == names@.len(),
            prefix@ == "maven/"@,
            slash@ == "/"@,
            zip_names_of(data@) == Some(nv),
            zip_data_of(data@, "install_profile.json"@) == Some(install_profile@),
            zip_data_of(data@, "version.json"@) == Some(version_json@),
            collect_maven_from(nv, data@, 0) == (match collect_maven_from(nv, data@, i as int) {
                Ok(rest) => Ok::<Seq<(Seq<char>, Seq<u8>)>, Seq<char>>(file_views(out@) + rest),
                Err(e) => Err(e),
            }),
        decreases names@.len() - i,
    {
        let name_chars = chars_of(names[i].as_str());
        proof {
            assert(nv[i as int] == names@[i as int]@);
        }
        let is_maven = starts_with(&name_chars, &prefix);
        let is_dir = name_chars.len() > 0 && name_chars[name_chars.len() - 1] == '/';
        proof {
            reveal_strlit("maven/");
        }
        if is_maven && !is_dir {
            let dest_chars = slice_range(&name_chars, 6, name_chars.len());
            proof {
                assert(maven_dest(nv[i as int]) == Some(dest_chars@));
            }
            match zip_entry_bytes(data, names[i].as_str()) {
                None => {
                    let mut m: Vec<char> = Vec::new();
                    push_str_chars(&mut m, "Failed to read ");
                    push_all(&mut m, &name_chars);
                    proof {
                        assert(collect_maven_from(nv, data@, i as int) == Err::<
                            Seq<(Seq<char>, Seq<u8>)>,
                            Seq<char>,
                        >("Failed to read "@ + nv[i as int]));
                    }
                    return Err(string_from_chars(&m));
                },
                Some(bytes) => {
                    let dest = string_from_chars(&dest_chars);
                    let ghost pre = out@;
                    let ghost x = (dest, bytes);
                    out.push((dest, bytes));
                    proof {
                        assert(out@ == pre.push(x));
                        assert(file_views(pre.push(x)) =~= file_views(pre).push((x.0@, x.1@)));
                        assert(collect_maven_from(nv, data@, i as int) == (match collect_maven_from(
                            nv,
                            data@,
                            i as int + 1,
                        ) {
                            Ok(rest) => Ok::<Seq<(Seq<char>, Seq<u8>)>, Seq<char>>(
                                seq![(dest_chars@, x.1@)] + rest,
                            ),
                            Err(e) => Err(e),
                        }));
                        if collect_maven_from(nv, data@, i as int + 1) is Ok {
                            let rest = collect_maven_from(nv, data@, i as int + 1)->Ok_0;
                            assert(file_views(pre) + (seq![(dest_chars@, x.1@)] + rest)
                                =~= file_views(pre.push(x)) + rest);
                        }
                    }
                },
            }
        } else {
            proof {
                assert(maven_dest(nv[i as int]) is None);
            }
        }
        i += 1;
    }
    proof {
        assert(collect_maven_from(nv, data@, nv.len() as int) == Ok::<
            Seq<(Seq<char>, Seq<u8>)>,
            Seq<char>,
        >(Seq::empty()));
        assert(file_views(out@) + Seq::<(Seq<char>, Seq<u8>)>::empty() =~= file_views(out@));
    }
    Ok(ForgeInstallerContents { install_profile, version_json, maven_files: out })
}

// ---------------------------------------------------------------------------
// Staged data payloads
// ---------------------------------------------------------------------------

/// The staged payloads for the data values from `from` on: a value that is a
/// JAR-internal absolute path is read out of the archive into
/// `forge_extracted/`, and one that cannot be read is skipped.
pub open spec fn staged_from(values: Seq<Seq<char>>, data: Seq<u8>, from: int) -> Seq<
    (Seq<char>, Seq<u8>),
>
    recommends
        0 <= from <= values.len(),
    decreases values.len() - from
        when 0 <= from <= values.len()
{
    if from >= values.len() {
        Seq::empty()
    } else {
        let v = values[from];
        let rest = staged_from(values, data, from + 1);
        if v.len() >= 1 && v[0] == '/' {
            let nm = v.subrange(crate::forge::slash_end(v, 0), v.len() as int);
            match zip_data_of(data, nm) {
                Some(bytes) => seq![("forge_extracted/"@ + nm, bytes)] + rest,
                None => rest,
            }
        } else {
            rest
        }
    }
}

/// Stages every data value that names a file inside the installer archive:
/// the file's bytes under its `forge_extracted/` relative path.
pub fn stage_forge_payloads(data: &Vec<u8>, values: &Vec<String>) -> (r: Vec<(String, Vec<u8>)>)
    ensures
        file_views(r@) == staged_from(values.deep_view(), data@, 0),
{
    let ghost vv = values.deep_view();
    proof {
        assert(vv.len() == values@.len());
    }
    let mut out: Vec<(String, Vec<u8>)> = Vec::new();
    let mut i: usize = values.len();
    while i > 0
        invariant
            i <= values@.len(),
            vv == values.deep_view(),
            vv.len() == values@.len(),
            file_views(out@) == staged_from(vv, data@, i as int),
        decreases i,
    {
        i -= 1;
        proof {
            assert(vv[i as int] == values@[i as int]@);
        }
        let v = chars_of(values[i].as_str());
        if v.len() >= 1 && v[0] == '/' {
            let e = crate::forge::slash_end_exec(&v);
            let nm_chars = slice_range(&v, e, v.len());
            let nm = string_from_chars(&nm_chars);
            match zip_entry_bytes(data, nm.as_str()) {
                Some(bytes) => {
                    let mut dest_chars: Vec<char> = Vec::new();
                    push_str_chars(&mut dest_chars, "forge_extracted/");
                    push_all(&mut dest_chars, &nm_chars);
                    let dest = string_from_chars(&dest_chars);
                    let ghost pre = out@;
                    let ghost x = (dest, bytes);
                    let mut nout: Vec<(String, Vec<u8>)> = Vec::new();
                    nout.push((dest, bytes));
                    let mut rest = out;
                    nout.append(&mut rest);
                    out = nout;
                    proof {
                        assert(out@ == seq![x] + pre);
                        assert(x.0@ == "forge_extracted/"@ + nm_chars@);
                        assert(staged_from(vv, data@, i as int) == seq![
                            ("forge_extracted/"@ + nm_chars@, x.1@),
                        ] + staged_from(vv, data@, i as int + 1));
                        assert(file_views(seq![x] + pre) =~= seq![(x.0@, x.1@)] + file_views(pre));
                        assert(file_views(out@) =~= staged_from(vv, data@, i as int));
                    }
                },
                None => {},
            }
        }
    }
    out
}

// ---------------------------------------------------------------------------
// A jar's Main-Class header
// ---------------------------------------------------------------------------

/// How far leading whitespace reaches from `from`.
pub open spec fn nonws_start(s: Seq<char>, from: int) -> int
    recommends
        0 <= from <= s.len(),
    decreases s.len() - from
        when 0 <= from <= s.len()
{
    if from >= s.len() {
        s.len() as int
    } else if !ws_char(s[from]) {
        from
    } else {
        nonws_start(s, from + 1)
    }
}

/// The length of `s` with trailing whitespace dropped.
pub open spec fn trim_end_len(s: Seq<char>) -> int
    decreases s.len(),
{
    if s.len() == 0 {
        0
    } else if ws_char(s.last()) {
        trim_end_len(s.drop_last())
    } else {
        s.len() as int
    }
}

/// `s` with leading and trailing whitespace dropped.
pub open spec fn trim_chars(s: Seq<char>) -> Seq<char> {
    let cut = s.subrange(0, trim_end_len(s));
    cut.subrange(nonws_start(cut, 0), cut.len() as int)
}

proof fn lemma_nonws_start_at(s: Seq<char>, from: int, i: int)
    requires
        0 <= from <= i <= s.len(),
        forall|j: int| from <= j < i ==> ws_char(s[j]),
        i < s.len() ==> !ws_char(s[i]),
    ensures
        nonws_start(s, from) == i,
    decreases i - from,
{
    if from < i {
        lemma_nonws_start_at(s, from + 1, i);
    }
}

proof fn lemma_trim_end_at(s: Seq<char>, e: int)
    requires
        0 <= e <= s.len(),
        forall|j: int| e <= j < s.len() ==> ws_char(s[j]),
        e > 0 ==> !ws_char(s[e - 1]),
    ensures
        trim_end_len(s) == e,
    decreases s.len(),
{
    if s.len() > 0 {
        if e < s.len() {
            assert(ws_char(s.last()));
            assert(forall|j: int|
                e <= j < s.len() - 1 ==> ws_char(#[trigger] s.drop_last()[j]));
            assert(e > 0 ==> !ws_char(s.drop_last()[e - 1]));
            lemma_trim_end_at(s.drop_last(), e);
        }
    }
}

/// Drops leading and trailing whitespace.
pub fn trim_exec(v: &Vec<char>) -> (r: Vec<char>)
    ensures
        r@ == trim_chars(v@),
{
    let mut e: usize = v.len();
    while e > 0 && ws_char_pub(v[e - 1])
        invariant
            e <= v@.len(),
            forall|j: int| e <= j < v@.len() ==> ws_char(v@[j]),
        decreases e,
    {
        e -= 1;
    }
    proof {
        lemma_trim_end_at(v@, e as int);
    }
    let mut s: usize = 0;
    while s < e && ws_char_pub(v[s])
        invariant
            s <= e <= v@.len(),
            forall|j: int| 0 <= j < s ==> ws_char(v@[j]),
        decreases e - s,
    {
        s += 1;
    }
    let ghost cut = v@.subrange(0, e as int);
    proof {
        assert(forall|j: int| 0 <= j < s ==> ws_char(#[trigger] cut[j]));
        if s < e {
            assert(!ws_char(cut[s as int]));
            lemma_nonws_start_at(cut, 0, s as int);
        } else {
            lemma_nonws_start_at(cut, 0, cut.len() as int);
        }
    }
    let r = slice_range(v, s, e);
    proof {
        assert(r@ =~= cut.subrange(nonws_start(cut, 0), cut.len() as int));
    }
    r
}

fn ws_char_pub(c: char) -> (b: bool)
    ensures
        b == ws_char(c),
{
    c == ' ' || c == '\t' || c == '\r' || c == '\n' || c == '\u{b}' || c == '\u{c}'
}

/// The least index `i >= from` with `s[i] == '\n'`, or `s.len()`.
pub open spec fn nl_at(s: Seq<char>, from: int) -> int
    recommends
        0 <= from <= s.len(),
    decreases s.len() - from
        when 0 <= from <= s.len()
{
    if from >= s.len() {
        s.len() as int
    } else if s[from] == '\n' {
        from
    } else {
        nl_at(s, from + 1)
    }
}

proof fn lemma_nl_at(s: Seq<char>, from: int, i: int)
    requires
        0 <= from <= i <= s.len(),
        forall|j: int| from <= j < i ==> s[j] != '\n',
        i < s.len() ==> s[i] == '\n',
    ensures
        nl_at(s, from) == i,
    decreases i - from,
{
    if from < i {
        lemma_nl_at(s, from + 1, i);
    }
}

/// The first `Main-Class:` header among the manifest's lines at or after
/// `from`, its value trimmed.
pub open spec fn main_class_from(m: Seq<char>, from: int) -> Option<Seq<char>>
    recommends
        0 <= from <= m.len(),
    decreases m.len() - from
        when 0 <= from <= m.len()
{
    let e = nl_at(m, from);
    if !(from <= e <= m.len()) {
        None
    } else {
        let line = m.subrange(from, e);
        if is_prefix_of("Main-Class:"@, line) {
            Some(trim_chars(line.subrange(11, line.len() as int)))
        } else if e < m.len() {
            main_class_from(m, e + 1)
        } else {
            None
        }
    }
}

/// The `Main-Class:` header of a jar manifest.
pub open spec fn main_class_of(manifest: Seq<u8>) -> Option<Seq<char>> {
    main_class_from(lossy_of(manifest), 0)
}

fn find_main_class(m: &Vec<char>) -> (r: Option<Vec<char>>)
    ensures
        r.deep_view() == main_class_from(m@, 0),
{
    let prefix = chars_of("Main-Class:");
    proof {
        reveal_strlit("Main-Class:");
    }
    let mut from: usize = 0;
    loop
        invariant
            from <= m@.len(),
            prefix@ == "Main-Class:"@,
            main_class_from(m@, 0) == main_class_from(m@, from as int),
        decreases m@.len() - from,
    {
        let e = match find_char_from(m, '\n', from) {
            Some(x) => {
                proof {
                    lemma_nl_at(m@, from as int, x as int);
                }
                x
            },
            None => {
                proof {
                    lemma_nl_at(m@, from as int, m@.len() as int);
                }
                m.len()
            },
        };
        let line = slice_range(m, from, e);
        if starts_with(&line, &prefix) {
            proof {
                reveal_strlit("Main-Class:");
            }
            let rest = slice_range(&line, 11, line.len());
            let t = trim_exec(&rest);
            return Some(t);
        }
        if e < m.len() {
            from = e + 1;
        } else {
            return None;
        }
    }
}

/// Reads the `Main-Class:` header out of a jar's `META-INF/MANIFEST.MF`.
/// `jar_label` only names the jar in error messages.
pub fn extract_jar_main_class(jar: &Vec<u8>, jar_label: &str) -> (r: Result<String, String>)
    ensures
        zip_data_of(jar@, "META-INF/MANIFEST.MF"@) is None ==> r is Err && r->Err_0@
            == "No MANIFEST.MF in "@ + jar_label@,
        zip_data_of(jar@, "META-INF/MANIFEST.MF"@) matches Some(m) ==> (match main_class_of(m) {
            Some(mc) => r is Ok && r->Ok_0@ == mc,
            None => r is Err && r->Err_0@ == "No Main-Class in "@ + jar_label@,
        }),
{
    match zip_entry_bytes(jar, "META-INF/MANIFEST.MF") {
        None => {
            let mut msg: Vec<char> = Vec::new();
            push_str_chars(&mut msg, "No MANIFEST.MF in ");
            push_str_chars(&mut msg, jar_label);
            Err(string_from_chars(&msg))
        },
        Some(mbytes) => {
            let s = bytes_to_string_lossy(&mbytes);
            let mc = chars_of(s.as_str());
            match find_main_class(&mc) {
                Some(v) => Ok(string_from_chars(&v)),
                None => {
                    let mut msg: Vec<char> = Vec::new();
                    push_str_chars(&mut msg, "No Main-Class in ");
                    push_str_chars(&mut msg, jar_label);
                    Err(string_from_chars(&msg))
                },
            }
        },
    }
}

} // verus!
