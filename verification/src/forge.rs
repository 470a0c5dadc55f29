//! The Forge/NeoForge installer's token grammar and processor engine.
//!
//! The installer declares its work as data: named values, Maven coordinates
//! and literal arguments. Tokens of the form `{key}` read the data map,
//! `[group:artifact:version]` resolve to a library path, and anything else
//! passes through as a literal. Processors run strictly in list order, and a
//! failing processor aborts the installation before any profile is written.

use vstd::prelude::*;

use crate::maven::{maven_rel_path, maven_to_path, maven_wellformed};
use crate::models::{ForgeDataEntry, ForgeProcessor};
use crate::text::{
    chars_of, joined, lemma_joined_push, push_all, push_str_chars, slice_range, string_from_chars,
};

verus! {

// ---------------------------------------------------------------------------
// The token map
// ---------------------------------------------------------------------------

/// Key/value views of a token map, in insertion order.
pub open spec fn kv_views(m: Seq<(String, String)>) -> Seq<(Seq<char>, Seq<char>)> {
    m.map_values(|p: (String, String)| (p.0@, p.1@))
}

/// The value the map gives a key; a later insertion overrides an earlier one.
pub open spec fn map_lookup(m: Seq<(Seq<char>, Seq<char>)>, k: Seq<char>) -> Option<Seq<char>>
    decreases m.len(),
{
    if m.len() == 0 {
        None
    } else if m.last().0 == k {
        Some(m.last().1)
    } else {
        map_lookup(m.drop_last(), k)
    }
}

fn lookup(m: &Vec<(String, String)>, k: &String) -> (r: Option<String>)
    ensures
        r.deep_view() == map_lookup(kv_views(m@), k@),
{
    let mut i: usize = m.len();
    proof {
        assert(kv_views(m@).len() == m@.len());
        assert(kv_views(m@).subrange(0, m@.len() as int) =~= kv_views(m@));
    }
    while i > 0
        invariant
            i <= m@.len(),
            kv_views(m@).len() == m@.len(),
            map_lookup(kv_views(m@), k@) == map_lookup(
                kv_views(m@).subrange(0, i as int),
                k@,
            ),
        decreases i,
    {
        proof {
            let whole = kv_views(m@).subrange(0, i as int);
            assert(whole.drop_last() =~= kv_views(m@).subrange(0, i as int - 1));
            assert(whole.last() == (m@[i as int - 1].0@, m@[i as int - 1].1@));
        }
        i -= 1;
        if m[i].0 == *k {
            return Some(m[i].1.clone());
        }
    }
    proof {
        assert(kv_views(m@).subrange(0, 0) =~= Seq::<(Seq<char>, Seq<char>)>::empty());
    }
    None
}

// ---------------------------------------------------------------------------
// Data values and tokens
// ---------------------------------------------------------------------------

/// Is the text wrapped in the given opening and closing characters?
pub open spec fn wrapped(v: Seq<char>, open: char, close: char) -> bool {
    v.len() >= 1 && v[0] == open && v.last() == close
}

/// The first index of `v` that is not a `/`.
pub open spec fn slash_end(v: Seq<char>, from: int) -> int
    recommends
        0 <= from <= v.len(),
    decreases v.len() - from
        when 0 <= from <= v.len()
{
    if from >= v.len() {
        v.len() as int
    } else if v[from] != '/' {
        from
    } else {
        slash_end(v, from + 1)
    }
}

proof fn lemma_slash_end_at(v: Seq<char>, from: int, i: int)
    requires
        0 <= from <= i <= v.len(),
        forall|j: int| from <= j < i ==> v[j] == '/',
        i < v.len() ==> v[i] != '/',
    ensures
        slash_end(v, from) == i,
    decreases i - from,
{
    if from < i {
        lemma_slash_end_at(v, from + 1, i);
    }
}

pub fn slash_end_exec(v: &Vec<char>) -> (r: usize)
    ensures
        r == slash_end(v@, 0),
        r <= v@.len(),
{
    let mut e: usize = 0;
    while e < v.len()
        invariant
            e <= v@.len(),
            forall|j: int| 0 <= j < e ==> v@[j] == '/',
        decreases v@.len() - e,
    {
        if v[e] != '/' {
            proof {
                lemma_slash_end_at(v@, 0, e as int);
            }
            return e;
        }
        e += 1;
    }
    proof {
        lemma_slash_end_at(v@, 0, v@.len() as int);
    }
    e
}

/// How an install-profile data value resolves on the client side: a wrapped
/// Maven coordinate becomes that library's path, a JAR-internal absolute path
/// becomes its staging path under `forge_extracted`, anything else is a
/// literal.
pub open spec fn resolved_data_value(v: Seq<char>, libdir: Seq<char>) -> Seq<char> {
    if wrapped(v, '[', ']') {
        libdir + "/"@ + maven_rel_path(v.subrange(1, v.len() - 1))
    } else if v.len() >= 1 && v[0] == '/' {
        libdir + "/forge_extracted/"@ + v.subrange(slash_end(v, 0), v.len() as int)
    } else {
        v
    }
}

/// A data value can be resolved: when it wraps a coordinate, the coordinate
/// is well-formed.
pub open spec fn data_value_resolvable(v: Seq<char>) -> bool {
    wrapped(v, '[', ']') ==> maven_wellformed(v.subrange(1, v.len() - 1))
}

/// Resolves one data value as `resolved_data_value` reads it.
pub fn resolve_data_value(value: &str, libraries_dir: &str) -> (r: String)
    requires
        data_value_resolvable(value@),
    ensures
        r@ == resolved_data_value(value@, libraries_dir@),
{
    let v = chars_of(value);
    let mut out: Vec<char> = Vec::new();
    if v.len() >= 1 && v[0] == '[' && v[v.len() - 1] == ']' {
        let coord = slice_range(&v, 1, v.len() - 1);
        let coord_s = string_from_chars(&coord);
        push_str_chars(&mut out, libraries_dir);
        push_str_chars(&mut out, "/");
        let rel = maven_to_path(coord_s.as_str());
        push_str_chars(&mut out, rel.as_str());
        string_from_chars(&out)
    } else if v.len() >= 1 && v[0] == '/' {
        let e = slash_end_exec(&v);
        let rest = slice_range(&v, e, v.len());
        push_str_chars(&mut out, libraries_dir);
        push_str_chars(&mut out, "/forge_extracted/");
        push_all(&mut out, &rest);
        string_from_chars(&out)
    } else {
        let mut vv = v;
        string_from_chars(&vv)
    }
}

/// How a processor argument resolves: `{key}` reads the data map and passes
/// through unchanged when the key is unknown, `[coordinate]` becomes the
/// library path, anything else is a literal.
pub open spec fn resolved_token(
    token: Seq<char>,
    m: Seq<(Seq<char>, Seq<char>)>,
    libdir: Seq<char>,
) -> Seq<char> {
    if wrapped(token, '{', '}') {
        match map_lookup(m, token.subrange(1, token.len() - 1)) {
            Some(v) => v,
            None => token,
        }
    } else if wrapped(token, '[', ']') {
        libdir + "/"@ + maven_rel_path(token.subrange(1, token.len() - 1))
    } else {
        token
    }
}

/// A token can be resolved: when it wraps a coordinate, the coordinate is
/// well-formed.
pub open spec fn token_resolvable(token: Seq<char>) -> bool {
    wrapped(token, '[', ']') ==> maven_wellformed(token.subrange(1, token.len() - 1))
}

/// Resolves one argument token as `resolved_token` reads it. The same grammar
/// serves the data entries and the processor arguments.
pub fn resolve_forge_token(token: &str, data_map: &Vec<(String, String)>, libraries_dir: &str) -> (r:
    String)
    requires
        token_resolvable(token@),
    ensures
        r@ == resolved_token(token@, kv_views(data_map@), libraries_dir@),
{
    let t = chars_of(token);
    if t.len() >= 1 && t[0] == '{' && t[t.len() - 1] == '}' {
        let key = slice_range(&t, 1, t.len() - 1);
        let key_s = string_from_chars(&key);
        match lookup(data_map, &key_s) {
            Some(v) => v,
            None => {
                let tt = t;
                string_from_chars(&tt)
            },
        }
    } else if t.len() >= 1 && t[0] == '[' && t[t.len() - 1] == ']' {
        let coord = slice_range(&t, 1, t.len() - 1);
        let coord_s = string_from_chars(&coord);
        let mut out: Vec<char> = Vec::new();
        push_str_chars(&mut out, libraries_dir);
        push_str_chars(&mut out, "/");
        let rel = maven_to_path(coord_s.as_str());
        push_str_chars(&mut out, rel.as_str());
        string_from_chars(&out)
    } else {
        let tt = t;
        string_from_chars(&tt)
    }
}

/// The seed keys every token map starts from, then the install profile's data
/// entries in order, each resolved on the client side.
pub open spec fn data_map_views(
    data: Seq<(String, ForgeDataEntry)>,
    libdir: Seq<char>,
    client_jar: Seq<char>,
    game_dir: Seq<char>,
) -> Seq<(Seq<char>, Seq<char>)> {
    seq![
        ("MINECRAFT_JAR"@, client_jar),
        ("SIDE"@, "client"@),
        ("ROOT"@, game_dir),
        ("LIBRARY_DIR"@, libdir),
    ] + data.map_values(
        |e: (String, ForgeDataEntry)| (e.0@, resolved_data_value(e.1.client@, libdir)),
    )
}

/// Builds the token substitution map: the fixed seeds, then every data
/// entry's client value resolved.
pub fn build_data_map(
    data: &Vec<(String, ForgeDataEntry)>,
    libraries_dir: &str,
    client_jar: &str,
    game_dir: &str,
) -> (r: Vec<(String, String)>)
    requires
        forall|i: int|
            0 <= i < data@.len() ==> data_value_resolvable((#[trigger] data@[i]).1.client@),
    ensures
        kv_views(r@) == data_map_views(data@, libraries_dir@, client_jar@, game_dir@),
{
    let ghost target = data_map_views(data@, libraries_dir@, client_jar@, game_dir@);
    let mut out: Vec<(String, String)> = Vec::new();
    let mk = chars_of("MINECRAFT_JAR");
    let cj = chars_of(client_jar);
    out.push((string_from_chars(&mk), string_from_chars(&cj)));
    let sk = chars_of("SIDE");
    let sv = chars_of("client");
    out.push((string_from_chars(&sk), string_from_chars(&sv)));
    let rk = chars_of("ROOT");
    let rv = chars_of(game_dir);
    out.push((string_from_chars(&rk), string_from_chars(&rv)));
    let lk = chars_of("LIBRARY_DIR");
    let lv = chars_of(libraries_dir);
    out.push((string_from_chars(&lk), string_from_chars(&lv)));
    proof {
        assert(kv_views(out@) =~= target.subrange(0, 4));
    }
    let mut i: usize = 0;
    while i < data.len()
        invariant
            i <= data@.len(),
            target == data_map_views(data@, libraries_dir@, client_jar@, game_dir@),
            forall|k: int|
                0 <= k < data@.len() ==> data_value_resolvable((#[trigger] data@[k]).1.client@),
            kv_views(out@) == target.subrange(0, 4 + i as int),
        decreases data@.len() - i,
    {
        let key = data[i].0.clone();
        let val = resolve_data_value(data[i].1.client.as_str(), libraries_dir);
        let ghost pre = out@;
        let ghost x = (key, val);
        out.push((key, val));
        proof {
            assert(out@ == pre.push(x));
            assert(x.0@ == data@[i as int].0@);
            assert(x.1@ == resolved_data_value(data@[i as int].1.client@, libraries_dir@));
            assert(target[4 + i as int] == (data@[i as int].0@, resolved_data_value(
                data@[i as int].1.client@,
                libraries_dir@,
            )));
            assert(kv_views(pre.push(x)) =~= kv_views(pre).push((x.0@, x.1@)));
            assert(target.subrange(0, 4 + i as int + 1) =~= target.subrange(0, 4 + i as int).push(
                target[4 + i as int],
            ));
            assert(kv_views(pre.push(x)) =~= target.subrange(0, 4 + i as int + 1));
        }
        i += 1;
    }
    proof {
        assert(target.subrange(0, target.len() as int) =~= target);
    }
    out
}

// ---------------------------------------------------------------------------
// Processor invocations
// ---------------------------------------------------------------------------

/// A processor runs on the client side when it declares no sides or lists
/// `client` among them.
pub open spec fn runs_on_client(p: ForgeProcessor) -> bool {
    p.sides is None || exists|i: int|
        0 <= i < p.sides->Some_0@.len() && (#[trigger] p.sides->Some_0@[i])@ == "client"@
}

fn runs_on_client_exec(p: &ForgeProcessor) -> (b: bool)
    ensures
        b == runs_on_client(*p),
{
    if p.sides.is_none() {
        return true;
    }
    let sides = p.sides.as_ref().unwrap();
    let mut i: usize = 0;
    while i < sides.len()
        invariant
            i <= sides@.len(),
            *sides == p.sides->Some_0,
            p.sides is Some,
            forall|j: int| 0 <= j < i ==> (#[trigger] sides@[j])@ != "client"@,
        decreases sides@.len() - i,
    {
        let c = chars_of("client");
        let sc = chars_of(sides[i].as_str());
        if eq_chars(&sc, &c) {
            proof {
                assert((p.sides->Some_0@[i as int])@ == "client"@);
            }
            return true;
        }
        i += 1;
    }
    false
}

fn eq_chars(a: &Vec<char>, b: &Vec<char>) -> (r: bool)
    ensures
        r == (a@ == b@),
{
    if a.len() != b.len() {
        proof {
            assert(a@.len() != b@.len());
        }
        return false;
    }
    let mut i: usize = 0;
    while i < a.len()
        invariant
            i <= a@.len(),
            a@.len() == b@.len(),
            forall|j: int| 0 <= j < i ==> a@[j] == b@[j],
        decreases a@.len() - i,
    {
        if a[i] != b[i] {
            return false;
        }
        i += 1;
    }
    proof {
        assert(a@ =~= b@);
    }
    true
}

/// One planned external process: the processor's own jar, the joined
/// classpath, and its fully resolved arguments. The main class is read from
/// the jar just before the run.
#[derive(Debug, Clone)]
pub struct ProcessorInvocation {
    pub jar_path: String,
    pub classpath: String,
    pub args: Vec<String>,
}

/// The library path of a coordinate under the libraries directory.
pub open spec fn lib_path_of(coord: Seq<char>, libdir: Seq<char>) -> Seq<char> {
    libdir + "/"@ + maven_rel_path(coord)
}

/// The classpath of a processor: its own jar first, then its declared
/// classpath entries, joined with `:`.
pub open spec fn classpath_of(p: ForgeProcessor, libdir: Seq<char>) -> Seq<char> {
    joined(
        seq![lib_path_of(p.jar@, libdir)] + p.classpath@.map_values(
            |c: String| lib_path_of(c@, libdir),
        ),
        ":"@,
    )
}

/// The resolved arguments of a processor.
pub open spec fn args_of(
    p: ForgeProcessor,
    m: Seq<(Seq<char>, Seq<char>)>,
    libdir: Seq<char>,
) -> Seq<Seq<char>> {
    p.args@.map_values(|a: String| resolved_token(a@, m, libdir))
}

/// Every coordinate a processor mentions is well-formed.
pub open spec fn processor_resolvable(p: ForgeProcessor) -> bool {
    &&& maven_wellformed(p.jar@)
    &&& forall|i: int| 0 <= i < p.classpath@.len() ==> maven_wellformed((#[trigger] p.classpath@[i])@)
    &&& forall|i: int| 0 <= i < p.args@.len() ==> token_resolvable((#[trigger] p.args@[i])@)
}

pub open spec fn invocation_views(s: Seq<ProcessorInvocation>) -> Seq<
    (Seq<char>, Seq<char>, Seq<Seq<char>>),
> {
    s.map_values(
        |v: ProcessorInvocation|
            (v.jar_path@, v.classpath@, v.args@.map_values(|a: String| a@)),
    )
}

/// The plan for a processor list: the client-side processors in list order,
/// each with its jar path, classpath and resolved arguments.
pub open spec fn plan_views(
    ps: Seq<ForgeProcessor>,
    m: Seq<(Seq<char>, Seq<char>)>,
    libdir: Seq<char>,
) -> Seq<(Seq<char>, Seq<char>, Seq<Seq<char>>)>
    decreases ps.len(),
{
    if ps.len() == 0 {
        Seq::empty()
    } else if runs_on_client(ps.last()) {
        plan_views(ps.drop_last(), m, libdir).push(
            (lib_path_of(ps.last().jar@, libdir), classpath_of(ps.last(), libdir), args_of(
                ps.last(),
                m,
                libdir,
            )),
        )
    } else {
        plan_views(ps.drop_last(), m, libdir)
    }
}

/// Builds one processor's invocation.
fn build_invocation(p: &ForgeProcessor, data_map: &Vec<(String, String)>, libraries_dir: &str) -> (r:
    ProcessorInvocation)
    requires
        processor_resolvable(*p),
    ensures
        r.jar_path@ == lib_path_of(p.jar@, libraries_dir@),
        r.classpath@ == classpath_of(*p, libraries_dir@),
        r.args@.map_values(|a: String| a@) == args_of(
            *p,
            kv_views(data_map@),
            libraries_dir@,
        ),
{
    let mut jar: Vec<char> = Vec::new();
    push_str_chars(&mut jar, libraries_dir);
    push_str_chars(&mut jar, "/");
    let rel = maven_to_path(p.jar.as_str());
    push_str_chars(&mut jar, rel.as_str());
    let jar_path = string_from_chars(&jar);

    let ghost parts = seq![lib_path_of(p.jar@, libraries_dir@)] + p.classpath@.map_values(
        |c: String| lib_path_of(c@, libraries_dir@),
    );
    let mut cp = jar.clone();
    proof {
        assert(parts[0] == jar@);
        assert(joined(parts.subrange(0, 1), ":"@) == parts[0]) by {
            assert(parts.subrange(0, 1).len() == 1);
            assert(parts.subrange(0, 1)[0] == parts[0]);
        }
    }
    let mut i: usize = 0;
    while i < p.classpath.len()
        invariant
            i <= p.classpath@.len(),
            processor_resolvable(*p),
            parts == seq![lib_path_of(p.jar@, libraries_dir@)] + p.classpath@.map_values(
                |c: String| lib_path_of(c@, libraries_dir@),
            ),
            parts.len() == 1 + p.classpath@.len(),
            cp@ == joined(parts.subrange(0, 1 + i as int), ":"@),
        decreases p.classpath@.len() - i,
    {
        push_str_chars(&mut cp, ":");
        push_str_chars(&mut cp, libraries_dir);
        push_str_chars(&mut cp, "/");
        let cp_rel = maven_to_path(p.classpath[i].as_str());
        push_str_chars(&mut cp, cp_rel.as_str());
        proof {
            let pre = parts.subrange(0, 1 + i as int);
            let cur = parts.subrange(0, 1 + i as int + 1);
            assert(cur =~= pre.push(parts[1 + i as int]));
            assert(parts[1 + i as int] == lib_path_of(p.classpath@[i as int]@, libraries_dir@));
            lemma_joined_push(pre, parts[1 + i as int], ":"@);
            assert(cp@ =~= joined(pre, ":"@) + ":"@ + lib_path_of(
                p.classpath@[i as int]@,
                libraries_dir@,
            ));
        }
        i += 1;
    }
    proof {
        assert(parts.subrange(0, parts.len() as int) =~= parts);
    }
    let classpath = string_from_chars(&cp);

    let mut args: Vec<String> = Vec::new();
    let mut j: usize = 0;
    while j < p.args.len()
        invariant
            j <= p.args@.len(),
            processor_resolvable(*p),
            args@.map_values(|a: String| a@) == args_of(
                *p,
                kv_views(data_map@),
                libraries_dir@,
            ).subrange(0, j as int),
        decreases p.args@.len() - j,
    {
        let a = resolve_forge_token(p.args[j].as_str(), data_map, libraries_dir);
        let ghost pre = args@;
        let ghost av = a;
        args.push(a);
        proof {
            let whole = args_of(*p, kv_views(data_map@), libraries_dir@);
            assert(args@ == pre.push(av));
            assert(av@ == resolved_token(p.args@[j as int]@, kv_views(data_map@), libraries_dir@));
            assert(whole[j as int] == resolved_token(
                p.args@[j as int]@,
                kv_views(data_map@),
                libraries_dir@,
            ));
            assert(pre.push(av).map_values(|a: String| a@) =~= pre.map_values(
                |a: String| a@,
            ).push(av@));
            assert(whole.subrange(0, j as int + 1) =~= whole.subrange(0, j as int).push(
                whole[j as int],
            ));
            assert(args@.map_values(|a: String| a@) =~= whole.subrange(0, j as int + 1));
        }
        j += 1;
    }
    proof {
        let whole = args_of(*p, kv_views(data_map@), libraries_dir@);
        assert(whole.subrange(0, whole.len() as int) =~= whole);
    }
    ProcessorInvocation { jar_path, classpath, args }
}

/// Plans the client-side processor runs, in list order.
pub fn build_processor_plan(
    processors: &Vec<ForgeProcessor>,
    data_map: &Vec<(String, String)>,
    libraries_dir: &str,
) -> (r: Vec<ProcessorInvocation>)
    requires
        forall|i: int|
            0 <= i < processors@.len() && runs_on_client(#[trigger] processors@[i])
                ==> processor_resolvable(processors@[i]),
    ensures
        invocation_views(r@) == plan_views(
            processors@,
            kv_views(data_map@),
            libraries_dir@,
        ),
{
    let mut out: Vec<ProcessorInvocation> = Vec::new();
    let mut i: usize = 0;
    while i < processors.len()
        invariant
            i <= processors@.len(),
            forall|k: int|
                0 <= k < processors@.len() && runs_on_client(#[trigger] processors@[k])
                    ==> processor_resolvable(processors@[k]),
            invocation_views(out@) == plan_views(
                processors@.subrange(0, i as int),
                kv_views(data_map@),
                libraries_dir@,
            ),
        decreases processors@.len() - i,
    {
        proof {
            let pre = processors@.subrange(0, i as int);
            let cur = processors@.subrange(0, i as int + 1);
            assert(cur.drop_last() =~= pre);
            assert(cur.last() == processors@[i as int]);
        }
        if runs_on_client_exec(&processors[i]) {
            let inv = build_invocation(&processors[i], data_map, libraries_dir);
            let ghost pre_out = out@;
            out.push(inv);
            proof {
                assert(invocation_views(pre_out.push(inv)) =~= invocation_views(pre_out).push(
                    (inv.jar_path@, inv.classpath@, inv.args@.map_values(|a: String| a@)),
                ));
            }
        }
        i += 1;
    }
    proof {
        assert(processors@.subrange(0, processors@.len() as int) =~= processors@);
    }
    out
}

// ---------------------------------------------------------------------------
// The engine
// ---------------------------------------------------------------------------

/// What the caller must do next.
#[derive(Debug, Clone)]
pub enum EngineAction {
    /// Run the plan's invocation at this index as an external Java process
    /// and report its exit.
    Run(usize),
    /// Every processor succeeded: write the loader profile.
    WriteProfile,
    /// A processor failed: abort the installation with this message and write
    /// no profile.
    Abort(String),
}

/// Drives the processor chain strictly in plan order: each exit report either
/// yields the next run, the final go-ahead to write the profile, or an abort
/// that names the failing processor.
#[derive(Debug, Clone)]
pub struct ProcessorEngine {
    pub plan: Vec<ProcessorInvocation>,
    pub next: usize,
    pub failed: bool,
}

/// The abort message for a failing processor, naming its main class and
/// carrying both captured output streams verbatim.
pub open spec fn processor_failure_message(
    main_class: Seq<char>,
    stdout: Seq<char>,
    stderr: Seq<char>,
) -> Seq<char> {
    "Forge processor "@ + main_class + " failed:\nstdout: "@ + stdout + "\nstderr: "@ + stderr
}

pub open spec fn engine_wf(e: ProcessorEngine) -> bool {
    e.next <= e.plan@.len()
}

/// The runs the engine has issued so far, always a prefix of the plan.
pub open spec fn engine_issued(e: ProcessorEngine) -> Seq<ProcessorInvocation> {
    if e.failed || e.next >= e.plan@.len() {
        e.plan@
    } else {
        e.plan@.subrange(0, e.next + 1)
    }
}

impl ProcessorEngine {
    /// Starts the chain: the first run, or the go-ahead when there is nothing
    /// to do.
    pub fn start(plan: Vec<ProcessorInvocation>) -> (r: (ProcessorEngine, EngineAction))
        ensures
            engine_wf(r.0),
            !r.0.failed,
            r.0.plan@ == plan@,
            r.0.next == 0,
            plan@.len() == 0 ==> r.1 is WriteProfile,
            plan@.len() > 0 ==> r.1 == EngineAction::Run(0usize),
    {
        if plan.len() == 0 {
            let e = ProcessorEngine { plan, next: 0, failed: false };
            (e, EngineAction::WriteProfile)
        } else {
            let e = ProcessorEngine { plan, next: 0, failed: false };
            (e, EngineAction::Run(0))
        }
    }

    /// Takes the exit of the run issued last. A success yields the next run
    /// in plan order, or the go-ahead after the last one; a failure yields an
    /// abort naming the processor's main class, and the engine accepts no
    /// further exits, so no profile is ever written after a failure.
    pub fn on_exit(&mut self, success: bool, main_class: &str, stdout: &str, stderr: &str) -> (r:
        EngineAction)
        requires
            engine_wf(*old(self)),
            !old(self).failed,
            old(self).next < old(self).plan@.len(),
        ensures
            engine_wf(*final(self)),
            final(self).plan@ == old(self).plan@,
            !success ==> final(self).failed && r is Abort && r->Abort_0@
                == processor_failure_message(main_class@, stdout@, stderr@),
            (r is WriteProfile) <==> (success && old(self).next + 1 == old(self).plan@.len()),
            success ==> !final(self).failed && final(self).next == old(self).next + 1,
            success && old(self).next + 1 < old(self).plan@.len() ==> r == EngineAction::Run(
                (old(self).next + 1) as usize,
            ),
    {
        if !success {
            self.failed = true;
            let mut msg: Vec<char> = Vec::new();
            push_str_chars(&mut msg, "Forge processor ");
            push_str_chars(&mut msg, main_class);
            push_str_chars(&mut msg, " failed:\nstdout: ");
            push_str_chars(&mut msg, stdout);
            push_str_chars(&mut msg, "\nstderr: ");
            push_str_chars(&mut msg, stderr);
            EngineAction::Abort(string_from_chars(&msg))
        } else {
            let n = self.plan.len();
            proof {
                assert(self.next < n);
            }
            self.next += 1;
            if self.next < self.plan.len() {
                EngineAction::Run(self.next)
            } else {
                EngineAction::WriteProfile
            }
        }
    }
}

} // verus!
