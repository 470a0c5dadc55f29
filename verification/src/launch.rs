//! Assembling the final process invocation.
//!
//! The builder turns a resolved configuration and an authenticated identity
//! into the Java program, its working directory and its full argument list;
//! spawning the process happens outside this crate.

use vstd::prelude::*;

use crate::text::{
    chars_of, dec_chars, dec_rep, joined, lemma_joined_push, push_all, push_str_chars,
    string_from_chars,
};

verus! {

/// The JVM heap bounds, in megabytes.
#[derive(Debug, Clone)]
pub struct MemorySettings {
    pub min_megabytes: u32,
    pub max_megabytes: u32,
}

/// The game window's initial size.
#[derive(Debug, Clone)]
pub struct Resolution {
    pub width: u32,
    pub height: u32,
}

/// The identity a launch runs under.
#[derive(Debug, Clone)]
pub enum LaunchAuth {
    Offline { username: String, uuid: String },
    Microsoft { username: String, uuid: String, access_token: String },
}

pub open spec fn spec_username(a: LaunchAuth) -> Seq<char> {
    match a {
        LaunchAuth::Offline { username, .. } => username@,
        LaunchAuth::Microsoft { username, .. } => username@,
    }
}

pub open spec fn spec_uuid(a: LaunchAuth) -> Seq<char> {
    match a {
        LaunchAuth::Offline { uuid, .. } => uuid@,
        LaunchAuth::Microsoft { uuid, .. } => uuid@,
    }
}

pub open spec fn spec_access_token(a: LaunchAuth) -> Seq<char> {
    match a {
        LaunchAuth::Offline { .. } => "offline-token"@,
        LaunchAuth::Microsoft { access_token, .. } => access_token@,
    }
}

pub open spec fn spec_user_type(a: LaunchAuth) -> Seq<char> {
    match a {
        LaunchAuth::Offline { .. } => "offline"@,
        LaunchAuth::Microsoft { .. } => "msa"@,
    }
}

impl LaunchAuth {
    pub fn username(&self) -> (r: &str)
        ensures
            r@ == spec_username(*self),
    {
        match self {
            LaunchAuth::Offline { username, .. } => username.as_str(),
            LaunchAuth::Microsoft { username, .. } => username.as_str(),
        }
    }

    pub fn uuid(&self) -> (r: &str)
        ensures
            r@ == spec_uuid(*self),
    {
        match self {
            LaunchAuth::Offline { uuid, .. } => uuid.as_str(),
            LaunchAuth::Microsoft { uuid, .. } => uuid.as_str(),
        }
    }

    pub fn access_token(&self) -> (r: &str)
        ensures
            r@ == spec_access_token(*self),
    {
        match self {
            LaunchAuth::Offline { .. } => "offline-token",
            LaunchAuth::Microsoft { access_token, .. } => access_token.as_str(),
        }
    }

    pub fn user_type(&self) -> (r: &str)
        ensures
            r@ == spec_user_type(*self),
    {
        match self {
            LaunchAuth::Offline { .. } => "offline",
            LaunchAuth::Microsoft { .. } => "msa",
        }
    }
}

/// Everything a vanilla-or-modded launch needs: the runtime, the directories,
/// the classpath, the entry class and the argument material.
#[derive(Debug, Clone)]
pub struct VanillaLaunchConfig {
    pub java_path: String,
    pub game_dir: String,
    pub assets_dir: String,
    pub classpath: Vec<String>,
    pub main_class: String,
    pub version_name: String,
    pub asset_index: Option<String>,
    pub resolution: Option<Resolution>,
    pub memory: Option<MemorySettings>,
    pub extra_jvm_args: Vec<String>,
    pub extra_game_args: Vec<String>,
    pub natives_dir: Option<String>,
}

/// A fully assembled invocation: the program, its working directory and its
/// arguments in order.
#[derive(Debug, Clone)]
pub struct LaunchCommand {
    pub program: String,
    pub current_dir: String,
    pub args: Vec<String>,
}

pub open spec fn string_views(s: Seq<String>) -> Seq<Seq<char>> {
    s.map_values(|p: String| p@)
}

/// The JVM-side arguments `build_command` assembles: memory flags, the
/// natives path, the classpath, the extra JVM arguments and the entry class.
pub open spec fn spec_jvm_section(cfg: VanillaLaunchConfig, sep: Seq<char>) -> Seq<Seq<char>> {
    (match cfg.memory {
        Some(m) => seq![
            "-Xms"@ + dec_rep(m.min_megabytes as int) + "M"@,
            "-Xmx"@ + dec_rep(m.max_megabytes as int) + "M"@,
        ],
        None => Seq::empty(),
    }) + (match cfg.natives_dir {
        Some(n) => seq!["-Djava.library.path="@ + n@],
        None => Seq::empty(),
    }) + (if cfg.classpath@.len() > 0 {
        seq!["-cp"@, joined(string_views(cfg.classpath@), sep)]
    } else {
        Seq::empty()
    }) + string_views(cfg.extra_jvm_args@) + seq![cfg.main_class@]
}

/// The identity and directory arguments: who plays, which version, where the
/// game and its assets live, and the session material.
pub open spec fn spec_identity_section(cfg: VanillaLaunchConfig, auth: LaunchAuth) -> Seq<
    Seq<char>,
> {
    seq![
        "--username"@,
        spec_username(auth),
        "--version"@,
        cfg.version_name@,
        "--gameDir"@,
        cfg.game_dir@,
        "--assetsDir"@,
        cfg.assets_dir@,
    ] + (match cfg.asset_index {
        Some(idx) => seq!["--assetIndex"@, idx@],
        None => Seq::empty(),
    }) + seq![
        "--uuid"@,
        spec_uuid(auth),
        "--accessToken"@,
        spec_access_token(auth),
        "--session"@,
        "token:"@ + spec_access_token(auth) + ":"@ + spec_uuid(auth),
        "--userType"@,
        spec_user_type(auth),
        "--versionType"@,
        "release"@,
        "--userProperties"@,
        "{}"@,
    ]
}

/// The trailing arguments: the window size and the extra game arguments.
pub open spec fn spec_tail_section(cfg: VanillaLaunchConfig) -> Seq<Seq<char>> {
    (match cfg.resolution {
        Some(res) => seq![
            "--width"@,
            dec_rep(res.width as int),
            "--height"@,
            dec_rep(res.height as int),
        ],
        None => Seq::empty(),
    }) + string_views(cfg.extra_game_args@)
}

/// The whole argument list `build_command` assembles, in order.
pub open spec fn spec_launch_args(
    cfg: VanillaLaunchConfig,
    auth: LaunchAuth,
    sep: Seq<char>,
) -> Seq<Seq<char>> {
    spec_jvm_section(cfg, sep) + spec_identity_section(cfg, auth) + spec_tail_section(cfg)
}

fn push_arg_chars(args: &mut Vec<String>, v: Vec<char>)
    ensures
        final(args)@.len() == old(args)@.len() + 1,
        string_views(final(args)@) == string_views(old(args)@).push(v@),
{
    let s = string_from_chars(&v);
    let ghost pre = args@;
    args.push(s);
    proof {
        assert(string_views(args@) =~= string_views(pre).push(v@));
    }
}

fn push_arg_str(args: &mut Vec<String>, v: &str)
    ensures
        final(args)@.len() == old(args)@.len() + 1,
        string_views(final(args)@) == string_views(old(args)@).push(v@),
{
    let c = chars_of(v);
    push_arg_chars(args, c);
}

fn push_arg_strings(args: &mut Vec<String>, vs: &Vec<String>)
    ensures
        string_views(final(args)@) == string_views(old(args)@) + string_views(vs@),
{
    let mut i: usize = 0;
    while i < vs.len()
        invariant
            i <= vs@.len(),
            string_views(args@) == string_views(old(args)@) + string_views(
                vs@.subrange(0, i as int),
            ),
        decreases vs@.len() - i,
    {
        let ghost pre = args@;
        args.push(vs[i].clone());
        i += 1;
        proof {
            assert(string_views(args@) =~= string_views(pre).push(vs@[i as int - 1]@));
            assert(string_views(old(args)@) + string_views(vs@.subrange(0, i as int))
                =~= string_views(pre) + seq![vs@[i as int - 1]@]);
            assert(string_views(pre).push(vs@[i as int - 1]@) =~= string_views(pre) + seq![
                vs@[i as int - 1]@,
            ]);
        }
    }
    proof {
        assert(vs@.subrange(0, vs@.len() as int) =~= vs@);
        assert(string_views(args@) =~= string_views(old(args)@) + string_views(vs@));
    }
}

/// Joins the classpath entries with the platform's separator.
pub fn join_classpath(parts: &Vec<String>, sep: &str) -> (r: String)
    requires
        parts@.len() > 0,
    ensures
        r@ == joined(string_views(parts@), sep@),
{
    let mut out: Vec<char> = Vec::new();
    push_str_chars(&mut out, parts[0].as_str());
    proof {
        let whole = string_views(parts@);
        assert(whole.subrange(0, 1).len() == 1);
        assert(whole.subrange(0, 1)[0] == whole[0]);
        assert(joined(whole.subrange(0, 1), sep@) == whole[0]);
    }
    let mut i: usize = 1;
    while i < parts.len()
        invariant
            1 <= i <= parts@.len(),
            out@ == joined(string_views(parts@).subrange(0, i as int), sep@),
        decreases parts@.len() - i,
    {
        push_str_chars(&mut out, sep);
        push_str_chars(&mut out, parts[i].as_str());
        proof {
            let whole = string_views(parts@);
            let pre = whole.subrange(0, i as int);
            let cur = whole.subrange(0, i as int + 1);
            assert(cur =~= pre.push(whole[i as int]));
            lemma_joined_push(pre, whole[i as int], sep@);
            assert(out@ =~= joined(pre, sep@) + sep@ + whole[i as int]);
        }
        i += 1;
    }
    proof {
        assert(string_views(parts@).subrange(0, parts@.len() as int) =~= string_views(parts@));
    }
    string_from_chars(&out)
}

fn build_jvm_section(cfg: &VanillaLaunchConfig, classpath_separator: &str) -> (r: Vec<String>)
    ensures
        string_views(r@) == spec_jvm_section(*cfg, classpath_separator@),
{
    let ghost sep = classpath_separator@;
    let ghost s1: Seq<Seq<char>> = match &cfg.memory {
        Some(m) => seq![
            "-Xms"@ + dec_rep(m.min_megabytes as int) + "M"@,
            "-Xmx"@ + dec_rep(m.max_megabytes as int) + "M"@,
        ],
        None => Seq::empty(),
    };
    let ghost s2: Seq<Seq<char>> = match &cfg.natives_dir {
        Some(n) => seq!["-Djava.library.path="@ + n@],
        None => Seq::empty(),
    };
    let ghost s3: Seq<Seq<char>> = if cfg.classpath@.len() > 0 {
        seq!["-cp"@, joined(string_views(cfg.classpath@), sep)]
    } else {
        Seq::empty()
    };
    let mut args: Vec<String> = Vec::new();
    match &cfg.memory {
        Some(m) => {
            let mut a: Vec<char> = Vec::new();
            push_str_chars(&mut a, "-Xms");
            let mind = dec_chars(m.min_megabytes as u64);
            push_all(&mut a, &mind);
            push_str_chars(&mut a, "M");
            push_arg_chars(&mut args, a);
            let mut b: Vec<char> = Vec::new();
            push_str_chars(&mut b, "-Xmx");
            let maxd = dec_chars(m.max_megabytes as u64);
            push_all(&mut b, &maxd);
            push_str_chars(&mut b, "M");
            push_arg_chars(&mut args, b);
        },
        None => {},
    }
    proof {
        assert(string_views(args@) =~= s1);
    }
    match &cfg.natives_dir {
        Some(n) => {
            let mut a: Vec<char> = Vec::new();
            push_str_chars(&mut a, "-Djava.library.path=");
            push_str_chars(&mut a, n.as_str());
            push_arg_chars(&mut args, a);
        },
        None => {},
    }
    proof {
        assert(string_views(args@) =~= s1 + s2);
    }
    if cfg.classpath.len() > 0 {
        push_arg_str(&mut args, "-cp");
        let cp = join_classpath(&cfg.classpath, classpath_separator);
        push_arg_str(&mut args, cp.as_str());
    }
    proof {
        assert(string_views(args@) =~= s1 + s2 + s3);
    }
    push_arg_strings(&mut args, &cfg.extra_jvm_args);
    push_arg_str(&mut args, cfg.main_class.as_str());
    proof {
        assert(string_views(args@) =~= s1 + s2 + s3 + string_views(cfg.extra_jvm_args@) + seq![
            cfg.main_class@,
        ]);
    }
    args
}

fn build_identity_section(cfg: &VanillaLaunchConfig, auth: &LaunchAuth) -> (r: Vec<String>)
    ensures
        string_views(r@) == spec_identity_section(*cfg, *auth),
{
    let ghost s6: Seq<Seq<char>> = seq![
        "--username"@,
        spec_username(*auth),
        "--version"@,
        cfg.version_name@,
        "--gameDir"@,
        cfg.game_dir@,
        "--assetsDir"@,
        cfg.assets_dir@,
    ];
    let ghost s7: Seq<Seq<char>> = match &cfg.asset_index {
        Some(idx) => seq!["--assetIndex"@, idx@],
        None => Seq::empty(),
    };
    let mut args: Vec<String> = Vec::new();
    push_arg_str(&mut args, "--username");
    push_arg_str(&mut args, auth.username());
    push_arg_str(&mut args, "--version");
    push_arg_str(&mut args, cfg.version_name.as_str());
    push_arg_str(&mut args, "--gameDir");
    push_arg_str(&mut args, cfg.game_dir.as_str());
    push_arg_str(&mut args, "--assetsDir");
    push_arg_str(&mut args, cfg.assets_dir.as_str());
    proof {
        assert(string_views(args@) =~= s6);
    }
    match &cfg.asset_index {
        Some(idx) => {
            push_arg_str(&mut args, "--assetIndex");
            push_arg_str(&mut args, idx.as_str());
        },
        None => {},
    }
    proof {
        assert(string_views(args@) =~= s6 + s7);
    }
    push_arg_str(&mut args, "--uuid");
    push_arg_str(&mut args, auth.uuid());
    push_arg_str(&mut args, "--accessToken");
    push_arg_str(&mut args, auth.access_token());
    push_arg_str(&mut args, "--session");
    let mut sess: Vec<char> = Vec::new();
    push_str_chars(&mut sess, "token:");
    push_str_chars(&mut sess, auth.access_token());
    push_str_chars(&mut sess, ":");
    push_str_chars(&mut sess, auth.uuid());
    push_arg_chars(&mut args, sess);
    push_arg_str(&mut args, "--userType");
    push_arg_str(&mut args, auth.user_type());
    push_arg_str(&mut args, "--versionType");
    push_arg_str(&mut args, "release");
    push_arg_str(&mut args, "--userProperties");
    push_arg_str(&mut args, "{}");
    proof {
        assert(string_views(args@) =~= spec_identity_section(*cfg, *auth));
    }
    args
}

fn build_tail_section(cfg: &VanillaLaunchConfig) -> (r: Vec<String>)
    ensures
        string_views(r@) == spec_tail_section(*cfg),
{
    let ghost s9: Seq<Seq<char>> = match &cfg.resolution {
        Some(res) => seq![
            "--width"@,
            dec_rep(res.width as int),
            "--height"@,
            dec_rep(res.height as int),
        ],
        None => Seq::empty(),
    };
    let mut args: Vec<String> = Vec::new();
    match &cfg.resolution {
        Some(res) => {
            push_arg_str(&mut args, "--width");
            let w = dec_chars(res.width as u64);
            push_arg_chars(&mut args, w);
            push_arg_str(&mut args, "--height");
            let h = dec_chars(res.height as u64);
            push_arg_chars(&mut args, h);
        },
        None => {},
    }
    proof {
        assert(string_views(args@) =~= s9);
    }
    push_arg_strings(&mut args, &cfg.extra_game_args);
    proof {
        assert(string_views(args@) =~= spec_tail_section(*cfg));
    }
    args
}

impl VanillaLaunchConfig {
    /// Assembles the process invocation for this configuration and identity;
    /// classpath entries are joined with the platform's separator, which the
    /// caller supplies (`;` on Windows, `:` elsewhere).
    pub fn build_command(&self, auth: &LaunchAuth, classpath_separator: &str) -> (r: LaunchCommand)
        ensures
            r.program@ == self.java_path@,
            r.current_dir@ == self.game_dir@,
            string_views(r.args@) == spec_launch_args(*self, *auth, classpath_separator@),
    {
        let mut args = build_jvm_section(self, classpath_separator);
        let mut mid = build_identity_section(self, auth);
        let mut tail = build_tail_section(self);
        let ghost a = args@;
        let ghost b = mid@;
        let ghost c = tail@;
        args.append(&mut mid);
        args.append(&mut tail);
        proof {
            assert(args@ == a + b + c);
            assert(string_views(a + b + c) =~= string_views(a) + string_views(b) + string_views(
                c,
            ));
        }
        LaunchCommand {
            program: self.java_path.clone(),
            current_dir: self.game_dir.clone(),
            args,
        }
    }
}

} // verus!
