//! Java installation detection data and the version-compatibility selector.
//!
//! Detection itself (probing binaries, reading the environment) happens
//! outside this crate; everything here is the decision logic over an already
//! collected `DetectionSummary`.

use vstd::prelude::*;

use crate::text::{chars_of, push_all, push_str_chars, string_from_chars};
use crate::versions::{lead_num, lead_num_exec, matches_tier, required_tier, tier_of, version_matches};

verus! {

/// Where a candidate Java binary was found.
#[derive(Debug, Clone, Copy, PartialEq, Eq, Structural)]
pub enum InstallSource {
    JavaHome,
    PathEntry,
    SystemLocation,
    UserProvided,
}

/// One detected Java binary. The id is a stable name-based identifier of the
/// normalized path, so the same binary maps to the same identity across
/// detection passes.
#[derive(Debug, Clone)]
pub struct JavaInstallation {
    pub id: String,
    pub path: String,
    pub version: Option<String>,
    pub vendor: Option<String>,
    pub source: InstallSource,
}

/// What a detection pass is asked to do.
#[derive(Debug, Clone)]
pub struct JavaDetectionConfig {
    pub auto_discover: bool,
    pub preferred_path: Option<String>,
}

impl Default for JavaDetectionConfig {
    fn default() -> (r: Self)
        ensures
            r.auto_discover,
            r.preferred_path is None,
    {
        JavaDetectionConfig { auto_discover: true, preferred_path: None }
    }
}

/// Failures around a single candidate binary.
#[derive(Debug, Clone)]
pub enum JavaError {
    BinaryMissing(String),
    Inspect { path: String, error: String },
    Io(String),
}

pub open spec fn java_error_message(e: JavaError) -> Seq<char> {
    match e {
        JavaError::BinaryMissing(p) => "java binary not found at "@ + p@,
        JavaError::Inspect { path, error } => "failed to inspect java at \""@ + path@ + "\": "@
            + error@,
        JavaError::Io(m) => "io error: "@ + m@,
    }
}

impl JavaError {
    /// Renders the error for the user.
    pub fn message(&self) -> (r: String)
        ensures
            r@ == java_error_message(*self),
    {
        let mut out: Vec<char> = Vec::new();
        match self {
            JavaError::BinaryMissing(p) => {
                push_str_chars(&mut out, "java binary not found at ");
                let pc = chars_of(p.as_str());
                push_all(&mut out, &pc);
            },
            JavaError::Inspect { path, error } => {
                push_str_chars(&mut out, "failed to inspect java at \"");
                let pc = chars_of(path.as_str());
                push_all(&mut out, &pc);
                push_str_chars(&mut out, "\": ");
                let ec = chars_of(error.as_str());
                push_all(&mut out, &ec);
            },
            JavaError::Io(m) => {
                push_str_chars(&mut out, "io error: ");
                let mc = chars_of(m.as_str());
                push_all(&mut out, &mc);
            },
        }
        string_from_chars(&out)
    }
}

/// The result of one detection pass.
#[derive(Debug, Clone)]
pub struct DetectionSummary {
    pub installations: Vec<JavaInstallation>,
    pub errors: Vec<String>,
}

impl Default for DetectionSummary {
    fn default() -> (r: Self)
        ensures
            r.installations@ =~= Seq::<JavaInstallation>::empty(),
            r.errors@ =~= Seq::<String>::empty(),
    {
        DetectionSummary { installations: Vec::new(), errors: Vec::new() }
    }
}

/// The detected version string of an installation, empty when none was found.
pub open spec fn vstr(i: JavaInstallation) -> Seq<char> {
    match i.version {
        Some(v) => v@,
        None => Seq::empty(),
    }
}

/// The least index at or after `from` of a user-provided installation, or the
/// length when there is none.
pub open spec fn first_user_from(s: Seq<JavaInstallation>, from: int) -> int
    recommends
        0 <= from <= s.len(),
    decreases s.len() - from
        when 0 <= from <= s.len()
{
    if from >= s.len() {
        s.len() as int
    } else if s[from].source is UserProvided {
        from
    } else {
        first_user_from(s, from + 1)
    }
}

proof fn lemma_first_user_at(s: Seq<JavaInstallation>, from: int, i: int)
    requires
        0 <= from <= i <= s.len(),
        forall|j: int| from <= j < i ==> !(#[trigger] s[j].source is UserProvided),
        i < s.len() ==> s[i].source is UserProvided,
    ensures
        first_user_from(s, from) == i,
    decreases i - from,
{
    if from < i {
        lemma_first_user_at(s, from + 1, i);
    }
}

/// The least index at or after `from` of an installation whose detected
/// version (empty when none) satisfies the tier, or the length.
pub open spec fn first_match_from(s: Seq<JavaInstallation>, tier: int, from: int) -> int
    recommends
        0 <= from <= s.len(),
    decreases s.len() - from
        when 0 <= from <= s.len()
{
    if from >= s.len() {
        s.len() as int
    } else if version_matches(vstr(s[from]), tier) {
        from
    } else {
        first_match_from(s, tier, from + 1)
    }
}

proof fn lemma_first_match_at(s: Seq<JavaInstallation>, tier: int, from: int, i: int)
    requires
        0 <= from <= i <= s.len(),
        forall|j: int| from <= j < i ==> !version_matches(vstr(#[trigger] s[j]), tier),
        i < s.len() ==> version_matches(vstr(s[i]), tier),
    ensures
        first_match_from(s, tier, from) == i,
    decreases i - from,
{
    if from < i {
        lemma_first_match_at(s, tier, from + 1, i);
    }
}

/// The index of the installation with the highest leading numeric version
/// component; on ties the later one wins.
pub open spec fn best_from(s: Seq<JavaInstallation>) -> int
    recommends
        s.len() > 0,
    decreases s.len(),
{
    if s.len() <= 1 {
        0
    } else {
        let b = best_from(s.drop_last());
        if lead_num(vstr(s.last())) >= lead_num(vstr(s[b])) {
            s.len() - 1
        } else {
            b
        }
    }
}

proof fn lemma_best_from_bound(s: Seq<JavaInstallation>)
    requires
        s.len() > 0,
    ensures
        0 <= best_from(s) < s.len(),
    decreases s.len(),
{
    if s.len() > 1 {
        lemma_best_from_bound(s.drop_last());
    }
}

pub open spec fn tier_label(tier: int) -> Seq<char> {
    if tier == 8 {
        "Java 8"@
    } else if tier == 17 {
        "Java 16/17"@
    } else {
        "Java 21+"@
    }
}

/// The message when a user-chosen runtime does not satisfy the target's tier:
/// it names the detected version, the target and the required runtime.
pub open spec fn incompatible_message(v: Seq<char>, target: Seq<char>, tier: int) -> Seq<char> {
    "Selected Java version ("@ + v + ") is incompatible with Minecraft "@ + target
        + ". Required: "@ + tier_label(tier)
}

pub open spec fn legacy_message() -> Seq<char> {
    "Java 8 is required for this version. Please install it or configure a Java path in settings."@
}

/// Which path `select_for_version` picks, as a function of the summary and the
/// target alone.
pub open spec fn spec_select(s: Seq<JavaInstallation>, target: Seq<char>) -> Result<
    Seq<char>,
    Seq<char>,
> {
    let tier = tier_of(target);
    let u = first_user_from(s, 0);
    if u < s.len() {
        match s[u].version {
            Some(v) => if version_matches(v@, tier) {
                Ok(s[u].path@)
            } else {
                Err(incompatible_message(v@, target, tier))
            },
            None => Ok(s[u].path@),
        }
    } else {
        let m = first_match_from(s, tier, 0);
        if m < s.len() {
            Ok(s[m].path@)
        } else if tier == 8 {
            Err(legacy_message())
        } else if s.len() == 0 {
            Ok("java"@)
        } else {
            let b = best_from(s);
            if lead_num(vstr(s[b])) == 0 {
                Ok("java"@)
            } else {
                Ok(s[b].path@)
            }
        }
    }
}

fn first_user_exec(v: &Vec<JavaInstallation>) -> (r: usize)
    ensures
        r == first_user_from(v@, 0),
        r <= v@.len(),
{
    let mut i: usize = 0;
    while i < v.len()
        invariant
            i <= v@.len(),
            forall|j: int| 0 <= j < i ==> !(#[trigger] v@[j].source is UserProvided),
        decreases v@.len() - i,
    {
        if matches!(v[i].source, InstallSource::UserProvided) {
            proof {
                lemma_first_user_at(v@, 0, i as int);
            }
            return i;
        }
        i += 1;
    }
    proof {
        lemma_first_user_at(v@, 0, v@.len() as int);
    }
    i
}

/// The characters of an installation's detected version, empty when none.
fn version_chars(inst: &JavaInstallation) -> (r: Vec<char>)
    ensures
        r@ == vstr(*inst),
{
    match &inst.version {
        Some(v) => chars_of(v.as_str()),
        None => Vec::new(),
    }
}

fn first_match_exec(v: &Vec<JavaInstallation>, tier: u32) -> (r: usize)
    requires
        tier == 8 || tier == 17 || tier == 21,
    ensures
        r == first_match_from(v@, tier as int, 0),
        r <= v@.len(),
{
    let mut i: usize = 0;
    while i < v.len()
        invariant
            i <= v@.len(),
            tier == 8 || tier == 17 || tier == 21,
            forall|j: int| 0 <= j < i ==> !version_matches(vstr(#[trigger] v@[j]), tier as int),
        decreases v@.len() - i,
    {
        let vc = version_chars(&v[i]);
        if matches_tier(&vc, tier) {
            proof {
                lemma_first_match_at(v@, tier as int, 0, i as int);
            }
            return i;
        }
        i += 1;
    }
    proof {
        lemma_first_match_at(v@, tier as int, 0, v@.len() as int);
    }
    i
}

fn best_exec(v: &Vec<JavaInstallation>) -> (r: usize)
    requires
        v@.len() > 0,
    ensures
        r == best_from(v@),
        r < v@.len(),
{
    let mut b: usize = 0;
    let vc0 = version_chars(&v[0]);
    let mut best_key: u32 = lead_num_exec(&vc0);
    let mut i: usize = 1;
    proof {
        assert(v@.subrange(0, 1).len() == 1);
        assert(best_from(v@.subrange(0, 1)) == 0);
        assert(v@.subrange(0, 1)[0] == v@[0]);
    }
    while i < v.len()
        invariant
            1 <= i <= v@.len(),
            b < i,
            b == best_from(v@.subrange(0, i as int)),
            v@.subrange(0, i as int)[b as int] == v@[b as int],
            best_key as int == lead_num(vstr(v@[b as int])),
        decreases v@.len() - i,
    {
        let vci = version_chars(&v[i]);
        let key = lead_num_exec(&vci);
        proof {
            let pre = v@.subrange(0, i as int);
            let cur = v@.subrange(0, i as int + 1);
            assert(cur.drop_last() =~= pre);
            assert(cur.last() == v@[i as int]);
            lemma_best_from_bound(pre);
        }
        if key >= best_key {
            b = i;
            best_key = key;
        }
        i += 1;
    }
    proof {
        assert(v@.subrange(0, v@.len() as int) =~= v@);
    }
    b
}

impl DetectionSummary {
    /// Picks the Java binary to launch the target game version with.
    ///
    /// A user-provided installation always decides first: a detected version
    /// that misses the required tier is an error naming both versions, an
    /// undetected version is trusted. Otherwise the first auto-detected match
    /// wins; a legacy target with no match is an error, and any other target
    /// falls back to the installation with the highest leading version
    /// number, or to the bare command name when none is readable.
    ///
    /// This reads only the summary and the target: no probing, no hidden
    /// state.
    pub fn select_for_version(&self, target_version: &str) -> (r: Result<String, String>)
        ensures
            r is Ok <==> spec_select(self.installations@, target_version@) is Ok,
            r is Ok ==> r->Ok_0@ == spec_select(self.installations@, target_version@)->Ok_0,
            r is Err ==> r->Err_0@ == spec_select(self.installations@, target_version@)->Err_0,
    {
        let tier = required_tier(target_version);
        let n = self.installations.len();
        let u = first_user_exec(&self.installations);
        if u < n {
            let inst = &self.installations[u];
            match &inst.version {
                Some(v) => {
                    let vc = chars_of(v.as_str());
                    if matches_tier(&vc, tier) {
                        Ok(inst.path.clone())
                    } else {
                        let mut msg: Vec<char> = Vec::new();
                        push_str_chars(&mut msg, "Selected Java version (");
                        push_all(&mut msg, &vc);
                        push_str_chars(&mut msg, ") is incompatible with Minecraft ");
                        let tc = chars_of(target_version);
                        push_all(&mut msg, &tc);
                        push_str_chars(&mut msg, ". Required: ");
                        if tier == 8 {
                            push_str_chars(&mut msg, "Java 8");
                        } else if tier == 17 {
                            push_str_chars(&mut msg, "Java 16/17");
                        } else {
                            push_str_chars(&mut msg, "Java 21+");
                        }
                        Err(string_from_chars(&msg))
                    }
                },
                None => Ok(inst.path.clone()),
            }
        } else {
            let m = first_match_exec(&self.installations, tier);
            if m < n {
                Ok(self.installations[m].path.clone())
            } else if tier == 8 {
                let msg = chars_of(
                    "Java 8 is required for this version. Please install it or configure a Java path in settings.",
                );
                Err(string_from_chars(&msg))
            } else if n == 0 {
                let java = chars_of("java");
                Ok(string_from_chars(&java))
            } else {
                let b = best_exec(&self.installations);
                let vcb = version_chars(&self.installations[b]);
                let key = lead_num_exec(&vcb);
                if key == 0 {
                    let java = chars_of("java");
                    Ok(string_from_chars(&java))
                } else {
                    Ok(self.installations[b].path.clone())
                }
            }
        }
    }
}


/// Selecting a runtime is a pure function of the summary and the target:
/// identical inputs decide identically, and the summary itself is never
/// touched — `select_for_version` takes it by shared reference and its result
/// is pinned to `spec_select` of the two inputs alone.
pub proof fn lemma_select_deterministic(
    a: Seq<JavaInstallation>,
    b: Seq<JavaInstallation>,
    t1: Seq<char>,
    t2: Seq<char>,
)
    requires
        a == b,
        t1 == t2,
    ensures
        spec_select(a, t1) == spec_select(b, t2),
{
}

} // verus!
