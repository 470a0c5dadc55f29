//! Candidate assembly and de-duplication for a Java detection pass.
//!
//! A pass gathers candidate binaries from the user's configuration and from
//! the environment, normalizes each path outside this crate, and keeps one
//! candidate per normalized path: the first, so that user-provided candidates
//! (which are gathered first) win ties.

use vstd::prelude::*;

use crate::detection::{
    DetectionSummary, InstallSource, JavaDetectionConfig, JavaError, JavaInstallation,
    java_error_message,
};
use crate::metadata::{decoded_lines, parse_java_metadata, probe_vendor, probe_version};

verus! {

/// A candidate binary: the path as gathered, its symlink-resolved absolute
/// form, and where it came from.
#[derive(Debug, Clone)]
pub struct CandidateBinary {
    pub path: String,
    pub normalized: String,
    pub source: InstallSource,
}

/// Some candidate in `s` has the normalized path `n`.
pub open spec fn has_norm(s: Seq<CandidateBinary>, n: Seq<char>) -> bool {
    exists|j: int| 0 <= j < s.len() && #[trigger] s[j].normalized@ == n
}

/// `s` with every candidate dropped whose normalized path appeared earlier.
pub open spec fn dedup_spec(s: Seq<CandidateBinary>) -> Seq<CandidateBinary>
    decreases s.len(),
{
    if s.len() == 0 {
        Seq::empty()
    } else if has_norm(s.drop_last(), s.last().normalized@) {
        dedup_spec(s.drop_last())
    } else {
        dedup_spec(s.drop_last()).push(s.last())
    }
}

/// Splitting off the last element splits `has_norm`.
proof fn lemma_has_norm_unlast(s: Seq<CandidateBinary>, n: Seq<char>)
    requires
        s.len() > 0,
    ensures
        has_norm(s, n) == (has_norm(s.drop_last(), n) || s.last().normalized@ == n),
{
    let pre = s.drop_last();
    assert(forall|j: int| 0 <= j < pre.len() ==> #[trigger] pre[j] == s[j]);
    if has_norm(s, n) {
        let w = choose|j: int| 0 <= j < s.len() && #[trigger] s[j].normalized@ == n;
        if w < s.len() - 1 {
            assert(pre[w].normalized@ == n);
        }
    }
    if has_norm(pre, n) {
        let w = choose|j: int| 0 <= j < pre.len() && #[trigger] pre[j].normalized@ == n;
        assert(s[w].normalized@ == n);
    }
    if s.last().normalized@ == n {
        assert(s[s.len() - 1].normalized@ == n);
    }
}

/// De-duplication neither invents nor loses normalized paths.
pub proof fn lemma_dedup_norms(s: Seq<CandidateBinary>, n: Seq<char>)
    ensures
        has_norm(dedup_spec(s), n) == has_norm(s, n),
    decreases s.len(),
{
    if s.len() > 0 {
        let pre = s.drop_last();
        let last = s.last();
        lemma_dedup_norms(pre, n);
        lemma_has_norm_unlast(s, n);
        if has_norm(pre, last.normalized@) {
            if last.normalized@ == n {
                assert(has_norm(pre, n));
            }
        } else {
            let d = dedup_spec(pre).push(last);
            assert(d.drop_last() =~= dedup_spec(pre));
            lemma_has_norm_unlast(d, n);
        }
    }
}

/// De-duplicated candidates have pairwise distinct normalized paths.
pub proof fn lemma_dedup_unique(s: Seq<CandidateBinary>)
    ensures
        forall|a: int, b: int|
            0 <= a < b < dedup_spec(s).len() ==> (#[trigger] dedup_spec(s)[a]).normalized@ != (
            #[trigger] dedup_spec(s)[b]).normalized@,
    decreases s.len(),
{
    if s.len() > 0 {
        let pre = s.drop_last();
        lemma_dedup_unique(pre);
        if !has_norm(pre, s.last().normalized@) {
            lemma_dedup_norms(pre, s.last().normalized@);
            let d = dedup_spec(pre).push(s.last());
            assert forall|a: int, b: int| 0 <= a < b < d.len() implies (#[trigger] d[a]).normalized@
                != (#[trigger] d[b]).normalized@ by {
                if b == d.len() - 1 {
                    assert(d[a] == dedup_spec(pre)[a]);
                    assert(has_norm(dedup_spec(pre), d[a].normalized@));
                }
            }
        }
    }
}

/// The least index at or after `from` of a candidate with normalized path `n`,
/// or the length.
pub open spec fn first_norm_from(s: Seq<CandidateBinary>, n: Seq<char>, from: int) -> int
    recommends
        0 <= from <= s.len(),
    decreases s.len() - from
        when 0 <= from <= s.len()
{
    if from >= s.len() {
        s.len() as int
    } else if s[from].normalized@ == n {
        from
    } else {
        first_norm_from(s, n, from + 1)
    }
}

proof fn lemma_first_norm_extend(s: Seq<CandidateBinary>, n: Seq<char>, from: int)
    requires
        s.len() > 0,
        0 <= from <= s.len() - 1,
        first_norm_from(s.drop_last(), n, from) < s.len() - 1,
    ensures
        first_norm_from(s.drop_last(), n, from) == first_norm_from(s, n, from),
    decreases s.len() - from,
{
    let pre = s.drop_last();
    assert(forall|j: int| 0 <= j < pre.len() ==> #[trigger] pre[j] == s[j]);
    if pre[from].normalized@ != n {
        lemma_first_norm_extend(s, n, from + 1);
    }
}

/// Every kept candidate is the first occurrence of its normalized path.
pub proof fn lemma_dedup_keeps_first(s: Seq<CandidateBinary>, k: int)
    requires
        0 <= k < dedup_spec(s).len(),
    ensures
        ({
            let kept = dedup_spec(s)[k];
            let f = first_norm_from(s, kept.normalized@, 0);
            0 <= f < s.len() && s[f] == kept
        }),
    decreases s.len(),
{
    if s.len() > 0 {
        let pre = s.drop_last();
        let last = s.last();
        let kept = dedup_spec(s)[k];
        assert(forall|j: int| 0 <= j < pre.len() ==> #[trigger] pre[j] == s[j]);
        if has_norm(pre, last.normalized@) {
            lemma_dedup_keeps_first(pre, k);
            lemma_first_norm_extend(s, kept.normalized@, 0);
        } else {
            let d = dedup_spec(pre).push(last);
            assert(d.drop_last() =~= dedup_spec(pre));
            if k < d.len() - 1 {
                assert(d[k] == dedup_spec(pre)[k]);
                lemma_dedup_keeps_first(pre, k);
                lemma_first_norm_extend(s, kept.normalized@, 0);
            } else {
                assert(kept == last);
                assert forall|j: int|
                    0 <= j < s.len() - 1 implies (#[trigger] s[j]).normalized@
                    != kept.normalized@ by {
                    assert(pre[j] == s[j]);
                    assert(pre[j].normalized@ != kept.normalized@);
                }
                lemma_first_norm_is_first(s, kept.normalized@, 0, s.len() - 1);
            }
        }
    }
}

proof fn lemma_first_norm_is_first(s: Seq<CandidateBinary>, n: Seq<char>, from: int, i: int)
    requires
        0 <= from <= i <= s.len(),
        forall|j: int| from <= j < i ==> (#[trigger] s[j]).normalized@ != n,
        i < s.len() ==> s[i].normalized@ == n,
    ensures
        first_norm_from(s, n, from) == i,
    decreases i - from,
{
    if from < i {
        lemma_first_norm_is_first(s, n, from + 1, i);
    }
}

/// De-duplication reports exactly one candidate per normalized path that
/// occurs, and when user-provided candidates stand before all others in the
/// list (as `candidate_binaries` arranges) and one of them has that
/// normalized path, the reported candidate carries the user-provided tag.
pub proof fn lemma_dedup_reports_one_preferring_user(s: Seq<CandidateBinary>, n: Seq<char>)
    requires
        has_norm(s, n),
        forall|a: int, b: int|
            0 <= a < b < s.len() && (#[trigger] s[b]).source is UserProvided ==> (
            #[trigger] s[a]).source is UserProvided,
        exists|j: int|
            0 <= j < s.len() && (#[trigger] s[j]).normalized@ == n && s[j].source is UserProvided,
    ensures
        exists|k: int|
            0 <= k < dedup_spec(s).len() && (#[trigger] dedup_spec(s)[k]).normalized@ == n,
        forall|k: int|
            0 <= k < dedup_spec(s).len() && (#[trigger] dedup_spec(s)[k]).normalized@ == n
                ==> dedup_spec(s)[k].source is UserProvided,
        forall|k1: int, k2: int|
            0 <= k1 < dedup_spec(s).len() && 0 <= k2 < dedup_spec(s).len() && (#[trigger] dedup_spec(
                s,
            )[k1]).normalized@ == n && (#[trigger] dedup_spec(s)[k2]).normalized@ == n ==> k1 == k2,
{
    lemma_dedup_norms(s, n);
    lemma_dedup_unique(s);
    let ghost d = dedup_spec(s);
    assert forall|k: int| 0 <= k < d.len() && (#[trigger] d[k]).normalized@ == n implies d[k].source
        is UserProvided by {
        lemma_dedup_keeps_first(s, k);
        let f = first_norm_from(s, n, 0);
        let w = choose|j: int|
            0 <= j < s.len() && (#[trigger] s[j]).normalized@ == n && s[j].source is UserProvided;
        lemma_first_norm_le(s, n, 0, w);
        if f < w {
            assert(s[w].source is UserProvided);
        }
    }
    assert forall|k1: int, k2: int|
        0 <= k1 < d.len() && 0 <= k2 < d.len() && (#[trigger] d[k1]).normalized@ == n && (
        #[trigger] d[k2]).normalized@ == n implies k1 == k2 by {
        if k1 < k2 {
            assert(d[k1].normalized@ != d[k2].normalized@);
        }
        if k2 < k1 {
            assert(d[k2].normalized@ != d[k1].normalized@);
        }
    }
}

proof fn lemma_first_norm_le(s: Seq<CandidateBinary>, n: Seq<char>, from: int, w: int)
    requires
        0 <= from <= w < s.len(),
        s[w].normalized@ == n,
    ensures
        from <= first_norm_from(s, n, from) <= w,
    decreases w - from,
{
    if from < w && s[from].normalized@ != n {
        lemma_first_norm_le(s, n, from + 1, w);
    }
}

fn contains_norm(kept: &Vec<CandidateBinary>, n: &String) -> (b: bool)
    ensures
        b == has_norm(kept@, n@),
{
    let mut i: usize = 0;
    while i < kept.len()
        invariant
            i <= kept@.len(),
            forall|j: int| 0 <= j < i ==> (#[trigger] kept@[j]).normalized@ != n@,
        decreases kept@.len() - i,
    {
        if kept[i].normalized == *n {
            return true;
        }
        i += 1;
    }
    false
}

/// Keeps the first candidate for each normalized path, in gathering order.
pub fn dedup_candidates(cands: &Vec<CandidateBinary>) -> (r: Vec<CandidateBinary>)
    ensures
        r@ == dedup_spec(cands@),
{
    let mut out: Vec<CandidateBinary> = Vec::new();
    let mut i: usize = 0;
    while i < cands.len()
        invariant
            i <= cands@.len(),
            out@ == dedup_spec(cands@.subrange(0, i as int)),
        decreases cands@.len() - i,
    {
        let c = &cands[i];
        proof {
            let pre = cands@.subrange(0, i as int);
            let cur = cands@.subrange(0, i as int + 1);
            assert(cur.drop_last() =~= pre);
            assert(cur.last() == cands@[i as int]);
            lemma_dedup_norms(pre, cands@[i as int].normalized@);
        }
        if !contains_norm(&out, &c.normalized) {
            out.push(c.clone_fields());
        }
        i += 1;
    }
    proof {
        assert(cands@.subrange(0, cands@.len() as int) =~= cands@);
    }
    out
}

impl CandidateBinary {
    /// A field-by-field copy.
    fn clone_fields(&self) -> (r: CandidateBinary)
        ensures
            r == *self,
    {
        CandidateBinary {
            path: self.path.clone(),
            normalized: self.normalized.clone(),
            source: self.source,
        }
    }
}

/// The candidate list a detection pass starts from: the user's preferred path
/// first, then, when auto-discovery is on, the home-variable binary, every
/// search-path entry and the platform's well-known locations.
pub open spec fn spec_candidates(
    preferred: Option<String>,
    auto: bool,
    java_home: Option<String>,
    path_entries: Seq<String>,
    system_locations: Seq<String>,
) -> Seq<(String, InstallSource)> {
    (match preferred {
        Some(p) => seq![(p, InstallSource::UserProvided)],
        None => Seq::empty(),
    }) + if auto {
        (match java_home {
            Some(h) => seq![(h, InstallSource::JavaHome)],
            None => Seq::empty(),
        }) + path_entries.map(|i: int, p: String| (p, InstallSource::PathEntry))
            + system_locations.map(|i: int, p: String| (p, InstallSource::SystemLocation))
    } else {
        Seq::empty()
    }
}

/// Gathers the candidate binaries for one detection pass. Environment values
/// (the home variable, the split search path, the platform's install roots)
/// are handed in by the caller; the user's preferred path always stands
/// first, so it wins de-duplication ties.
pub fn candidate_binaries(
    config: &JavaDetectionConfig,
    java_home: Option<String>,
    path_entries: Vec<String>,
    system_locations: Vec<String>,
) -> (r: Vec<(String, InstallSource)>)
    ensures
        r@ == spec_candidates(
            config.preferred_path,
            config.auto_discover,
            java_home,
            path_entries@,
            system_locations@,
        ),
        forall|a: int, b: int|
            0 <= a < b < r@.len() && (#[trigger] r@[b]).1 is UserProvided ==> (
            #[trigger] r@[a]).1 is UserProvided,
{
    let ghost gpref = config.preferred_path;
    let ghost ghome = java_home;
    let ghost gpath = path_entries@;
    let ghost gsys = system_locations@;
    let mut out: Vec<(String, InstallSource)> = Vec::new();
    match &config.preferred_path {
        Some(p) => {
            out.push((p.clone(), InstallSource::UserProvided));
        },
        None => {},
    }
    if config.auto_discover {
        match java_home {
            Some(h) => {
                out.push((h, InstallSource::JavaHome));
            },
            None => {},
        }
        let mut i: usize = 0;
        let ghost base = out@;
        let mut entries = path_entries;
        while i < entries.len()
            invariant
                i <= entries@.len(),
                entries@ == gpath,
                out@ == base + gpath.subrange(0, i as int).map(
                    |k: int, p: String| (p, InstallSource::PathEntry),
                ),
            decreases entries@.len() - i,
        {
            let p = entries[i].clone();
            out.push((p, InstallSource::PathEntry));
            i += 1;
            proof {
                assert(out@ =~= base + gpath.subrange(0, i as int).map(
                    |k: int, p: String| (p, InstallSource::PathEntry),
                ));
            }
        }
        let mut j: usize = 0;
        let ghost base2 = out@;
        let mut sys = system_locations;
        while j < sys.len()
            invariant
                j <= sys@.len(),
                sys@ == gsys,
                out@ == base2 + gsys.subrange(0, j as int).map(
                    |k: int, p: String| (p, InstallSource::SystemLocation),
                ),
            decreases sys@.len() - j,
        {
            let p = sys[j].clone();
            out.push((p, InstallSource::SystemLocation));
            j += 1;
            proof {
                assert(out@ =~= base2 + gsys.subrange(0, j as int).map(
                    |k: int, p: String| (p, InstallSource::SystemLocation),
                ));
            }
        }
        proof {
            assert(gpath.subrange(0, gpath.len() as int) =~= gpath);
            assert(gsys.subrange(0, gsys.len() as int) =~= gsys);
        }
    }
    proof {
        assert(out@ =~= spec_candidates(gpref, config.auto_discover, ghome, gpath, gsys));
        assert forall|a: int, b: int|
            0 <= a < b < out@.len() && (#[trigger] out@[b]).1 is UserProvided implies (
        #[trigger] out@[a]).1 is UserProvided by {
            assert(forall|k: int|
                0 <= k < out@.len() && k >= 1 ==> !((#[trigger] out@[k]).1 is UserProvided));
        }
    }
    out
}


/// The stable identity of a normalized binary path.
pub uninterp spec fn uuid_v5_of(name: Seq<char>) -> Seq<char>;

/// Relies on `uuid::Uuid::new_v5` (the RFC 9562 SHA-1 name-based UUID over
/// the OID namespace) and on `Uuid`'s hyphenated lower-case rendering: the
/// identifier is a function of the path alone, 36 characters long.
#[verifier::external_body]
fn path_identity(path: &str) -> (r: String)
    ensures
        r@ == uuid_v5_of(path@),
        r@.len() == 36,
{
    uuid::Uuid::new_v5(&uuid::Uuid::NAMESPACE_OID, path.as_bytes()).to_string()
}

/// Builds the installation record for a probed candidate: the normalized path
/// becomes the path and, hashed, the stable id; version and vendor come from
/// the probe's combined output.
pub fn installation_from_probe(cand: &CandidateBinary, stderr: &Vec<u8>, stdout: &Vec<u8>) -> (r:
    JavaInstallation)
    ensures
        r.id@ == uuid_v5_of(cand.normalized@),
        r.id@.len() == 36,
        r.path@ == cand.normalized@,
        r.source == cand.source,
        r.version.deep_view() == probe_version(decoded_lines(stderr@, stdout@)),
        r.vendor.deep_view() == probe_vendor(decoded_lines(stderr@, stdout@)),
{
    let meta = parse_java_metadata(stderr, stdout);
    JavaInstallation {
        id: path_identity(cand.normalized.as_str()),
        path: cand.normalized.clone(),
        version: meta.version,
        vendor: meta.vendor,
        source: cand.source,
    }
}

/// Records a candidate whose binary does not exist on disk: a missing
/// user-provided binary is an error naming its path; a missing environment
/// candidate is expected noise and is dropped silently.
pub fn record_missing(summary: &mut DetectionSummary, cand: &CandidateBinary)
    ensures
        final(summary).installations@ == old(summary).installations@,
        cand.source is UserProvided ==> final(summary).errors@.len() == old(
            summary,
        ).errors@.len() + 1 && final(summary).errors@.last()@ == java_error_message(
            JavaError::BinaryMissing(cand.normalized),
        ) && final(summary).errors@.subrange(0, old(summary).errors@.len() as int) == old(
            summary,
        ).errors@,
        !(cand.source is UserProvided) ==> final(summary).errors@ == old(summary).errors@,
{
    if matches!(cand.source, InstallSource::UserProvided) {
        let e = JavaError::BinaryMissing(cand.normalized.clone());
        let msg = e.message();
        let ghost pre = summary.errors@;
        summary.errors.push(msg);
        proof {
            assert(summary.errors@.subrange(0, pre.len() as int) =~= pre);
        }
    }
}

} // verus!
