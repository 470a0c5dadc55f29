//! Maven coordinates and their mechanical mapping to repository paths.
//!
//! A coordinate `group:artifact:version` names a library; its artifact lives
//! at the relative path `group/with/slashes/artifact/version/artifact-version.jar`.

use vstd::prelude::*;

use crate::text::{
    chars_of, find_char_from, push_all, push_str_chars, replace_char, replaced, slice_range,
    string_from_chars,
};

verus! {

/// The least index `i >= from` with `s[i] == c`, or `s.len()` when there is none.
pub open spec fn find_from(s: Seq<char>, c: char, from: int) -> int
    recommends
        0 <= from <= s.len(),
    decreases s.len() - from
        when 0 <= from <= s.len()
{
    if from >= s.len() {
        s.len() as int
    } else if s[from] == c {
        from
    } else {
        find_from(s, c, from + 1)
    }
}

/// A scan that saw no `c` before `i` and (unless `i` is the end) sees `c` at
/// `i` has found exactly `find_from`.
pub proof fn lemma_find_from_char(s: Seq<char>, c: char, from: int, i: int)
    requires
        0 <= from <= i <= s.len(),
        forall|j: int| from <= j < i ==> s[j] != c,
        i < s.len() ==> s[i] == c,
    ensures
        find_from(s, c, from) == if i < s.len() {
            i
        } else {
            s.len() as int
        },
    decreases i - from,
{
    if from < i {
        lemma_find_from_char(s, c, from + 1, i);
    }
}

/// Finds the least index `i >= from` with `s[i] == c`, or `s.len()`.
pub fn find_from_exec(s: &Vec<char>, c: char, from: usize) -> (r: usize)
    requires
        from <= s@.len(),
    ensures
        r == find_from(s@, c, from as int),
        from <= r <= s@.len(),
        r < s@.len() ==> s@[r as int] == c,
{
    match find_char_from(s, c, from) {
        Some(i) => {
            proof {
                lemma_find_from_char(s@, c, from as int, i as int);
            }
            i
        },
        None => {
            proof {
                lemma_find_from_char(s@, c, from as int, s@.len() as int);
            }
            s.len()
        },
    }
}

/// The index just past the group segment of a coordinate: its first colon.
pub open spec fn group_end(s: Seq<char>) -> int {
    find_from(s, ':', 0)
}

/// The index just past the artifact segment: the first colon after the group.
pub open spec fn artifact_end(s: Seq<char>) -> int {
    find_from(s, ':', group_end(s) + 1)
}

/// The index just past the version segment: the next colon or the end; any
/// further `:`-separated segment (a classifier) is ignored.
pub open spec fn version_end(s: Seq<char>) -> int {
    find_from(s, ':', artifact_end(s) + 1)
}

/// A Maven coordinate holds at least three `:`-separated segments.
pub open spec fn maven_wellformed(s: Seq<char>) -> bool {
    group_end(s) < s.len() && artifact_end(s) < s.len()
}

pub open spec fn maven_group(s: Seq<char>) -> Seq<char> {
    s.subrange(0, group_end(s))
}

pub open spec fn maven_artifact(s: Seq<char>) -> Seq<char> {
    s.subrange(group_end(s) + 1, artifact_end(s))
}

pub open spec fn maven_version(s: Seq<char>) -> Seq<char> {
    s.subrange(artifact_end(s) + 1, version_end(s))
}

/// The repository-relative path of a coordinate's jar artifact:
/// the group with every dot turned into a slash, then artifact and version
/// directories, then `artifact-version.jar`.
pub open spec fn maven_rel_path(s: Seq<char>) -> Seq<char> {
    replaced(maven_group(s), '.', '/') + "/"@ + maven_artifact(s) + "/"@ + maven_version(s) + "/"@
        + maven_artifact(s) + "-"@ + maven_version(s) + ".jar"@
}

/// Decides whether `maven_id` is a well-formed coordinate.
pub fn is_maven_coordinate(maven_id: &str) -> (b: bool)
    ensures
        b == maven_wellformed(maven_id@),
{
    let s = chars_of(maven_id);
    let g = find_from_exec(&s, ':', 0);
    if g >= s.len() {
        return false;
    }
    let a = find_from_exec(&s, ':', g + 1);
    a < s.len()
}

/// Turns a Maven coordinate `group:artifact:version` into the relative path
/// `group/with/slashes/artifact/version/artifact-version.jar`.
pub fn maven_to_path(maven_id: &str) -> (r: String)
    requires
        maven_wellformed(maven_id@),
    ensures
        r@ == maven_rel_path(maven_id@),
{
    let s = chars_of(maven_id);
    let g = find_from_exec(&s, ':', 0);
    let a = find_from_exec(&s, ':', g + 1);
    let v = find_from_exec(&s, ':', a + 1);

    let group = slice_range(&s, 0, g);
    let artifact = slice_range(&s, g + 1, a);
    let version = slice_range(&s, a + 1, v);

    let mut out = replace_char(&group, '.', '/');
    push_str_chars(&mut out, "/");
    push_all(&mut out, &artifact);
    push_str_chars(&mut out, "/");
    push_all(&mut out, &version);
    push_str_chars(&mut out, "/");
    push_all(&mut out, &artifact);
    push_str_chars(&mut out, "-");
    push_all(&mut out, &version);
    push_str_chars(&mut out, ".jar");
    string_from_chars(&out)
}

} // verus!
