//! Locating a version inside the global manifest.
//!
//! The manifest client fetches the global version list, finds the entry whose
//! id matches the requested one, and follows that entry's own document URL.
//! The lookup is the decision; fetching, caching and cache repair happen
//! around it.

use vstd::prelude::*;

use crate::models::VanillaVersion;
use crate::text::{chars_of, push_all, push_str_chars, string_from_chars};

verus! {

/// The least index at or after `from` of an entry with the wanted id, or the
/// length.
pub open spec fn first_id_from(entries: Seq<VanillaVersion>, id: Seq<char>, from: int) -> int
    recommends
        0 <= from <= entries.len(),
    decreases entries.len() - from
        when 0 <= from <= entries.len()
{
    if from >= entries.len() {
        entries.len() as int
    } else if entries[from].id@ == id {
        from
    } else {
        first_id_from(entries, id, from + 1)
    }
}

proof fn lemma_first_id_at(entries: Seq<VanillaVersion>, id: Seq<char>, from: int, i: int)
    requires
        0 <= from <= i <= entries.len(),
        forall|j: int| from <= j < i ==> (#[trigger] entries[j]).id@ != id,
        i < entries.len() ==> entries[i].id@ == id,
    ensures
        first_id_from(entries, id, from) == i,
    decreases i - from,
{
    if from < i {
        lemma_first_id_at(entries, id, from + 1, i);
    }
}

/// The message when no manifest entry matches the requested id.
pub open spec fn version_not_found_message(id: Seq<char>) -> Seq<char> {
    "Version "@ + id + " not found"@
}

/// Looks the requested version up in the global manifest: the first entry
/// with that id gives the URL of the version's own document; a missing id is
/// an error naming it.
pub fn find_version_url(entries: &Vec<VanillaVersion>, version_id: &str) -> (r: Result<
    String,
    String,
>)
    ensures
        (r is Ok) <==> first_id_from(entries@, version_id@, 0) < entries@.len(),
        r is Ok ==> r->Ok_0@ == entries@[first_id_from(entries@, version_id@, 0)].url@,
        r is Err ==> r->Err_0@ == version_not_found_message(version_id@),
{
    let idc = chars_of(version_id);
    let mut i: usize = 0;
    while i < entries.len()
        invariant
            i <= entries@.len(),
            idc@ == version_id@,
            forall|j: int| 0 <= j < i ==> (#[trigger] entries@[j]).id@ != version_id@,
        decreases entries@.len() - i,
    {
        let ec = chars_of(entries[i].id.as_str());
        if eq_ids(&ec, &idc) {
            proof {
                lemma_first_id_at(entries@, version_id@, 0, i as int);
            }
            return Ok(entries[i].url.clone());
        }
        i += 1;
    }
    proof {
        lemma_first_id_at(entries@, version_id@, 0, entries@.len() as int);
    }
    let mut msg: Vec<char> = Vec::new();
    push_str_chars(&mut msg, "Version ");
    push_all(&mut msg, &idc);
    push_str_chars(&mut msg, " not found");
    Err(string_from_chars(&msg))
}

fn eq_ids(a: &Vec<char>, b: &Vec<char>) -> (r: bool)
    ensures
        r == (a@ == b@),
{
    if a.len() != b.len() {
        proof {
            assert(a@.len() != b@.len());
        }
        return false;
    }
    let mut i: usize = 0;
    while i < a.len()
        invariant
            i <= a@.len(),
            a@.len() == b@.len(),
            forall|j: int| 0 <= j < i ==> a@[j] == b@[j],
        decreases a@.len() - i,
    {
        if a[i] != b[i] {
            return false;
        }
        i += 1;
    }
    proof {
        assert(a@ =~= b@);
    }
    true
}

/// The paths of a version's cached metadata document and client jar, relative
/// to the game directory.
pub fn version_cache_paths(version_id: &str) -> (r: (String, String))
    ensures
        r.0@ == "versions/"@ + version_id@ + "/"@ + version_id@ + ".json"@,
        r.1@ == "versions/"@ + version_id@ + "/"@ + version_id@ + ".jar"@,
{
    let mut a: Vec<char> = Vec::new();
    push_str_chars(&mut a, "versions/");
    push_str_chars(&mut a, version_id);
    push_str_chars(&mut a, "/");
    push_str_chars(&mut a, version_id);
    let mut b = a.clone();
    push_str_chars(&mut a, ".json");
    push_str_chars(&mut b, ".jar");
    (string_from_chars(&a), string_from_chars(&b))
}

} // verus!
