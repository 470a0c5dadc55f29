//! Content-addressed asset resolution planning.
//!
//! An asset object's storage path is derived from its hash alone
//! (`objects/<hash[..2]>/<hash>`): the hash is the identity, so an existing
//! file at that path is a cache hit and is never downloaded again. Planning
//! works over an already-parsed index and the caller's presence checks; the
//! caller performs the downloads and copies.

use vstd::prelude::*;

use crate::text::{chars_of, push_all, push_str_chars, slice_range, string_from_chars};

verus! {

/// One object of an asset index: its human-readable name and its content
/// hash.
#[derive(Debug, Clone)]
pub struct AssetObject {
    pub name: String,
    pub hash: String,
}

/// One planned download: the object's URL and its path relative to the
/// assets directory.
#[derive(Debug, Clone)]
pub struct AssetDownload {
    pub url: String,
    pub rel_path: String,
}

/// The storage path of a hash, relative to the assets directory: a two-level
/// bucket by the hash's first two characters.
pub open spec fn asset_rel_path(hash: Seq<char>) -> Seq<char>
    recommends
        hash.len() >= 2,
{
    "objects/"@ + hash.subrange(0, 2) + "/"@ + hash
}

/// The well-known download URL of a hash: the same bucket scheme under the
/// resource host.
pub open spec fn asset_url(hash: Seq<char>) -> Seq<char>
    recommends
        hash.len() >= 2,
{
    "https://resources.download.minecraft.net/"@ + hash.subrange(0, 2) + "/"@ + hash
}

/// Builds the storage path of one hash.
pub fn asset_object_path(hash: &str) -> (r: String)
    requires
        hash@.len() >= 2,
    ensures
        r@ == asset_rel_path(hash@),
{
    let h = chars_of(hash);
    let prefix = slice_range(&h, 0, 2);
    let mut out: Vec<char> = Vec::new();
    push_str_chars(&mut out, "objects/");
    push_all(&mut out, &prefix);
    push_str_chars(&mut out, "/");
    push_all(&mut out, &h);
    string_from_chars(&out)
}

/// Builds the download URL of one hash.
pub fn asset_object_url(hash: &str) -> (r: String)
    requires
        hash@.len() >= 2,
    ensures
        r@ == asset_url(hash@),
{
    let h = chars_of(hash);
    let prefix = slice_range(&h, 0, 2);
    let mut out: Vec<char> = Vec::new();
    push_str_chars(&mut out, "https://resources.download.minecraft.net/");
    push_all(&mut out, &prefix);
    push_str_chars(&mut out, "/");
    push_all(&mut out, &h);
    string_from_chars(&out)
}

pub open spec fn download_views(s: Seq<AssetDownload>) -> Seq<(Seq<char>, Seq<char>)> {
    s.map_values(|d: AssetDownload| (d.url@, d.rel_path@))
}

/// The downloads a resolution pass performs: one per object whose storage
/// path is absent, in index order; objects whose hash is too short for the
/// bucket scheme are skipped, as are present ones.
pub open spec fn plan_spec(objs: Seq<AssetObject>, present: Seq<bool>) -> Seq<
    (Seq<char>, Seq<char>),
>
    recommends
        objs.len() == present.len(),
    decreases objs.len(),
{
    if objs.len() == 0 {
        Seq::empty()
    } else {
        let rest = plan_spec(objs.drop_last(), present.drop_last());
        let o = objs.last();
        if o.hash@.len() >= 2 && !present.last() {
            rest.push((asset_url(o.hash@), asset_rel_path(o.hash@)))
        } else {
            rest
        }
    }
}

/// Plans the downloads for one pass over an index: exactly the absent
/// objects, in index order. `present[i]` says whether `objects[i]`'s storage
/// path already exists.
pub fn plan_asset_downloads(objects: &Vec<AssetObject>, present: &Vec<bool>) -> (r: Vec<
    AssetDownload,
>)
    requires
        objects@.len() == present@.len(),
    ensures
        download_views(r@) == plan_spec(objects@, present@),
{
    let mut out: Vec<AssetDownload> = Vec::new();
    let mut i: usize = 0;
    while i < objects.len()
        invariant
            i <= objects@.len(),
            objects@.len() == present@.len(),
            download_views(out@) == plan_spec(
                objects@.subrange(0, i as int),
                present@.subrange(0, i as int),
            ),
        decreases objects@.len() - i,
    {
        proof {
            let po = objects@.subrange(0, i as int);
            let pp = present@.subrange(0, i as int);
            let co = objects@.subrange(0, i as int + 1);
            let cp = present@.subrange(0, i as int + 1);
            assert(co.drop_last() =~= po);
            assert(cp.drop_last() =~= pp);
            assert(co.last() == objects@[i as int]);
            assert(cp.last() == present@[i as int]);
        }
        let hash_len = objects[i].hash.as_str().unicode_len();
        if hash_len >= 2 && !present[i] {
            let url = asset_object_url(objects[i].hash.as_str());
            let rel_path = asset_object_path(objects[i].hash.as_str());
            let ghost pre = out@;
            let d = AssetDownload { url, rel_path };
            let ghost x = d;
            out.push(d);
            proof {
                assert(out@ == pre.push(x));
                assert(download_views(pre.push(x)) =~= download_views(pre).push(
                    (x.url@, x.rel_path@),
                ));
            }
        }
        i += 1;
    }
    proof {
        assert(objects@.subrange(0, objects@.len() as int) =~= objects@);
        assert(present@.subrange(0, present@.len() as int) =~= present@);
    }
    out
}

/// A second pass over an index whose objects are all present plans no
/// downloads at all: asset resolution is idempotent.
pub proof fn lemma_asset_resolution_idempotent(objs: Seq<AssetObject>, present: Seq<bool>)
    requires
        objs.len() == present.len(),
        forall|i: int| 0 <= i < present.len() ==> present[i],
    ensures
        plan_spec(objs, present) == Seq::<(Seq<char>, Seq<char>)>::empty(),
    decreases objs.len(),
{
    if objs.len() > 0 {
        assert(forall|i: int|
            0 <= i < present.len() - 1 ==> #[trigger] present.drop_last()[i] == present[i]);
        lemma_asset_resolution_idempotent(objs.drop_last(), present.drop_last());
        assert(present.last());
    }
}

/// Where an object is mirrored for legacy clients: into the game directory's
/// `resources` tree when the index maps to resources, and into the virtual
/// layout when the index is virtual. The caller copies each object from its
/// storage path to every target that does not exist yet.
pub fn asset_copy_targets(name: &str, map_to_resources: bool, is_virtual: bool) -> (r: Vec<String>)
    ensures
        map_to_resources && is_virtual ==> r@.len() == 2 && r@[0]@ == "resources/"@ + name@
            && r@[1]@ == "assets/virtual/legacy/"@ + name@,
        map_to_resources && !is_virtual ==> r@.len() == 1 && r@[0]@ == "resources/"@ + name@,
        !map_to_resources && is_virtual ==> r@.len() == 1 && r@[0]@ == "assets/virtual/legacy/"@
            + name@,
        !map_to_resources && !is_virtual ==> r@.len() == 0,
{
    let mut out: Vec<String> = Vec::new();
    if map_to_resources {
        let mut t: Vec<char> = Vec::new();
        push_str_chars(&mut t, "resources/");
        push_str_chars(&mut t, name);
        out.push(string_from_chars(&t));
    }
    if is_virtual {
        let mut t: Vec<char> = Vec::new();
        push_str_chars(&mut t, "assets/virtual/legacy/");
        push_str_chars(&mut t, name);
        out.push(string_from_chars(&t));
    }
    out
}

/// The assets directory the game is launched with: the virtual legacy layout
/// when the index is virtual, the real assets directory otherwise.
pub fn launch_assets_dir(assets_dir: &str, is_virtual: bool) -> (r: String)
    ensures
        is_virtual ==> r@ == assets_dir@ + "/virtual/legacy"@,
        !is_virtual ==> r@ == assets_dir@,
{
    let mut out: Vec<char> = Vec::new();
    push_str_chars(&mut out, assets_dir);
    if is_virtual {
        push_str_chars(&mut out, "/virtual/legacy");
    }
    string_from_chars(&out)
}

} // verus!
