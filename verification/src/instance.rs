//! Per-instance metadata: what game version an instance plays, which loader
//! wraps it, and its optional Java overrides. Absent overrides inherit the
//! global defaults.

use vstd::prelude::*;

use crate::text::{chars_of, string_from_chars};

verus! {

/// The client-side modification framework an instance launches with.
#[derive(Debug, Clone, Copy, PartialEq, Eq, Structural)]
pub enum ModLoader {
    Vanilla,
    Fabric,
    Forge,
    NeoForge,
    Quilt,
}

impl ModLoader {
    /// The loader's display name.
    pub fn label(&self) -> (r: String)
        ensures
            self is Vanilla ==> r@ == "Vanilla"@,
            self is Fabric ==> r@ == "Fabric"@,
            self is Forge ==> r@ == "Forge"@,
            self is NeoForge ==> r@ == "NeoForge"@,
            self is Quilt ==> r@ == "Quilt"@,
    {
        let v = match self {
            ModLoader::Vanilla => chars_of("Vanilla"),
            ModLoader::Fabric => chars_of("Fabric"),
            ModLoader::Forge => chars_of("Forge"),
            ModLoader::NeoForge => chars_of("NeoForge"),
            ModLoader::Quilt => chars_of("Quilt"),
        };
        string_from_chars(&v)
    }
}

/// One instance's durable metadata. The `memory_mb` field is a legacy single
/// memory bound that is read but never written back.
#[derive(Debug, Clone)]
pub struct InstanceMetadata {
    pub id: String,
    pub name: String,
    pub icon: Option<String>,
    pub created: u64,
    pub last_played: u64,
    pub total_time: u64,
    pub game_version: String,
    pub loader: ModLoader,
    pub loader_version: Option<String>,
    pub java_path: Option<String>,
    pub min_memory_mb: Option<u32>,
    pub max_memory_mb: Option<u32>,
    pub jvm_args: Option<Vec<String>>,
    pub auto_discover: Option<bool>,
    pub loader_installed: bool,
    pub memory_mb: Option<u32>,
}

impl InstanceMetadata {
    /// Migrates the legacy single memory bound into the split bounds: it
    /// fills whichever bound is unset and is itself cleared; everything else
    /// stays as it was.
    pub fn migrate(&mut self)
        ensures
            final(self).memory_mb is None,
            final(self).min_memory_mb == (match old(self).memory_mb {
                Some(m) => if old(self).min_memory_mb is None {
                    Some(m)
                } else {
                    old(self).min_memory_mb
                },
                None => old(self).min_memory_mb,
            }),
            final(self).max_memory_mb == (match old(self).memory_mb {
                Some(m) => if old(self).max_memory_mb is None {
                    Some(m)
                } else {
                    old(self).max_memory_mb
                },
                None => old(self).max_memory_mb,
            }),
            final(self).id == old(self).id,
            final(self).name == old(self).name,
            final(self).icon == old(self).icon,
            final(self).created == old(self).created,
            final(self).last_played == old(self).last_played,
            final(self).total_time == old(self).total_time,
            final(self).game_version == old(self).game_version,
            final(self).loader == old(self).loader,
            final(self).loader_version == old(self).loader_version,
            final(self).java_path == old(self).java_path,
            final(self).jvm_args == old(self).jvm_args,
            final(self).auto_discover == old(self).auto_discover,
            final(self).loader_installed == old(self).loader_installed,
    {
        let legacy = self.memory_mb;
        self.memory_mb = None;
        match legacy {
            Some(m) => {
                if self.min_memory_mb.is_none() {
                    self.min_memory_mb = Some(m);
                }
                if self.max_memory_mb.is_none() {
                    self.max_memory_mb = Some(m);
                }
            },
            None => {},
        }
    }
}


/// Listing order: most recently played first, newest-created first among
/// instances played equally recently.
pub open spec fn listed_before_eq(a: InstanceMetadata, b: InstanceMetadata) -> bool {
    b.last_played < a.last_played || (b.last_played == a.last_played && b.created <= a.created)
}

fn listed_before_eq_exec(a: &InstanceMetadata, b: &InstanceMetadata) -> (r: bool)
    ensures
        r == listed_before_eq(*a, *b),
{
    b.last_played < a.last_played || (b.last_played == a.last_played && b.created <= a.created)
}

/// `x` put into its place in a listing-ordered sequence: before the first
/// entry it precedes or ties with, so an earlier instance stays before its
/// ties.
pub open spec fn insert_listed(s: Seq<InstanceMetadata>, x: InstanceMetadata) -> Seq<
    InstanceMetadata,
>
    decreases s.len(),
{
    if s.len() == 0 {
        seq![x]
    } else if listed_before_eq(x, s.first()) {
        seq![x] + s
    } else {
        seq![s.first()] + insert_listed(s.drop_first(), x)
    }
}

/// The instances in listing order, by insertion from the back.
pub open spec fn sorted_instances(s: Seq<InstanceMetadata>) -> Seq<InstanceMetadata>
    decreases s.len(),
{
    if s.len() == 0 {
        Seq::empty()
    } else {
        insert_listed(sorted_instances(s.drop_first()), s.first())
    }
}

pub open spec fn listing_ordered(s: Seq<InstanceMetadata>) -> bool {
    forall|i: int, j: int|
        0 <= i < j < s.len() ==> listed_before_eq(#[trigger] s[i], #[trigger] s[j])
}

/// Insertion keeps the listing order and only adds the element.
pub proof fn lemma_insert_listed(s: Seq<InstanceMetadata>, x: InstanceMetadata)
    requires
        listing_ordered(s),
    ensures
        listing_ordered(insert_listed(s, x)),
        insert_listed(s, x).to_multiset() == s.to_multiset().insert(x),
        insert_listed(s, x).len() == s.len() + 1,
    decreases s.len(),
{
    broadcast use vstd::seq_lib::group_seq_properties;

    if s.len() == 0 {
        assert(seq![x] =~= Seq::<InstanceMetadata>::empty().push(x));
    } else if listed_before_eq(x, s.first()) {
        let r = seq![x] + s;
        assert forall|i: int, j: int| 0 <= i < j < r.len() implies listed_before_eq(
            #[trigger] r[i],
            #[trigger] r[j],
        ) by {
            if i == 0 {
                assert(r[j] == s[j - 1]);
                if j > 1 {
                    assert(listed_before_eq(s[0], s[j - 1]));
                }
            } else {
                assert(r[i] == s[i - 1] && r[j] == s[j - 1]);
            }
        }
        vstd::seq_lib::lemma_multiset_commutative(seq![x], s);
        assert(s + seq![x] =~= s.push(x));
    } else {
        let rest = insert_listed(s.drop_first(), x);
        assert(listing_ordered(s.drop_first())) by {
            assert(forall|i: int, j: int|
                0 <= i < j < s.drop_first().len() ==> listed_before_eq(
                    #[trigger] s.drop_first()[i],
                    #[trigger] s.drop_first()[j],
                ));
        }
        lemma_insert_listed(s.drop_first(), x);
        let r = seq![s.first()] + rest;
        assert forall|i: int, j: int| 0 <= i < j < r.len() implies listed_before_eq(
            #[trigger] r[i],
            #[trigger] r[j],
        ) by {
            if i == 0 {
                assert(r[j] == rest[j - 1]);
                lemma_insert_listed_members(s.drop_first(), x, j - 1);
                let e = rest[j - 1];
                if e == x {
                    assert(!listed_before_eq(x, s.first()));
                } else {
                    let w = choose|k: int|
                        0 <= k < s.drop_first().len() && #[trigger] s.drop_first()[k] == e;
                    assert(s[w + 1] == e);
                    assert(listed_before_eq(s[0], s[w + 1]));
                }
            } else {
                assert(r[i] == rest[i - 1] && r[j] == rest[j - 1]);
            }
        }
        assert(seq![s.first()] + s.drop_first() =~= s);
        vstd::seq_lib::lemma_multiset_commutative(seq![s.first()], rest);
        vstd::seq_lib::lemma_multiset_commutative(seq![s.first()], s.drop_first());
        assert(rest + seq![s.first()] =~= rest.push(s.first()));
        assert(s.drop_first() + seq![s.first()] =~= s.drop_first().push(s.first()));
        assert(r.to_multiset() == rest.to_multiset().insert(s.first()));
        assert(s.to_multiset() == s.drop_first().to_multiset().insert(s.first()));
        assert(rest.to_multiset().insert(s.first()) =~= s.drop_first().to_multiset().insert(
            x,
        ).insert(s.first()));
        assert(s.drop_first().to_multiset().insert(x).insert(s.first())
            =~= s.drop_first().to_multiset().insert(s.first()).insert(x));
    }
}

proof fn lemma_insert_listed_members(s: Seq<InstanceMetadata>, x: InstanceMetadata, n: int)
    requires
        0 <= n < insert_listed(s, x).len(),
    ensures
        insert_listed(s, x)[n] == x || exists|k: int|
            0 <= k < s.len() && #[trigger] s[k] == insert_listed(s, x)[n],
    decreases s.len(),
{
    if s.len() == 0 {
    } else if listed_before_eq(x, s.first()) {
        if n > 0 {
            assert(insert_listed(s, x)[n] == s[n - 1]);
        }
    } else {
        if n > 0 {
            lemma_insert_listed_members(s.drop_first(), x, n - 1);
            let e = insert_listed(s, x)[n];
            assert(e == insert_listed(s.drop_first(), x)[n - 1]);
            if e != x {
                let w = choose|k: int|
                    0 <= k < s.drop_first().len() && #[trigger] s.drop_first()[k] == e;
                assert(s[w + 1] == e);
            }
        } else {
            assert(insert_listed(s, x)[0] == s[0]);
        }
    }
}

/// Sorting yields a listing-ordered permutation of the input.
pub proof fn lemma_sorted_instances(s: Seq<InstanceMetadata>)
    ensures
        listing_ordered(sorted_instances(s)),
        sorted_instances(s).to_multiset() == s.to_multiset(),
        sorted_instances(s).len() == s.len(),
    decreases s.len(),
{
    broadcast use vstd::seq_lib::group_seq_properties;

    if s.len() > 0 {
        lemma_sorted_instances(s.drop_first());
        lemma_insert_listed(sorted_instances(s.drop_first()), s.first());
        vstd::seq_lib::lemma_multiset_commutative(seq![s.first()], s.drop_first());
        assert(seq![s.first()] + s.drop_first() =~= s);
        assert(s.drop_first() + seq![s.first()] =~= s.drop_first().push(s.first()));
        assert(s.to_multiset() == s.drop_first().to_multiset().insert(s.first()));
    }
}

fn insert_listed_exec(out: &mut Vec<InstanceMetadata>, x: InstanceMetadata)
    ensures
        final(out)@ == insert_listed(old(out)@, x),
{
    let ghost whole = old(out)@;
    proof {
        assert(whole.subrange(0, 0) =~= Seq::<InstanceMetadata>::empty());
        assert(whole.subrange(0, whole.len() as int) =~= whole);
        assert(Seq::<InstanceMetadata>::empty() + insert_listed(whole, x) =~= insert_listed(
            whole,
            x,
        ));
    }
    let mut i: usize = 0;
    while i < out.len()
        invariant
            i <= out@.len(),
            out@ == old(out)@,
            whole == out@,
            insert_listed(whole, x) == whole.subrange(0, i as int) + insert_listed(
                whole.subrange(i as int, whole.len() as int),
                x,
            ),
        decreases out@.len() - i,
    {
        proof {
            let suf = whole.subrange(i as int, whole.len() as int);
            assert(suf.first() == whole[i as int]);
            assert(suf.drop_first() =~= whole.subrange(i as int + 1, whole.len() as int));
        }
        if listed_before_eq_exec(&x, &out[i]) {
            let ghost pre = out@;
            out.insert(i, x);
            proof {
                let suf = whole.subrange(i as int, whole.len() as int);
                assert(insert_listed(suf, x) == seq![x] + suf);
                assert(pre.insert(i as int, x) =~= whole.subrange(0, i as int) + (seq![x] + suf));
            }
            return ;
        }
        proof {
            let suf = whole.subrange(i as int, whole.len() as int);
            assert(insert_listed(suf, x) == seq![whole[i as int]] + insert_listed(
                suf.drop_first(),
                x,
            ));
            assert(whole.subrange(0, i as int) + (seq![whole[i as int]] + insert_listed(
                whole.subrange(i as int + 1, whole.len() as int),
                x,
            )) =~= whole.subrange(0, i as int + 1) + insert_listed(
                whole.subrange(i as int + 1, whole.len() as int),
                x,
            ));
        }
        i += 1;
    }
    let ghost pre = out@;
    out.push(x);
    proof {
        let suf = whole.subrange(whole.len() as int, whole.len() as int);
        assert(suf =~= Seq::<InstanceMetadata>::empty());
        assert(insert_listed(suf, x) =~= seq![x]);
        assert(pre.push(x) =~= whole.subrange(0, whole.len() as int) + seq![x]);
    }
}

/// Orders the loaded instances for the listing: most recently played first,
/// then newest-created.
pub fn sort_instances(instances: Vec<InstanceMetadata>) -> (r: Vec<InstanceMetadata>)
    ensures
        r@ == sorted_instances(instances@),
{
    let ghost whole = instances@;
    let mut rest = instances;
    let mut out: Vec<InstanceMetadata> = Vec::new();
    proof {
        assert(whole.subrange(0, whole.len() as int) =~= whole);
        assert(whole.subrange(whole.len() as int, whole.len() as int)
            =~= Seq::<InstanceMetadata>::empty());
    }
    while rest.len() > 0
        invariant
            rest@.len() <= whole.len(),
            rest@ == whole.subrange(0, rest@.len() as int),
            out@ == sorted_instances(whole.subrange(rest@.len() as int, whole.len() as int)),
        decreases rest@.len(),
    {
        let x = rest.pop().unwrap();
        proof {
            let n = rest@.len() as int;
            assert(whole.subrange(0, n + 1).drop_last() =~= whole.subrange(0, n));
            assert(whole.subrange(0, n + 1).last() == whole[n]);
        }
        insert_listed_exec(&mut out, x);
        proof {
            let n = rest@.len() as int;
            let cur = whole.subrange(n, whole.len() as int);
            let pre = whole.subrange(n + 1, whole.len() as int);
            assert(cur.drop_first() =~= pre);
            assert(cur.first() == whole[n]);
        }
    }
    proof {
        assert(whole.subrange(0, 0) =~= Seq::<InstanceMetadata>::empty());
        assert(whole.subrange(0, whole.len() as int) =~= whole);
    }
    out
}

} // verus!
