//! The order-preserving attribute map, kept in an `indexmap::IndexMap` behind
//! trusted wrappers, with the spec-level machinery over its entry list.
use vstd::prelude::*;
use crate::names::{Attribute, ExpandedName, attr_view, name_view};

verus! {

#[verifier::external_type_specification]
#[verifier::external_body]
#[verifier::reject_recursive_types(K)]
#[verifier::reject_recursive_types(V)]
#[verifier::reject_recursive_types(S)]
pub struct ExIndexMap<K, V, S>(indexmap::IndexMap<K, V, S>);

/// The entries of an attribute map, in insertion order, each as
/// ((namespace, local), (prefix, value)).
pub uninterp spec fn map_entries(m: indexmap::IndexMap<ExpandedName, Attribute>) -> Seq<
    ((Seq<char>, Seq<char>), (Option<Seq<char>>, Seq<char>)),
>;

/// The index of the first entry with the given key, or -1.
pub open spec fn key_idx(
    es: Seq<((Seq<char>, Seq<char>), (Option<Seq<char>>, Seq<char>))>,
    k: (Seq<char>, Seq<char>),
) -> int
    decreases es.len(),
{
    if es.len() == 0 {
        -1
    } else if es[0].0 == k {
        0
    } else if key_idx(es.drop_first(), k) == -1 {
        -1
    } else {
        1 + key_idx(es.drop_first(), k)
    }
}

/// No two entries share a key.
pub open spec fn unique_keys(
    es: Seq<((Seq<char>, Seq<char>), (Option<Seq<char>>, Seq<char>))>,
) -> bool {
    forall|i: int, j: int| 0 <= i < j < es.len() ==> es[i].0 != es[j].0
}

/// `key_idx` finds the first entry with the key, and -1 exactly when no entry
/// has it.
pub proof fn lemma_key_idx(
    es: Seq<((Seq<char>, Seq<char>), (Option<Seq<char>>, Seq<char>))>,
    k: (Seq<char>, Seq<char>),
)
    ensures
        key_idx(es, k) == -1 ==> (forall|m: int| 0 <= m < es.len() ==> es[m].0 != k),
        key_idx(es, k) != -1 ==> 0 <= key_idx(es, k) < es.len() && es[key_idx(es, k)].0 == k && (
        forall|m: int| 0 <= m < key_idx(es, k) ==> es[m].0 != k),
    decreases es.len(),
{
    if es.len() > 0 && es[0].0 != k {
        lemma_key_idx(es.drop_first(), k);
        assert forall|m: int| 1 <= m < es.len() implies es.drop_first()[m - 1] == es[m] by {}
    }
}

/// Two entry lists with the same keys position-by-position give the same
/// `key_idx` for every key.
pub proof fn lemma_key_idx_same_keys(
    es1: Seq<((Seq<char>, Seq<char>), (Option<Seq<char>>, Seq<char>))>,
    es2: Seq<((Seq<char>, Seq<char>), (Option<Seq<char>>, Seq<char>))>,
    k: (Seq<char>, Seq<char>),
)
    requires
        es1.len() == es2.len(),
        forall|m: int| 0 <= m < es1.len() ==> es1[m].0 == es2[m].0,
    ensures
        key_idx(es1, k) == key_idx(es2, k),
    decreases es1.len(),
{
    if es1.len() > 0 {
        assert forall|m: int| 0 <= m < es1.drop_first().len() implies es1.drop_first()[m].0
            == es2.drop_first()[m].0 by {
            assert(es1.drop_first()[m] == es1[m + 1]);
            assert(es2.drop_first()[m] == es2[m + 1]);
        }
        lemma_key_idx_same_keys(es1.drop_first(), es2.drop_first(), k);
    }
}

/// Appending an entry leaves the index of present keys unchanged; a missing
/// key is found at the end exactly when the new entry carries it.
pub proof fn lemma_key_idx_push(
    es: Seq<((Seq<char>, Seq<char>), (Option<Seq<char>>, Seq<char>))>,
    kv: ((Seq<char>, Seq<char>), (Option<Seq<char>>, Seq<char>)),
    k: (Seq<char>, Seq<char>),
)
    ensures
        key_idx(es, k) != -1 ==> key_idx(es.push(kv), k) == key_idx(es, k),
        key_idx(es, k) == -1 && kv.0 == k ==> key_idx(es.push(kv), k) == es.len(),
        key_idx(es, k) == -1 && kv.0 != k ==> key_idx(es.push(kv), k) == -1,
    decreases es.len(),
{
    if es.len() == 0 {
        assert(es.push(kv)[0] == kv);
        assert(es.push(kv).drop_first()
            =~= Seq::<((Seq<char>, Seq<char>), (Option<Seq<char>>, Seq<char>))>::empty());
        if kv.0 == k {
            assert(key_idx(es.push(kv), k) == 0);
        } else {
            assert(key_idx(es.push(kv).drop_first(), k) == -1);
            assert(key_idx(es.push(kv), k) == -1);
        }
    } else {
        let dp = es.drop_first();
        assert(es.push(kv)[0] == es[0]);
        assert(es.push(kv).drop_first() =~= dp.push(kv));
        lemma_key_idx_push(dp, kv, k);
        lemma_key_idx(dp, k);
        lemma_key_idx(dp.push(kv), k);
        if es[0].0 == k {
            assert(key_idx(es, k) == 0);
            assert(key_idx(es.push(kv), k) == 0);
        } else {
            assert(key_idx(es.push(kv).drop_first(), k) == key_idx(dp.push(kv), k));
            if key_idx(dp, k) == -1 {
                assert(key_idx(es, k) == -1);
                if kv.0 == k {
                    assert(key_idx(dp.push(kv), k) == dp.len());
                    assert(key_idx(es.push(kv), k) == 1 + dp.len());
                } else {
                    assert(key_idx(es.push(kv), k) == -1);
                }
            } else {
                assert(key_idx(es, k) == 1 + key_idx(dp, k));
                assert(key_idx(es.push(kv), k) == 1 + key_idx(dp.push(kv), k));
            }
        }
    }
}

/// Relies on indexmap::IndexMap::new: the new map is empty.
#[verifier::external_body]
pub(crate) fn map_empty() -> (r: indexmap::IndexMap<ExpandedName, Attribute>)
    ensures
        map_entries(r) == Seq::<((Seq<char>, Seq<char>), (Option<Seq<char>>, Seq<char>))>::empty(),
{
    indexmap::IndexMap::new()
}

/// Relies on indexmap::IndexMap::insert: an existing key keeps its place and
/// takes the new value, the old value coming back; a new key is appended.
#[verifier::external_body]
pub(crate) fn map_insert(
    m: &mut indexmap::IndexMap<ExpandedName, Attribute>,
    k: ExpandedName,
    v: Attribute,
) -> (r: Option<Attribute>)
    ensures
        ({
            let es = map_entries(*old(m));
            let i = key_idx(es, name_view(k));
            if i == -1 {
                map_entries(*final(m)) == es.push((name_view(k), attr_view(v))) && r is None
            } else {
                map_entries(*final(m)) == es.update(i, (name_view(k), attr_view(v))) && match r {
                    Some(a) => attr_view(a) == es[i].1,
                    None => false,
                }
            }
        }),
{
    m.insert(k, v)
}

/// Relies on indexmap::IndexMap::get: the value stored under an equal key, if
/// any.
#[verifier::external_body]
pub(crate) fn map_get<'a>(
    m: &'a indexmap::IndexMap<ExpandedName, Attribute>,
    k: &ExpandedName,
) -> (r: Option<&'a Attribute>)
    ensures
        ({
            let es = map_entries(*m);
            let i = key_idx(es, name_view(*k));
            match r {
                None => i == -1,
                Some(a) => i != -1 && attr_view(*a) == es[i].1,
            }
        }),
{
    m.get(k)
}

/// Relies on indexmap::IndexMap::swap_remove: removes the key's entry, moving
/// the last entry into its place, and returns the removed value.
#[verifier::external_body]
pub(crate) fn map_swap_remove(
    m: &mut indexmap::IndexMap<ExpandedName, Attribute>,
    k: &ExpandedName,
) -> (r: Option<Attribute>)
    ensures
        ({
            let es = map_entries(*old(m));
            let i = key_idx(es, name_view(*k));
            if i == -1 {
                map_entries(*final(m)) == es && r is None
            } else {
                map_entries(*final(m)) == es.update(i, es.last()).drop_last() && match r {
                    Some(a) => attr_view(a) == es[i].1,
                    None => false,
                }
            }
        }),
{
    m.swap_remove(k)
}

/// The views of a list of owned entry pairs.
pub open spec fn entry_views(ps: Seq<(ExpandedName, Attribute)>) -> Seq<
    ((Seq<char>, Seq<char>), (Option<Seq<char>>, Seq<char>)),
> {
    ps.map_values(|p: (ExpandedName, Attribute)| (name_view(p.0), attr_view(p.1)))
}

/// Relies on indexmap::IndexMap::iter: the entries in insertion order; each
/// one is cloned.
#[verifier::external_body]
pub(crate) fn map_entries_clone(m: &indexmap::IndexMap<ExpandedName, Attribute>) -> (r: Vec<
    (ExpandedName, Attribute),
>)
    ensures
        entry_views(r@) == map_entries(*m),
{
    m.iter().map(|(k, v)| (k.clone(), v.clone())).collect()
}

} // verus!
