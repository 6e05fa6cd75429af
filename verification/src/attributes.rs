//! The attribute store: an order-preserving map from expanded names to
//! attribute payloads, with a derived class-presence index that keeps
//! `has_class` cheap.
use vstd::prelude::*;
use crate::CaseSensitivity;
use crate::bloomext::{ClassBloom, bloom_build, bloom_check, bloom_items};
use crate::mapext::{
    entry_views,
    key_idx,
    lemma_key_idx,
    lemma_key_idx_push,
    lemma_key_idx_same_keys,
    map_empty,
    map_entries,
    map_entries_clone,
    map_get,
    map_insert,
    map_swap_remove,
    unique_keys,
};
use crate::names::{Attribute, ExpandedName, attr_view, name_view};
use crate::strutil::{
    class_token_list,
    class_tokens,
    check_single,
    is_single,
    match_tokens,
    policy_eq,
    policy_eq_exec,
    token_match,
};

verus! {

/// The key of an attribute in the null namespace.
pub open spec fn null_key(local: Seq<char>) -> (Seq<char>, Seq<char>) {
    (Seq::empty(), local)
}

/// The key of the `class` attribute.
pub open spec fn class_key() -> (Seq<char>, Seq<char>) {
    null_key("class"@)
}

/// The cached class-presence index: a single class token compared directly,
/// or a Bloom filter over the split tokens for a quick negative pre-check.
pub(crate) enum ClassCache {
    Bloom(ClassBloom),
    Single,
}

/// The index is consistent with the class attribute value it was built from.
pub(crate) open spec fn cache_wf_value(c: ClassCache, v: Seq<char>) -> bool {
    match c {
        ClassCache::Single => is_single(v),
        ClassCache::Bloom(b) => !is_single(v) && bloom_items(b) == class_tokens(v).to_set(),
    }
}

impl ClassCache {
    /// Build the index for a class attribute value: a direct comparison when
    /// the trimmed value holds no separator, a Bloom filter over the split
    /// tokens otherwise.
    pub(crate) fn new(value: &str) -> (c: ClassCache)
        ensures
            cache_wf_value(c, value@),
    {
        if check_single(value) {
            ClassCache::Single
        } else {
            let tokens = class_token_list(value);
            ClassCache::Bloom(bloom_build(&tokens))
        }
    }
}

/// A map of attributes keyed by expanded name, in insertion order, with the
/// derived class-presence index.
pub struct Attributes {
    /// A map of attributes whose name can have namespaces.
    pub map: indexmap::IndexMap<ExpandedName, Attribute>,
    /// The `class` attribute value is indexed separately for fast queries.
    pub(crate) class_cache: Option<ClassCache>,
}

impl Attributes {
    /// The entries of the store, in order: ((namespace, local), (prefix, value)).
    pub closed spec fn entries(self) -> Seq<
        ((Seq<char>, Seq<char>), (Option<Seq<char>>, Seq<char>)),
    > {
        map_entries(self.map)
    }

    /// The value of the `class` attribute, if present.
    pub open spec fn class_value(self) -> Option<Seq<char>> {
        let i = key_idx(self.entries(), class_key());
        if i == -1 {
            None
        } else {
            Some(self.entries()[i].1.1)
        }
    }

    /// The class-presence index exists exactly when a class attribute does,
    /// and is consistent with its current value.
    pub closed spec fn cache_ok(self) -> bool {
        match self.class_value() {
            None => self.class_cache is None,
            Some(v) => match self.class_cache {
                None => false,
                Some(c) => cache_wf_value(c, v),
            },
        }
    }

    /// Well-formed store: unique keys, and a coherent class index.
    pub open spec fn wf(self) -> bool {
        unique_keys(self.entries()) && self.cache_ok()
    }

    /// What a class query answers on a class value `v`: a single-token value
    /// is compared whole under the policy; a multi-token value is searched
    /// token by token.
    pub open spec fn class_value_match(v: Seq<char>, name: Seq<char>, cs: CaseSensitivity) -> bool {
        if is_single(v) {
            policy_eq(v, name, cs)
        } else {
            token_match(v, name, cs)
        }
    }

    /// What `has_class` returns: false without a class attribute, otherwise
    /// the match on its value.
    pub open spec fn has_class_spec(self, name: Seq<char>, cs: CaseSensitivity) -> bool {
        match self.class_value() {
            None => false,
            Some(v) => Self::class_value_match(v, name, cs),
        }
    }
}

/// Insert-or-replace on the entry list: an existing key keeps its place and
/// takes the new value; a new key is appended.
pub open spec fn upsert(
    es: Seq<((Seq<char>, Seq<char>), (Option<Seq<char>>, Seq<char>))>,
    k: (Seq<char>, Seq<char>),
    v: (Option<Seq<char>>, Seq<char>),
) -> Seq<((Seq<char>, Seq<char>), (Option<Seq<char>>, Seq<char>))> {
    let i = key_idx(es, k);
    if i == -1 {
        es.push((k, v))
    } else {
        es.update(i, (k, v))
    }
}

/// The entry list that repeated insertion of the given pairs builds.
pub open spec fn build_entries(l: Seq<((Seq<char>, Seq<char>), (Option<Seq<char>>, Seq<char>))>)
    -> Seq<((Seq<char>, Seq<char>), (Option<Seq<char>>, Seq<char>))>
    decreases l.len(),
{
    if l.len() == 0 {
        Seq::empty()
    } else {
        upsert(build_entries(l.drop_last()), l.last().0, l.last().1)
    }
}

/// Upsert keeps keys unique.
pub proof fn lemma_upsert_unique(
    es: Seq<((Seq<char>, Seq<char>), (Option<Seq<char>>, Seq<char>))>,
    k: (Seq<char>, Seq<char>),
    v: (Option<Seq<char>>, Seq<char>),
)
    requires
        unique_keys(es),
    ensures
        unique_keys(upsert(es, k, v)),
{
    lemma_key_idx(es, k);
    let i = key_idx(es, k);
    let n = upsert(es, k, v);
    if i == -1 {
        assert forall|a: int, b: int| 0 <= a < b < n.len() implies n[a].0 != n[b].0 by {
            if b == es.len() {
                assert(n[a] == es[a]);
                assert(n[b].0 == k);
            } else {
                assert(n[a] == es[a]);
                assert(n[b] == es[b]);
            }
        }
    } else {
        assert forall|a: int, b: int| 0 <= a < b < n.len() implies n[a].0 != n[b].0 by {
            assert(n[a].0 == es[a].0);
            assert(n[b].0 == es[b].0);
        }
    }
}

/// Upsert of one key leaves the lookup of every other key unchanged.
pub proof fn lemma_upsert_other(
    es: Seq<((Seq<char>, Seq<char>), (Option<Seq<char>>, Seq<char>))>,
    k: (Seq<char>, Seq<char>),
    v: (Option<Seq<char>>, Seq<char>),
    q: (Seq<char>, Seq<char>),
)
    requires
        unique_keys(es),
        q != k,
    ensures
        ({
            let n = upsert(es, k, v);
            ((key_idx(es, q) == -1) == (key_idx(n, q) == -1)) && (key_idx(es, q) != -1
                ==> key_idx(n, q) != -1 && n[key_idx(n, q)].1 == es[key_idx(es, q)].1)
        }),
{
    lemma_key_idx(es, k);
    lemma_key_idx(es, q);
    let i = key_idx(es, k);
    let n = upsert(es, k, v);
    if i == -1 {
        lemma_key_idx_push(es, (k, v), q);
        if key_idx(es, q) != -1 {
            assert(n[key_idx(es, q)] == es[key_idx(es, q)]);
        }
    } else {
        assert forall|m: int| 0 <= m < es.len() implies es[m].0 == n[m].0 by {
            if m == i {
                assert(es[i].0 == k);
            }
        }
        lemma_key_idx_same_keys(es, n, q);
        if key_idx(es, q) != -1 {
            let j = key_idx(es, q);
            assert(es[j].0 == q);
            assert(j != i);
            assert(n[j] == es[j]);
        }
    }
}

/// After removing the entry at `i` by swapping in the last entry, keys stay
/// unique, the removed key is gone, and every other key still finds its value.
pub proof fn lemma_swap_remove(
    es: Seq<((Seq<char>, Seq<char>), (Option<Seq<char>>, Seq<char>))>,
    i: int,
)
    requires
        unique_keys(es),
        0 <= i < es.len(),
    ensures
        ({
            let n = es.update(i, es.last()).drop_last();
            unique_keys(n) && key_idx(n, es[i].0) == -1 && (forall|q: (Seq<char>, Seq<char>)|
                q != es[i].0 ==> ((key_idx(es, q) == -1) == (key_idx(n, q) == -1)) && (key_idx(
                    es,
                    q,
                ) != -1 ==> key_idx(n, q) != -1 && n[key_idx(n, q)].1 == es[key_idx(es, q)].1))
        }),
{
    let n = es.update(i, es.last()).drop_last();
    let last = es.len() - 1;
    assert forall|a: int, b: int| 0 <= a < b < n.len() implies n[a].0 != n[b].0 by {
        if a == i {
            assert(n[a] == es[last]);
            assert(n[b] == es[b]);
        } else if b == i {
            assert(n[a] == es[a]);
            assert(n[b] == es[last]);
        } else {
            assert(n[a] == es[a]);
            assert(n[b] == es[b]);
        }
    }
    lemma_key_idx(n, es[i].0);
    if key_idx(n, es[i].0) != -1 {
        let m = key_idx(n, es[i].0);
        if m == i {
            assert(n[m] == es[last]);
        } else {
            assert(n[m] == es[m]);
        }
    }
    assert forall|q: (Seq<char>, Seq<char>)| q != es[i].0 implies ((key_idx(es, q) == -1)
        == (key_idx(n, q) == -1)) && (key_idx(es, q) != -1 ==> key_idx(n, q) != -1 && n[key_idx(
        n,
        q,
    )].1 == es[key_idx(es, q)].1) by {
        lemma_key_idx(es, q);
        lemma_key_idx(n, q);
        if key_idx(es, q) != -1 {
            let j = key_idx(es, q);
            assert(es[j].0 == q);
            assert(j != i);
            if j == last {
                // q's entry moved into position i
                assert(i < last);
                assert(n[i] == es[last]);
                assert(key_idx(n, q) != -1);
                let m = key_idx(n, q);
                if m != i {
                    assert(n[m] == es[m]);
                }
            } else {
                assert(n[j] == es[j]);
                assert(key_idx(n, q) != -1);
                let m = key_idx(n, q);
                if m != j {
                    if m == i {
                        assert(n[m] == es[last]);
                    } else {
                        assert(n[m] == es[m]);
                    }
                }
            }
        } else {
            if key_idx(n, q) != -1 {
                let m = key_idx(n, q);
                if m == i {
                    assert(n[m] == es[last]);
                } else {
                    assert(n[m] == es[m]);
                }
            }
        }
    }
}

/// Two entry lists carry the same attribute map: equal length, and every
/// entry of one has an entry of the other with the same key and value.
/// Prefixes are excluded, as attribute equality says.
pub open spec fn store_content_eq(
    a: Seq<((Seq<char>, Seq<char>), (Option<Seq<char>>, Seq<char>))>,
    b: Seq<((Seq<char>, Seq<char>), (Option<Seq<char>>, Seq<char>))>,
) -> bool {
    a.len() == b.len() && content_le(a, b, a.len() as int)
}

/// Every entry of `a` below `upto` has a matching entry in `b`: same key,
/// same value.
pub open spec fn content_le(
    a: Seq<((Seq<char>, Seq<char>), (Option<Seq<char>>, Seq<char>))>,
    b: Seq<((Seq<char>, Seq<char>), (Option<Seq<char>>, Seq<char>))>,
    upto: int,
) -> bool {
    forall|m: int| #![trigger a[m]]
        0 <= m < upto ==> exists|j: int| #![trigger b[j]]
            0 <= j < b.len() && b[j].0 == a[m].0 && b[j].1.1 == a[m].1.1
}

impl PartialEq for Attributes {
    /// Store equality is defined purely by map content; the class index is a
    /// derived cache and is excluded.
    fn eq(&self, other: &Attributes) -> (r: bool) {
        let ea = map_entries_clone(&self.map);
        let eb = map_entries_clone(&other.map);
        proof {
            assert(entry_views(ea@) == self.entries());
            assert(entry_views(eb@) == other.entries());
        }
        if ea.len() != eb.len() {
            return false;
        }
        let mut i: usize = 0;
        while i < ea.len()
            invariant
                entry_views(ea@) == self.entries(),
                entry_views(eb@) == other.entries(),
                ea@.len() == self.entries().len(),
                eb@.len() == other.entries().len(),
                ea@.len() == eb@.len(),
                0 <= i <= ea@.len(),
                content_le(self.entries(), other.entries(), i as int),
            decreases ea@.len() - i,
        {
            let pa = &ea[i];
            proof {
                assert(self.entries()[i as int] == (name_view(ea@[i as int].0), attr_view(
                    ea@[i as int].1,
                )));
            }
            let mut j: usize = 0;
            let mut found = false;
            while j < eb.len()
                invariant_except_break
                    !found,
                invariant
                    entry_views(eb@) == other.entries(),
                    eb@.len() == other.entries().len(),
                    0 <= i < ea@.len(),
                    0 <= j <= eb@.len(),
                    pa == ea@[i as int],
                    forall|m: int| #![trigger other.entries()[m]]
                        0 <= m < j ==> !(other.entries()[m].0 == (pa.0.ns@, pa.0.local@)
                            && other.entries()[m].1.1 == pa.1.value@),
                ensures
                    found ==> exists|m: int| #![trigger other.entries()[m]]
                        0 <= m < other.entries().len() && other.entries()[m].0 == (
                        pa.0.ns@,
                        pa.0.local@,
                        ) && other.entries()[m].1.1 == pa.1.value@,
                    !found ==> forall|m: int| #![trigger other.entries()[m]]
                        0 <= m < other.entries().len() ==> !(other.entries()[m].0 == (
                        pa.0.ns@,
                        pa.0.local@,
                        ) && other.entries()[m].1.1 == pa.1.value@),
                decreases eb@.len() - j,
            {
                let pb = &eb[j];
                proof {
                    assert(other.entries()[j as int] == (name_view(eb@[j as int].0), attr_view(
                        eb@[j as int].1,
                    )));
                }
                let key_hit = crate::strutil::str_eq(pa.0.ns.as_str(), pb.0.ns.as_str())
                    && crate::strutil::str_eq(pa.0.local.as_str(), pb.0.local.as_str());
                let val_hit = pa.1.value == pb.1.value;
                if key_hit && val_hit {
                    found = true;
                    proof {
                        assert(other.entries()[j as int].0 == (pa.0.ns@, pa.0.local@)
                            && other.entries()[j as int].1.1 == pa.1.value@);
                    }
                    break ;
                }
                j = j + 1;
            }
            if !found {
                proof {
                    assert(self.entries()[i as int].0 == (pa.0.ns@, pa.0.local@));
                    assert(self.entries()[i as int].1.1 == pa.1.value@);
                    assert(!store_content_eq(self.entries(), other.entries()));
                }
                return false;
            }
            proof {
                assert(self.entries()[i as int].0 == (pa.0.ns@, pa.0.local@));
                assert(self.entries()[i as int].1.1 == pa.1.value@);
                assert(content_le(self.entries(), other.entries(), i + 1));
            }
            i = i + 1;
        }
        proof {
            assert(i as int == ea@.len());
            assert(self.entries().len() == other.entries().len());
            assert(store_content_eq(self.entries(), other.entries()));
        }
        true
    }
}

impl vstd::std_specs::cmp::PartialEqSpecImpl for Attributes {
    open spec fn obeys_eq_spec() -> bool {
        true
    }

    open spec fn eq_spec(&self, other: &Attributes) -> bool {
        store_content_eq(self.entries(), other.entries())
    }
}

/// The store's entry list is the entry list of its underlying map.
pub(crate) proof fn lemma_entries_def(a: Attributes)
    ensures
        a.entries() == map_entries(a.map),
{
}

/// A class attribute value with no separator whitespace anywhere answers
/// `has_class` by plain value comparison under the given policy, for every
/// query. (law)
pub proof fn lemma_single_value_exact(v: Seq<char>, name: Seq<char>, cs: CaseSensitivity)
    requires
        forall|i: int| 0 <= i < v.len() ==> !crate::strutil::is_sel_ws(v[i]),
    ensures
        Attributes::class_value_match(v, name, cs) == policy_eq(v, name, cs),
{
    assert(is_single(v)) by {
        if crate::strutil::has_inner_sel_ws(v) {
            let (i, j, k): (int, int, int) = choose|i: int, j: int, k: int|
                0 <= i < j < k < v.len() && !crate::strutil::is_uni_ws(v[i])
                    && crate::strutil::is_sel_ws(v[j]) && !crate::strutil::is_uni_ws(v[k]);
            assert(!crate::strutil::is_sel_ws(v[j]));
        }
    }
}

/// A class attribute value with at least two whitespace-separated tokens,
/// holding no whitespace besides separator whitespace, answers a
/// case-sensitive query exactly by token membership: true iff the queried
/// name is one of the tokens. (law)
pub proof fn lemma_multi_token_membership(v: Seq<char>, name: Seq<char>)
    requires
        class_tokens(v).len() >= 2,
        forall|i: int|
            0 <= i < v.len() ==> (crate::strutil::is_uni_ws(v[i]) ==> crate::strutil::is_sel_ws(
                v[i],
            )),
    ensures
        Attributes::class_value_match(v, name, CaseSensitivity::CaseSensitive) == token_match(
            v,
            name,
            CaseSensitivity::CaseSensitive,
        ),
{
    crate::strutil::lemma_skip_ws(v, 0);
    let s0 = crate::strutil::skip_ws(v, 0);
    if s0 >= v.len() {
        assert(class_tokens(v).len() == 0);
    }
    crate::strutil::lemma_token_end(v, s0);
    let e0 = crate::strutil::token_end(v, s0);
    assert(class_tokens(v) == seq![v.subrange(s0, e0)] + crate::strutil::tokens_from(v, e0));
    assert(crate::strutil::tokens_from(v, e0).len() >= 1);
    crate::strutil::lemma_skip_ws(v, e0);
    let s1 = crate::strutil::skip_ws(v, e0);
    if s1 >= v.len() {
        assert(crate::strutil::tokens_from(v, e0).len() == 0);
    }
    assert(e0 < v.len());
    assert(crate::strutil::is_sel_ws(v[e0]));
    assert(!crate::strutil::is_sel_ws(v[s0]));
    assert(!crate::strutil::is_sel_ws(v[s1]));
    assert(s0 < e0) by {
        if e0 == s0 {
            assert(crate::strutil::is_sel_ws(v[s0]));
        }
    }
    assert(e0 < s1) by {
        if s1 == e0 {
            assert(!crate::strutil::is_sel_ws(v[e0]));
        }
    }
    assert(crate::strutil::has_inner_sel_ws(v)) by {
        assert(0 <= s0 < e0 < s1 < v.len() && !crate::strutil::is_uni_ws(v[s0])
            && crate::strutil::is_sel_ws(v[e0]) && !crate::strutil::is_uni_ws(v[s1]));
    }
}

/// Without a class attribute every class query answers false, whatever the
/// name and the policy. (law)
pub proof fn lemma_no_class_no_match(a: Attributes, name: Seq<char>, cs: CaseSensitivity)
    requires
        key_idx(a.entries(), class_key()) == -1,
    ensures
        !a.has_class_spec(name, cs),
{
}

/// Re-inserting an entry list with unique keys rebuilds exactly that list:
/// building a store from a well-formed store's own entries preserves content
/// and insertion order. (law)
pub proof fn lemma_rebuild_identity(
    l: Seq<((Seq<char>, Seq<char>), (Option<Seq<char>>, Seq<char>))>,
)
    requires
        unique_keys(l),
    ensures
        build_entries(l) == l,
    decreases l.len(),
{
    if l.len() == 0 {
        assert(build_entries(l) =~= l);
    } else {
        let d = l.drop_last();
        assert forall|a: int, b: int| 0 <= a < b < d.len() implies d[a].0 != d[b].0 by {
            assert(d[a] == l[a]);
            assert(d[b] == l[b]);
        }
        lemma_rebuild_identity(d);
        lemma_key_idx(d, l.last().0);
        if key_idx(d, l.last().0) != -1 {
            let i = key_idx(d, l.last().0);
            assert(d[i] == l[i]);
            assert(l[i].0 == l[l.len() - 1].0);
            assert(false);
        }
        assert(build_entries(l) == d.push(l.last()));
        assert(d.push(l.last()) =~= l);
    }
}

impl Attributes {
    /// Build a store from the given pairs, repeated insertion deciding the
    /// final entries, and derive the class index from the class attribute.
    pub fn new(attributes: Vec<(ExpandedName, Attribute)>) -> (r: Attributes)
        ensures
            r.wf(),
            r.entries() == build_entries(entry_views(attributes@)),
    {
        let ghost views = entry_views(attributes@);
        let mut map = map_empty();
        let mut idx: usize = 0;
        proof {
            assert(views.take(0) =~= Seq::empty());
            assert(build_entries(views.take(0)) =~= Seq::empty());
        }
        while idx < attributes.len()
            invariant
                0 <= idx <= attributes@.len(),
                views == entry_views(attributes@),
                views.len() == attributes@.len(),
                unique_keys(map_entries(map)),
                map_entries(map) == build_entries(views.take(idx as int)),
            decreases attributes@.len() - idx,
        {
            let p = &attributes[idx];
            let k = crate::names::clone_name(&p.0);
            let v = crate::names::clone_attr(&p.1);
            proof {
                assert(views[idx as int] == (name_view(attributes@[idx as int].0), attr_view(
                    attributes@[idx as int].1,
                )));
                lemma_upsert_unique(map_entries(map), name_view(k), attr_view(v));
            }
            let _ = map_insert(&mut map, k, v);
            proof {
                let t = views.take(idx + 1);
                assert(t.drop_last() =~= views.take(idx as int));
                assert(t.last() == views[idx as int]);
                assert(map_entries(map) == build_entries(views.take(idx + 1)));
            }
            idx = idx + 1;
        }
        proof {
            assert(views.take(attributes@.len() as int) =~= views);
        }
        let class_name = ExpandedName::new("", "class");
        proof {
            reveal_strlit("");
            assert(""@ =~= Seq::<char>::empty());
            assert(name_view(class_name) == class_key());
        }
        let class_cache = match map_get(&map, &class_name) {
            Some(a) => Some(ClassCache::new(a.value.as_str())),
            None => None,
        };
        Attributes { map, class_cache }
    }

    /// The value of the attribute with the given local name in the null
    /// namespace, if present.
    pub fn get<'a>(&'a self, local_name: &str) -> (r: Option<&'a str>)
        ensures
            ({
                let i = key_idx(self.entries(), null_key(local_name@));
                match r {
                    None => i == -1,
                    Some(s) => i != -1 && s@ == self.entries()[i].1.1,
                }
            }),
    {
        let k = ExpandedName::new("", local_name);
        proof {
            reveal_strlit("");
            assert(""@ =~= Seq::<char>::empty());
            assert(name_view(k) == null_key(local_name@));
        }
        match map_get(&self.map, &k) {
            Some(a) => Some(a.value.as_str()),
            None => None,
        }
    }

    /// Whether an attribute with the given local name exists in the null
    /// namespace.
    pub fn contains(&self, local_name: &str) -> (r: bool)
        ensures
            r == (key_idx(self.entries(), null_key(local_name@)) != -1),
    {
        self.get(local_name).is_some()
    }

    /// Insert or replace the attribute with the given local name in the null
    /// namespace, returning the previous attribute, if any. The class index is
    /// rebuilt when the class attribute changes, so the store stays coherent.
    pub fn insert(&mut self, local_name: &str, value: String) -> (r: Option<Attribute>)
        requires
            old(self).wf(),
        ensures
            final(self).wf(),
            final(self).entries() == upsert(
                old(self).entries(),
                null_key(local_name@),
                (None::<Seq<char>>, value@),
            ),
            ({
                let i = key_idx(old(self).entries(), null_key(local_name@));
                if i == -1 {
                    r is None
                } else {
                    match r {
                        Some(a) => attr_view(a) == old(self).entries()[i].1,
                        None => false,
                    }
                }
            }),
    {
        let k = ExpandedName::new("", local_name);
        proof {
            reveal_strlit("");
            assert(""@ =~= Seq::<char>::empty());
            assert(name_view(k) == null_key(local_name@));
            lemma_upsert_unique(
                map_entries(self.map),
                null_key(local_name@),
                (None::<Seq<char>>, value@),
            );
        }
        let ghost es0 = map_entries(self.map);
        let a = Attribute { prefix: None, value };
        let r = map_insert(&mut self.map, k, a);
        if crate::strutil::str_eq(local_name, "class") {
            let class_name = ExpandedName::new("", "class");
            proof {
                assert(name_view(class_name) == class_key());
            }
            let class_cache = match map_get(&self.map, &class_name) {
                Some(att) => Some(ClassCache::new(att.value.as_str())),
                None => None,
            };
            self.class_cache = class_cache;
        } else {
            proof {
                assert(null_key(local_name@) != class_key());
                lemma_upsert_other(
                    es0,
                    null_key(local_name@),
                    (None::<Seq<char>>, value@),
                    class_key(),
                );
                assert(old(self).class_value() == self.class_value());
            }
        }
        r
    }

    /// Remove the attribute with the given local name in the null namespace,
    /// returning it, if any. The last entry takes the removed entry's place;
    /// removing the class attribute drops the class index.
    pub fn remove(&mut self, local_name: &str) -> (r: Option<Attribute>)
        requires
            old(self).wf(),
        ensures
            final(self).wf(),
            key_idx(final(self).entries(), null_key(local_name@)) == -1,
            ({
                let es = old(self).entries();
                let i = key_idx(es, null_key(local_name@));
                if i == -1 {
                    final(self).entries() == es && r is None
                } else {
                    final(self).entries() == es.update(i, es.last()).drop_last() && match r {
                        Some(a) => attr_view(a) == es[i].1,
                        None => false,
                    }
                }
            }),
    {
        let k = ExpandedName::new("", local_name);
        proof {
            reveal_strlit("");
            assert(""@ =~= Seq::<char>::empty());
            assert(name_view(k) == null_key(local_name@));
            lemma_key_idx(map_entries(self.map), null_key(local_name@));
            let i = key_idx(map_entries(self.map), null_key(local_name@));
            if i != -1 {
                lemma_swap_remove(map_entries(self.map), i);
            }
        }
        let r = map_swap_remove(&mut self.map, &k);
        if crate::strutil::str_eq(local_name, "class") {
            self.class_cache = None;
            proof {
                let es = old(self).entries();
                let i = key_idx(es, class_key());
                if i != -1 {
                    assert(es[i].0 == class_key());
                }
            }
        } else {
            proof {
                assert(null_key(local_name@) != class_key());
            }
        }
        r
    }

    /// Scan the class attribute value, if any, for a token equal to `name`
    /// under the policy.
    fn has_class_impl(&self, name: &str, case_sensitivity: CaseSensitivity) -> (r: bool)
        ensures
            r == match self.class_value() {
                None => false,
                Some(v) => token_match(v, name@, case_sensitivity),
            },
    {
        let class_list = match self.get("class") {
            Some(class_list) => class_list,
            None => {
                return false;
            },
        };
        match_tokens(class_list, name, case_sensitivity)
    }

    /// The hot-path class query. A single-token class attribute is compared
    /// directly; a multi-token one is pre-checked against the Bloom filter
    /// under exact comparison, a negative answer settling the query at once,
    /// and is re-scanned token by token otherwise.
    pub fn has_class(&self, name: &str, case_sensitivity: CaseSensitivity) -> (r: bool)
        requires
            self.wf(),
        ensures
            r == self.has_class_spec(name@, case_sensitivity),
    {
        match (&self.class_cache, case_sensitivity) {
            (Some(ClassCache::Single), _) => {
                match self.get("class") {
                    Some(class) => policy_eq_exec(class, name, case_sensitivity),
                    None => {
                        proof {
                            assert(false);
                        }
                        false
                    },
                }
            },
            (Some(ClassCache::Bloom(bloom_filter)), CaseSensitivity::CaseSensitive) => {
                if bloom_check(bloom_filter, name) {
                    self.has_class_impl(name, case_sensitivity)
                } else {
                    proof {
                        let v = self.class_value()->Some_0;
                        assert(!class_tokens(v).to_set().contains(name@));
                        assert forall|i: int|
                            0 <= i < class_tokens(v).len() implies !policy_eq(
                            class_tokens(v)[i],
                            name@,
                            CaseSensitivity::CaseSensitive,
                        ) by {
                            if class_tokens(v)[i] == name@ {
                                assert(class_tokens(v).contains(name@));
                            }
                        }
                    }
                    false
                }
            },
            (Some(ClassCache::Bloom(_)), CaseSensitivity::AsciiCaseInsensitive) => self
                .has_class_impl(name, case_sensitivity),
            (None, _) => self.has_class_impl(name, case_sensitivity),
        }
    }
}

} // verus!
