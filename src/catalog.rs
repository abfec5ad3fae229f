use std::sync::Arc;

use indexmap::IndexMap;
use vstd::prelude::*;

verus! {

/// Canonical record of one unique on-disk module.
#[derive(Debug)]
pub struct ModuleInfo {
    pub file_name: String,
    pub time_data_stamp: u32,
}

impl View for ModuleInfo {
    type V = (Seq<char>, u32);

    open spec fn view(&self) -> (Seq<char>, u32) {
        (self.file_name@, self.time_data_stamp)
    }
}

/// A catalog key: the module's path and its build timestamp.
pub type ModuleKey = (Seq<char>, u32);

#[verifier::external_type_specification]
#[verifier::external_body]
#[verifier::reject_recursive_types(K)]
#[verifier::reject_recursive_types(V)]
#[verifier::reject_recursive_types(S)]
pub struct ExIndexMap<K, V, S>(IndexMap<K, V, S>);

/// The entries of the descriptor map, in insertion order: each key with the
/// view of the descriptor stored under it.
pub uninterp spec fn descriptor_entries(
    m: IndexMap<(String, u32), Arc<ModuleInfo>>,
) -> Seq<(ModuleKey, ModuleKey)>;

/// Relies on `IndexMap::new`: a new map holds no entries.
#[verifier::external_body]
fn new_descriptor_map() -> (r: IndexMap<(String, u32), Arc<ModuleInfo>>)
    ensures
        descriptor_entries(r) == Seq::<(ModuleKey, ModuleKey)>::empty(),
{
    IndexMap::new()
}

/// Relies on `IndexMap::get_full`: the position of an equal key and its value,
/// or `None` where no stored key equals it.
#[verifier::external_body]
fn descriptor_get_full(
    m: &IndexMap<(String, u32), Arc<ModuleInfo>>,
    path: &String,
    stamp: u32,
) -> (r: Option<(usize, Arc<ModuleInfo>)>)
    ensures
        match r {
            Some((i, v)) => {
                &&& i < descriptor_entries(*m).len()
                &&& descriptor_entries(*m)[i as int].0 == (path@, stamp)
                &&& descriptor_entries(*m)[i as int].1 == v@
            },
            None => forall|j: int|
                0 <= j < descriptor_entries(*m).len() ==> #[trigger] descriptor_entries(
                    *m,
                )[j].0 != (path@, stamp),
        },
{
    m.get_full(&(path.clone(), stamp)).map(|(i, _, v)| (i, v.clone()))
}

/// Relies on `IndexMap::insert_full`: an equal key keeps its place and gets the
/// new value; otherwise the pair goes last. The position is returned.
#[verifier::external_body]
fn descriptor_insert_full(
    m: &mut IndexMap<(String, u32), Arc<ModuleInfo>>,
    key: (String, u32),
    value: Arc<ModuleInfo>,
) -> (r: usize)
    ensures
        ({
            let old_entries = descriptor_entries(*old(m));
            let k = (key.0@, key.1);
            if exists|j: int| 0 <= j < old_entries.len() && #[trigger] old_entries[j].0 == k {
                &&& r < old_entries.len()
                &&& old_entries[r as int].0 == k
                &&& descriptor_entries(*final(m)) == old_entries.update(r as int, (k, value@))
            } else {
                &&& r == old_entries.len()
                &&& descriptor_entries(*final(m)) == old_entries.push((k, value@))
            }
        }),
{
    m.insert_full(key, value).0
}

/// Relies on `Arc::clone`: the clone points at the same descriptor.
#[verifier::external_body]
fn share_descriptor(a: &Arc<ModuleInfo>) -> (r: Arc<ModuleInfo>)
    ensures
        r@ == a@,
{
    Arc::clone(a)
}

/// No two entries share a key.
pub open spec fn keys_unique(s: Seq<ModuleKey>) -> bool {
    forall|i: int, j: int| 0 <= i < s.len() && 0 <= j < s.len() && i != j ==> s[i] != s[j]
}

/// The position of `key` in `keys`, or the length where it is absent.
pub open spec fn identity_in(keys: Seq<ModuleKey>, key: ModuleKey) -> nat
    decreases keys.len(),
{
    if keys.len() == 0 {
        0
    } else if keys.drop_last().contains(key) {
        identity_in(keys.drop_last(), key)
    } else if keys.last() == key {
        (keys.len() - 1) as nat
    } else {
        keys.len()
    }
}

/// The catalog's keys after one `resolve` of `key`.
pub open spec fn keys_after(keys: Seq<ModuleKey>, key: ModuleKey) -> Seq<ModuleKey> {
    if keys.contains(key) {
        keys
    } else {
        keys.push(key)
    }
}

/// The catalog's keys after resolving each of `ks` in turn.
pub open spec fn keys_after_all(keys: Seq<ModuleKey>, ks: Seq<ModuleKey>) -> Seq<ModuleKey>
    decreases ks.len(),
{
    if ks.len() == 0 {
        keys
    } else {
        keys_after(keys_after_all(keys, ks.drop_last()), ks.last())
    }
}

/// Deduplicating, insertion-ordered store of module descriptors.
pub struct ModuleCatalog {
    map: IndexMap<(String, u32), Arc<ModuleInfo>>,
}

impl ModuleCatalog {
    /// The keys of the catalog, in the order of their identities.
    pub closed spec fn keys(&self) -> Seq<ModuleKey> {
        descriptor_entries(self.map).map_values(|e: (ModuleKey, ModuleKey)| e.0)
    }

    /// Each descriptor is the record of its own key, and keys are unique.
    pub closed spec fn wf(&self) -> bool {
        &&& keys_unique(self.keys())
        &&& forall|i: int|
            0 <= i < descriptor_entries(self.map).len() ==> #[trigger] descriptor_entries(
                self.map,
            )[i].1 == descriptor_entries(self.map)[i].0
    }

    pub fn new() -> (r: Self)
        ensures
            r.wf(),
            r.keys() == Seq::<ModuleKey>::empty(),
    {
        ModuleCatalog { map: new_descriptor_map() }
    }

    /// Returns the identity and the shared descriptor of `(path, stamp)`,
    /// creating the descriptor with the next identity when the key is new.
    pub fn resolve(&mut self, path: String, stamp: u32) -> (r: (usize, Arc<ModuleInfo>))
        requires
            old(self).wf(),
        ensures
            final(self).wf(),
            final(self).keys() == keys_after(old(self).keys(), (path@, stamp)),
            r.0 == identity_in(old(self).keys(), (path@, stamp)),
            r.0 == identity_in(final(self).keys(), (path@, stamp)),
            r.1@ == (path@, stamp),
    {
        proof {
            lemma_identity_in(self.keys(), (path@, stamp));
        }
        match descriptor_get_full(&self.map, &path, stamp) {
            Some((i, v)) => {
                proof {
                    assert(self.keys()[i as int] == (path@, stamp));
                }
                (i, v)
            },
            None => {
                let info = Arc::new(ModuleInfo { file_name: path.clone(), time_data_stamp: stamp });
                let shared = share_descriptor(&info);
                proof {
                    assert forall|j: int| 0 <= j < self.keys().len() implies self.keys()[j] != (
                        path@,
                        stamp,
                    ) by {
                        assert(descriptor_entries(self.map)[j].0 != (path@, stamp));
                    }
                    assert(!self.keys().contains((path@, stamp)));
                }
                let ghost old_keys = self.keys();
                let i = descriptor_insert_full(&mut self.map, (path, stamp), info);
                proof {
                    assert(self.keys() =~= old_keys.push((path@, stamp)));
                    lemma_identity_in(self.keys(), (path@, stamp));
                }
                (i, shared)
            },
        }
    }

    /// The number of descriptors.
    pub fn len(&self) -> (r: usize)
        ensures
            r == self.keys().len(),
    {
        descriptor_len(&self.map)
    }
}

/// Relies on `IndexMap::len`: the number of entries.
#[verifier::external_body]
fn descriptor_len(m: &IndexMap<(String, u32), Arc<ModuleInfo>>) -> (r: usize)
    ensures
        r == descriptor_entries(*m).len(),
{
    m.len()
}

/// Where `keys` holds no duplicate, `identity_in` is the position of a
/// present key and the length for an absent one.
pub proof fn lemma_identity_in(keys: Seq<ModuleKey>, key: ModuleKey)
    requires
        keys_unique(keys),
    ensures
        keys.contains(key) ==> identity_in(keys, key) < keys.len() && keys[identity_in(
            keys,
            key,
        ) as int] == key,
        !keys.contains(key) ==> identity_in(keys, key) == keys.len(),
        forall|i: int| 0 <= i < keys.len() && keys[i] == key ==> identity_in(keys, key) == i,
    decreases keys.len(),
{
    if keys.len() > 0 {
        let front = keys.drop_last();
        assert(keys_unique(front));
        lemma_identity_in(front, key);
        if keys.last() == key {
            assert(!front.contains(key)) by {
                if front.contains(key) {
                    let k = choose|k: int| 0 <= k < front.len() && front[k] == key;
                    assert(keys[k] == keys[keys.len() - 1]);
                }
            }
        } else {
            assert forall|i: int| 0 <= i < keys.len() && keys[i] == key implies i < front.len()
                && front[i] == key by {}
            if keys.contains(key) {
                let k = choose|k: int| 0 <= k < keys.len() && keys[k] == key;
                assert(front[k] == key);
            }
        }
    }
}

proof fn lemma_keys_after(keys: Seq<ModuleKey>, key: ModuleKey)
    requires
        keys_unique(keys),
    ensures
        keys_unique(keys_after(keys, key)),
        keys_after(keys, key).contains(key),
        keys_after(keys, key).len() >= keys.len(),
        keys_after(keys, key).take(keys.len() as int) == keys,
        forall|x: ModuleKey| #[trigger]
            keys_after(keys, key).contains(x) <==> keys.contains(x) || x == key,
        forall|x: ModuleKey|
            keys.contains(x) ==> #[trigger] identity_in(keys_after(keys, key), x) == identity_in(
                keys,
                x,
            ),
{
    let r = keys_after(keys, key);
    assert(r.take(keys.len() as int) =~= keys);
    if !keys.contains(key) {
        assert(r[keys.len() as int] == key);
        assert forall|x: ModuleKey| r.contains(x) implies keys.contains(x) || x == key by {
            let k = choose|k: int| 0 <= k < r.len() && r[k] == x;
            if k < keys.len() {
                assert(keys[k] == x);
            }
        }
        assert forall|x: ModuleKey| keys.contains(x) implies r.contains(x) by {
            let k = choose|k: int| 0 <= k < keys.len() && keys[k] == x;
            assert(r[k] == x);
        }
    }
    assert forall|x: ModuleKey| keys.contains(x) implies #[trigger] identity_in(r, x)
        == identity_in(keys, x) by {
        lemma_identity_in(keys, x);
        lemma_identity_in(r, x);
        let k = identity_in(keys, x) as int;
        assert(r[k] == x);
    }
}

/// Resolving a key is stable: a second `resolve` of the same key leaves the
/// catalog as the first left it and returns the same identity.
pub proof fn lemma_resolve_stable(keys: Seq<ModuleKey>, key: ModuleKey)
    requires
        keys_unique(keys),
    ensures
        keys_after(keys_after(keys, key), key) == keys_after(keys, key),
        identity_in(keys_after(keys, key), key) == identity_in(keys, key),
{
    lemma_keys_after(keys, key);
    lemma_identity_in(keys, key);
    lemma_identity_in(keys_after(keys, key), key);
    if !keys.contains(key) {
        assert(keys_after(keys, key)[keys.len() as int] == key);
    }
}

/// Identities are never reused or duplicated: resolving any keys in turn
/// keeps every earlier entry at its identity, adds no key twice, adds only
/// keys that were resolved, and gives every resolved key an identity.
pub proof fn lemma_identities_stable(keys: Seq<ModuleKey>, ks: Seq<ModuleKey>)
    requires
        keys_unique(keys),
    ensures
        keys_unique(keys_after_all(keys, ks)),
        keys_after_all(keys, ks).len() >= keys.len(),
        keys_after_all(keys, ks).take(keys.len() as int) == keys,
        forall|x: ModuleKey| #[trigger]
            keys_after_all(keys, ks).contains(x) <==> keys.contains(x) || ks.contains(x),
    decreases ks.len(),
{
    if ks.len() > 0 {
        let front = ks.drop_last();
        lemma_identities_stable(keys, front);
        let r = keys_after_all(keys, front);
        lemma_keys_after(r, ks.last());
        assert(keys_after_all(keys, ks).take(keys.len() as int) =~= keys) by {
            assert(keys_after(r, ks.last()).take(r.len() as int).take(keys.len() as int)
                =~= r.take(keys.len() as int));
        }
        assert forall|x: ModuleKey| #[trigger]
            keys_after_all(keys, ks).contains(x) <==> keys.contains(x) || ks.contains(x) by {
            if ks.contains(x) && x != ks.last() {
                let k = choose|k: int| 0 <= k < ks.len() && ks[k] == x;
                assert(front[k] == x);
            }
            if front.contains(x) {
                let k = choose|k: int| 0 <= k < front.len() && front[k] == x;
                assert(ks[k] == x);
            }
        }
    }
}

/// Identities follow first sight: a key seen for the first time after
/// another key gets a larger identity than it.
pub proof fn lemma_first_seen_order(keys: Seq<ModuleKey>, ks: Seq<ModuleKey>, i: int, j: int)
    requires
        keys_unique(keys),
        0 <= i < j < ks.len(),
        !keys.contains(ks[j]),
        !ks.take(j).contains(ks[j]),
    ensures
        identity_in(keys_after_all(keys, ks), ks[i]) < identity_in(keys_after_all(keys, ks), ks[j]),
    decreases ks.len(),
{
    let front = ks.drop_last();
    lemma_identities_stable(keys, front);
    let r = keys_after_all(keys, front);
    lemma_keys_after(r, ks.last());
    if j < ks.len() - 1 {
        assert(front.take(j) =~= ks.take(j));
        lemma_first_seen_order(keys, front, i, j);
        assert(front.contains(ks[i]) && front.contains(ks[j])) by {
            assert(front[i] == ks[i]);
            assert(front[j] == ks[j]);
        }
    } else {
        assert(front =~= ks.take(j));
        assert(!r.contains(ks[j]));
        assert(front[i] == ks[i]);
        lemma_identity_in(r, ks[i]);
        lemma_identity_in(keys_after_all(keys, ks), ks[j]);
        lemma_identity_in(keys_after_all(keys, ks), ks[i]);
    }
}

/// Resolving `n` distinct keys in a fresh catalog yields exactly `n`
/// descriptors, the keys in order, so with `n` distinct identities.
pub proof fn lemma_distinct_keys(ks: Seq<ModuleKey>)
    requires
        keys_unique(ks),
    ensures
        keys_after_all(Seq::empty(), ks) == ks,
        forall|i: int| 0 <= i < ks.len() ==> identity_in(keys_after_all(Seq::empty(), ks), #[trigger] ks[i]) == i,
    decreases ks.len(),
{
    if ks.len() > 0 {
        let front = ks.drop_last();
        assert(keys_unique(front));
        lemma_distinct_keys(front);
        assert(!front.contains(ks.last())) by {
            if front.contains(ks.last()) {
                let k = choose|k: int| 0 <= k < front.len() && front[k] == ks.last();
                assert(ks[k] == ks[ks.len() - 1]);
            }
        }
        assert(keys_after_all(Seq::empty(), ks) =~= ks);
    }
    assert forall|i: int| 0 <= i < ks.len() implies identity_in(keys_after_all(Seq::empty(), ks), #[trigger] ks[i]) == i by {
        lemma_identity_in(ks, ks[i]);
    }
}

} // verus!
