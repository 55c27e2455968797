//! Containers that playlist data is converted into on its way to a video
//! search: a list of values and a map keyed by owned strings.

use vstd::prelude::*;
use vstd::string::StringExecFns;
use std::collections::HashMap;
use vstd::std_specs::hash::{obeys_key_model, spec_hash_map_iter};
use vstd::std_specs::iter::{IteratorSpec, VerusForLoopWrapper};

verus! {

broadcast use vstd::std_specs::hash::group_hash_axioms;

/// A list of values taken from a map.
#[derive(Debug, Clone, PartialEq)]
pub struct TupleVec<T>(pub Vec<T>);

/// A map with owned keys.
#[derive(Debug, Clone)]
pub struct TupleHash<K, V>(pub HashMap<K, V>);

/// The error of a conversion; the conversions here never return it.
#[derive(Debug, Clone, Copy, PartialEq, Eq)]
pub struct ConversionError;

/// `values` holds the value of each key of `m` once, in the order of `keys`,
/// which lists every key of `m` once.
pub open spec fn values_in_key_order<K, V>(m: Map<K, V>, keys: Seq<K>, values: Seq<V>) -> bool {
    &&& keys.no_duplicates()
    &&& keys.to_set() == m.dom()
    &&& values == keys.map_values(|k: K| m[k])
}

/// Some key of `m` is a string with the text `t`.
pub open spec fn has_key_text<V>(m: Map<String, V>, t: Seq<char>) -> bool {
    exists|s: String| m.contains_key(s) && s@ == t
}

/// Some key of `m` has the text `t`, and its value cast to `u32` is `v`.
pub open spec fn is_entry_of(m: Map<&str, i32>, t: Seq<char>, v: u32) -> bool {
    exists|k: &str| m.contains_key(k) && k@ == t && #[verifier::truncate] (m[k] as u32) == v
}

/// `values` holds the value of each key of `m` once, in some order of the keys.
pub open spec fn values_of_each_key<K, V>(m: Map<K, V>, values: Seq<V>) -> bool {
    exists|keys: Seq<K>| #[trigger] values_in_key_order(m, keys, values)
}

impl TupleVec<i32> {
    /// The values of `inp`, one for each key, in the order in which the map is
    /// walked.
    pub fn try_from(inp: HashMap<&str, i32>) -> (r: Result<TupleVec<i32>, ConversionError>)
        ensures
            r is Ok,
            obeys_key_model::<&str>() ==> values_of_each_key(inp@, r->Ok_0.0@),
    {
        let n = inp.len();
        let mut entries = VerusForLoopWrapper::new(inp.iter(), Ghost(None));
        let ghost all = entries.iter.remaining();
        let mut converted: Vec<i32> = Vec::new();
        let mut i: usize = 0;
        while i < n
            invariant
                i <= n,
                entries.iter.obeys_prophetic_iter_laws(),
                entries.wf(),
                converted@.len() == if i <= all.len() { i as int } else { all.len() as int },
                entries.iter.remaining() == all.skip(converted@.len() as int),
                forall|j: int| 0 <= j < converted@.len() ==> #[trigger] converted@[j] == *all[j].1,
            decreases n - i,
        {
            match entries.next() {
                Some((_key, val)) => converted.push(*val),
                None => {},
            }
            i += 1;
        }
        proof {
            if obeys_key_model::<&str>() {
                assert(all == spec_hash_map_iter(&inp).remaining());
                let keys = all.map_values(|e: (&&str, &i32)| *e.0);
                assert forall|a: int, b: int| 0 <= a < keys.len() && 0 <= b < keys.len() && a != b
                    implies keys[a] != keys[b] by {
                    if keys[a] == keys[b] {
                        assert(inp@[*all[a].0] == *all[a].1);
                        assert(inp@[*all[b].0] == *all[b].1);
                        assert(all[a].0 == all[b].0);
                        assert(all[a].1 == all[b].1);
                        assert(all[a] == all[b]);
                        assert(!all.no_duplicates());
                    }
                }
                assert forall|k: &str| #[trigger] inp@.dom().contains(k) implies keys.to_set().contains(k) by {
                    assert(all.contains((&k, &inp@[k])));
                    let j = choose|j: int| 0 <= j < all.len() && all[j] == (&k, &inp@[k]);
                    assert(keys[j] == k);
                }
                assert(keys.to_set() =~= inp@.dom());
                assert(converted@ =~= keys.map_values(|k: &str| inp@[k]));
                assert(values_in_key_order(inp@, keys, converted@));
                assert(values_of_each_key(inp@, converted@));
            }
        }
        Ok(TupleVec(converted))
    }
}

impl TupleHash<String, u32> {
    /// The entries of `inp`, each key copied into a `String` and each value
    /// cast to `u32` (two's complement: a negative value wraps).
    pub fn try_from(inp: HashMap<&str, i32>) -> (r: Result<TupleHash<String, u32>, ConversionError>)
        ensures
            r is Ok,
            obeys_key_model::<&str>() && obeys_key_model::<String>() ==> {
                &&& forall|k: &str| #[trigger]
                    inp@.contains_key(k) ==> has_key_text(r->Ok_0.0@, k@)
                &&& forall|s: String| #[trigger]
                    r->Ok_0.0@.contains_key(s) ==> is_entry_of(inp@, s@, r->Ok_0.0@[s])
            },
    {
        let n = inp.len();
        let mut entries = VerusForLoopWrapper::new(inp.iter(), Ghost(None));
        let ghost all = entries.iter.remaining();
        let mut converted: HashMap<String, u32> = HashMap::new();
        let mut i: usize = 0;
        let mut taken: usize = 0;
        while i < n
            invariant
                i <= n,
                taken == if i <= all.len() { i as int } else { all.len() as int },
                entries.iter.obeys_prophetic_iter_laws(),
                entries.wf(),
                entries.iter.remaining() == all.skip(taken as int),
                obeys_key_model::<String>() ==> {
                    &&& forall|j: int| 0 <= j < taken ==> has_key_text(converted@, (*(#[trigger] all[j]).0)@)
                    &&& forall|s: String| #[trigger] converted@.contains_key(s) ==> exists|j: int|
                        0 <= j < taken && (*all[j].0)@ == s@ && converted@[s] == #[verifier::truncate] ((*all[j].1) as u32)
                },
            decreases n - i,
        {
            match entries.next() {
                Some((key, val)) => {
                    let k = String::from_str(*key);
                    converted.insert(k, #[verifier::truncate] (*val as u32));
                    taken += 1;
                },
                None => {},
            }
            i += 1;
        }
        proof {
            if obeys_key_model::<&str>() && obeys_key_model::<String>() {
                assert(all == spec_hash_map_iter(&inp).remaining());
                assert(taken == all.len());
                assert forall|k: &str| #[trigger] inp@.contains_key(k) implies has_key_text(
                    converted@,
                    k@,
                ) by {
                    assert(all.contains((&k, &inp@[k])));
                    let j = choose|j: int| 0 <= j < all.len() && all[j] == (&k, &inp@[k]);
                    assert(has_key_text(converted@, (*all[j].0)@));
                }
                assert forall|s: String| #[trigger] converted@.contains_key(s) implies is_entry_of(
                    inp@,
                    s@,
                    converted@[s],
                ) by {
                    let j = choose|j: int|
                        0 <= j < taken && (*all[j].0)@ == s@ && converted@[s]
                            == #[verifier::truncate] ((*all[j].1) as u32);
                    assert(inp@.contains_key(*all[j].0) && inp@[*all[j].0] == *all[j].1);
                }
            }
        }
        Ok(TupleHash(converted))
    }
}

} // verus!
