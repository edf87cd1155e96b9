//! The renames that pass between the plugin and its worker, as JSON.

use std::collections::BTreeMap;
use vstd::prelude::*;
use crate::manifest::text_map;
use crate::parent_seek::opt_text;
use vstd::std_specs::btree::{increasing_seq, spec_btree_map_iter};
use vstd::std_specs::iter::IteratorSpec;
use vstd::laws_cmp::obeys_cmp;
use vstd::std_specs::cmp::OrdSpec;

verus! {

/// The entries of `m` listed by ascending key.
pub open spec fn lists_map(v: Seq<(u64, String)>, m: Map<u64, Seq<char>>) -> bool {
    &&& forall|i: int, j: int| 0 <= i < j < v.len() ==> (#[trigger] v[i]).0 < (#[trigger] v[j]).0
    &&& forall|i: int| 0 <= i < v.len() ==> m.contains_key((#[trigger] v[i]).0) && m[v[i].0] == v[i].1@
    &&& forall|k: u64| #[trigger] m.contains_key(k) ==> exists|i: int| 0 <= i < v.len() && (#[trigger] v[i]).0 == k
}

/// The entries of `m`, by ascending key.
pub fn sorted_entries(m: &BTreeMap<u64, String>) -> (r: Vec<(u64, String)>)
    ensures
        lists_map(r@, text_map(m@)),
{
    let mut r: Vec<(u64, String)> = Vec::new();
    let ghost s = spec_btree_map_iter(m).remaining();
    proof {
        assert(s.len() == m@.dom().len());
    }
    for kv in it: m.iter()
        invariant
            it.seq() == s,
            r@.len() == it.index(),
            forall|j: int| 0 <= j < it.index() ==> (#[trigger] r@[j]).0 == *s[j].0 && r@[j].1 == *s[j].1,
    {
        let (k, v) = kv;
        r.push((*k, v.clone()));
    }
    proof {
        let keys = s.map_values(|kv: (&u64, &String)| *kv.0);
        assert(increasing_seq(keys));
        assert(obeys_cmp::<u64>());
        assert forall|i: int, j: int| 0 <= i < j < r@.len() implies (#[trigger] r@[i]).0 < (#[trigger] r@[j]).0 by {
            assert(keys[i].cmp_spec(&keys[j]) is Less);
            assert(keys[i] == r@[i].0);
            assert(keys[j] == r@[j].0);
        }
        assert forall|i: int| 0 <= i < r@.len() implies text_map(m@).contains_key((#[trigger] r@[i]).0) && text_map(m@)[r@[i].0] == r@[i].1@ by {
            assert(m@.contains_key(*s[i].0));
            assert(m@[*s[i].0] == *s[i].1);
        }
        assert forall|k: u64| #[trigger] text_map(m@).contains_key(k) implies exists|i: int| 0 <= i < r@.len() && (#[trigger] r@[i]).0 == k by {
            assert(m@.contains_key(k));
            assert(s.contains((&k, &m@[k])));
            let i = choose|i: int| 0 <= i < s.len() && s[i] == (&k, &m@[k]);
            assert(r@[i].0 == k);
        }
    }
    r
}

/// What `serde_json::from_str::<(u64, String)>` reads from a text.
pub uninterp spec fn json_rename_pair(text: Seq<char>) -> Option<(u64, Seq<char>)>;

/// What `serde_json::to_string` writes for a pair of a tab id and a name.
pub uninterp spec fn json_of_rename(tab_id: u64, name: Seq<char>) -> Option<Seq<char>>;

/// What `serde_json::to_string` writes for a map from tab ids to names.
pub uninterp spec fn json_of_renames(renames: Map<u64, Seq<char>>) -> Option<Seq<char>>;

/// What `serde_json::from_str::<BTreeMap<u64, String>>` reads from a text.
pub uninterp spec fn json_renames(text: Seq<char>) -> Option<Map<u64, Seq<char>>>;

/// `serde_json::from_str::<(u64, String)>`: a JSON array of a number and a
/// string, or nothing when the text is not one. The result is a function of
/// the text, named `json_rename_pair`; the JSON grammar is not restated.
#[verifier::external_body]
fn parse_rename_pair(payload: &str) -> (r: Option<(u64, String)>)
    ensures
        match r {
            Some(p) => json_rename_pair(payload@) == Some((p.0, p.1@)),
            None => json_rename_pair(payload@) is None,
        },
{
    serde_json::from_str::<(u64, String)>(payload).ok()
}

/// `serde_json::to_string` of a `(tab id, name)` pair. The text is a
/// function of the pair, named `json_of_rename`; its exact form is not
/// restated. Writing such a pair never fails (neither part can refuse to be
/// serialized), and `serde_json::from_str::<(u64, String)>` reads the pair
/// back from it (strings are escaped and unescaped, the number is written
/// in full).
#[verifier::external_body]
fn rename_json(tab_id: u64, name: &String) -> (r: Option<String>)
    ensures
        opt_text(r) == json_of_rename(tab_id, name@),
        r is Some,
        r matches Some(t) ==> json_rename_pair(t@) == Some((tab_id, name@)),
{
    serde_json::to_string(&(tab_id, name)).ok()
}

/// `serde_json::to_string` of a map from tab ids to names. The text is a
/// function of the map's entries, named `json_of_renames`; its exact form
/// is not restated. Writing such a map never fails (integer keys are
/// written as JSON strings), and
/// `serde_json::from_str::<BTreeMap<u64, String>>` reads the same entries
/// back from it.
#[verifier::external_body]
fn renames_json(renames: &BTreeMap<u64, String>) -> (r: Option<String>)
    ensures
        opt_text(r) == json_of_renames(text_map(renames@)),
        r is Some,
        r matches Some(t) ==> json_renames(t@) == Some(text_map(renames@)),
{
    serde_json::to_string(renames).ok()
}

/// `serde_json::from_str::<BTreeMap<u64, String>>`: a JSON object from
/// tab ids to names, or nothing when the text is not one. The result is a
/// function of the text, named `json_renames`.
#[verifier::external_body]
fn parse_renames(payload: &str) -> (r: Option<BTreeMap<u64, String>>)
    ensures
        match r {
            Some(m) => json_renames(payload@) == Some(text_map(m@)),
            None => json_renames(payload@) is None,
        },
{
    serde_json::from_str::<BTreeMap<u64, String>>(payload).ok()
}

/// The text of a `None` as the empty text, as `unwrap_or_default` gives it.
pub open spec fn text_or_empty(o: Option<Seq<char>>) -> Seq<char> {
    match o {
        Some(t) => t,
        None => seq![],
    }
}

/// A rename as the worker's queue reads it: the JSON of the pair, from
/// which the pair is read back.
pub fn rename_payload(tab_id: u64, name: &String) -> (r: String)
    ensures
        r@ == text_or_empty(json_of_rename(tab_id, name@)),
        json_of_rename(tab_id, name@) == Some(r@),
        json_rename_pair(r@) == Some((tab_id, name@)),
{
    match rename_json(tab_id, name) {
        Some(t) => t,
        None => String::new(),
    }
}

/// The renames as the plugin reads them back from the worker: the JSON of
/// the map, from which the same renames are read back.
pub fn renames_payload(renames: &BTreeMap<u64, String>) -> (r: String)
    ensures
        r@ == text_or_empty(json_of_renames(text_map(renames@))),
        json_of_renames(text_map(renames@)) == Some(r@),
        json_renames(r@) == Some(text_map(renames@)),
{
    match renames_json(renames) {
        Some(t) => t,
        None => String::new(),
    }
}

/// A queued rename read from its JSON text, if it is one.
pub fn read_rename(payload: &str) -> (r: Option<(u64, String)>)
    ensures
        match r {
            Some(p) => json_rename_pair(payload@) == Some((p.0, p.1@)),
            None => json_rename_pair(payload@) is None,
        },
{
    parse_rename_pair(payload)
}

/// The renames to carry out, by ascending tab id, read from the worker's
/// JSON text; none when the text is not such a map.
pub fn pending_renames_from_payload(payload: &str) -> (r: Vec<(u64, String)>)
    ensures
        match json_renames(payload@) {
            Some(m) => lists_map(r@, m),
            None => r@.len() == 0,
        },
{
    match parse_renames(payload) {
        Some(m) => sorted_entries(&m),
        None => Vec::new(),
    }
}

} // verus!
