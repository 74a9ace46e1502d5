//! The ordered list of shards that hold the weights of a model.

use vstd::prelude::*;
use vstd::string::*;
use crate::json::{
    json_document, json_member, json_string_values, member, optional_names_view, parse_json,
    string_values,
};
use crate::names::{
    lemma_name_le_antisymmetric, lemma_name_le_total, lemma_name_lt_transitive, name_le_exec,
    name_lt, names_view,
};

verus! {

/// Name of the index document that maps each parameter to its shard.
pub const INDEX_FILE: &'static str = "model.safetensors.index.json";

/// Member of the index document that holds the map from parameters to shards.
pub const WEIGHT_MAP_KEY: &'static str = "weight_map";

/// The single shard of a model that has no index.
pub const DEFAULT_SHARD: &'static str = "model.safetensors";

/// The single shard in the runtime's own layout, preferred where a local
/// repository has it.
pub const RUNTIME_SHARD: &'static str = "model.safetensors-rust";

/// Why the index document does not yield a list of shards.
#[derive(Debug)]
pub enum ManifestError {
    /// The index is no JSON text.
    InvalidIndex(serde_json::Error),
    /// The index has no weight map, or what it has there is no object.
    NoWeightMap,
    /// The entry at `position` of the weight map does not name a shard: it
    /// is no string.
    BadShardName { position: usize },
}

/// `ManifestError` as plain values.
pub ghost enum ManifestFault {
    InvalidIndex,
    NoWeightMap,
    BadShardName { position: int },
}

impl View for ManifestError {
    type V = ManifestFault;

    open spec fn view(&self) -> ManifestFault {
        match *self {
            ManifestError::InvalidIndex(_) => ManifestFault::InvalidIndex,
            ManifestError::NoWeightMap => ManifestFault::NoWeightMap,
            ManifestError::BadShardName { position } => ManifestFault::BadShardName {
                position: position as int,
            },
        }
    }
}

/// Each name sorts strictly before the names behind it, so no name stands
/// twice.
pub open spec fn strictly_sorted(names: Seq<Seq<char>>) -> bool {
    forall|i: int, j: int| 0 <= i < j < names.len() ==> name_lt(names[i], names[j])
}

/// Whether `manifest` is the list of shards for the names that an index
/// refers to: the same names, each once, in sorted order.
pub open spec fn is_manifest_of(manifest: Seq<Seq<char>>, referred: Seq<Seq<char>>) -> bool {
    &&& strictly_sorted(manifest)
    &&& forall|name: Seq<char>| manifest.contains(name) <==> referred.contains(name)
}

/// Whether `position` is the first entry of a weight map that is no string.
pub open spec fn is_first_bad_entry(values: Seq<Option<Seq<char>>>, position: int) -> bool {
    &&& 0 <= position < values.len()
    &&& values[position] is None
    &&& forall|j: int| 0 <= j < position ==> values[j] is Some
}

/// Position of the first entry of a weight map that is no string, if there
/// is one.
pub open spec fn first_bad_entry(values: Seq<Option<Seq<char>>>) -> Option<int> {
    if exists|i: int| is_first_bad_entry(values, i) {
        Some(choose|i: int| is_first_bad_entry(values, i))
    } else {
        None
    }
}

/// The shard names that the values of a weight map stand for, where each of
/// them is a string.
pub open spec fn listed_shards(values: Seq<Option<Seq<char>>>) -> Result<
    Seq<Seq<char>>,
    ManifestFault,
> {
    match first_bad_entry(values) {
        Some(position) => Err(ManifestFault::BadShardName { position }),
        None => Ok(values.map_values(|v: Option<Seq<char>>| v->0)),
    }
}

/// The shard names that an index document refers to, one for each parameter,
/// in the order of the document's weight map.
pub open spec fn referred_shards(index: Seq<u8>) -> Result<Seq<Seq<char>>, ManifestFault> {
    match json_document(index) {
        None => Err(ManifestFault::InvalidIndex),
        Some(document) => match json_member(document, WEIGHT_MAP_KEY@) {
            None => Err(ManifestFault::NoWeightMap),
            Some(map) => match json_string_values(map) {
                None => Err(ManifestFault::NoWeightMap),
                Some(values) => listed_shards(values),
            },
        },
    }
}

/// The one shard of a model without an index.
pub open spec fn fallback_shard(is_local: bool, has_runtime_shard: bool) -> Seq<char> {
    if is_local && has_runtime_shard {
        RUNTIME_SHARD@
    } else {
        DEFAULT_SHARD@
    }
}

/// The name of the single shard of a model without an index: the runtime's
/// own layout where the repository is local and has it, else the default.
pub fn default_shard_name(is_local: bool, has_runtime_shard: bool) -> (name: String)
    ensures
        name@ == fallback_shard(is_local, has_runtime_shard),
{
    if is_local && has_runtime_shard {
        String::from_str(RUNTIME_SHARD)
    } else {
        String::from_str(DEFAULT_SHARD)
    }
}

/// Puts `name` at its place in a sorted list, unless the list has it.
fn insert_name(out: &mut Vec<String>, name: &String)
    requires
        strictly_sorted(names_view(old(out)@)),
    ensures
        strictly_sorted(names_view(final(out)@)),
        forall|x: Seq<char>|
            names_view(final(out)@).contains(x) <==> names_view(old(out)@).contains(x) || x
                == name@,
{
    let ghost before = names_view(out@);
    let mut p: usize = 0;
    while p < out.len()
        invariant
            p <= out@.len(),
            out@ == old(out)@,
            before == names_view(out@),
            strictly_sorted(before),
            forall|j: int| 0 <= j < p ==> name_lt(before[j], name@),
        ensures
            p <= out@.len(),
            out@ == old(out)@,
            forall|j: int| 0 <= j < p ==> name_lt(before[j], name@),
            forall|j: int| p <= j < before.len() ==> name_lt(name@, before[j]),
        decreases out@.len() - p,
    {
        if out[p] == *name {
            assert(before[p as int] == name@);
            assert(before.contains(name@));
            return ;
        }
        if !name_le_exec(out[p].as_str(), name.as_str()) {
            proof {
                lemma_name_le_total(before[p as int], name@);
                assert forall|j: int| p <= j < before.len() implies name_lt(
                    name@,
                    before[j],
                ) by {
                    if j > p {
                        lemma_name_lt_transitive(name@, before[p as int], before[j]);
                    }
                }
            }
            break ;
        }
        p += 1;
    }
    out.insert(p, name.clone());
    let ghost after = names_view(out@);
    assert(after =~= before.insert(p as int, name@));
    assert forall|i: int, j: int| 0 <= i < j < after.len() implies name_lt(after[i], after[j]) by {
        let i0 = if i < p { i } else { i - 1 };
        let j0 = if j < p { j } else { j - 1 };
        if i != p && j != p {
            assert(after[i] == before[i0] && after[j] == before[j0]);
        }
    }
    assert forall|x: Seq<char>| after.contains(x) <==> before.contains(x) || x == name@ by {
        if after.contains(x) {
            let k = choose|k: int| 0 <= k < after.len() && after[k] == x;
            if k != p {
                let k0 = if k < p { k } else { k - 1 };
                assert(before[k0] == x);
            }
        }
        if before.contains(x) {
            let k0 = choose|k: int| 0 <= k < before.len() && before[k] == x;
            let k = if k0 < p { k0 } else { k0 + 1 };
            assert(after[k] == x);
        }
        if x == name@ {
            assert(after[p as int] == x);
        }
    }
}

/// The list of shards for the names that an index refers to: each name once,
/// in sorted order, however often and in whatever order the index has them.
pub fn sorted_distinct(names: &Vec<String>) -> (manifest: Vec<String>)
    ensures
        is_manifest_of(names_view(manifest@), names_view(names@)),
{
    let ghost referred = names_view(names@);
    let mut manifest: Vec<String> = Vec::new();
    let mut i: usize = 0;
    while i < names.len()
        invariant
            i <= names@.len(),
            referred == names_view(names@),
            strictly_sorted(names_view(manifest@)),
            forall|x: Seq<char>|
                names_view(manifest@).contains(x) <==> referred.take(i as int).contains(x),
        decreases names@.len() - i,
    {
        let ghost before = names_view(manifest@);
        insert_name(&mut manifest, &names[i]);
        proof {
            let head = referred.take(i as int);
            let next = referred.take(i + 1);
            assert(next =~= head.push(names@[i as int]@));
            assert forall|x: Seq<char>| next.contains(x) <==> head.contains(x) || x
                == names@[i as int]@ by {
                if next.contains(x) {
                    let k = choose|k: int| 0 <= k < next.len() && next[k] == x;
                    if k < i {
                        assert(head[k] == x);
                    }
                }
                if head.contains(x) {
                    let k = choose|k: int| 0 <= k < head.len() && head[k] == x;
                    assert(next[k] == x);
                }
                if x == names@[i as int]@ {
                    assert(next[i as int] == x);
                }
            }
        }
        i += 1;
    }
    assert(referred.take(i as int) =~= referred);
    manifest
}

/// The shard names that the values of a weight map stand for, in their
/// order; the first value that is no string is an error.
pub fn listed_shard_names(values: &Vec<Option<String>>) -> (r: Result<Vec<String>, ManifestError>)
    ensures
        match listed_shards(optional_names_view(values@)) {
            Ok(names) => r matches Ok(found) && names_view(found@) == names,
            Err(fault) => r matches Err(e) && e@ == fault,
        },
{
    let ghost listed = optional_names_view(values@);
    let mut names: Vec<String> = Vec::new();
    let mut i: usize = 0;
    while i < values.len()
        invariant
            i <= values@.len(),
            listed == optional_names_view(values@),
            forall|j: int| 0 <= j < i ==> listed[j] is Some,
            names_view(names@) =~= listed.take(i as int).map_values(
                |v: Option<Seq<char>>| v->0,
            ),
        decreases values@.len() - i,
    {
        match &values[i] {
            Some(name) => {
                let ghost before = names_view(names@);
                assert(listed[i as int] == Some(name@));
                names.push(name.clone());
                assert(names_view(names@) =~= before.push(name@));
                assert(listed.take(i + 1) =~= listed.take(i as int).push(listed[i as int]));
            },
            None => {
                proof {
                    assert(is_first_bad_entry(listed, i as int));
                    let first = choose|k: int| is_first_bad_entry(listed, k);
                    assert(first == i);
                }
                return Err(ManifestError::BadShardName { position: i });
            },
        }
        i += 1;
    }
    assert(listed.take(i as int) =~= listed);
    assert(first_bad_entry(listed) is None);
    Ok(names)
}

/// Reads out of an index document the shard that it names for each
/// parameter, in the order of its weight map.
pub fn index_shard_names(index: &[u8]) -> (r: Result<Vec<String>, ManifestError>)
    ensures
        match referred_shards(index@) {
            Ok(names) => r matches Ok(found) && names_view(found@) == names,
            Err(fault) => r matches Err(e) && e@ == fault,
        },
{
    let document = match parse_json(index) {
        Ok(document) => document,
        Err(cause) => {
            return Err(ManifestError::InvalidIndex(cause));
        },
    };
    let map = match member(&document, WEIGHT_MAP_KEY) {
        Some(map) => map,
        None => {
            return Err(ManifestError::NoWeightMap);
        },
    };
    match string_values(map) {
        Some(values) => listed_shard_names(&values),
        None => Err(ManifestError::NoWeightMap),
    }
}

/// The ordered list of shards to load. With an index document, the shards
/// that it refers to, each once and sorted by name. Without one, the single
/// shard of the model: the one in the runtime's own layout where the
/// repository is local and has it, else the default one. Whether the
/// repository has that shard matters in this last case only.
pub fn model_filenames(index: Option<&[u8]>, is_local: bool, has_runtime_shard: bool) -> (r:
    Result<Vec<String>, ManifestError>)
    ensures
        match index {
            Some(bytes) => match referred_shards(bytes@) {
                Ok(names) => r matches Ok(manifest) && is_manifest_of(
                    names_view(manifest@),
                    names,
                ),
                Err(fault) => r matches Err(e) && e@ == fault,
            },
            None => r matches Ok(manifest) && names_view(manifest@) == seq![
                fallback_shard(is_local, has_runtime_shard),
            ],
        },
{
    match index {
        Some(bytes) => {
            match index_shard_names(bytes) {
                Ok(names) => Ok(sorted_distinct(&names)),
                Err(e) => Err(e),
            }
        },
        None => {
            let mut manifest: Vec<String> = Vec::new();
            manifest.push(default_shard_name(is_local, has_runtime_shard));
            assert(names_view(manifest@) =~= seq![fallback_shard(is_local, has_runtime_shard)]);
            Ok(manifest)
        },
    }
}

/// The list of shards is fixed by the set of names that the index refers to:
/// neither the order of the index nor a name that it repeats shows in it.
pub proof fn lemma_manifest_unique(a: Seq<Seq<char>>, b: Seq<Seq<char>>, referred: Seq<Seq<char>>)
    requires
        is_manifest_of(a, referred),
        is_manifest_of(b, referred),
    ensures
        a == b,
{
    lemma_sorted_same_names(a, b);
}

proof fn lemma_sorted_same_names(a: Seq<Seq<char>>, b: Seq<Seq<char>>)
    requires
        strictly_sorted(a),
        strictly_sorted(b),
        forall|x: Seq<char>| a.contains(x) <==> b.contains(x),
    ensures
        a == b,
    decreases a.len(),
{
    if a.len() == 0 {
        if b.len() > 0 {
            assert(b.contains(b[0]));
        }
        assert(a =~= b);
    } else {
        assert(a.contains(a[0]));
        let k = choose|k: int| 0 <= k < b.len() && b[k] == a[0];
        assert(b.contains(b[0]));
        let m = choose|m: int| 0 <= m < a.len() && a[m] == b[0];
        if k > 0 {
            assert(name_lt(b[0], b[k]));
            if m > 0 {
                assert(name_lt(a[0], a[m]));
            }
            lemma_name_le_antisymmetric(a[0], b[0]);
        }
        assert(a[0] == b[0]);
        let a1 = a.drop_first();
        let b1 = b.drop_first();
        assert forall|i: int, j: int| 0 <= i < j < a1.len() implies name_lt(a1[i], a1[j]) by {
            assert(a1[i] == a[i + 1] && a1[j] == a[j + 1]);
        }
        assert forall|i: int, j: int| 0 <= i < j < b1.len() implies name_lt(b1[i], b1[j]) by {
            assert(b1[i] == b[i + 1] && b1[j] == b[j + 1]);
        }
        assert forall|x: Seq<char>| a1.contains(x) <==> b1.contains(x) by {
            if a1.contains(x) {
                let i = choose|i: int| 0 <= i < a1.len() && a1[i] == x;
                assert(a[i + 1] == x);
                assert(name_lt(a[0], a[i + 1]));
                assert(a.contains(x));
                let j = choose|j: int| 0 <= j < b.len() && b[j] == x;
                assert(b1[j - 1] == x);
            }
            if b1.contains(x) {
                let i = choose|i: int| 0 <= i < b1.len() && b1[i] == x;
                assert(b[i + 1] == x);
                assert(name_lt(b[0], b[i + 1]));
                assert(b.contains(x));
                let j = choose|j: int| 0 <= j < a.len() && a[j] == x;
                assert(a1[j - 1] == x);
            }
        }
        lemma_sorted_same_names(a1, b1);
        assert(a =~= seq![a[0]] + a1);
        assert(b =~= seq![b[0]] + b1);
    }
}

} // verus!
