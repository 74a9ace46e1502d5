//! The tensor directory of one shard of serialized weights.

use vstd::prelude::*;

verus! {

/// `safetensors::SafeTensorError`: why the bytes of a shard could not be read
/// as a tensor container. Carried through as it is.
#[verifier::external_type_specification]
#[verifier::external_body]
pub struct ExSafeTensorError(safetensors::SafeTensorError);

/// One tensor of a shard: its name, how it is stored, and the bytes that hold
/// it. The bytes are borrowed from the shard, so an entry cannot outlive the
/// buffer or mapping it was read from.
#[derive(Debug)]
pub struct TensorEntry<'a> {
    pub name: String,
    pub dtype: safetensors::Dtype,
    pub shape: Vec<usize>,
    pub data: &'a [u8],
}

/// A tensor entry as plain values.
pub ghost struct EntrySpec {
    pub name: Seq<char>,
    pub dtype: safetensors::Dtype,
    pub shape: Seq<usize>,
    pub data: Seq<u8>,
}

impl<'a> View for TensorEntry<'a> {
    type V = EntrySpec;

    open spec fn view(&self) -> EntrySpec {
        EntrySpec { name: self.name@, dtype: self.dtype, shape: self.shape@, data: self.data@ }
    }
}

/// The entries of a shard as plain values, in the order they are held.
pub open spec fn entries_view(entries: Seq<TensorEntry<'_>>) -> Seq<EntrySpec> {
    entries.map_values(|e: TensorEntry<'_>| e@)
}

/// The tensors that the bytes of a shard declare, by name; `None` where the
/// bytes are no well-formed container.
pub uninterp spec fn shard_directory(bytes: Seq<u8>) -> Option<Map<Seq<char>, EntrySpec>>;

/// Whether `listing` holds each tensor of `directory` exactly once, under its
/// own name, in whatever order.
pub open spec fn lists(listing: Seq<EntrySpec>, directory: Map<Seq<char>, EntrySpec>) -> bool {
    &&& forall|i: int, j: int|
        0 <= i < j < listing.len() ==> listing[i].name != listing[j].name
    &&& forall|i: int|
        0 <= i < listing.len() ==> directory.contains_key(#[trigger] listing[i].name)
            && directory[listing[i].name] == listing[i]
    &&& forall|name: Seq<char>| #[trigger]
        directory.contains_key(name) ==> exists|i: int|
            0 <= i < listing.len() && #[trigger] listing[i].name == name
}

/// Reads the tensor directory of a shard with
/// `safetensors::SafeTensors::deserialize` and hands out what
/// `SafeTensors::tensors` lists, each view as a `TensorEntry`.
///
/// Trusted: whether and to what the bytes parse depends on the bytes alone, so
/// the outcome is `shard_directory` of them; the tensors are held in a map
/// keyed by name, so the listing has each of them once, in an order that the
/// map chooses and that may differ from run to run. The crate checks the
/// sizes that the header declares against the length of the bytes before it
/// hands out any view.
#[verifier::external_body]
pub(crate) fn read_directory<'a>(bytes: &'a [u8]) -> (r: Result<
    Vec<TensorEntry<'a>>,
    safetensors::SafeTensorError,
>)
    ensures
        match r {
            Ok(entries) => shard_directory(bytes@) matches Some(directory) && lists(
                entries_view(entries@),
                directory,
            ),
            Err(_) => shard_directory(bytes@) is None,
        },
{
    let shard = safetensors::SafeTensors::deserialize(bytes);
    shard.map(|shard| {
        let tensors = shard.tensors().into_iter();
        tensors.map(|(name, view)| TensorEntry {
            name,
            dtype: view.dtype(),
            shape: view.shape().to_vec(),
            data: view.data(),
        }).collect()
    })
}

} // verus!
