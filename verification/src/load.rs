//! Filling the parameter table from the tensors of one shard after another.

use vstd::prelude::*;
use vstd::slice::slice_to_vec;
use crate::dtype::{dtype_kind, Kind};
use crate::names::names_view;
use crate::shard::{entries_view, lists, read_directory, shard_directory, EntrySpec, TensorEntry};
use crate::table::{
    declares, element_count, lemma_remove_slot, lemma_slot_index, slot_index, slot_names,
    table_after, table_wf, verdict, ParameterTable, Reconciliation, SlotSpec, Verdict,
    DERIVABLE_SUFFIX,
};

verus! {

/// One copy that the caller owes the model: the bytes of a stored tensor,
/// read as `source`, go into the slot called `name`, converted to `target`
/// while they are copied. The bytes are borrowed from the shard.
#[derive(Debug)]
pub struct CopyOp<'a> {
    pub name: String,
    pub source: Kind,
    pub target: Kind,
    pub shape: Vec<usize>,
    pub data: &'a [u8],
}

/// A copy as plain values.
pub ghost struct CopySpec {
    pub name: Seq<char>,
    pub source: Kind,
    pub target: Kind,
    pub shape: Seq<usize>,
    pub data: Seq<u8>,
}

impl<'a> View for CopyOp<'a> {
    type V = CopySpec;

    open spec fn view(&self) -> CopySpec {
        CopySpec {
            name: self.name@,
            source: self.source,
            target: self.target,
            shape: self.shape@,
            data: self.data@,
        }
    }
}

/// A list of copies as plain values.
pub open spec fn copies_view(copies: Seq<CopyOp<'_>>) -> Seq<CopySpec> {
    copies.map_values(|op: CopyOp<'_>| op@)
}

/// What one shard contributes: the copies to make, in the order in which the
/// tensors were met, and the names of the stored tensors that no slot asked
/// for and that deserve a warning.
#[derive(Debug)]
pub struct ShardOutcome<'a> {
    pub copies: Vec<CopyOp<'a>>,
    pub unknown: Vec<String>,
}

/// Why a set of weights cannot be loaded. Each of these ends the whole load.
#[derive(Debug)]
pub enum LoadError {
    /// The bytes of a shard are no well-formed tensor container.
    Format(safetensors::SafeTensorError),
    /// A tensor that a slot is waiting for is stored as a numeric kind that
    /// the runtime does not have.
    UnsupportedDtype { name: String, dtype: safetensors::Dtype },
    /// A tensor holds another number of elements than the slot it is for.
    ShapeMismatch { name: String, expected: Vec<usize>, found: Vec<usize> },
    /// No shard held a tensor for these slots.
    MissingParameters { names: Vec<String> },
}

/// `LoadError` as plain values.
pub ghost enum Fault {
    Format,
    UnsupportedDtype { name: Seq<char>, dtype: safetensors::Dtype },
    ShapeMismatch { name: Seq<char>, expected: Seq<usize>, found: Seq<usize> },
    MissingParameters { names: Seq<Seq<char>> },
}

impl View for LoadError {
    type V = Fault;

    open spec fn view(&self) -> Fault {
        match *self {
            LoadError::Format(_) => Fault::Format,
            LoadError::UnsupportedDtype { name, dtype } => Fault::UnsupportedDtype {
                name: name@,
                dtype,
            },
            LoadError::ShapeMismatch { name, expected, found } => Fault::ShapeMismatch {
                name: name@,
                expected: expected@,
                found: found@,
            },
            LoadError::MissingParameters { names } => Fault::MissingParameters {
                names: names_view(names@),
            },
        }
    }
}

/// How far a load has come: the slots still waiting, the copies and warnings
/// gathered, and the fault that stopped it, if one did.
pub ghost struct Progress {
    pub table: Seq<SlotSpec>,
    pub copies: Seq<CopySpec>,
    pub unknown: Seq<Seq<char>>,
    pub fault: Option<Fault>,
}

/// A load that has met no tensor yet.
pub open spec fn start(table: Seq<SlotSpec>) -> Progress {
    Progress { table, copies: Seq::empty(), unknown: Seq::empty(), fault: None }
}

/// The load after one more tensor.
pub open spec fn step(p: Progress, e: EntrySpec, target: Kind) -> Progress {
    match verdict(p.table, e) {
        Verdict::Fill { source } => Progress {
            table: table_after(p.table, e),
            copies: p.copies.push(
                CopySpec { name: e.name, source, target, shape: e.shape, data: e.data },
            ),
            ..p
        },
        Verdict::SkipDerivable => p,
        Verdict::SkipUnknown => Progress { unknown: p.unknown.push(e.name), ..p },
        Verdict::UnsupportedDtype => Progress {
            fault: Some(Fault::UnsupportedDtype { name: e.name, dtype: e.dtype }),
            ..p
        },
        Verdict::ShapeMismatch { expected } => Progress {
            fault: Some(Fault::ShapeMismatch { name: e.name, expected, found: e.shape }),
            ..p
        },
    }
}

/// The load after the tensors `es`, met in that order. The first fault ends
/// it: the tensors behind it are not looked at.
pub open spec fn replay(p: Progress, es: Seq<EntrySpec>, target: Kind) -> Progress
    decreases es.len(),
{
    if es.len() == 0 || p.fault is Some {
        p
    } else {
        replay(step(p, es[0], target), es.drop_first(), target)
    }
}

/// Whether `r`, with the table left as `table`, is what a caller gets of a
/// load that ended as `end`.
pub open spec fn reports(r: Result<ShardOutcome<'_>, LoadError>, table: Seq<SlotSpec>, end: Progress) -> bool {
    &&& table == end.table
    &&& match r {
        Ok(outcome) => {
            &&& end.fault is None
            &&& copies_view(outcome.copies@) == end.copies
            &&& names_view(outcome.unknown@) == end.unknown
        },
        Err(e) => end.fault == Some(e@),
    }
}

/// Holds the tensors of one shard against the table, in the order given.
/// Each slot that finds its tensor leaves the table and is owed a copy. The
/// first tensor that a slot waits for but that does not fit it ends the
/// load; the table then holds what it held when that tensor came up.
pub fn apply_entries<'a>(table: &mut ParameterTable, entries: &[TensorEntry<'a>]) -> (r: Result<
    ShardOutcome<'a>,
    LoadError,
>)
    requires
        old(table).wf(),
    ensures
        final(table).wf(),
        final(table).target_kind() == old(table).target_kind(),
        reports(
            r,
            final(table)@,
            replay(start(old(table)@), entries_view(entries@), old(table).target_kind()),
        ),
{
    let target = table.kind();
    let ghost es = entries_view(entries@);
    let ghost mut p = start(table@);
    let mut copies: Vec<CopyOp<'a>> = Vec::new();
    let mut unknown: Vec<String> = Vec::new();
    let mut i: usize = 0;
    assert(es.skip(0) =~= es);
    assert(copies_view(copies@) =~= p.copies);
    assert(names_view(unknown@) =~= p.unknown);
    while i < entries.len()
        invariant
            i <= entries@.len(),
            es == entries_view(entries@),
            table.wf(),
            table.target_kind() == target,
            target == old(table).target_kind(),
            p.table == table@,
            p.fault is None,
            copies_view(copies@) == p.copies,
            names_view(unknown@) == p.unknown,
            replay(p, es.skip(i as int), target) == replay(
                start(old(table)@),
                es,
                target,
            ),
        decreases entries@.len() - i,
    {
        let entry = &entries[i];
        let ghost rest = es.skip(i as int);
        assert(rest[0] == entry@);
        assert(rest.drop_first() =~= es.skip(i + 1));
        let ghost next = step(p, entry@, target);
        match table.reconcile(entry) {
            Reconciliation::Fill { source } => {
                let ghost before = copies@;
                let op = CopyOp {
                    name: entry.name.clone(),
                    source,
                    target,
                    shape: slice_to_vec(entry.shape.as_slice()),
                    data: entry.data,
                };
                copies.push(op);
                assert(copies_view(copies@) =~= copies_view(before).push(op@));
            },
            Reconciliation::SkipDerivable => {},
            Reconciliation::SkipUnknown => {
                let ghost before = unknown@;
                let name = entry.name.clone();
                unknown.push(name);
                assert(names_view(unknown@) =~= names_view(before).push(name@));
            },
            Reconciliation::UnsupportedDtype => {
                assert(replay(next, es.skip(i + 1), target) == next);
                return Err(
                    LoadError::UnsupportedDtype { name: entry.name.clone(), dtype: entry.dtype },
                );
            },
            Reconciliation::ShapeMismatch { expected } => {
                assert(replay(next, es.skip(i + 1), target) == next);
                return Err(
                    LoadError::ShapeMismatch {
                        name: entry.name.clone(),
                        expected,
                        found: slice_to_vec(entry.shape.as_slice()),
                    },
                );
            },
        }
        proof {
            p = next;
        }
        i += 1;
    }
    Ok(ShardOutcome { copies, unknown })
}

/// Reads the tensor directory of a shard and holds its tensors against the
/// table. The directory lists its tensors in no fixed order, so the copies
/// come in an order, and of several faults that one is reported, which the
/// listing decides.
pub fn load_shard<'a>(table: &mut ParameterTable, bytes: &'a [u8]) -> (r: Result<
    ShardOutcome<'a>,
    LoadError,
>)
    requires
        old(table).wf(),
    ensures
        final(table).wf(),
        final(table).target_kind() == old(table).target_kind(),
        match shard_directory(bytes@) {
            None => r matches Err(e) && e@ == Fault::Format && final(table)@ == old(table)@,
            Some(directory) => exists|listing: Seq<EntrySpec>| #[trigger]
                lists(listing, directory) && reports(
                    r,
                    final(table)@,
                    replay(start(old(table)@), listing, old(table).target_kind()),
                ),
        },
{
    match read_directory(bytes) {
        Err(cause) => Err(LoadError::Format(cause)),
        Ok(entries) => {
            let r = apply_entries(table, entries.as_slice());
            assert(lists(entries_view(entries@), shard_directory(bytes@)->0));
            r
        },
    }
}

/// Closes a load: every slot must have found its tensor. The slots that have
/// not are named, in the order in which the model declared them.
pub fn finish(table: &ParameterTable) -> (r: Result<(), LoadError>)
    ensures
        match r {
            Ok(()) => table@.len() == 0,
            Err(e) => table@.len() > 0 && e@ == (Fault::MissingParameters {
                names: slot_names(table@),
            }),
        },
{
    if table.is_empty() {
        Ok(())
    } else {
        Err(LoadError::MissingParameters { names: table.missing() })
    }
}

/// The tensors of several shards in one run, shard after shard.
pub open spec fn all_entries(listings: Seq<Seq<EntrySpec>>) -> Seq<EntrySpec>
    decreases listings.len(),
{
    if listings.len() == 0 {
        Seq::empty()
    } else {
        all_entries(listings.drop_last()) + listings.last()
    }
}

/// Several shards as plain values.
pub open spec fn shards_view(shards: Seq<&[u8]>) -> Seq<Seq<u8>> {
    shards.map_values(|bytes: &[u8]| bytes@)
}

/// Whether the bytes of a shard are a well-formed container whose directory
/// `listing` lists.
pub open spec fn lists_shard(listing: Seq<EntrySpec>, bytes: Seq<u8>) -> bool {
    shard_directory(bytes) is Some && lists(listing, shard_directory(bytes)->0)
}

/// Whether `listings` has, for each of the first shards of `shards`, a
/// listing of its directory.
pub open spec fn list_shards(listings: Seq<Seq<EntrySpec>>, shards: Seq<Seq<u8>>) -> bool {
    &&& listings.len() <= shards.len()
    &&& forall|k: int| 0 <= k < listings.len() ==> #[trigger] lists_shard(listings[k], shards[k])
}

/// Whether `r`, with the table left as `table`, is what a caller gets of
/// loading `shards`, where the shards that were read listed their tensors as
/// `listings` and the run over these tensors ended as `end`: the fault of
/// the run if it met one; else the shard whose bytes could not be read, if
/// the listings stop before it; else the slots that are left, if any are;
/// else the copies and warnings gathered.
pub open spec fn model_loaded(
    r: Result<ShardOutcome<'_>, LoadError>,
    table: Seq<SlotSpec>,
    shards: Seq<Seq<u8>>,
    listings: Seq<Seq<EntrySpec>>,
    end: Progress,
) -> bool {
    &&& table == end.table
    &&& if end.fault is Some {
        r matches Err(e) && end.fault == Some(e@)
    } else if listings.len() < shards.len() {
        shard_directory(shards[listings.len() as int]) is None && (r matches Err(e) && e@
            == Fault::Format)
    } else if end.table.len() > 0 {
        r matches Err(e) && e@ == (Fault::MissingParameters { names: slot_names(end.table) })
    } else {
        r matches Ok(outcome) && copies_view(outcome.copies@) == end.copies && names_view(
            outcome.unknown@,
        ) == end.unknown
    }
}

/// Loads the weights of a model from its shards, in the order given. Each
/// shard is read and its tensors are held against the table; the first
/// shard that cannot be read, or the first tensor that does not fit the slot
/// that waits for it, ends the load. Once every shard is through, each slot
/// must have found its tensor. The outcome holds the copies to make, shard
/// after shard.
pub fn load_model<'a>(table: &mut ParameterTable, shards: &[&'a [u8]]) -> (r: Result<
    ShardOutcome<'a>,
    LoadError,
>)
    requires
        old(table).wf(),
    ensures
        final(table).wf(),
        final(table).target_kind() == old(table).target_kind(),
        exists|listings: Seq<Seq<EntrySpec>>| #[trigger]
            list_shards(listings, shards_view(shards@)) && model_loaded(
                r,
                final(table)@,
                shards_view(shards@),
                listings,
                replay(start(old(table)@), all_entries(listings), old(table).target_kind()),
            ),
{
    let ghost target = table.target_kind();
    let ghost origin = table@;
    let ghost all = shards_view(shards@);
    let ghost mut listings: Seq<Seq<EntrySpec>> = Seq::empty();
    let mut copies: Vec<CopyOp<'a>> = Vec::new();
    let mut unknown: Vec<String> = Vec::new();
    let mut i: usize = 0;
    assert(copies_view(copies@) =~= Seq::<CopySpec>::empty());
    assert(names_view(unknown@) =~= Seq::<Seq<char>>::empty());
    while i < shards.len()
        invariant
            i <= shards@.len(),
            all == shards_view(shards@),
            origin == old(table)@,
            target == old(table).target_kind(),
            table.wf(),
            table.target_kind() == target,
            listings.len() == i,
            list_shards(listings, all),
            replay(start(origin), all_entries(listings), target).fault is None,
            replay(start(origin), all_entries(listings), target).table == table@,
            replay(start(origin), all_entries(listings), target).copies == copies_view(copies@),
            replay(start(origin), all_entries(listings), target).unknown == names_view(unknown@),
        decreases shards@.len() - i,
    {
        let ghost before = table@;
        let ghost so_far = all_entries(listings);
        let loaded = load_shard(table, shards[i]);
        proof {
            assert(all[i as int] == shards@[i as int]@);
            if shard_directory(all[i as int]) is Some {
                let directory = shard_directory(all[i as int])->0;
                let listing = choose|listing: Seq<EntrySpec>| #[trigger]
                    lists(listing, directory) && reports(
                        loaded,
                        table@,
                        replay(start(before), listing, target),
                    );
                let extended = listings.push(listing);
                assert(extended.drop_last() =~= listings);
                assert(all_entries(extended) == so_far + listing);
                lemma_replay_shards(origin, so_far, listing, target);
                assert forall|k: int| 0 <= k < extended.len() implies #[trigger] lists_shard(
                    extended[k],
                    all[k],
                ) by {
                    if k < i {
                        assert(lists_shard(listings[k], all[k]));
                    } else {
                        assert(extended[k] == listing);
                        assert(lists(listing, directory));
                    }
                }
                assert(list_shards(extended, all));
                listings = extended;
            }
            assert(list_shards(listings, all));
        }
        match loaded {
            Err(e) => {
                assert(list_shards(listings, all));
                assert(model_loaded(
                    Err::<ShardOutcome<'a>, LoadError>(e),
                    table@,
                    all,
                    listings,
                    replay(start(origin), all_entries(listings), target),
                ));
                return Err(e);
            },
            Ok(outcome) => {
                let mut outcome = outcome;
                let ghost copies_before = copies@;
                let ghost unknown_before = unknown@;
                let ghost added = outcome;
                copies.append(&mut outcome.copies);
                unknown.append(&mut outcome.unknown);
                assert(copies_view(copies@) =~= copies_view(copies_before) + copies_view(
                    added.copies@,
                ));
                assert(names_view(unknown@) =~= names_view(unknown_before) + names_view(
                    added.unknown@,
                ));
            },
        }
        i += 1;
    }
    match finish(table) {
        Ok(()) => Ok(ShardOutcome { copies, unknown }),
        Err(e) => Err(e),
    }
}

/// Whether some tensor of `es` is called `name`.
pub open spec fn occurs(es: Seq<EntrySpec>, name: Seq<char>) -> bool {
    exists|k: int| 0 <= k < es.len() && #[trigger] es[k].name == name
}

/// Whether tensor `e` can fill `slot`: the runtime has a kind for the way it
/// is stored, and it has as many elements as the slot.
pub open spec fn fits(e: EntrySpec, slot: SlotSpec) -> bool {
    dtype_kind(e.dtype) is Some && element_count(e.shape) == element_count(slot.shape)
}

/// Whether every tensor of `es` that a slot of `t` waits for fits that slot.
pub open spec fn all_fit(t: Seq<SlotSpec>, es: Seq<EntrySpec>) -> bool {
    forall|k: int|
        0 <= k < es.len() && declares(t, (#[trigger] es[k]).name) ==> fits(
            es[k],
            t[slot_index(t, es[k].name)],
        )
}

/// A load in which every tensor fits the slot that waits for it meets no
/// fault, and leaves in the table exactly the slots for which no tensor came,
/// each as it was declared.
pub proof fn lemma_replay_fitting(p: Progress, es: Seq<EntrySpec>, target: Kind)
    requires
        table_wf(p.table),
        p.fault is None,
        all_fit(p.table, es),
    ensures
        replay(p, es, target).fault is None,
        table_wf(replay(p, es, target).table),
        forall|name: Seq<char>| #[trigger]
            declares(replay(p, es, target).table, name) <==> declares(p.table, name) && !occurs(
                es,
                name,
            ),
        forall|name: Seq<char>|
            declares(replay(p, es, target).table, name) ==> replay(p, es, target).table[
                #[trigger] slot_index(replay(p, es, target).table, name)] == p.table[
                slot_index(p.table, name)],
    decreases es.len(),
{
    let end = replay(p, es, target);
    if es.len() == 0 {
        assert forall|name: Seq<char>| !occurs(es, name) by {}
    } else {
        let e = es[0];
        let rest = es.drop_first();
        let next = step(p, e, target);
        if declares(p.table, e.name) {
            let i = slot_index(p.table, e.name);
            assert(fits(es[0], p.table[i]));
            lemma_remove_slot(p.table, i);
            assert(next.table == p.table.remove(i));
        } else {
            assert(next.table == p.table);
        }
        assert(all_fit(next.table, rest)) by {
            assert forall|k: int|
                0 <= k < rest.len() && declares(next.table, (#[trigger] rest[k]).name) implies fits(
                rest[k],
                next.table[slot_index(next.table, rest[k].name)],
            ) by {
                assert(rest[k] == es[k + 1]);
            }
        }
        lemma_replay_fitting(next, rest, target);
        assert(end == replay(next, rest, target));
        assert forall|name: Seq<char>| name != e.name implies (occurs(es, name) <==> occurs(
            rest,
            name,
        )) by {
            if occurs(es, name) {
                let k = choose|k: int| 0 <= k < es.len() && #[trigger] es[k].name == name;
                assert(rest[k - 1].name == name);
            }
            if occurs(rest, name) {
                let k = choose|k: int| 0 <= k < rest.len() && #[trigger] rest[k].name == name;
                assert(es[k + 1].name == name);
            }
        }
        assert(occurs(es, e.name)) by {
            assert(es[0].name == e.name);
        }
        assert forall|name: Seq<char>| #[trigger]
            declares(end.table, name) <==> declares(p.table, name) && !occurs(es, name) by {
            if name != e.name {
                assert(declares(next.table, name) <==> declares(p.table, name));
            }
        }
        assert forall|name: Seq<char>| declares(end.table, name) implies end.table[
            #[trigger] slot_index(end.table, name)] == p.table[slot_index(p.table, name)] by {
            assert(declares(next.table, name));
            assert(name != e.name);
        }
    }
}

/// A tensor whose name marks a derivable buffer, and that no slot waits for,
/// leaves no trace: no copy, no warning, no fault, and the table as it was.
pub proof fn lemma_derivable_buffer_is_silent(p: Progress, e: EntrySpec, target: Kind)
    requires
        !declares(p.table, e.name),
        DERIVABLE_SUFFIX@.is_suffix_of(e.name),
    ensures
        step(p, e, target) == p,
{
}

/// A tensor that holds another number of elements than the slot that waits
/// for it ends the load. The fault names the tensor with both shapes, the
/// slot's and its own; the slot stays in the table, and no tensor behind it
/// changes anything.
pub proof fn lemma_mismatch_is_reported(
    p: Progress,
    e: EntrySpec,
    rest: Seq<EntrySpec>,
    target: Kind,
)
    requires
        p.fault is None,
        declares(p.table, e.name),
        dtype_kind(e.dtype) is Some,
        element_count(e.shape) != element_count(p.table[slot_index(p.table, e.name)].shape),
    ensures
        replay(p, seq![e] + rest, target) == (Progress {
            fault: Some(
                Fault::ShapeMismatch {
                    name: e.name,
                    expected: p.table[slot_index(p.table, e.name)].shape,
                    found: e.shape,
                },
            ),
            ..p
        }),
{
    let es = seq![e] + rest;
    assert(es[0] == e);
    let next = step(p, e, target);
    assert(replay(next, es.drop_first(), target) == next);
}

/// A tensor that a slot waits for, stored as a kind that the runtime does
/// not have, ends the load: no kind is made up for it, and the slot stays in
/// the table.
pub proof fn lemma_unsupported_tag_is_a_fault(
    p: Progress,
    e: EntrySpec,
    rest: Seq<EntrySpec>,
    target: Kind,
)
    requires
        p.fault is None,
        declares(p.table, e.name),
        dtype_kind(e.dtype) is None,
    ensures
        replay(p, seq![e] + rest, target) == (Progress {
            fault: Some(Fault::UnsupportedDtype { name: e.name, dtype: e.dtype }),
            ..p
        }),
{
    let es = seq![e] + rest;
    assert(es[0] == e);
    let next = step(p, e, target);
    assert(replay(next, es.drop_first(), target) == next);
}

/// A load only takes slots out of the table: what it leaves is well formed,
/// every slot left is a slot it started with, as it was declared, and each
/// slot that has left is owed exactly one copy. So the copies of a load never
/// outnumber the parameters of the model.
pub proof fn lemma_replay_consumes(p: Progress, es: Seq<EntrySpec>, target: Kind)
    requires
        table_wf(p.table),
    ensures
        table_wf(replay(p, es, target).table),
        replay(p, es, target).table.len() + replay(p, es, target).copies.len() == p.table.len()
            + p.copies.len(),
        forall|i: int|
            0 <= i < replay(p, es, target).table.len() ==> p.table.contains(
                #[trigger] replay(p, es, target).table[i],
            ),
    decreases es.len(),
{
    let end = replay(p, es, target);
    if es.len() == 0 || p.fault is Some {
        assert forall|i: int| 0 <= i < end.table.len() implies p.table.contains(
            #[trigger] end.table[i],
        ) by {
            assert(p.table[i] == end.table[i]);
        }
    } else {
        let e = es[0];
        let next = step(p, e, target);
        if verdict(p.table, e) is Fill {
            lemma_remove_slot(p.table, slot_index(p.table, e.name));
        }
        lemma_replay_consumes(next, es.drop_first(), target);
        assert forall|i: int| 0 <= i < end.table.len() implies p.table.contains(
            #[trigger] end.table[i],
        ) by {
            let slot = end.table[i];
            assert(next.table.contains(slot));
            let j = choose|j: int| 0 <= j < next.table.len() && next.table[j] == slot;
            if verdict(p.table, e) is Fill {
                let at = slot_index(p.table, e.name);
                let j0 = if j < at { j } else { j + 1 };
                assert(p.table[j0] == slot);
            } else {
                assert(p.table[j] == slot);
            }
        }
    }
}

/// Where every slot finds a tensor of its name in some shard, and every
/// tensor that a slot waits for fits it, the load meets no fault and leaves
/// the table empty.
pub proof fn lemma_complete_weights_empty_table(
    t: Seq<SlotSpec>,
    es: Seq<EntrySpec>,
    target: Kind,
)
    requires
        table_wf(t),
        all_fit(t, es),
        forall|i: int| 0 <= i < t.len() ==> occurs(es, (#[trigger] t[i]).name),
    ensures
        replay(start(t), es, target).fault is None,
        replay(start(t), es, target).table.len() == 0,
{
    let end = replay(start(t), es, target);
    lemma_replay_fitting(start(t), es, target);
    if end.table.len() > 0 {
        let name = end.table[0].name;
        assert(declares(end.table, name));
        let i = slot_index(t, name);
        assert(occurs(es, t[i].name));
    }
}

/// Where one slot finds no tensor of its name in any shard, while every
/// other slot finds one and every tensor that a slot waits for fits it, the
/// load leaves that slot alone in the table: closing the load then names it
/// and no other.
pub proof fn lemma_absent_parameter_remains(
    t: Seq<SlotSpec>,
    es: Seq<EntrySpec>,
    target: Kind,
    m: int,
)
    requires
        table_wf(t),
        all_fit(t, es),
        0 <= m < t.len(),
        !occurs(es, t[m].name),
        forall|i: int| 0 <= i < t.len() && i != m ==> occurs(es, (#[trigger] t[i]).name),
    ensures
        replay(start(t), es, target).fault is None,
        replay(start(t), es, target).table == seq![t[m]],
        slot_names(replay(start(t), es, target).table) == seq![t[m].name],
{
    let end = replay(start(t), es, target);
    lemma_replay_fitting(start(t), es, target);
    assert(declares(t, t[m].name));
    assert(declares(end.table, t[m].name));
    assert forall|a: int| 0 <= a < end.table.len() implies (#[trigger] end.table[a]).name
        == t[m].name by {
        let name = end.table[a].name;
        assert(declares(end.table, name));
        let i = slot_index(t, name);
        if i != m {
            assert(occurs(es, t[i].name));
        }
    }
    if end.table.len() >= 2 {
        assert(end.table[0].name != end.table[1].name);
    }
    lemma_slot_index(t, t[m].name, m);
    assert(end.table[slot_index(end.table, t[m].name)] == t[m]);
    assert(end.table =~= seq![t[m]]);
    assert(slot_names(end.table) =~= seq![t[m].name]);
}

/// What a load leaves in the table, and whether it meets a fault, depends on
/// the table it starts from and the tensors it meets, not on the copies and
/// warnings gathered before.
pub proof fn lemma_replay_carries(p: Progress, q: Progress, es: Seq<EntrySpec>, target: Kind)
    requires
        p.table == q.table,
        p.fault is None,
        q.fault is None,
    ensures
        replay(p, es, target).table == replay(q, es, target).table,
        replay(p, es, target).fault == replay(q, es, target).fault,
        replay(p, es, target).copies == p.copies + replay(
            start(p.table),
            es,
            target,
        ).copies,
        replay(p, es, target).unknown == p.unknown + replay(
            start(p.table),
            es,
            target,
        ).unknown,
    decreases es.len(),
{
    let s = start(p.table);
    if es.len() > 0 {
        let rest = es.drop_first();
        let p_next = step(p, es[0], target);
        let q_next = step(q, es[0], target);
        let s_next = step(s, es[0], target);
        if p_next.fault is None {
            lemma_replay_carries(p_next, q_next, rest, target);
            lemma_replay_carries(p_next, s_next, rest, target);
            lemma_replay_carries(s_next, p_next, rest, target);
            let tail = replay(start(p_next.table), rest, target);
            assert(p_next.copies + tail.copies =~= p.copies + (s_next.copies + tail.copies));
            assert(p_next.unknown + tail.unknown =~= p.unknown + (s_next.unknown + tail.unknown));
        } else {
            assert(replay(p_next, rest, target) == p_next);
            assert(replay(q_next, rest, target) == q_next);
            assert(replay(s_next, rest, target) == s_next);
            assert(p_next.copies =~= p.copies + s_next.copies);
            assert(p_next.unknown =~= p.unknown + s_next.unknown);
        }
    } else {
        assert(p.copies =~= p.copies + s.copies);
        assert(p.unknown =~= p.unknown + s.unknown);
    }
}

/// Loading two shards one after the other is loading their tensors in one
/// run: the second shard starts from the table that the first one left, and
/// its copies and warnings follow those of the first.
pub proof fn lemma_replay_shards(
    t: Seq<SlotSpec>,
    first: Seq<EntrySpec>,
    second: Seq<EntrySpec>,
    target: Kind,
)
    requires
        replay(start(t), first, target).fault is None,
    ensures
        ({
            let one = replay(start(t), first, target);
            let two = replay(start(one.table), second, target);
            let both = replay(start(t), first + second, target);
            &&& both.table == two.table
            &&& both.fault == two.fault
            &&& both.copies == one.copies + two.copies
            &&& both.unknown == one.unknown + two.unknown
        }),
{
    let one = replay(start(t), first, target);
    lemma_replay_concat(start(t), first, second, target);
    lemma_replay_carries(one, start(one.table), second, target);
}

/// Meeting the tensors of `a` and then those of `b` is meeting those of
/// `a + b`.
pub proof fn lemma_replay_concat(p: Progress, a: Seq<EntrySpec>, b: Seq<EntrySpec>, target: Kind)
    ensures
        replay(p, a + b, target) == replay(replay(p, a, target), b, target),
    decreases a.len(),
{
    if p.fault is Some {
        assert(replay(p, b, target) == p);
    } else if a.len() == 0 {
        assert(a + b =~= b);
    } else {
        assert((a + b)[0] == a[0]);
        assert((a + b).drop_first() =~= a.drop_first() + b);
        lemma_replay_concat(step(p, a[0], target), a.drop_first(), b, target);
    }
}

} // verus!
