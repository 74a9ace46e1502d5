//! The table of parameter slots that a freshly built model declares, and
//! what becomes of one stored tensor when it is held against the table.

use vstd::prelude::*;
use vstd::slice::slice_to_vec;
use crate::dtype::{checked_kind_from_dt, dtype_kind, Kind};
use crate::names::{ends_with, names_view};
use crate::shard::{EntrySpec, TensorEntry};

verus! {

/// Suffix of the names of rotary frequency buffers. A model derives these
/// itself, so a stored one that no slot asks for is passed over in silence.
pub const DERIVABLE_SUFFIX: &'static str = ".inv_freq";

/// Number of elements of a tensor of the given shape: the product of its
/// dimensions, 1 for a scalar.
pub open spec fn element_count(shape: Seq<usize>) -> int
    decreases shape.len(),
{
    if shape.len() == 0 {
        1
    } else {
        element_count(shape.drop_last()) * shape.last()
    }
}

/// A named, shaped storage location of the model that awaits its weights.
#[derive(Debug)]
pub struct ParamSlot {
    pub name: String,
    pub shape: Vec<usize>,
}

/// A slot as plain values.
pub ghost struct SlotSpec {
    pub name: Seq<char>,
    pub shape: Seq<usize>,
}

impl View for ParamSlot {
    type V = SlotSpec;

    open spec fn view(&self) -> SlotSpec {
        SlotSpec { name: self.name@, shape: self.shape@ }
    }
}

/// No two slots share a name, and the elements of each can be counted in a
/// `usize`.
pub open spec fn table_wf(t: Seq<SlotSpec>) -> bool {
    &&& forall|i: int, j: int| 0 <= i < j < t.len() ==> t[i].name != t[j].name
    &&& forall|i: int| 0 <= i < t.len() ==> element_count(#[trigger] t[i].shape) <= usize::MAX
}

/// Whether a slot of that name is in the table.
pub open spec fn declares(t: Seq<SlotSpec>, name: Seq<char>) -> bool {
    exists|i: int| 0 <= i < t.len() && #[trigger] t[i].name == name
}

/// Position of the slot of that name, where the table has one.
pub open spec fn slot_index(t: Seq<SlotSpec>, name: Seq<char>) -> int {
    choose|i: int| 0 <= i < t.len() && #[trigger] t[i].name == name
}

/// What becomes of a stored tensor.
#[derive(Debug)]
pub enum Reconciliation {
    /// A slot of that name with as many elements was waiting. It has left
    /// the table and takes the tensor's data, read as `source`.
    Fill { source: Kind },
    /// No slot of that name, and the name marks a derivable buffer: nothing
    /// to do and nothing to report.
    SkipDerivable,
    /// No slot of that name: the tensor is passed over, with a warning.
    SkipUnknown,
    /// A slot of that name is waiting, but the tensor is stored as a kind the
    /// runtime does not have. The table is as it was.
    UnsupportedDtype,
    /// A slot of that name is waiting, but it holds another number of
    /// elements: the weights do not fit this model. The table is as it was.
    ShapeMismatch { expected: Vec<usize> },
}

/// `Reconciliation` as plain values.
pub ghost enum Verdict {
    Fill { source: Kind },
    SkipDerivable,
    SkipUnknown,
    UnsupportedDtype,
    ShapeMismatch { expected: Seq<usize> },
}

impl View for Reconciliation {
    type V = Verdict;

    open spec fn view(&self) -> Verdict {
        match *self {
            Reconciliation::Fill { source } => Verdict::Fill { source },
            Reconciliation::SkipDerivable => Verdict::SkipDerivable,
            Reconciliation::SkipUnknown => Verdict::SkipUnknown,
            Reconciliation::UnsupportedDtype => Verdict::UnsupportedDtype,
            Reconciliation::ShapeMismatch { expected } => Verdict::ShapeMismatch {
                expected: expected@,
            },
        }
    }
}

/// What becomes of a stored tensor, held against table `t`.
pub open spec fn verdict(t: Seq<SlotSpec>, e: EntrySpec) -> Verdict {
    if !declares(t, e.name) {
        if DERIVABLE_SUFFIX@.is_suffix_of(e.name) {
            Verdict::SkipDerivable
        } else {
            Verdict::SkipUnknown
        }
    } else {
        let slot = t[slot_index(t, e.name)];
        match dtype_kind(e.dtype) {
            None => Verdict::UnsupportedDtype,
            Some(source) => if element_count(e.shape) == element_count(slot.shape) {
                Verdict::Fill { source }
            } else {
                Verdict::ShapeMismatch { expected: slot.shape }
            },
        }
    }
}

/// The table once tensor `e` has been held against it: without the slot that
/// `e` fills, and otherwise as before.
pub open spec fn table_after(t: Seq<SlotSpec>, e: EntrySpec) -> Seq<SlotSpec> {
    if verdict(t, e) is Fill {
        t.remove(slot_index(t, e.name))
    } else {
        t
    }
}

/// A shape never counts fewer than no elements.
pub proof fn lemma_element_count_nonnegative(shape: Seq<usize>)
    ensures
        element_count(shape) >= 0,
    decreases shape.len(),
{
    if shape.len() > 0 {
        lemma_element_count_nonnegative(shape.drop_last());
        assert(element_count(shape.drop_last()) * shape.last() >= 0) by (nonlinear_arith)
            requires
                element_count(shape.drop_last()) >= 0,
                shape.last() >= 0,
        ;
    }
}

/// A shape with an empty dimension has no elements.
pub proof fn lemma_element_count_zero(shape: Seq<usize>, k: int)
    requires
        0 <= k < shape.len(),
        shape[k] == 0,
    ensures
        element_count(shape) == 0,
    decreases shape.len(),
{
    if k < shape.len() - 1 {
        lemma_element_count_zero(shape.drop_last(), k);
    }
    assert(element_count(shape.drop_last()) * shape.last() == 0) by (nonlinear_arith)
        requires
            element_count(shape.drop_last()) == 0 || shape.last() == 0,
    ;
}

/// Without an empty dimension, the leading dimensions of a shape count no
/// more elements than the whole shape.
pub proof fn lemma_element_count_prefix(shape: Seq<usize>, n: int)
    requires
        0 <= n <= shape.len(),
        forall|i: int| 0 <= i < shape.len() ==> shape[i] >= 1,
    ensures
        1 <= element_count(shape.take(n)) <= element_count(shape),
    decreases shape.len() - n,
{
    if n == shape.len() {
        assert(shape.take(n) =~= shape);
        lemma_element_count_at_least_one(shape);
    } else {
        lemma_element_count_prefix(shape, n + 1);
        let next = shape.take(n + 1);
        assert(next.drop_last() =~= shape.take(n));
        lemma_element_count_at_least_one(shape.take(n));
        assert(element_count(shape.take(n)) <= element_count(shape.take(n)) * next.last())
            by (nonlinear_arith)
            requires
                element_count(shape.take(n)) >= 1,
                next.last() >= 1,
        ;
    }
}

/// A shape without an empty dimension has at least one element.
proof fn lemma_element_count_at_least_one(shape: Seq<usize>)
    requires
        forall|i: int| 0 <= i < shape.len() ==> shape[i] >= 1,
    ensures
        element_count(shape) >= 1,
    decreases shape.len(),
{
    if shape.len() > 0 {
        lemma_element_count_at_least_one(shape.drop_last());
        assert(element_count(shape.drop_last()) * shape.last() >= 1) by (nonlinear_arith)
            requires
                element_count(shape.drop_last()) >= 1,
                shape.last() >= 1,
        ;
    }
}

/// Counts the elements of a shape; `None` where the count does not fit a
/// `usize`.
pub fn checked_element_count(shape: &[usize]) -> (r: Option<usize>)
    ensures
        r == if element_count(shape@) <= usize::MAX {
            Some(element_count(shape@) as usize)
        } else {
            None
        },
{
    let mut k: usize = 0;
    while k < shape.len()
        invariant
            k <= shape@.len(),
            forall|i: int| 0 <= i < k ==> shape@[i] >= 1,
        decreases shape@.len() - k,
    {
        if shape[k] == 0 {
            proof {
                lemma_element_count_zero(shape@, k as int);
            }
            return Some(0);
        }
        k += 1;
    }
    let mut count: usize = 1;
    let mut n: usize = 0;
    assert(shape@.take(0) =~= Seq::<usize>::empty());
    while n < shape.len()
        invariant
            n <= shape@.len(),
            forall|i: int| 0 <= i < shape@.len() ==> shape@[i] >= 1,
            count == element_count(shape@.take(n as int)),
        decreases shape@.len() - n,
    {
        let ghost next = shape@.take(n + 1);
        assert(next.drop_last() =~= shape@.take(n as int));
        assert(next.last() == shape@[n as int]);
        proof {
            lemma_element_count_prefix(shape@, n + 1);
        }
        match count.checked_mul(shape[n]) {
            Some(product) => {
                count = product;
            },
            None => {
                return None;
            },
        }
        n += 1;
    }
    assert(shape@.take(n as int) =~= shape@);
    Some(count)
}

/// Why a slot could not be added to the table.
#[derive(Clone, Copy, Debug, PartialEq, Eq, Structural)]
pub enum DeclareError {
    /// The table already has a slot of that name.
    DuplicateName,
    /// The shape has more elements than a `usize` can count.
    TooLarge,
}

/// The slots that still await their weights, in the order in which the model
/// declared them, and the numeric kind that the model computes with.
#[derive(Debug)]
pub struct ParameterTable {
    slots: Vec<ParamSlot>,
    kind: Kind,
}

impl View for ParameterTable {
    type V = Seq<SlotSpec>;

    closed spec fn view(&self) -> Seq<SlotSpec> {
        self.slots@.map_values(|slot: ParamSlot| slot@)
    }
}

/// The names of the slots of a table, in order.
pub open spec fn slot_names(t: Seq<SlotSpec>) -> Seq<Seq<char>> {
    t.map_values(|slot: SlotSpec| slot.name)
}

/// In a well-formed table a name stands at one position only.
pub proof fn lemma_slot_index(t: Seq<SlotSpec>, name: Seq<char>, i: int)
    requires
        table_wf(t),
        0 <= i < t.len(),
        t[i].name == name,
    ensures
        declares(t, name),
        slot_index(t, name) == i,
{
    let j = slot_index(t, name);
    assert(0 <= j < t.len() && t[j].name == name);
    if j < i {
        assert(t[j].name != t[i].name);
    } else if i < j {
        assert(t[i].name != t[j].name);
    }
}

/// Taking a slot out leaves a well-formed table that declares what it
/// declared before, but for the name taken out.
pub proof fn lemma_remove_slot(t: Seq<SlotSpec>, i: int)
    requires
        table_wf(t),
        0 <= i < t.len(),
    ensures
        table_wf(t.remove(i)),
        !declares(t.remove(i), t[i].name),
        forall|name: Seq<char>|
            name != t[i].name ==> (#[trigger] declares(t.remove(i), name) <==> declares(t, name)),
        forall|name: Seq<char>|
            name != t[i].name && declares(t, name) ==> t.remove(i)[#[trigger] slot_index(
                t.remove(i),
                name,
            )] == t[slot_index(t, name)],
{
    let r = t.remove(i);
    assert forall|a: int, b: int| 0 <= a < b < r.len() implies r[a].name != r[b].name by {
        let a0 = if a < i { a } else { a + 1 };
        let b0 = if b < i { b } else { b + 1 };
        assert(r[a] == t[a0] && r[b] == t[b0]);
    }
    assert forall|a: int| 0 <= a < r.len() implies element_count(#[trigger] r[a].shape)
        <= usize::MAX by {
        let a0 = if a < i { a } else { a + 1 };
        assert(r[a] == t[a0]);
    }
    if declares(r, t[i].name) {
        let a = slot_index(r, t[i].name);
        let a0 = if a < i { a } else { a + 1 };
        assert(r[a] == t[a0]);
        lemma_slot_index(t, t[i].name, a0);
    }
    assert forall|name: Seq<char>| name != t[i].name implies (#[trigger] declares(r, name)
        <==> declares(t, name)) by {
        if declares(r, name) {
            let a = slot_index(r, name);
            let a0 = if a < i { a } else { a + 1 };
            assert(r[a] == t[a0]);
        }
        if declares(t, name) {
            let a0 = slot_index(t, name);
            let a = if a0 < i { a0 } else { a0 - 1 };
            assert(r[a] == t[a0]);
        }
    }
    assert forall|name: Seq<char>| name != t[i].name && declares(t, name) implies r[
        #[trigger] slot_index(r, name)] == t[slot_index(t, name)] by {
        let a0 = slot_index(t, name);
        let a = if a0 < i { a0 } else { a0 - 1 };
        assert(r[a] == t[a0]);
        lemma_slot_index(r, name, a);
    }
}

impl ParameterTable {
    /// The numeric kind that the slots hold: every tensor copied into a slot
    /// is converted to it.
    pub closed spec fn target_kind(&self) -> Kind {
        self.kind
    }

    /// No two slots share a name, and the elements of each can be counted.
    pub open spec fn wf(&self) -> bool {
        table_wf(self@)
    }

    /// A table without slots, for a model that computes with `kind`.
    pub fn new(kind: Kind) -> (table: Self)
        ensures
            table@ == Seq::<SlotSpec>::empty(),
            table.target_kind() == kind,
            table.wf(),
    {
        let table = ParameterTable { slots: Vec::new(), kind };
        assert(table@ =~= Seq::<SlotSpec>::empty());
        table
    }

    /// Sets the numeric kind that tensors are converted to when they are
    /// copied into a slot.
    pub fn set_kind(&mut self, kind: Kind)
        ensures
            final(self)@ == old(self)@,
            final(self).target_kind() == kind,
    {
        self.kind = kind;
    }

    /// The numeric kind that tensors are converted to.
    pub fn kind(&self) -> (kind: Kind)
        ensures
            kind == self.target_kind(),
    {
        self.kind
    }

    /// Number of slots that still await their weights.
    pub fn len(&self) -> (n: usize)
        ensures
            n == self@.len(),
    {
        self.slots.len()
    }

    /// Whether every slot has been filled.
    pub fn is_empty(&self) -> (empty: bool)
        ensures
            empty == (self@.len() == 0),
    {
        self.slots.len() == 0
    }

    fn position(&self, name: &String) -> (r: Option<usize>)
        requires
            self.wf(),
        ensures
            match r {
                Some(i) => i < self@.len() && self@[i as int].name == name@ && declares(
                    self@,
                    name@,
                ) && slot_index(self@, name@) == i,
                None => !declares(self@, name@),
            },
    {
        let mut i: usize = 0;
        while i < self.slots.len()
            invariant
                i <= self.slots@.len(),
                self.wf(),
                forall|j: int| 0 <= j < i ==> self@[j].name != name@,
            decreases self.slots@.len() - i,
        {
            if self.slots[i].name == *name {
                proof {
                    lemma_slot_index(self@, name@, i as int);
                }
                return Some(i);
            }
            i += 1;
        }
        None
    }

    /// Whether a slot of that name still awaits its weights.
    pub fn contains(&self, name: &String) -> (found: bool)
        requires
            self.wf(),
        ensures
            found == declares(self@, name@),
    {
        self.position(name).is_some()
    }

    /// Adds a slot at the end of the table, unless the table has one of that
    /// name or the shape is too large to count.
    pub fn declare(&mut self, name: String, shape: Vec<usize>) -> (r: Result<(), DeclareError>)
        requires
            old(self).wf(),
        ensures
            final(self).wf(),
            final(self).target_kind() == old(self).target_kind(),
            match r {
                Ok(()) => !declares(old(self)@, name@) && element_count(shape@) <= usize::MAX
                    && final(self)@ == old(self)@.push(SlotSpec { name: name@, shape: shape@ }),
                Err(DeclareError::DuplicateName) => declares(old(self)@, name@) && final(self)@
                    == old(self)@,
                Err(DeclareError::TooLarge) => !declares(old(self)@, name@) && element_count(
                    shape@,
                ) > usize::MAX && final(self)@ == old(self)@,
            },
    {
        if self.position(&name).is_some() {
            return Err(DeclareError::DuplicateName);
        }
        if checked_element_count(shape.as_slice()).is_none() {
            return Err(DeclareError::TooLarge);
        }
        let ghost before = self@;
        let ghost slot = SlotSpec { name: name@, shape: shape@ };
        self.slots.push(ParamSlot { name, shape });
        assert(self@ =~= before.push(slot));
        assert forall|i: int, j: int| 0 <= i < j < self@.len() implies self@[i].name
            != self@[j].name by {
            if j == before.len() {
                assert(before[i].name != slot.name);
            }
        }
        Ok(())
    }

    /// Holds one stored tensor against the table. A slot of its name with as
    /// many elements leaves the table, to be filled with the tensor's data;
    /// in every other case the table stays as it is.
    pub fn reconcile(&mut self, entry: &TensorEntry<'_>) -> (r: Reconciliation)
        requires
            old(self).wf(),
        ensures
            final(self).wf(),
            final(self).target_kind() == old(self).target_kind(),
            r@ == verdict(old(self)@, entry@),
            final(self)@ == table_after(old(self)@, entry@),
    {
        let i = match self.position(&entry.name) {
            Some(i) => i,
            None => {
                if ends_with(entry.name.as_str(), DERIVABLE_SUFFIX) {
                    return Reconciliation::SkipDerivable;
                } else {
                    return Reconciliation::SkipUnknown;
                }
            },
        };
        let source = match checked_kind_from_dt(entry.dtype) {
            Some(kind) => kind,
            None => {
                return Reconciliation::UnsupportedDtype;
            },
        };
        let expected = checked_element_count(self.slots[i].shape.as_slice());
        let found = checked_element_count(entry.shape.as_slice());
        assert(self@[i as int].shape == self.slots@[i as int].shape@);
        proof {
            lemma_element_count_nonnegative(entry.shape@);
            lemma_element_count_nonnegative(self@[i as int].shape);
        }
        let fits = match (expected, found) {
            (Some(slot_count), Some(count)) => slot_count == count,
            _ => false,
        };
        if fits {
            proof {
                lemma_remove_slot(self@, i as int);
            }
            let ghost before = self@;
            self.slots.remove(i);
            assert(self@ =~= before.remove(i as int));
            Reconciliation::Fill { source }
        } else {
            Reconciliation::ShapeMismatch {
                expected: slice_to_vec(self.slots[i].shape.as_slice()),
            }
        }
    }

    /// The names of the slots that still await their weights, in the order
    /// in which the model declared them.
    pub fn missing(&self) -> (names: Vec<String>)
        ensures
            names_view(names@) == slot_names(self@),
    {
        let mut names: Vec<String> = Vec::new();
        let mut i: usize = 0;
        while i < self.slots.len()
            invariant
                i <= self.slots@.len(),
                names_view(names@) =~= slot_names(self@).take(i as int),
            decreases self.slots@.len() - i,
        {
            let ghost before = names@;
            let name = self.slots[i].name.clone();
            assert(name@ == self@[i as int].name);
            names.push(name);
            assert(names_view(names@) =~= names_view(before).push(name@));
            assert(slot_names(self@).take(i + 1) =~= slot_names(self@).take(i as int).push(
                self@[i as int].name,
            ));
            i += 1;
        }
        assert(slot_names(self@).take(i as int) =~= slot_names(self@));
        names
    }
}

} // verus!
