//! Implementation of shared record definition builder behaviours.

pub mod variant;

use vstd::prelude::*;

use crate::record::definition::builder::generic::variant::{
    variant_build_post, RecordVariantBuilder,
};
use crate::record::definition::{
    no_datum_comes_back, valid_ids, without, DatumDefinition, DatumDefinitionCollection, DatumId, RecordDefinition,
    RecordVariant, RecordVariantId,
};
use crate::text::{append_decimal, decimal, str_eq};

verus! {

/// The first datum of `data` named `name`, if any.
pub open spec fn first_named<D>(
    defs: Seq<DatumDefinition<D>>,
    data: Seq<DatumId>,
    name: Seq<char>,
    r: Option<&DatumDefinition<D>>,
) -> bool {
    match r {
        Some(x) => exists|i: int|
            0 <= i < data.len() && *x == defs[data[i].0 as int] && (#[trigger] defs[data[i].0 as int]).name@ == name
                && forall|j: int| 0 <= j < i ==> (#[trigger] defs[data[j].0 as int]).name@ != name,
        None => forall|i: int| 0 <= i < data.len() ==> (#[trigger] defs[data[i].0 as int]).name@ != name,
    }
}

/// Finds the first datum of `data` named `name`.
pub fn find_named<'a, D>(
    defs: &'a DatumDefinitionCollection<D>,
    data: &[DatumId],
    name: &str,
) -> (r: Option<&'a DatumDefinition<D>>)
    requires
        forall|i: int| 0 <= i < data@.len() ==> (#[trigger] data@[i]).0 < defs@.len(),
    ensures
        first_named(defs@, data@, name@, r),
{
    let mut i: usize = 0;
    while i < data.len()
        invariant
            i <= data@.len(),
            forall|k: int| 0 <= k < data@.len() ==> (#[trigger] data@[k]).0 < defs@.len(),
            forall|j: int| 0 <= j < i ==> (#[trigger] defs@[data@[j].0 as int]).name@ != name@,
        decreases data@.len() - i,
    {
        let datum = &defs.as_slice()[data[i].0];
        if str_eq(datum.name.as_str(), name) {
            proof {
                assert(defs@[data@[i as int].0 as int].name@ == name@);
            }
            return Some(datum);
        }
        i = i + 1;
    }
    None
}

/// Main structure to start building generic record definitions.
///
/// [GenericRecordDefinitionBuilder] can be used to build abstract record definitions when the Rust
/// code generator is not yet necessary.
pub struct GenericRecordDefinitionBuilder<D> {
    datum_definitions: DatumDefinitionCollection<D>,
    variants: Vec<RecordVariant>,
    data_to_add: Vec<DatumId>,
    data_to_remove: Vec<DatumId>,
}

impl<D> GenericRecordDefinitionBuilder<D> {
    /// All the datum definitions so far.
    pub closed spec fn defs(&self) -> Seq<DatumDefinition<D>> {
        self.datum_definitions@
    }

    /// The closed variants.
    pub closed spec fn variants_view(&self) -> Seq<RecordVariant> {
        self.variants@
    }

    /// The data added to the variant being built.
    pub closed spec fn to_add(&self) -> Seq<DatumId> {
        self.data_to_add@
    }

    /// The data of the previous variant removed from the variant being built.
    pub closed spec fn to_remove(&self) -> Seq<DatumId> {
        self.data_to_remove@
    }

    /// Nothing was added yet.
    pub open spec fn is_empty(&self) -> bool {
        &&& self.defs() == Seq::<DatumDefinition<D>>::empty()
        &&& self.variants_view() == Seq::<RecordVariant>::empty()
        &&& self.to_add() == Seq::<DatumId>::empty()
        &&& self.to_remove() == Seq::<DatumId>::empty()
    }

    /// The data of the last closed variant, none when there is no variant.
    pub open spec fn last_data(&self) -> Seq<DatumId> {
        if self.variants_view().len() > 0 {
            self.variants_view().last().data@
        } else {
            Seq::empty()
        }
    }

    /// The data of the variant being built.
    pub open spec fn current_data(&self) -> Seq<DatumId> {
        without(self.last_data(), self.to_remove()) + self.to_add()
    }

    /// Whether closing the variant makes a new one: there is none yet, or data were added or
    /// removed.
    pub open spec fn pending(&self) -> bool {
        self.variants_view().len() == 0 || self.to_remove().len() > 0 || self.to_add().len() > 0
    }

    /// The builder state is consistent. In particular, data to add were never in any variant:
    /// once a datum is removed from a variant, it is never added again.
    pub open spec fn wf(&self) -> bool {
        &&& forall|i: int| 0 <= i < self.defs().len() ==> (#[trigger] self.defs()[i]).id.0 == i
        &&& forall|i: int| 0 <= i < self.variants_view().len() ==> (#[trigger] self.variants_view()[i]).id.0 == i
        &&& forall|i: int|
            0 <= i < self.variants_view().len() ==> valid_ids(self.defs().len(), (#[trigger] self.variants_view()[i]).data@)
        &&& valid_ids(self.defs().len(), self.to_add())
        &&& valid_ids(self.defs().len(), self.to_remove())
        &&& no_datum_comes_back(self.variants_view())
        &&& forall|i: int| 0 <= i < self.to_remove().len() ==> self.last_data().contains(#[trigger] self.to_remove()[i])
        &&& forall|i: int, v: int|
            0 <= i < self.to_add().len() && 0 <= v < self.variants_view().len() ==> !(
            #[trigger] self.variants_view()[v]).data@.contains(#[trigger] self.to_add()[i])
    }

    /// Creates a new builder.
    pub fn new() -> (r: Self)
        ensures
            r.wf(),
            r.defs() == Seq::<DatumDefinition<D>>::empty(),
            r.variants_view() == Seq::<RecordVariant>::empty(),
            r.to_add() == Seq::<DatumId>::empty(),
            r.to_remove() == Seq::<DatumId>::empty(),
    {
        GenericRecordDefinitionBuilder {
            datum_definitions: DatumDefinitionCollection::new(),
            variants: Vec::new(),
            data_to_add: Vec::new(),
            data_to_remove: Vec::new(),
        }
    }
}

/// The message of the error when a datum name is already used in the current variant.
pub open spec fn name_taken_message(name: Seq<char>) -> Seq<char> {
    "Field with name "@ + name + " already exists in current variant"@
}

/// The message of the error when a datum is removed twice.
pub open spec fn already_removed_message(id: DatumId) -> Seq<char> {
    "Datum with id = "@ + decimal(id.0 as nat) + " is already removed"@
}

/// The message of the error when a datum to remove is not in the previous variant.
pub open spec fn not_in_previous_message(id: DatumId) -> Seq<char> {
    "Could not find datum to remove in previous variant, id = "@ + decimal(id.0 as nat)
}

/// The message of the error when a datum to remove is not in the first variant being built.
pub open spec fn not_in_first_message(id: DatumId) -> Seq<char> {
    "Could not find datum to remove in variant being built, id = "@ + decimal(id.0 as nat)
}

/// Some datum of the current variant of `b` has that name.
pub open spec fn name_in_current<D>(b: GenericRecordDefinitionBuilder<D>, name: Seq<char>) -> bool {
    exists|i: int|
        0 <= i < b.current_data().len() && (#[trigger] b.defs()[b.current_data()[i].0 as int]).name@ == name
}

/// `new` is `old` with a new datum `id` named `name` with `details` added to the current variant.
pub open spec fn datum_pushed<D>(
    old: GenericRecordDefinitionBuilder<D>,
    new: GenericRecordDefinitionBuilder<D>,
    name: Seq<char>,
    details: D,
    id: DatumId,
) -> bool {
    &&& id.0 == old.defs().len()
    &&& new.defs().len() == old.defs().len() + 1
    &&& new.defs().take(old.defs().len() as int) == old.defs()
    &&& new.defs().last().id == id
    &&& new.defs().last().name@ == name
    &&& new.defs().last().details == details
    &&& new.to_add() == old.to_add().push(id)
    &&& new.to_remove() == old.to_remove()
    &&& new.variants_view() == old.variants_view()
}

/// What adding a datum gives: the datum is added unless its name is taken in the current
/// variant.
pub open spec fn datum_added<D>(
    old: GenericRecordDefinitionBuilder<D>,
    new: GenericRecordDefinitionBuilder<D>,
    name: Seq<char>,
    details: D,
    r: Result<DatumId, String>,
) -> bool {
    match r {
        Ok(id) => !name_in_current(old, name) && datum_pushed(old, new, name, details, id),
        Err(e) => name_in_current(old, name) && e@ == name_taken_message(name) && new == old,
    }
}

/// What removing a datum gives: a datum of the previous variant is marked as removed; a datum
/// added to the variant being built is dropped from it; anything else is an error.
pub open spec fn datum_removed<D>(
    old: GenericRecordDefinitionBuilder<D>,
    new: GenericRecordDefinitionBuilder<D>,
    datum_id: DatumId,
    r: Result<(), String>,
) -> bool {
    &&& new.defs() == old.defs()
    &&& new.variants_view() == old.variants_view()
    &&& old.variants_view().len() > 0 && old.last_data().contains(datum_id) ==> {
        if old.to_remove().contains(datum_id) {
            &&& r matches Err(e) && e@ == already_removed_message(datum_id)
            &&& new.to_remove() == old.to_remove()
            &&& new.to_add() == old.to_add()
        } else {
            &&& r is Ok
            &&& new.to_remove() == old.to_remove().push(datum_id)
            &&& new.to_add() == old.to_add()
        }
    }
    &&& !(old.variants_view().len() > 0 && old.last_data().contains(datum_id)) ==> {
        &&& new.to_remove() == old.to_remove()
        &&& if old.to_add().contains(datum_id) {
            &&& r is Ok
            &&& new.to_add().len() == old.to_add().len() - 1
            &&& exists|k: int|
                0 <= k < old.to_add().len() && old.to_add()[k] == datum_id && new.to_add() == old.to_add().remove(k)
        } else {
            &&& new.to_add() == old.to_add()
            &&& r matches Err(e) && e@ == (if old.variants_view().len() > 0 {
                not_in_previous_message(datum_id)
            } else {
                not_in_first_message(datum_id)
            })
        }
    }
}

/// Whether removing the datum succeeds.
pub open spec fn removable<D>(b: GenericRecordDefinitionBuilder<D>, datum_id: DatumId) -> bool {
    if b.variants_view().len() > 0 && b.last_data().contains(datum_id) {
        !b.to_remove().contains(datum_id)
    } else {
        b.to_add().contains(datum_id)
    }
}

/// What closing a variant gives: nothing when nothing changed since the previous variant,
/// otherwise a new variant of the data of the variant being built.
pub open spec fn variant_closed<D>(
    old: GenericRecordDefinitionBuilder<D>,
    new: GenericRecordDefinitionBuilder<D>,
    r: RecordVariantId,
) -> bool {
    &&& !old.pending() ==> r.0 == old.variants_view().len() - 1 && new == old
    &&& old.pending() ==> {
        &&& r.0 == old.variants_view().len()
        &&& new.variants_view().len() == old.variants_view().len() + 1
        &&& new.variants_view().take(old.variants_view().len() as int) == old.variants_view()
        &&& new.variants_view().last().id == r
        &&& variant_build_post(
            old.defs(),
            new.defs(),
            old.last_data(),
            old.to_add(),
            old.to_remove(),
            new.variants_view().last().data@,
        )
        &&& new.to_add() == Seq::<DatumId>::empty()
        &&& new.to_remove() == Seq::<DatumId>::empty()
    }
}

/// Closing a variant when data were added or removed makes a variant that holds exactly the
/// data of the variant being built: the data of the previous variant that were not removed, and
/// the added data.
pub proof fn law_closed_variant_holds_current_data<D>(
    old: GenericRecordDefinitionBuilder<D>,
    new: GenericRecordDefinitionBuilder<D>,
    r: RecordVariantId,
    x: DatumId,
)
    requires
        old.wf(),
        old.pending(),
        variant_closed(old, new, r),
    ensures
        new.variants_view().last().data@.contains(x) <==> old.current_data().contains(x),
        new.current_data().to_set() == old.current_data().to_set(),
{
    crate::record::definition::builder::generic::variant::lemma_without_contains(old.last_data(), old.to_remove());
    crate::record::definition::builder::generic::variant::lemma_without_contains(
        new.last_data(),
        new.to_remove(),
    );
    let w = without(old.last_data(), old.to_remove());
    assert forall|y: DatumId| old.current_data().contains(y) <==> w.contains(y) || old.to_add().contains(y) by {
        if old.current_data().contains(y) {
            let k = choose|k: int| 0 <= k < old.current_data().len() && old.current_data()[k] == y;
            if k < w.len() {
                assert(w[k] == y);
            } else {
                assert(old.to_add()[k - w.len()] == y);
            }
        }
        if w.contains(y) {
            let k = choose|k: int| 0 <= k < w.len() && w[k] == y;
            assert(old.current_data()[k] == y);
        }
        if old.to_add().contains(y) {
            let k = choose|k: int| 0 <= k < old.to_add().len() && old.to_add()[k] == y;
            assert(old.current_data()[w.len() + k] == y);
        }
    }
    let result = new.variants_view().last().data@;
    assert forall|y: DatumId| result.contains(y) <==> old.current_data().contains(y) by {
        assert(result.contains(y) <==> (old.last_data().contains(y) && !old.to_remove().contains(y)) || old.to_add().contains(
            y,
        ));
        assert(w.contains(y) <==> old.last_data().contains(y) && !old.to_remove().contains(y));
    }
    assert(new.to_remove() =~= Seq::<DatumId>::empty());
    assert(new.last_data() == result);
    assert(new.current_data() =~= without(new.last_data(), new.to_remove())) by {
        assert(new.to_add() =~= Seq::<DatumId>::empty());
    }
    assert(new.current_data().to_set() =~= old.current_data().to_set()) by {
        assert forall|y: DatumId| new.current_data().to_set().contains(y) <==> old.current_data().to_set().contains(y) by {
            assert(without(new.last_data(), new.to_remove()).contains(y) <==> new.last_data().contains(y)
                && !new.to_remove().contains(y));
            assert(new.current_data().contains(y) <==> new.last_data().contains(y));
            assert(result.contains(y) <==> old.current_data().contains(y));
        }
    }
}

/// Closing again a variant that was just closed changes nothing and gives the same variant.
pub proof fn law_closing_twice_changes_nothing<D>(
    b0: GenericRecordDefinitionBuilder<D>,
    b1: GenericRecordDefinitionBuilder<D>,
    b2: GenericRecordDefinitionBuilder<D>,
    r1: RecordVariantId,
    r2: RecordVariantId,
)
    requires
        b0.wf(),
        variant_closed(b0, b1, r1),
        variant_closed(b1, b2, r2),
    ensures
        r2 == r1,
        b2 == b1,
{
}

/// Index of `x` in `s`, if any.
fn position(s: &Vec<DatumId>, x: DatumId) -> (r: Option<usize>)
    ensures
        match r {
            Some(i) => i < s@.len() && s@[i as int] == x,
            None => !s@.contains(x),
        },
{
    let mut i: usize = 0;
    while i < s.len()
        invariant
            i <= s@.len(),
            forall|j: int| 0 <= j < i ==> s@[j] != x,
        decreases s@.len() - i,
    {
        if s[i] == x {
            return Some(i);
        }
        i = i + 1;
    }
    None
}

impl<D> GenericRecordDefinitionBuilder<D> {
    /// Adds a new datum with details to the current variant.
    ///
    /// It fails when a datum of the current variant already has that name.
    pub fn add_datum(&mut self, name: &str, details: D) -> (r: Result<DatumId, String>)
        requires
            old(self).wf(),
        ensures
            final(self).wf(),
            datum_added(*old(self), *final(self), name@, details, r),
    {
        if self.get_current_datum_definition_by_name(name).is_some() {
            let mut e = String::from_str("Field with name ");
            e.append(name);
            e.append(" already exists in current variant");
            return Err(e);
        }
        let datum_id = self.add_datum_unchecked(name, details);
        Ok(datum_id)
    }

    /// Adds a new datum with details to the current variant, whatever its name.
    pub(crate) fn add_datum_unchecked(&mut self, name: &str, details: D) -> (id: DatumId)
        requires
            old(self).wf(),
        ensures
            final(self).wf(),
            id.0 == old(self).defs().len(),
            final(self).defs().len() == old(self).defs().len() + 1,
            final(self).defs().take(old(self).defs().len() as int) == old(self).defs(),
            final(self).defs().last().id == id,
            final(self).defs().last().name@ == name@,
            final(self).defs().last().details == details,
            final(self).to_add() == old(self).to_add().push(id),
            final(self).to_remove() == old(self).to_remove(),
            final(self).variants_view() == old(self).variants_view(),
    {
        let ghost old_defs = self.datum_definitions@;
        let datum_id = self.datum_definitions.push(String::from_str(name), details);
        self.data_to_add.push(datum_id);
        proof {
            assert forall|i: int| 0 <= i < self.defs().len() implies (#[trigger] self.defs()[i]).id.0 == i by {
                if i < old_defs.len() {
                    assert(self.defs().take(old_defs.len() as int)[i] == old_defs[i]);
                }
            }
            assert forall|i: int| 0 <= i < self.variants_view().len() implies valid_ids(
                self.defs().len(),
                (#[trigger] self.variants_view()[i]).data@,
            ) by {
                assert(self.variants_view()[i] == old(self).variants_view()[i]);
                assert(valid_ids(old_defs.len(), old(self).variants_view()[i].data@));
            }
            assert forall|i: int, v: int|
                0 <= i < self.to_add().len() && 0 <= v < self.variants_view().len() implies !(
                #[trigger] self.variants_view()[v]).data@.contains(#[trigger] self.to_add()[i]) by {
                if i == self.to_add().len() - 1 {
                    if self.variants_view()[v].data@.contains(datum_id) {
                        let k = choose|k: int|
                            0 <= k < self.variants_view()[v].data@.len() && self.variants_view()[v].data@[k] == datum_id;
                        assert(self.variants_view()[v] == old(self).variants_view()[v]);
                        assert(valid_ids(old_defs.len(), old(self).variants_view()[v].data@));
                    }
                } else {
                    assert(self.to_add()[i] == old(self).to_add()[i]);
                }
            }
            assert forall|i: int, j: int| 0 <= i < j < self.to_add().len() implies self.to_add()[i] != self.to_add()[j] by {
                if j == self.to_add().len() - 1 {
                    assert(old(self).to_add()[i].0 < old_defs.len());
                }
            }
        }
        datum_id
    }

    /// Accesses datum definitions of the current variant by datum name.
    pub fn get_current_datum_definition_by_name(&self, name: &str) -> (r: Option<&DatumDefinition<D>>)
        requires
            self.wf(),
        ensures
            first_named(self.defs(), self.current_data(), name@, r),
    {
        let current = self.get_current_data();
        find_named(&self.datum_definitions, current.as_slice(), name)
    }

    /// Gets the IDs of the data present in the current variant.
    ///
    /// It takes the removed and added data into account even when the variant is not closed yet.
    pub fn get_current_data(&self) -> (r: Vec<DatumId>)
        requires
            self.wf(),
        ensures
            r@ == self.current_data(),
            forall|i: int| 0 <= i < r@.len() ==> (#[trigger] r@[i]).0 < self.defs().len(),
    {
        let last = if self.variants.len() > 0 {
            self.variants[self.variants.len() - 1].data.clone()
        } else {
            Vec::new()
        };
        let mut r = crate::record::definition::builder::generic::variant::remove_all(last, self.data_to_remove.as_slice());
        let ghost kept = r@;
        let mut i: usize = 0;
        while i < self.data_to_add.len()
            invariant
                i <= self.to_add().len(),
                self.to_add() == self.data_to_add@,
                r@ == kept + self.to_add().take(i as int),
            decreases self.to_add().len() - i,
        {
            r.push(self.data_to_add[i]);
            i = i + 1;
            proof {
                assert(r@ =~= kept + self.to_add().take(i as int));
            }
        }
        proof {
            assert(self.to_add().take(self.to_add().len() as int) =~= self.to_add());
            crate::record::definition::builder::generic::variant::lemma_without_contains(self.last_data(), self.to_remove());
            if self.variants_view().len() > 0 {
                assert(valid_ids(self.defs().len(), self.variants_view()[self.variants_view().len() - 1].data@));
            }
            assert forall|i: int| 0 <= i < r@.len() implies (#[trigger] r@[i]).0 < self.defs().len() by {
                if i < kept.len() {
                    assert(kept.contains(kept[i]));
                    let k = choose|k: int| 0 <= k < self.last_data().len() && self.last_data()[k] == kept[i];
                } else {
                    assert(r@[i] == self.to_add()[i - kept.len()]);
                }
            }
        }
        r
    }
}

impl<D> GenericRecordDefinitionBuilder<D> {
    /// Remove a datum from the current variant.
    ///
    /// A datum of the previous variant is marked as removed; a datum added to the variant being
    /// built is dropped from it. Anything else is an error.
    pub fn remove_datum(&mut self, datum_id: DatumId) -> (r: Result<(), String>)
        requires
            old(self).wf(),
        ensures
            final(self).wf(),
            datum_removed(*old(self), *final(self), datum_id, r),
            r is Ok <==> removable(*old(self), datum_id),
    {
        let in_previous = if self.variants.len() > 0 {
            position(&self.variants[self.variants.len() - 1].data, datum_id).is_some()
        } else {
            false
        };
        if in_previous {
            if position(&self.data_to_remove, datum_id).is_some() {
                let mut e = String::from_str("Datum with id = ");
                append_decimal(&mut e, datum_id.0);
                e.append(" is already removed");
                return Err(e);
            }
            self.data_to_remove.push(datum_id);
            proof {
                let n = self.variants_view().len();
                assert(self.variants_view() == old(self).variants_view());
                assert(self.defs() == old(self).defs());
                assert(valid_ids(old(self).defs().len(), old(self).variants_view()[n - 1].data@));
                let k = choose|k: int| 0 <= k < self.last_data().len() && self.last_data()[k] == datum_id;
                assert(self.last_data()[k].0 < self.defs().len());
                assert forall|i: int| 0 <= i < self.to_remove().len() implies self.last_data().contains(
                    #[trigger] self.to_remove()[i],
                ) by {
                    if i < old(self).to_remove().len() {
                        assert(self.to_remove()[i] == old(self).to_remove()[i]);
                    }
                }
                assert forall|i: int, j: int| 0 <= i < j < self.to_remove().len() implies self.to_remove()[i]
                    != self.to_remove()[j] by {
                    if j == self.to_remove().len() - 1 {
                        assert(old(self).to_remove().contains(old(self).to_remove()[i]));
                    }
                }
            }
            Ok(())
        } else {
            match position(&self.data_to_add, datum_id) {
                Some(index) => {
                    self.data_to_add.remove(index);
                    proof {
                        let old_add = old(self).to_add();
                        assert(self.variants_view() == old(self).variants_view());
                        assert(self.defs() == old(self).defs());
                        assert forall|i: int| 0 <= i < self.to_add().len() implies (#[trigger] self.to_add()[i])
                            == (if i < index { old_add[i] } else { old_add[i + 1] }) by {}
                        assert forall|i: int, j: int| 0 <= i < j < self.to_add().len() implies self.to_add()[i]
                            != self.to_add()[j] by {
                            if j < index {
                            } else if i < index {
                                assert(old_add[i] != old_add[j + 1]);
                            } else {
                                assert(old_add[i + 1] != old_add[j + 1]);
                            }
                        }
                        assert forall|i: int, v: int|
                            0 <= i < self.to_add().len() && 0 <= v < self.variants_view().len() implies !(
                            #[trigger] self.variants_view()[v]).data@.contains(#[trigger] self.to_add()[i]) by {
                            if i < index {
                                assert(!old(self).variants_view()[v].data@.contains(old_add[i]));
                            } else {
                                assert(!old(self).variants_view()[v].data@.contains(old_add[i + 1]));
                            }
                        }
                    }
                    Ok(())
                },
                None => {
                    if self.variants.len() > 0 {
                        let mut e = String::from_str("Could not find datum to remove in previous variant, id = ");
                        append_decimal(&mut e, datum_id.0);
                        Err(e)
                    } else {
                        let mut e = String::from_str("Could not find datum to remove in variant being built, id = ");
                        append_decimal(&mut e, datum_id.0);
                        Err(e)
                    }
                },
            }
        }
    }

    /// Whether closing the variant makes a new one.
    fn has_pending_changes(&self) -> (r: bool)
        ensures
            r == self.pending(),
    {
        // Need to create at least one variant
        self.variants.len() == 0 || self.data_to_remove.len() > 0 || self.data_to_add.len() > 0
    }

    /// Whether data were added or removed since the last variant.
    pub(crate) fn has_data_changes(&self) -> (r: bool)
        ensures
            r == (self.to_add().len() > 0 || self.to_remove().len() > 0),
    {
        self.data_to_remove.len() > 0 || self.data_to_add.len() > 0
    }

    /// Closes the current record variant and allows starting a new one.
    ///
    /// When nothing changed since the last variant, the last variant is given back.
    pub fn close_record_variant_with<Builder>(&mut self, builder: Builder) -> (r: RecordVariantId) where
        Builder: RecordVariantBuilder<D>,

        requires
            old(self).wf(),
            old(self).pending() ==> builder.admits(
                old(self).defs(),
                old(self).last_data(),
                old(self).to_add(),
                old(self).to_remove(),
            ),
        ensures
            final(self).wf(),
            variant_closed(*old(self), *final(self), r),
            old(self).pending() ==> builder.builds(
                old(self).defs(),
                final(self).defs(),
                old(self).last_data(),
                old(self).to_add(),
                old(self).to_remove(),
                final(self).variants_view().last().data@,
            ),
    {
        if !self.has_pending_changes() {
            return RecordVariantId(self.variants.len() - 1);
        }
        let data = if self.variants.len() > 0 {
            self.variants[self.variants.len() - 1].data.clone()
        } else {
            Vec::new()
        };
        proof {
            assert(data@ == self.last_data());
            if self.variants_view().len() > 0 {
                assert(valid_ids(self.defs().len(), self.variants_view()[self.variants_view().len() - 1].data@));
            }
            assert forall|i: int| 0 <= i < self.to_add().len() implies !self.last_data().contains(#[trigger] self.to_add()[i])
                && !self.to_remove().contains(self.to_add()[i]) by {
                if self.variants_view().len() > 0 {
                    assert(!self.variants_view()[self.variants_view().len() - 1].data@.contains(self.to_add()[i]));
                }
                if self.to_remove().contains(self.to_add()[i]) {
                    let k = choose|k: int| 0 <= k < self.to_remove().len() && self.to_remove()[k] == self.to_add()[i];
                    assert(self.last_data().contains(self.to_remove()[k]));
                }
            }
        }
        let mut data_to_add: Vec<DatumId> = Vec::new();
        let mut data_to_remove: Vec<DatumId> = Vec::new();
        core::mem::swap(&mut data_to_add, &mut self.data_to_add);
        core::mem::swap(&mut data_to_remove, &mut self.data_to_remove);
        let data = builder.build(data, data_to_add, data_to_remove, &mut self.datum_definitions);
        // And build variant
        let variant_id = RecordVariantId(self.variants.len());
        self.variants.push(RecordVariant { id: variant_id, data });
        proof {
            assert(self.variants_view().take(old(self).variants_view().len() as int) =~= old(self).variants_view());
            assert forall|i: int| 0 <= i < self.defs().len() implies (#[trigger] self.defs()[i]).id.0 == i by {
                assert(old(self).defs()[i].id.0 == i);
            }
            assert forall|i: int| 0 <= i < self.variants_view().len() implies valid_ids(
                self.defs().len(),
                (#[trigger] self.variants_view()[i]).data@,
            ) by {
                if i < old(self).variants_view().len() {
                    assert(self.variants_view()[i] == old(self).variants_view()[i]);
                }
            }
            assert forall|i: int| 0 <= i < self.variants_view().len() implies (#[trigger] self.variants_view()[i]).id.0 == i by {
                if i < old(self).variants_view().len() {
                    assert(self.variants_view()[i] == old(self).variants_view()[i]);
                }
            }
            let n = old(self).variants_view().len() as int;
            assert forall|k: int, x: DatumId|
                0 < k < self.variants_view().len() && (#[trigger] self.variants_view()[k].data@.contains(x)) implies self.variants_view()[k
                - 1].data@.contains(x) || forall|j: int| 0 <= j < k ==> !(#[trigger] self.variants_view()[j].data@.contains(x)) by {
                if k < n {
                    assert(self.variants_view()[k] == old(self).variants_view()[k]);
                    assert(self.variants_view()[k - 1] == old(self).variants_view()[k - 1]);
                    assert forall|j: int| 0 <= j < k implies self.variants_view()[j] == old(self).variants_view()[j] by {}
                } else {
                    assert(self.variants_view()[n - 1] == old(self).variants_view()[n - 1]);
                    if !old(self).last_data().contains(x) {
                        assert(old(self).to_add().contains(x));
                        let m = choose|m: int| 0 <= m < old(self).to_add().len() && old(self).to_add()[m] == x;
                        assert forall|j: int| 0 <= j < k implies !(#[trigger] self.variants_view()[j].data@.contains(x)) by {
                            assert(self.variants_view()[j] == old(self).variants_view()[j]);
                            assert(!old(self).variants_view()[j].data@.contains(old(self).to_add()[m]));
                        }
                    }
                }
            }
        }
        variant_id
    }

    /// Accesses datum definitions by ID.
    pub fn get_datum_definition(&self, id: DatumId) -> (r: Option<&DatumDefinition<D>>)
        ensures
            r == (if id.0 < self.defs().len() { Some(&self.defs()[id.0 as int]) } else { None }),
    {
        self.datum_definitions.get(id)
    }

    /// Accesses variant definitions by ID.
    pub fn get_variant(&self, id: RecordVariantId) -> (r: Option<&RecordVariant>)
        ensures
            r == (if id.0 < self.variants_view().len() { Some(&self.variants_view()[id.0 as int]) } else { None }),
    {
        if id.0 < self.variants.len() {
            Some(&self.variants[id.0])
        } else {
            None
        }
    }

    /// Accesses datum definitions by variant ID and datum name: the first datum of the variant
    /// with that name.
    pub fn get_variant_datum_definition_by_name(&self, variant_id: RecordVariantId, name: &str) -> (r: Option<
        &DatumDefinition<D>,
    >)
        requires
            self.wf(),
        ensures
            variant_id.0 >= self.variants_view().len() ==> r is None,
            variant_id.0 < self.variants_view().len() ==> first_named(
                self.defs(),
                self.variants_view()[variant_id.0 as int].data@,
                name@,
                r,
            ),
    {
        if variant_id.0 < self.variants.len() {
            let variant = &self.variants[variant_id.0];
            proof {
                assert(valid_ids(self.defs().len(), self.variants_view()[variant_id.0 as int].data@));
            }
            find_named(&self.datum_definitions, variant.data.as_slice(), name)
        } else {
            None
        }
    }

    /// The closed variants, in the order of their identifiers.
    pub fn variants(&self) -> (r: &[RecordVariant])
        ensures
            r@ == self.variants_view(),
    {
        self.variants.as_slice()
    }

    /// All the datum definitions so far, in the order of their identifiers.
    pub fn datum_definitions(&self) -> (r: &[DatumDefinition<D>])
        ensures
            r@ == self.defs(),
    {
        self.datum_definitions.as_slice()
    }

    /// Wraps up everything into a [RecordDefinition].
    ///
    /// The latest record variant must be closed.
    pub fn build(self) -> (r: RecordDefinition<D>)
        requires
            self.wf(),
            self.to_add().len() == 0,
            self.to_remove().len() == 0,
        ensures
            r.datum_definitions@ == self.defs(),
            r.variants@ == self.variants_view(),
            r.wf(),
            no_datum_comes_back(r.variants@),
    {
        RecordDefinition { datum_definitions: self.datum_definitions, variants: self.variants }
    }
}

impl<D> Default for GenericRecordDefinitionBuilder<D> {
    fn default() -> (r: Self)
        ensures
            r.wf(),
            r.defs() == Seq::<DatumDefinition<D>>::empty(),
            r.variants_view() == Seq::<RecordVariant>::empty(),
            r.to_add() == Seq::<DatumId>::empty(),
            r.to_remove() == Seq::<DatumId>::empty(),
    {
        Self::new()
    }
}

} // verus!
