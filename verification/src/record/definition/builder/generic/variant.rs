//! Building generic record variants.

use vstd::prelude::*;

use crate::record::definition::{valid_ids, without, DatumDefinition, DatumDefinitionCollection, DatumId};

verus! {

/// What every variant builder is given: `data` holds the data of the previous variant,
/// `data_to_remove` is a part of it, and `data_to_add` holds other datums of the definitions.
pub open spec fn variant_build_pre<D>(
    defs: Seq<DatumDefinition<D>>,
    data: Seq<DatumId>,
    data_to_add: Seq<DatumId>,
    data_to_remove: Seq<DatumId>,
) -> bool {
    &&& forall|i: int| 0 <= i < defs.len() ==> (#[trigger] defs[i]).id.0 == i
    &&& valid_ids(defs.len(), data)
    &&& valid_ids(defs.len(), data_to_add)
    &&& valid_ids(defs.len(), data_to_remove)
    &&& forall|i: int| 0 <= i < data_to_remove.len() ==> data.contains(#[trigger] data_to_remove[i])
    &&& forall|i: int|
        0 <= i < data_to_add.len() ==> !data.contains(#[trigger] data_to_add[i]) && !data_to_remove.contains(
            data_to_add[i],
        )
}

/// What every variant builder gives: the identifiers and names of the datums are unchanged, and
/// the new variant holds, once each, the data of the previous one that are not removed and the
/// added data.
pub open spec fn variant_build_post<D>(
    old_defs: Seq<DatumDefinition<D>>,
    new_defs: Seq<DatumDefinition<D>>,
    data: Seq<DatumId>,
    data_to_add: Seq<DatumId>,
    data_to_remove: Seq<DatumId>,
    result: Seq<DatumId>,
) -> bool {
    &&& new_defs.len() == old_defs.len()
    &&& forall|i: int|
        0 <= i < old_defs.len() ==> (#[trigger] new_defs[i]).id == old_defs[i].id && new_defs[i].name
            == old_defs[i].name
    &&& valid_ids(new_defs.len(), result)
    &&& forall|x: DatumId|
        #[trigger] result.contains(x) <==> (data.contains(x) && !data_to_remove.contains(x))
            || data_to_add.contains(x)
}

/// Trait to implement in order to be used as a variant builder.
pub trait RecordVariantBuilder<D>: Sized {
    /// What this builder needs beyond [variant_build_pre].
    spec fn admits(
        &self,
        defs: Seq<DatumDefinition<D>>,
        data: Seq<DatumId>,
        data_to_add: Seq<DatumId>,
        data_to_remove: Seq<DatumId>,
    ) -> bool;

    /// What this builder gives beyond [variant_build_post].
    spec fn builds(
        &self,
        old_defs: Seq<DatumDefinition<D>>,
        new_defs: Seq<DatumDefinition<D>>,
        data: Seq<DatumId>,
        data_to_add: Seq<DatumId>,
        data_to_remove: Seq<DatumId>,
        result: Seq<DatumId>,
    ) -> bool;

    /// Builder implementation.
    ///
    /// `data` contains the IDs of all the data present in the previous variant of the record.
    ///
    /// `data_to_add` and `data_to_remove` contain the IDs of all the data to add and remove to
    /// build the new record variant.
    ///
    /// `data_to_add` is guaranteed by the caller to have no intersection with either `data` or
    /// `data_to_remove`.
    ///
    /// `data_to_remove` is guaranteed by the caller to be a subset of `data`.
    fn build(
        self,
        data: Vec<DatumId>,
        data_to_add: Vec<DatumId>,
        data_to_remove: Vec<DatumId>,
        datum_definitions: &mut DatumDefinitionCollection<D>,
    ) -> (r: Vec<DatumId>)
        requires
            variant_build_pre(old(datum_definitions)@, data@, data_to_add@, data_to_remove@),
            self.admits(old(datum_definitions)@, data@, data_to_add@, data_to_remove@),
        ensures
            variant_build_post(old(datum_definitions)@, final(datum_definitions)@, data@, data_to_add@, data_to_remove@, r@),
            self.builds(old(datum_definitions)@, final(datum_definitions)@, data@, data_to_add@, data_to_remove@, r@),
    ;
}

/// Membership in the data that are not removed.
pub proof fn lemma_without_contains(data: Seq<DatumId>, removed: Seq<DatumId>)
    ensures
        forall|x: DatumId| #[trigger] without(data, removed).contains(x) <==> data.contains(x) && !removed.contains(x),
    decreases data.len(),
{
    if data.len() > 0 {
        let t = data.drop_last();
        lemma_without_contains(t, removed);
        let w = without(t, removed);
        assert forall|x: DatumId| #[trigger] without(data, removed).contains(x) <==> data.contains(x) && !removed.contains(x) by {
            if data.contains(x) {
                let k = choose|k: int| 0 <= k < data.len() && data[k] == x;
                if k < data.len() - 1 {
                    assert(t[k] == x);
                    assert(t.contains(x));
                }
            }
            if t.contains(x) {
                let k = choose|k: int| 0 <= k < t.len() && t[k] == x;
                assert(data[k] == x);
            }
            if !removed.contains(data.last()) {
                let v = w.push(data.last());
                if v.contains(x) {
                    let k = choose|k: int| 0 <= k < v.len() && v[k] == x;
                    if k < w.len() {
                        assert(w[k] == x);
                        assert(w.contains(x));
                    }
                }
                if w.contains(x) {
                    let k = choose|k: int| 0 <= k < w.len() && w[k] == x;
                    assert(v[k] == x);
                }
                if x == data.last() {
                    assert(v[w.len() as int] == x);
                }
            }
        }
    }
}

/// The data that are not removed are distinct when the data are.
pub proof fn lemma_without_distinct(data: Seq<DatumId>, removed: Seq<DatumId>, len: nat)
    requires
        valid_ids(len, data),
    ensures
        valid_ids(len, without(data, removed)),
    decreases data.len(),
{
    if data.len() > 0 {
        let t = data.drop_last();
        assert forall|i: int| 0 <= i < t.len() implies (#[trigger] t[i]).0 < len by {
            assert(t[i] == data[i]);
        }
        assert forall|i: int, j: int| 0 <= i < j < t.len() implies t[i] != t[j] by {
            assert(t[i] == data[i] && t[j] == data[j]);
        }
        lemma_without_distinct(t, removed, len);
        lemma_without_contains(t, removed);
        let w = without(t, removed);
        if !removed.contains(data.last()) {
            let v = w.push(data.last());
            assert(!w.contains(data.last())) by {
                if t.contains(data.last()) {
                    let k = choose|k: int| 0 <= k < t.len() && t[k] == data.last();
                    assert(data[k] == data[data.len() - 1]);
                }
            }
            assert forall|i: int, j: int| 0 <= i < j < v.len() implies v[i] != v[j] by {
                if j == w.len() {
                    assert(v[i] == w[i]);
                    assert(w.contains(w[i]));
                } else {
                    assert(v[i] == w[i] && v[j] == w[j]);
                }
            }
            assert forall|i: int| 0 <= i < v.len() implies (#[trigger] v[i]).0 < len by {
                if i < w.len() {
                    assert(v[i] == w[i]);
                }
            }
        }
    }
}

/// Removes the data to remove, keeping the order of the others.
pub fn remove_all(data: Vec<DatumId>, data_to_remove: &[DatumId]) -> (r: Vec<DatumId>)
    ensures
        r@ == without(data@, data_to_remove@),
{
    let mut kept: Vec<DatumId> = Vec::new();
    let mut i: usize = 0;
    proof {
        assert(data@.take(0) =~= Seq::<DatumId>::empty());
    }
    while i < data.len()
        invariant
            i <= data@.len(),
            kept@ == without(data@.take(i as int), data_to_remove@),
        decreases data@.len() - i,
    {
        let d = data[i];
        let mut found = false;
        let mut j: usize = 0;
        while j < data_to_remove.len()
            invariant
                j <= data_to_remove@.len(),
                found <==> data_to_remove@.take(j as int).contains(d),
            decreases data_to_remove@.len() - j,
        {
            proof {
                assert(data_to_remove@.take(j + 1) =~= data_to_remove@.take(j as int).push(data_to_remove@[j as int]));
                crate::record::definition::builder::native::variant::lemma_push_contains(
                    data_to_remove@.take(j as int),
                    data_to_remove@[j as int],
                );
            }
            if data_to_remove[j] == d {
                found = true;
            }
            j = j + 1;
        }
        proof {
            assert(data_to_remove@.take(data_to_remove@.len() as int) =~= data_to_remove@);
            assert(data@.take(i + 1).drop_last() =~= data@.take(i as int));
        }
        if !found {
            kept.push(d);
        }
        i = i + 1;
    }
    proof {
        assert(data@.take(data@.len() as int) =~= data@);
    }
    kept
}

/// Record variant builder that simply removes data and appends data at the end of the record.
pub fn append_data<D>(
    data: Vec<DatumId>,
    data_to_add: Vec<DatumId>,
    data_to_remove: Vec<DatumId>,
    _datum_definitions: &mut DatumDefinitionCollection<D>,
) -> (r: Vec<DatumId>)
    ensures
        r@ == without(data@, data_to_remove@) + data_to_add@,
        final(_datum_definitions)@ == old(_datum_definitions)@,
{
    let mut data = remove_all(data, data_to_remove.as_slice());
    let ghost kept = data@;
    let mut i: usize = 0;
    while i < data_to_add.len()
        invariant
            i <= data_to_add@.len(),
            data@ == kept + data_to_add@.take(i as int),
        decreases data_to_add@.len() - i,
    {
        data.push(data_to_add[i]);
        i = i + 1;
        proof {
            assert(data@ =~= kept + data_to_add@.take(i as int));
        }
    }
    proof {
        assert(data_to_add@.take(data_to_add@.len() as int) =~= data_to_add@);
    }
    data
}

/// Record variant builder that simply removes data and appends data in "reverse" order at the end
/// of the record.
///
/// Useful to simulate fuzzing.
pub fn append_data_reverse<D>(
    data: Vec<DatumId>,
    data_to_add: Vec<DatumId>,
    data_to_remove: Vec<DatumId>,
    _datum_definitions: &mut DatumDefinitionCollection<D>,
) -> (r: Vec<DatumId>)
    ensures
        r@ == without(data@, data_to_remove@) + data_to_add@.reverse(),
        final(_datum_definitions)@ == old(_datum_definitions)@,
{
    let mut data = remove_all(data, data_to_remove.as_slice());
    let ghost kept = data@;
    let ghost add = data_to_add@;
    let mut i: usize = data_to_add.len();
    while i > 0
        invariant
            i <= add.len(),
            data_to_add@ == add,
            data@ == kept + add.skip(i as int).reverse(),
        decreases i,
    {
        i = i - 1;
        data.push(data_to_add[i]);
        proof {
            assert(add.skip(i as int).reverse() =~= add.skip(i + 1).reverse().push(add[i as int]));
            assert(data@ =~= kept + add.skip(i as int).reverse());
        }
    }
    proof {
        assert(add.skip(0) =~= add);
    }
    data
}

/// Membership and distinctness of two sequences put together.
pub proof fn lemma_concat_ids(a: Seq<DatumId>, b: Seq<DatumId>, len: nat)
    ensures
        forall|x: DatumId| #[trigger] (a + b).contains(x) <==> a.contains(x) || b.contains(x),
        valid_ids(len, a) && valid_ids(len, b) && (forall|i: int| 0 <= i < b.len() ==> !a.contains(#[trigger] b[i]))
            ==> valid_ids(len, a + b),
{
    let c = a + b;
    assert forall|x: DatumId| #[trigger] c.contains(x) <==> a.contains(x) || b.contains(x) by {
        if c.contains(x) {
            let k = choose|k: int| 0 <= k < c.len() && c[k] == x;
            if k < a.len() {
                assert(a[k] == x);
            } else {
                assert(b[k - a.len()] == x);
            }
        }
        if a.contains(x) {
            let k = choose|k: int| 0 <= k < a.len() && a[k] == x;
            assert(c[k] == x);
        }
        if b.contains(x) {
            let k = choose|k: int| 0 <= k < b.len() && b[k] == x;
            assert(c[a.len() + k] == x);
        }
    }
    if valid_ids(len, a) && valid_ids(len, b) && (forall|i: int| 0 <= i < b.len() ==> !a.contains(#[trigger] b[i])) {
        assert forall|i: int| 0 <= i < c.len() implies (#[trigger] c[i]).0 < len by {
            if i < a.len() {
                assert(c[i] == a[i]);
            } else {
                assert(c[i] == b[i - a.len()]);
            }
        }
        assert forall|i: int, j: int| 0 <= i < j < c.len() implies c[i] != c[j] by {
            if j < a.len() {
                assert(c[i] == a[i] && c[j] == a[j]);
            } else if i >= a.len() {
                assert(c[i] == b[i - a.len()] && c[j] == b[j - a.len()]);
            } else {
                assert(c[i] == a[i] && c[j] == b[j - a.len()]);
                assert(a.contains(a[i]));
            }
        }
    }
}

/// The reverse of distinct identifiers holds the same distinct identifiers.
pub proof fn lemma_reverse_ids(a: Seq<DatumId>, len: nat)
    ensures
        forall|x: DatumId| #[trigger] a.reverse().contains(x) <==> a.contains(x),
        valid_ids(len, a) ==> valid_ids(len, a.reverse()),
{
    let r = a.reverse();
    assert forall|x: DatumId| #[trigger] r.contains(x) <==> a.contains(x) by {
        if r.contains(x) {
            let k = choose|k: int| 0 <= k < r.len() && r[k] == x;
            assert(a[a.len() - 1 - k] == x);
        }
        if a.contains(x) {
            let k = choose|k: int| 0 <= k < a.len() && a[k] == x;
            assert(r[a.len() - 1 - k] == x);
        }
    }
    if valid_ids(len, a) {
        assert forall|i: int, j: int| 0 <= i < j < r.len() implies r[i] != r[j] by {
            assert(r[i] == a[a.len() - 1 - i] && r[j] == a[a.len() - 1 - j]);
        }
        assert forall|i: int| 0 <= i < r.len() implies (#[trigger] r[i]).0 < len by {
            assert(r[i] == a[a.len() - 1 - i]);
        }
    }
}

/// The generic builder [append_data] as a value.
pub struct AppendData;

/// The generic builder [append_data_reverse] as a value.
pub struct AppendDataReverse;

impl<D> RecordVariantBuilder<D> for AppendData {
    open spec fn admits(
        &self,
        defs: Seq<DatumDefinition<D>>,
        data: Seq<DatumId>,
        data_to_add: Seq<DatumId>,
        data_to_remove: Seq<DatumId>,
    ) -> bool {
        true
    }

    open spec fn builds(
        &self,
        old_defs: Seq<DatumDefinition<D>>,
        new_defs: Seq<DatumDefinition<D>>,
        data: Seq<DatumId>,
        data_to_add: Seq<DatumId>,
        data_to_remove: Seq<DatumId>,
        result: Seq<DatumId>,
    ) -> bool {
        &&& new_defs == old_defs
        &&& result == without(data, data_to_remove) + data_to_add
    }

    fn build(
        self,
        data: Vec<DatumId>,
        data_to_add: Vec<DatumId>,
        data_to_remove: Vec<DatumId>,
        datum_definitions: &mut DatumDefinitionCollection<D>,
    ) -> (r: Vec<DatumId>) {
        let ghost len = datum_definitions@.len();
        proof {
            lemma_without_contains(data@, data_to_remove@);
            lemma_without_distinct(data@, data_to_remove@, len);
            lemma_concat_ids(without(data@, data_to_remove@), data_to_add@, len);
        }
        append_data(data, data_to_add, data_to_remove, datum_definitions)
    }
}

impl<D> RecordVariantBuilder<D> for AppendDataReverse {
    open spec fn admits(
        &self,
        defs: Seq<DatumDefinition<D>>,
        data: Seq<DatumId>,
        data_to_add: Seq<DatumId>,
        data_to_remove: Seq<DatumId>,
    ) -> bool {
        true
    }

    open spec fn builds(
        &self,
        old_defs: Seq<DatumDefinition<D>>,
        new_defs: Seq<DatumDefinition<D>>,
        data: Seq<DatumId>,
        data_to_add: Seq<DatumId>,
        data_to_remove: Seq<DatumId>,
        result: Seq<DatumId>,
    ) -> bool {
        &&& new_defs == old_defs
        &&& result == without(data, data_to_remove) + data_to_add.reverse()
    }

    fn build(
        self,
        data: Vec<DatumId>,
        data_to_add: Vec<DatumId>,
        data_to_remove: Vec<DatumId>,
        datum_definitions: &mut DatumDefinitionCollection<D>,
    ) -> (r: Vec<DatumId>) {
        let ghost len = datum_definitions@.len();
        proof {
            lemma_without_contains(data@, data_to_remove@);
            lemma_without_distinct(data@, data_to_remove@, len);
            lemma_reverse_ids(data_to_add@, len);
            assert forall|i: int| 0 <= i < data_to_add@.reverse().len() implies !without(data@, data_to_remove@).contains(
                #[trigger] data_to_add@.reverse()[i],
            ) by {
                assert(data_to_add@.reverse().contains(data_to_add@.reverse()[i]));
                let k = choose|k: int| 0 <= k < data_to_add@.len() && data_to_add@[k] == data_to_add@.reverse()[i];
                assert(!data@.contains(data_to_add@[k]));
            }
            lemma_concat_ids(without(data@, data_to_remove@), data_to_add@.reverse(), len);
        }
        append_data_reverse(data, data_to_add, data_to_remove, datum_definitions)
    }
}

} // verus!
