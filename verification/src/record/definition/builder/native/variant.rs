//! Building native record variants: placing data in the record buffer.

use vstd::prelude::*;

use crate::record::definition::builder::generic::variant::{
    lemma_without_contains, variant_build_post, variant_build_pre, RecordVariantBuilder,
};
use crate::record::definition::{
    align_of_datum, end_of, offset_of, ordered_layout, size_of_datum, valid_ids, with_offset,
    without, DatumDefinition, DatumDefinitionCollection, DatumId, NativeDatumDetails, NativeDefs,
};

verus! {

/// Rounds `caret` up to the next multiple of `align`.
pub open spec fn align_up(caret: int, align: int) -> int {
    (caret + (align - 1)) / align * align
}

/// Rounds `caret` up to the next multiple of `align`.
pub fn align_bytes(caret: usize, align: usize) -> (r: usize)
    requires
        align > 0,
        caret + align - 1 <= usize::MAX,
    ensures
        r == align_up(caret as int, align as int),
        caret <= r < caret + align,
        r % align == 0,
{
    proof {
        lemma_align_up(caret as int, align as int);
    }
    (caret + (align - 1)) / align * align
}

/// Rounding up stays within one alignment step and gives a multiple.
pub proof fn lemma_align_up(caret: int, align: int)
    requires
        align > 0,
        caret >= 0,
    ensures
        caret <= align_up(caret, align) < caret + align,
        align_up(caret, align) % align == 0,
        align_up(caret, align) >= 0,
{
    let x = caret + align - 1;
    let q = x / align;
    vstd::arithmetic::div_mod::lemma_fundamental_div_mod(x, align);
    vstd::arithmetic::div_mod::lemma_mod_pos_bound(x, align);
    vstd::arithmetic::div_mod::lemma_div_pos_is_pos(x, align);
    vstd::arithmetic::div_mod::lemma_mod_multiples_basic(q, align);
    vstd::arithmetic::mul::lemma_mul_nonnegative(q, align);
    vstd::arithmetic::mul::lemma_mul_is_commutative(q, align);
}

/// Adding a multiple of the alignment keeps a value aligned.
pub proof fn lemma_aligned_add(a: int, k: int, align: int)
    requires
        align > 0,
        a % align == 0,
    ensures
        (a + k * align) % align == 0,
{
    vstd::arithmetic::div_mod::lemma_mod_multiples_vanish(k, a, align);
    vstd::arithmetic::mul::lemma_mul_is_commutative(k, align);
}

/// Both collections hold the same datums, but for their offsets.
pub open spec fn same_but_offsets(a: NativeDefs, b: NativeDefs) -> bool {
    &&& a.len() == b.len()
    &&& forall|i: int|
        0 <= i < a.len() ==> {
            &&& (#[trigger] b[i]).id == a[i].id
            &&& b[i].name == a[i].name
            &&& b[i].details.type_info == a[i].details.type_info
            &&& b[i].details.allow_uninit == a[i].details.allow_uninit
        }
}

/// The datums of `data` have the same offsets in both collections.
pub open spec fn offsets_kept(a: NativeDefs, b: NativeDefs, data: Seq<DatumId>) -> bool {
    forall|i: int|
        0 <= i < data.len() ==> b[(#[trigger] data[i]).0 as int].details.offset == a[data[i].0 as int].details.offset
}

/// Every datum of `data` ends before any datum that comes after it, empty ones included.
pub open spec fn sorted_layout(defs: NativeDefs, data: Seq<DatumId>) -> bool {
    &&& ordered_layout(defs, data)
    &&& forall|i: int, j: int|
        0 <= i < j < data.len() ==> end_of(defs, #[trigger] data[i]) <= offset_of(defs, #[trigger] data[j])
}

/// Where the last datum of `data` ends, 0 when there is none.
pub open spec fn data_end(defs: NativeDefs, data: Seq<DatumId>) -> int {
    if data.len() == 0 {
        0
    } else {
        end_of(defs, data.last())
    }
}

/// The room a datum may take when appended: its alignment plus its size.
pub open spec fn extent(defs: NativeDefs, d: DatumId) -> int {
    align_of_datum(defs, d) + size_of_datum(defs, d)
}

/// The largest extent of the datums of `s`, 0 when there is none.
pub open spec fn max_extent(defs: NativeDefs, s: Seq<DatumId>) -> int
    decreases s.len(),
{
    if s.len() == 0 {
        0
    } else {
        let m = max_extent(defs, s.drop_last());
        let e = extent(defs, s.last());
        if m < e { e } else { m }
    }
}

/// Every extent of `s` is at most `max_extent`.
pub proof fn lemma_max_extent(defs: NativeDefs, s: Seq<DatumId>)
    requires
        forall|i: int| 0 <= i < s.len() ==> (#[trigger] s[i]).0 < defs.len(),
    ensures
        max_extent(defs, s) >= 0,
        forall|i: int| 0 <= i < s.len() ==> extent(defs, #[trigger] s[i]) <= max_extent(defs, s),
    decreases s.len(),
{
    if s.len() > 0 {
        let t = s.drop_last();
        assert forall|i: int| 0 <= i < t.len() implies (#[trigger] t[i]).0 < defs.len() by {
            assert(t[i] == s[i]);
        }
        lemma_max_extent(defs, t);
        assert forall|i: int| 0 <= i < s.len() implies extent(defs, #[trigger] s[i]) <= max_extent(defs, s) by {
            if i < s.len() - 1 {
                assert(t[i] == s[i]);
            }
        }
    }
}

/// Every datum of `data` ends at or before `limit`.
pub open spec fn ends_within(defs: NativeDefs, data: Seq<DatumId>, limit: int) -> bool {
    forall|i: int| 0 <= i < data.len() ==> end_of(defs, #[trigger] data[i]) <= limit
}

/// There is room in the address space to place every datum of `add` after the datums of `data`.
pub open spec fn fits(defs: NativeDefs, data: Seq<DatumId>, add: Seq<DatumId>) -> bool {
    &&& add.len() * max_extent(defs, add) <= usize::MAX
    &&& ends_within(defs, data, usize::MAX - add.len() * max_extent(defs, add))
}

/// What every native variant builder needs: `data` is the layout of the previous variant,
/// `data_to_remove` is a part of it, `data_to_add` holds new datums with a non-zero alignment
/// that fit in the address space.
pub open spec fn layout_pre(
    defs: NativeDefs,
    data: Seq<DatumId>,
    data_to_add: Seq<DatumId>,
    data_to_remove: Seq<DatumId>,
) -> bool {
    &&& ordered_layout(defs, data)
    &&& valid_ids(defs.len(), data_to_add)
    &&& forall|i: int|
        0 <= i < data_to_add.len() ==> !data.contains(#[trigger] data_to_add[i])
            && align_of_datum(defs, data_to_add[i]) > 0
    &&& fits(defs, data, data_to_add)
}

/// What every native variant builder gives: the new variant holds the data of the previous one
/// that are not removed and the added data, laid out in memory without overlap; the offsets of
/// datums that are not added are kept and nothing else changes in the definitions.
pub open spec fn layout_post(
    old_defs: NativeDefs,
    new_defs: NativeDefs,
    data: Seq<DatumId>,
    data_to_add: Seq<DatumId>,
    data_to_remove: Seq<DatumId>,
    result: Seq<DatumId>,
) -> bool {
    &&& same_but_offsets(old_defs, new_defs)
    &&& offsets_kept_but(old_defs, new_defs, data_to_add)
    &&& forall|x: DatumId|
        #[trigger] result.contains(x) <==> (data.contains(x) && !data_to_remove.contains(x))
            || data_to_add.contains(x)
    &&& ordered_layout(new_defs, result)
}

/// Only the datums of `moved` may have a new offset.
pub open spec fn offsets_kept_but(a: NativeDefs, b: NativeDefs, moved: Seq<DatumId>) -> bool {
    forall|i: int|
        0 <= i < a.len() && !moved.contains(DatumId(i as usize)) ==> (#[trigger] b[i]).details.offset
            == a[i].details.offset
}

/// `a` is made of elements of `b`, in the same order.
pub open spec fn subsequence_of(a: Seq<DatumId>, b: Seq<DatumId>) -> bool {
    exists|idx: Seq<int>|
        {
            &&& idx.len() == a.len()
            &&& forall|k: int| 0 <= k < idx.len() ==> 0 <= #[trigger] idx[k] < b.len() && a[k] == b[idx[k]]
            &&& forall|k: int, l: int| 0 <= k < l < idx.len() ==> #[trigger] idx[k] < #[trigger] idx[l]
        }
}

/// Keeping some of the data, in order, keeps the layout properties.
pub proof fn lemma_subsequence_layout(defs: NativeDefs, a: Seq<DatumId>, b: Seq<DatumId>)
    requires
        subsequence_of(a, b),
    ensures
        ordered_layout(defs, b) ==> ordered_layout(defs, a),
        sorted_layout(defs, b) ==> sorted_layout(defs, a),
        forall|x: DatumId| a.contains(x) ==> b.contains(x),
{
    let idx = choose|idx: Seq<int>|
        {
            &&& idx.len() == a.len()
            &&& forall|k: int| 0 <= k < idx.len() ==> 0 <= #[trigger] idx[k] < b.len() && a[k] == b[idx[k]]
            &&& forall|k: int, l: int| 0 <= k < l < idx.len() ==> #[trigger] idx[k] < #[trigger] idx[l]
        };
    assert forall|x: DatumId| a.contains(x) implies b.contains(x) by {
        let k = choose|k: int| 0 <= k < a.len() && a[k] == x;
        assert(b[idx[k]] == x);
    }
    if ordered_layout(defs, b) {
        assert forall|i: int, j: int| 0 <= i < j < a.len() implies a[i] != a[j] by {
            assert(idx[i] < idx[j]);
        }
        assert forall|i: int, j: int|
            0 <= i < j < a.len() && size_of_datum(defs, #[trigger] a[i]) > 0 implies end_of(defs, a[i])
            <= offset_of(defs, #[trigger] a[j]) by {
            assert(idx[i] < idx[j]);
            assert(a[i] == b[idx[i]] && a[j] == b[idx[j]]);
        }
        assert forall|i: int| 0 <= i < a.len() implies {
            &&& align_of_datum(defs, #[trigger] a[i]) > 0
            &&& offset_of(defs, a[i]) % align_of_datum(defs, a[i]) == 0
            &&& end_of(defs, a[i]) <= usize::MAX
        } by {
            assert(a[i] == b[idx[i]]);
        }
        assert forall|i: int| 0 <= i < a.len() implies (#[trigger] a[i]).0 < defs.len() by {
            assert(a[i] == b[idx[i]]);
        }
    }
    if sorted_layout(defs, b) {
        assert forall|i: int, j: int| 0 <= i < j < a.len() implies end_of(defs, #[trigger] a[i])
            <= offset_of(defs, #[trigger] a[j]) by {
            assert(idx[i] < idx[j]);
            assert(a[i] == b[idx[i]] && a[j] == b[idx[j]]);
        }
    }
}

/// Distinct identifiers below `bound` are at most `bound`.
pub proof fn lemma_distinct_ids_bound(s: Seq<DatumId>, bound: nat)
    requires
        valid_ids(bound, s),
    ensures
        s.len() <= bound,
    decreases bound,
{
    if s.len() > 0 {
        assert(s[0].0 < bound);
        let last = (bound - 1) as nat;
        if exists|k: int| 0 <= k < s.len() && s[k].0 == last {
            let k = choose|k: int| 0 <= k < s.len() && s[k].0 == last;
            let t = s.remove(k);
            assert forall|i: int| 0 <= i < t.len() implies (#[trigger] t[i]).0 < last by {
                if i < k {
                    assert(t[i] == s[i] && s[i] != s[k]);
                } else {
                    assert(t[i] == s[i + 1] && s[i + 1] != s[k]);
                }
            }
            assert forall|i: int, j: int| 0 <= i < j < t.len() implies t[i] != t[j] by {
                if j < k {
                } else if i < k {
                    assert(t[j] == s[j + 1]);
                } else {
                    assert(t[i] == s[i + 1] && t[j] == s[j + 1]);
                }
            }
            lemma_distinct_ids_bound(t, last);
        } else {
            assert forall|i: int| 0 <= i < s.len() implies (#[trigger] s[i]).0 < last by {}
            lemma_distinct_ids_bound(s, last);
        }
    }
}

/// Membership in a sequence after a push.
pub proof fn lemma_push_contains<A>(s: Seq<A>, a: A)
    ensures
        forall|x: A| #[trigger] s.push(a).contains(x) <==> s.contains(x) || x == a,
{
    assert forall|x: A| #[trigger] s.push(a).contains(x) <==> s.contains(x) || x == a by {
        if s.push(a).contains(x) {
            let k = choose|k: int| 0 <= k < s.push(a).len() && s.push(a)[k] == x;
            if k < s.len() {
                assert(s[k] == x);
            }
        }
        if s.contains(x) {
            let k = choose|k: int| 0 <= k < s.len() && s[k] == x;
            assert(s.push(a)[k] == x);
        }
        if x == a {
            assert(s.push(a)[s.len() as int] == x);
        }
    }
}

/// Pushing a datum at or after the end of the last one keeps the layout properties.
pub proof fn lemma_push_layout(defs: NativeDefs, data: Seq<DatumId>, id: DatumId, offset: usize)
    requires
        ordered_layout(defs, data),
        id.0 < defs.len(),
        !data.contains(id),
        align_of_datum(defs, id) > 0,
        data_end(defs, data) <= offset,
        (offset as int) % align_of_datum(defs, id) == 0,
        offset + size_of_datum(defs, id) <= usize::MAX,
    ensures
        ordered_layout(defs.update(id.0 as int, with_offset(defs[id.0 as int], offset)), data.push(id)),
        sorted_layout(defs, data) ==> sorted_layout(
            defs.update(id.0 as int, with_offset(defs[id.0 as int], offset)),
            data.push(id),
        ),
        offsets_kept(defs, defs.update(id.0 as int, with_offset(defs[id.0 as int], offset)), data),
{
    let defs2 = defs.update(id.0 as int, with_offset(defs[id.0 as int], offset));
    let data2 = data.push(id);
    assert forall|i: int| 0 <= i < data.len() implies (#[trigger] data[i]) != id by {
        if data[i] == id {
            assert(data.contains(id));
        }
    }
    assert forall|i: int| 0 <= i < data.len() implies defs2[(#[trigger] data[i]).0 as int] == defs[data[i].0 as int] by {}
    // The last datum ends after every non-empty datum.
    assert forall|i: int| 0 <= i < data.len() && size_of_datum(defs, #[trigger] data[i]) > 0 implies end_of(defs, data[i])
        <= data_end(defs, data) by {
        if i < data.len() - 1 {
            assert(end_of(defs, data[i]) <= offset_of(defs, data[data.len() - 1]));
        }
    }
    assert forall|i: int| 0 <= i < data2.len() implies (#[trigger] data2[i]).0 < defs2.len() by {
        if i < data.len() {
            assert(data2[i] == data[i]);
        }
    }
    assert forall|i: int, j: int| 0 <= i < j < data2.len() implies data2[i] != data2[j] by {
        if j == data.len() {
            assert(data2[i] == data[i]);
        } else {
            assert(data2[i] == data[i] && data2[j] == data[j]);
        }
    }
    assert forall|i: int| 0 <= i < data2.len() implies {
        &&& align_of_datum(defs2, #[trigger] data2[i]) > 0
        &&& offset_of(defs2, data2[i]) % align_of_datum(defs2, data2[i]) == 0
        &&& end_of(defs2, data2[i]) <= usize::MAX
    } by {
        if i < data.len() {
            assert(data2[i] == data[i]);
        }
    }
    assert forall|i: int, j: int|
        0 <= i < j < data2.len() && size_of_datum(defs2, #[trigger] data2[i]) > 0 implies end_of(defs2, data2[i])
        <= offset_of(defs2, #[trigger] data2[j]) by {
        assert(data2[i] == data[i]);
        if j < data.len() {
            assert(data2[j] == data[j]);
        }
    }
    if sorted_layout(defs, data) {
        assert forall|i: int, j: int| 0 <= i < j < data2.len() implies end_of(defs2, #[trigger] data2[i])
            <= offset_of(defs2, #[trigger] data2[j]) by {
            assert(data2[i] == data[i]);
            if j < data.len() {
                assert(data2[j] == data[j]);
            } else if i < data.len() - 1 {
                assert(end_of(defs, data[i]) <= offset_of(defs, data[data.len() - 1]));
            }
        }
    }
}

/// Extension trait for [`Vec<DatumId>`].
pub trait NativeDataUpdater: Sized + View<V = Seq<DatumId>> {
    /// Finds the end offset boundary of the record variant.
    ///
    /// This is where datums can be appended.
    fn end(&self, datum_definitions: &DatumDefinitionCollection<NativeDatumDetails>) -> (r: usize)
        requires
            forall|i: int| 0 <= i < self@.len() ==> (#[trigger] self@[i]).0 < datum_definitions@.len(),
            data_end(datum_definitions@, self@) <= usize::MAX,
        ensures
            r == data_end(datum_definitions@, self@),
    ;

    /// Removes a set of datums in one go, keeping the order of the others.
    fn remove_data(&mut self, datum_ids: &[DatumId])
        ensures
            subsequence_of(final(self)@, old(self)@),
            final(self)@ == without(old(self)@, datum_ids@),
            forall|x: DatumId|
                #[trigger] final(self)@.contains(x) <==> old(self)@.contains(x) && !datum_ids@.contains(x),
    ;

    /// Pushes a datum at the end of the record variant: its offset is the end of the last datum
    /// rounded up to its alignment. It gives that end and the new offset.
    fn push_datum(
        &mut self,
        datum_definitions: &mut DatumDefinitionCollection<NativeDatumDetails>,
        datum_id: DatumId,
    ) -> (r: (usize, usize))
        requires
            forall|i: int| 0 <= i < old(self)@.len() ==> (#[trigger] old(self)@[i]).0 < old(datum_definitions)@.len(),
            datum_id.0 < old(datum_definitions)@.len(),
            align_of_datum(old(datum_definitions)@, datum_id) > 0,
            data_end(old(datum_definitions)@, old(self)@) + extent(old(datum_definitions)@, datum_id) <= usize::MAX,
        ensures
            final(self)@ == old(self)@.push(datum_id),
            r.0 == data_end(old(datum_definitions)@, old(self)@),
            r.1 == align_up(r.0 as int, align_of_datum(old(datum_definitions)@, datum_id)),
            final(datum_definitions)@ == old(datum_definitions)@.update(
                datum_id.0 as int,
                with_offset(old(datum_definitions)@[datum_id.0 as int], r.1),
            ),
    ;
}

impl NativeDataUpdater for Vec<DatumId> {
    fn end(&self, datum_definitions: &DatumDefinitionCollection<NativeDatumDetails>) -> (r: usize) {
        if self.len() == 0 {
            0
        } else {
            let d = self[self.len() - 1];
            let datum = &datum_definitions.as_slice()[d.0];
            datum.details.offset + datum.details.type_info.size
        }
    }

    fn remove_data(&mut self, datum_ids: &[DatumId]) {
        let ghost initial = self@;
        let mut kept: Vec<DatumId> = Vec::new();
        proof {
            assert(initial.take(0) =~= Seq::<DatumId>::empty());
        }
        let ghost mut idx: Seq<int> = Seq::empty();
        let mut i: usize = 0;
        while i < self.len()
            invariant
                self@ == initial,
                i <= initial.len(),
                idx.len() == kept@.len(),
                forall|k: int| 0 <= k < idx.len() ==> 0 <= #[trigger] idx[k] < i && kept@[k] == initial[idx[k]],
                forall|k: int, l: int| 0 <= k < l < idx.len() ==> #[trigger] idx[k] < #[trigger] idx[l],
                forall|x: DatumId|
                    #[trigger] kept@.contains(x) <==> initial.take(i as int).contains(x) && !datum_ids@.contains(x),
                kept@ == without(initial.take(i as int), datum_ids@),
            decreases initial.len() - i,
        {
            let d = self[i];
            let mut found = false;
            let mut j: usize = 0;
            while j < datum_ids.len()
                invariant
                    j <= datum_ids@.len(),
                    found <==> datum_ids@.take(j as int).contains(d),
                decreases datum_ids@.len() - j,
            {
                proof {
                    assert(datum_ids@.take(j + 1) =~= datum_ids@.take(j as int).push(datum_ids@[j as int]));
                    lemma_push_contains(datum_ids@.take(j as int), datum_ids@[j as int]);
                }
                if datum_ids[j] == d {
                    found = true;
                }
                j = j + 1;
            }
            proof {
                assert(datum_ids@.take(datum_ids@.len() as int) =~= datum_ids@);
                assert(initial.take(i + 1) =~= initial.take(i as int).push(d));
                assert(initial.take(i + 1).drop_last() =~= initial.take(i as int));
                lemma_push_contains(initial.take(i as int), d);
                lemma_push_contains(kept@, d);
            }
            if !found {
                kept.push(d);
                proof {
                    idx = idx.push(i as int);
                }
            }
            i = i + 1;
        }
        proof {
            assert(initial.take(initial.len() as int) =~= initial);
            assert(subsequence_of(kept@, initial));
        }
        *self = kept;
    }

    fn push_datum(
        &mut self,
        datum_definitions: &mut DatumDefinitionCollection<NativeDatumDetails>,
        datum_id: DatumId,
    ) -> (r: (usize, usize)) {
        let end = self.end(datum_definitions);
        let align = datum_definitions.as_slice()[datum_id.0].details.type_info.align;
        let offset = align_bytes(end, align);
        self.push(datum_id);
        datum_definitions.set_offset(datum_id, offset);
        (end, offset)
    }
}

/// `r` is made of some of the datums of `data`, in order, followed by the datums of `added`.
pub open spec fn appended(data: Seq<DatumId>, added: Seq<DatumId>, r: Seq<DatumId>) -> bool {
    &&& r.len() >= added.len()
    &&& r.skip(r.len() - added.len()) == added
    &&& subsequence_of(r.take(r.len() - added.len()), data)
}

/// Removing data keeps the requirements of the variant builders.
pub proof fn lemma_removed_layout(defs: NativeDefs, kept: Seq<DatumId>, data: Seq<DatumId>, add: Seq<DatumId>)
    requires
        subsequence_of(kept, data),
        ordered_layout(defs, data),
        fits(defs, data, add),
        forall|i: int| 0 <= i < add.len() ==> !data.contains(#[trigger] add[i]),
    ensures
        ordered_layout(defs, kept),
        fits(defs, kept, add),
        forall|i: int| 0 <= i < add.len() ==> !kept.contains(#[trigger] add[i]),
        sorted_layout(defs, data) ==> sorted_layout(defs, kept),
{
    lemma_subsequence_layout(defs, kept, data);
    assert forall|i: int| 0 <= i < kept.len() implies end_of(defs, #[trigger] kept[i]) <= usize::MAX - add.len()
        * max_extent(defs, add) by {
        assert(data.contains(kept[i]));
    }
}

/// The result of removing then pushing data meets the common post-condition.
pub proof fn lemma_appended(
    defs0: NativeDefs,
    defs1: NativeDefs,
    data: Seq<DatumId>,
    kept: Seq<DatumId>,
    add: Seq<DatumId>,
    remove: Seq<DatumId>,
    r: Seq<DatumId>,
)
    requires
        subsequence_of(kept, data),
        forall|x: DatumId| #[trigger] kept.contains(x) <==> data.contains(x) && !remove.contains(x),
        r == kept + add,
        same_but_offsets(defs0, defs1),
        offsets_kept_but(defs0, defs1, add),
        ordered_layout(defs1, r),
    ensures
        layout_post(defs0, defs1, data, add, remove, r),
        appended(data, add, r),
{
    assert(r.skip(r.len() - add.len()) =~= add);
    assert(r.take(r.len() - add.len()) =~= kept);
    assert forall|x: DatumId| #[trigger] r.contains(x) <==> (data.contains(x) && !remove.contains(x)) || add.contains(x) by {
        if r.contains(x) {
            let k = choose|k: int| 0 <= k < r.len() && r[k] == x;
            if k < kept.len() {
                assert(kept[k] == x);
                assert(kept.contains(x));
            } else {
                assert(add[k - kept.len()] == x);
            }
        }
        if kept.contains(x) {
            let k = choose|k: int| 0 <= k < kept.len() && kept[k] == x;
            assert(r[k] == x);
        }
        if add.contains(x) {
            let k = choose|k: int| 0 <= k < add.len() && add[k] == x;
            assert(r[kept.len() + k] == x);
        }
    }
}

/// One more step of a budget of `n` steps of `m`.
pub proof fn lemma_budget_step(n: int, k: int, m: int)
    requires
        0 <= k < n,
        m >= 0,
    ensures
        (n - k) * m == (n - (k + 1)) * m + m,
        (n - (k + 1)) * m >= 0,
{
    assert((n - k) * m == (n - (k + 1)) * m + m) by (nonlinear_arith);
    assert((n - (k + 1)) * m >= 0) by (nonlinear_arith)
        requires
            0 <= k < n,
            m >= 0,
    ;
}

/// One datum pushed after the data: at their end, rounded up to its alignment.
pub open spec fn pushed_at_end(state: (NativeDefs, Seq<DatumId>), d: DatumId) -> (NativeDefs, Seq<DatumId>) {
    let defs = state.0;
    let offset = align_up(data_end(defs, state.1), align_of_datum(defs, d));
    (defs.update(d.0 as int, with_offset(defs[d.0 as int], offset as usize)), state.1.push(d))
}

/// The data of `order` pushed one after the other after the data.
pub open spec fn pushed_all(state: (NativeDefs, Seq<DatumId>), order: Seq<DatumId>) -> (NativeDefs, Seq<DatumId>)
    decreases order.len(),
{
    if order.len() == 0 {
        state
    } else {
        pushed_at_end(pushed_all(state, order.drop_last()), order.last())
    }
}

/// What the appending builders give, the definitions then the data of the new variant: the data
/// to remove are removed, then the data of `order` are pushed one after the other, each at the
/// end of the data before it, rounded up to its alignment.
pub open spec fn append_layout(
    defs: NativeDefs,
    data: Seq<DatumId>,
    order: Seq<DatumId>,
    data_to_remove: Seq<DatumId>,
) -> (NativeDefs, Seq<DatumId>) {
    pushed_all((defs, without(data, data_to_remove)), order)
}

/// Pushes the datums of `order`, one after the other, at the end of `data`.
fn push_all(
    data: &mut Vec<DatumId>,
    order: &[DatumId],
    defs: &mut DatumDefinitionCollection<NativeDatumDetails>,
    Ghost(m): Ghost<int>,
)
    requires
        ordered_layout(old(defs)@, old(data)@),
        valid_ids(old(defs)@.len(), order@),
        forall|i: int|
            0 <= i < order@.len() ==> !old(data)@.contains(#[trigger] order@[i]) && align_of_datum(old(defs)@, order@[i])
                > 0,
        m >= 0,
        forall|i: int| 0 <= i < order@.len() ==> extent(old(defs)@, #[trigger] order@[i]) <= m,
        order@.len() * m <= usize::MAX,
        ends_within(old(defs)@, old(data)@, usize::MAX - order@.len() * m),
    ensures
        final(data)@ == old(data)@ + order@,
        same_but_offsets(old(defs)@, final(defs)@),
        offsets_kept_but(old(defs)@, final(defs)@, order@),
        ordered_layout(final(defs)@, final(data)@),
        sorted_layout(old(defs)@, old(data)@) ==> sorted_layout(final(defs)@, final(data)@),
        (final(defs)@, final(data)@) == pushed_all((old(defs)@, old(data)@), order@),
{
    let ghost defs0 = defs@;
    let ghost data0 = data@;
    let ghost n = order@.len() as int;
    proof {
        assert(order@.take(0) =~= Seq::<DatumId>::empty());
        assert(data@ =~= data0 + order@.take(0));
    }
    let mut k: usize = 0;
    while k < order.len()
        invariant
            k <= n == order@.len(),
            valid_ids(defs0.len(), order@),
            forall|i: int| 0 <= i < order@.len() ==> !data0.contains(#[trigger] order@[i]) && align_of_datum(defs0, order@[i]) > 0,
            forall|i: int| 0 <= i < order@.len() ==> extent(defs0, #[trigger] order@[i]) <= m,
            m >= 0,
            data@ == data0 + order@.take(k as int),
            same_but_offsets(defs0, defs@),
            offsets_kept_but(defs0, defs@, order@.take(k as int)),
            ordered_layout(defs@, data@),
            sorted_layout(defs0, data0) ==> sorted_layout(defs@, data@),
            ends_within(defs@, data@, usize::MAX - (n - k) * m),
            (n - k) * m <= usize::MAX,
            (defs@, data@) == pushed_all((defs0, data0), order@.take(k as int)),
        decreases n - k,
    {
        let d = order[k];
        let ghost defs_before = defs@;
        let ghost data_before = data@;
        proof {
            lemma_budget_step(n, k as int, m);
            assert(d == order@[k as int]);
            assert(extent(defs0, order@[k as int]) <= m);
            assert(extent(defs@, d) == extent(defs0, d));
            assert(!data@.contains(d)) by {
                if data@.contains(d) {
                    let j = choose|j: int| 0 <= j < data@.len() && data@[j] == d;
                    if j < data0.len() {
                        assert(data0[j] == d);
                        assert(data0.contains(d));
                    } else {
                        assert(order@[j - data0.len()] == d);
                        assert(order@[k as int] == d);
                    }
                }
            }
            if data@.len() > 0 {
                assert(end_of(defs@, data@[data@.len() - 1]) <= usize::MAX - (n - k) * m);
            }
            assert(data_end(defs@, data@) <= usize::MAX - (n - k) * m);
        }
        let (end, offset) = data.push_datum(defs, d);
        proof {
            lemma_align_up(end as int, align_of_datum(defs_before, d));
            lemma_push_layout(defs_before, data_before, d, offset);
            assert(order@.take(k + 1) =~= order@.take(k as int).push(d));
            assert(order@.take(k + 1).drop_last() =~= order@.take(k as int));
            assert(data@ =~= data0 + order@.take(k + 1));
            lemma_push_contains(order@.take(k as int), d);
            assert forall|i: int| 0 <= i < data@.len() implies end_of(defs@, #[trigger] data@[i]) <= usize::MAX - (n - (k + 1)) * m by {
                if i < data_before.len() {
                    assert(data@[i] == data_before[i]);
                    assert(data_before[i] != d);
                }
            }
        }
        k = k + 1;
    }
    proof {
        assert(order@.take(n) =~= order@);
    }
}

/// Record variant builder that simply removes data and appends data at the end of the record.
pub fn append_data(
    data: Vec<DatumId>,
    data_to_add: Vec<DatumId>,
    data_to_remove: Vec<DatumId>,
    datum_definitions: &mut DatumDefinitionCollection<NativeDatumDetails>,
) -> (r: Vec<DatumId>)
    requires
        layout_pre(old(datum_definitions)@, data@, data_to_add@, data_to_remove@),
    ensures
        layout_post(old(datum_definitions)@, final(datum_definitions)@, data@, data_to_add@, data_to_remove@, r@),
        appended(data@, data_to_add@, r@),
        sorted_layout(old(datum_definitions)@, data@) ==> sorted_layout(final(datum_definitions)@, r@),
        (final(datum_definitions)@, r@) == append_layout(old(datum_definitions)@, data@, data_to_add@, data_to_remove@),
{
    let ghost data0 = data@;
    let mut data = data;
    data.remove_data(data_to_remove.as_slice());
    proof {
        lemma_removed_layout(old(datum_definitions)@, data@, data0, data_to_add@);
    }
    let ghost kept = data@;
    proof {
        lemma_max_extent(old(datum_definitions)@, data_to_add@);
    }
    push_all(&mut data, data_to_add.as_slice(), datum_definitions, Ghost(max_extent(old(datum_definitions)@, data_to_add@)));
    proof {
        lemma_appended(old(datum_definitions)@, datum_definitions@, data0, kept, data_to_add@, data_to_remove@, data@);
    }
    data
}

/// Record variant builder that simply removes data and appends data in "reverse" order at the end
/// of the record.
pub fn append_data_reverse(
    data: Vec<DatumId>,
    data_to_add: Vec<DatumId>,
    data_to_remove: Vec<DatumId>,
    datum_definitions: &mut DatumDefinitionCollection<NativeDatumDetails>,
) -> (r: Vec<DatumId>)
    requires
        layout_pre(old(datum_definitions)@, data@, data_to_add@, data_to_remove@),
    ensures
        layout_post(old(datum_definitions)@, final(datum_definitions)@, data@, data_to_add@, data_to_remove@, r@),
        appended(data@, data_to_add@.reverse(), r@),
        sorted_layout(old(datum_definitions)@, data@) ==> sorted_layout(final(datum_definitions)@, r@),
        (final(datum_definitions)@, r@) == append_layout(
            old(datum_definitions)@,
            data@,
            data_to_add@.reverse(),
            data_to_remove@,
        ),
{
    let ghost data0 = data@;
    let ghost add = data_to_add@;
    let mut reversed: Vec<DatumId> = Vec::new();
    let mut i: usize = data_to_add.len();
    while i > 0
        invariant
            i <= add.len(),
            data_to_add@ == add,
            reversed@ == add.skip(i as int).reverse(),
        decreases i,
    {
        i = i - 1;
        reversed.push(data_to_add[i]);
        proof {
            assert(add.skip(i as int).reverse() =~= add.skip(i + 1).reverse().push(add[i as int]));
        }
    }
    proof {
        assert(add.skip(0) =~= add);
        assert forall|k: int| 0 <= k < reversed@.len() implies #[trigger] reversed@[k] == add[add.len() - 1 - k] by {}
        assert forall|x: DatumId| #[trigger] reversed@.contains(x) <==> add.contains(x) by {
            if reversed@.contains(x) {
                let k = choose|k: int| 0 <= k < reversed@.len() && reversed@[k] == x;
                assert(add[add.len() - 1 - k] == x);
            }
            if add.contains(x) {
                let k = choose|k: int| 0 <= k < add.len() && add[k] == x;
                assert(reversed@[add.len() - 1 - k] == x);
            }
        }
        assert forall|k: int, l: int| 0 <= k < l < reversed@.len() implies reversed@[k] != reversed@[l] by {
            assert(reversed@[k] == add[add.len() - 1 - k]);
            assert(reversed@[l] == add[add.len() - 1 - l]);
        }
    }
    let mut data = data;
    data.remove_data(data_to_remove.as_slice());
    proof {
        lemma_removed_layout(old(datum_definitions)@, data@, data0, data_to_add@);
        lemma_max_extent(old(datum_definitions)@, data_to_add@);
        assert forall|k: int| 0 <= k < reversed@.len() implies extent(old(datum_definitions)@, #[trigger] reversed@[k])
            <= max_extent(old(datum_definitions)@, add) && !data@.contains(reversed@[k]) && align_of_datum(
            old(datum_definitions)@,
            reversed@[k],
        ) > 0 && reversed@[k].0 < old(datum_definitions)@.len() by {
            assert(reversed@[k] == add[add.len() - 1 - k]);
        }
    }
    let ghost kept = data@;
    push_all(&mut data, reversed.as_slice(), datum_definitions, Ghost(max_extent(old(datum_definitions)@, add)));
    proof {
        assert forall|i: int|
            0 <= i < old(datum_definitions)@.len() && !add.contains(DatumId(i as usize)) implies (
            #[trigger] datum_definitions@[i]).details.offset == old(datum_definitions)@[i].details.offset by {
            assert(!reversed@.contains(DatumId(i as usize)));
        }
        lemma_appended(old(datum_definitions)@, datum_definitions@, data0, kept, reversed@, data_to_remove@, data@);
        assert(reversed@ =~= add.reverse());
        assert forall|x: DatumId| #[trigger] data@.contains(x) <==> (data0.contains(x) && !data_to_remove@.contains(x))
            || add.contains(x) by {}
    }
    data
}

/// The layout properties of `data` only depend on the offsets, sizes and alignments of its datums.
pub proof fn lemma_layout_frame(defs1: NativeDefs, defs2: NativeDefs, data: Seq<DatumId>)
    requires
        forall|i: int| 0 <= i < data.len() ==> (#[trigger] data[i]).0 < defs1.len() ==> data[i].0 < defs2.len()
            && defs2[data[i].0 as int].details.offset == defs1[data[i].0 as int].details.offset
            && defs2[data[i].0 as int].details.type_info.size == defs1[data[i].0 as int].details.type_info.size
            && defs2[data[i].0 as int].details.type_info.align == defs1[data[i].0 as int].details.type_info.align,
    ensures
        ordered_layout(defs1, data) ==> ordered_layout(defs2, data),
        sorted_layout(defs1, data) ==> sorted_layout(defs2, data),
{
}

/// Rounding up a multiple of the alignment leaves it unchanged.
pub proof fn lemma_align_up_aligned(caret: int, align: int)
    requires
        align > 0,
        caret >= 0,
        caret % align == 0,
    ensures
        align_up(caret, align) == caret,
{
    lemma_align_up(caret, align);
    let r = align_up(caret, align);
    // r and caret are both multiples of align and less than align apart
    vstd::arithmetic::div_mod::lemma_fundamental_div_mod(r, align);
    vstd::arithmetic::div_mod::lemma_fundamental_div_mod(caret, align);
    let qr = r / align;
    let qc = caret / align;
    assert(r == align * qr);
    assert(caret == align * qc);
    assert(align * qr - align * qc == align * (qr - qc)) by (nonlinear_arith);
    if qr > qc {
        assert(align * (qr - qc) >= align) by (nonlinear_arith)
            requires
                qr > qc,
                align > 0,
        ;
    } else if qr < qc {
        assert(align * (qr - qc) < 0) by (nonlinear_arith)
            requires
                qr < qc,
                align > 0,
        ;
    }
}

/// Membership in a sequence after an insertion.
pub proof fn lemma_insert_contains<A>(s: Seq<A>, p: int, a: A)
    requires
        0 <= p <= s.len(),
    ensures
        forall|x: A| #[trigger] s.insert(p, a).contains(x) <==> s.contains(x) || x == a,
{
    let t = s.insert(p, a);
    assert forall|x: A| #[trigger] t.contains(x) <==> s.contains(x) || x == a by {
        if t.contains(x) {
            let k = choose|k: int| 0 <= k < t.len() && t[k] == x;
            if k < p {
                assert(s[k] == x);
            } else if k > p {
                assert(s[k - 1] == x);
            }
        }
        if s.contains(x) {
            let k = choose|k: int| 0 <= k < s.len() && s[k] == x;
            if k < p {
                assert(t[k] == x);
            } else {
                assert(t[k + 1] == x);
            }
        }
        if x == a {
            assert(t[p] == x);
        }
    }
}

/// Inserting a datum between the data that end before it and the data that start after it
/// keeps the sorted layout.
pub proof fn lemma_insert_sorted(defs: NativeDefs, data: Seq<DatumId>, p: int, id: DatumId, offset: usize)
    requires
        sorted_layout(defs, data),
        0 <= p <= data.len(),
        id.0 < defs.len(),
        !data.contains(id),
        align_of_datum(defs, id) > 0,
        (offset as int) % align_of_datum(defs, id) == 0,
        offset + size_of_datum(defs, id) <= usize::MAX,
        forall|i: int| 0 <= i < p ==> end_of(defs, #[trigger] data[i]) <= offset,
        p < data.len() ==> offset + size_of_datum(defs, id) <= offset_of(defs, data[p]),
    ensures
        sorted_layout(defs.update(id.0 as int, with_offset(defs[id.0 as int], offset)), data.insert(p, id)),
        offsets_kept(defs, defs.update(id.0 as int, with_offset(defs[id.0 as int], offset)), data),
{
    let defs2 = defs.update(id.0 as int, with_offset(defs[id.0 as int], offset));
    let data2 = data.insert(p, id);
    assert forall|i: int| 0 <= i < data.len() implies (#[trigger] data[i]) != id by {
        if data[i] == id {
            assert(data.contains(id));
        }
    }
    assert forall|i: int| 0 <= i < data.len() implies defs2[(#[trigger] data[i]).0 as int] == defs[data[i].0 as int] by {}
    assert forall|i: int| 0 <= i < data2.len() implies (#[trigger] data2[i]) == (if i < p {
        data[i]
    } else if i == p {
        id
    } else {
        data[i - 1]
    }) by {}
    assert forall|i: int| 0 <= i < data2.len() implies (#[trigger] data2[i]).0 < defs2.len() by {}
    assert forall|i: int, j: int| 0 <= i < j < data2.len() implies data2[i] != data2[j] by {
        if i < p && j > p {
            assert(data[i] != data[j - 1]);
        } else if i > p {
            assert(data[i - 1] != data[j - 1]);
        }
    }
    assert forall|i: int| 0 <= i < data2.len() implies {
        &&& align_of_datum(defs2, #[trigger] data2[i]) > 0
        &&& offset_of(defs2, data2[i]) % align_of_datum(defs2, data2[i]) == 0
        &&& end_of(defs2, data2[i]) <= usize::MAX
    } by {}
    assert forall|i: int, j: int| 0 <= i < j < data2.len() implies end_of(defs2, #[trigger] data2[i])
        <= offset_of(defs2, #[trigger] data2[j]) by {
        if i < p && j == p {
        } else if i < p && j > p {
            assert(end_of(defs, data[i]) <= offset_of(defs, data[j - 1]));
        } else if i == p {
            if j - 1 > p {
                assert(end_of(defs, data[p]) <= offset_of(defs, data[j - 1]));
            }
        } else if i > p {
            assert(end_of(defs, data[i - 1]) <= offset_of(defs, data[j - 1]));
        } else {
            assert(end_of(defs, data[i]) <= offset_of(defs, data[j]));
        }
    }
}

/// Where the first-room scan stops for a datum of `size` and `align`, from the datum at `dc` with
/// the byte caret at `bc`: a datum that starts at the caret moves the caret to its end; otherwise,
/// if the caret rounded up to `align` leaves room for the datum before that one (strictly, with
/// `strict`), the scan stops there with the rounded caret; else the caret moves to the end of that
/// datum. It gives the index where the datum goes and the caret where the scan ended.
pub open spec fn scan_room(
    defs: NativeDefs,
    data: Seq<DatumId>,
    dc: int,
    bc: int,
    size: int,
    align: int,
    strict: bool,
) -> (int, int)
    decreases data.len() - dc,
{
    if dc >= data.len() {
        (dc, bc)
    } else {
        let c = data[dc];
        let off = offset_of(defs, c);
        if off == bc {
            scan_room(defs, data, dc + 1, bc + size_of_datum(defs, c), size, align, strict)
        } else {
            let a = align_up(bc, align);
            if (if strict { a + size < off } else { a + size <= off }) {
                (dc, a)
            } else {
                scan_room(defs, data, dc + 1, off + size_of_datum(defs, c), size, align, strict)
            }
        }
    }
}

/// One datum `d` placed by the first-room scan from the state (definitions, data, data caret,
/// byte caret): it goes where the scan stops, at the caret rounded up to its alignment, and the
/// next scan starts from there.
pub open spec fn first_room_step(state: (NativeDefs, Seq<DatumId>, int, int), d: DatumId, strict: bool) -> (
    NativeDefs,
    Seq<DatumId>,
    int,
    int,
) {
    let defs = state.0;
    let data = state.1;
    let found = scan_room(defs, data, state.2, state.3, size_of_datum(defs, d), align_of_datum(defs, d), strict);
    let offset = align_up(found.1, align_of_datum(defs, d));
    (
        defs.update(d.0 as int, with_offset(defs[d.0 as int], offset as usize)),
        data.insert(found.0, d),
        found.0,
        offset,
    )
}

/// The data of `order` placed one after the other by the first-room scan.
pub open spec fn first_room_steps(state: (NativeDefs, Seq<DatumId>, int, int), order: Seq<DatumId>, strict: bool) -> (
    NativeDefs,
    Seq<DatumId>,
    int,
    int,
)
    decreases order.len(),
{
    if order.len() == 0 {
        state
    } else {
        first_room_step(first_room_steps(state, order.drop_last(), strict), order.last(), strict)
    }
}

/// What the first-room builders give, the definitions then the data of the new variant: the data
/// to remove are removed, then the data to add, in their order, are placed by the first-room scan,
/// which starts at the first datum and byte 0 and goes on from where the previous datum was put.
pub open spec fn first_room_layout(
    defs: NativeDefs,
    data: Seq<DatumId>,
    data_to_add: Seq<DatumId>,
    data_to_remove: Seq<DatumId>,
    strict: bool,
) -> (NativeDefs, Seq<DatumId>) {
    let last = first_room_steps((defs, without(data, data_to_remove), 0, 0), data_to_add, strict);
    (last.0, last.1)
}

/// `a` comes before `b` in `data`.
pub open spec fn placed_before(data: Seq<DatumId>, a: DatumId, b: DatumId) -> bool {
    exists|i: int, j: int| 0 <= i < j < data.len() && data[i] == a && data[j] == b
}

/// Inserting an element keeps the order of the others.
pub proof fn lemma_insert_keeps_order(data: Seq<DatumId>, p: int, x: DatumId, a: DatumId, b: DatumId)
    requires
        0 <= p <= data.len(),
        placed_before(data, a, b),
    ensures
        placed_before(data.insert(p, x), a, b),
{
    let (i, j) = choose|i: int, j: int| 0 <= i < j < data.len() && data[i] == a && data[j] == b;
    let t = data.insert(p, x);
    let i2 = if i < p { i } else { i + 1 };
    let j2 = if j < p { j } else { j + 1 };
    assert(t[i2] == a && t[j2] == b);
}

/// One more datum of `add` placed after the previous one keeps the data of `add` placed in order.
proof fn lemma_placed_in_order(
    defs: NativeDefs,
    defs2: NativeDefs,
    data: Seq<DatumId>,
    data2: Seq<DatumId>,
    add: Seq<DatumId>,
    k: int,
    dc0: int,
    p: int,
    offset: usize,
)
    requires
        0 <= k < add.len(),
        valid_ids(defs.len(), add),
        0 <= p <= data.len(),
        data2 == data.insert(p, add[k]),
        defs2 == defs.update(add[k].0 as int, with_offset(defs[add[k].0 as int], offset)),
        k > 0 ==> 0 <= dc0 < p && data[dc0] == add[k - 1] && offset >= end_of(defs, add[k - 1]),
        forall|j: int| 0 < j < k ==> offset_of(defs, #[trigger] add[j]) >= end_of(defs, add[j - 1]),
        forall|j: int| 0 < j < k ==> #[trigger] placed_before(data, add[j - 1], add[j]),
    ensures
        forall|j: int| 0 < j < k + 1 ==> offset_of(defs2, #[trigger] add[j]) >= end_of(defs2, add[j - 1]),
        forall|j: int| 0 < j < k + 1 ==> #[trigger] placed_before(data2, add[j - 1], add[j]),
        data2[p] == add[k],
        offset_of(defs2, add[k]) == offset,
{
    let d = add[k];
    assert(data2[p] == d);
    assert forall|j: int| 0 <= j < k implies add[j] != d && defs2[add[j].0 as int] == defs[add[j].0 as int] by {
        assert(add[j] != add[k]);
    }
    assert forall|j: int| 0 < j < k + 1 implies offset_of(defs2, #[trigger] add[j]) >= end_of(defs2, add[j - 1]) by {
        if j < k {
            assert(defs2[add[j].0 as int] == defs[add[j].0 as int]);
            assert(defs2[add[j - 1].0 as int] == defs[add[j - 1].0 as int]);
        } else {
            assert(defs2[add[j - 1].0 as int] == defs[add[j - 1].0 as int]);
        }
    }
    assert forall|j: int| 0 < j < k + 1 implies #[trigger] placed_before(data2, add[j - 1], add[j]) by {
        if j < k {
            lemma_insert_keeps_order(data, p, d, add[j - 1], add[j]);
        } else {
            assert(data2[dc0] == add[k - 1]);
        }
    }
}

/// Places the datums of `data_to_add`, in order, in the first room large enough after the
/// previously placed one, scanning the data sorted by offset. With `strict`, the room must be
/// strictly larger than the datum.
#[verifier::spinoff_prover]
#[verifier::rlimit(50)]
fn fill_first_room(
    data: &mut Vec<DatumId>,
    data_to_add: &[DatumId],
    defs: &mut DatumDefinitionCollection<NativeDatumDetails>,
    strict: bool,
    Ghost(m): Ghost<int>,
)
    requires
        sorted_layout(old(defs)@, old(data)@),
        valid_ids(old(defs)@.len(), data_to_add@),
        forall|i: int|
            0 <= i < data_to_add@.len() ==> !old(data)@.contains(#[trigger] data_to_add@[i]) && align_of_datum(
                old(defs)@,
                data_to_add@[i],
            ) > 0,
        m >= 0,
        forall|i: int| 0 <= i < data_to_add@.len() ==> extent(old(defs)@, #[trigger] data_to_add@[i]) <= m,
        data_to_add@.len() * m <= usize::MAX,
        ends_within(old(defs)@, old(data)@, usize::MAX - data_to_add@.len() * m),
    ensures
        same_but_offsets(old(defs)@, final(defs)@),
        offsets_kept_but(old(defs)@, final(defs)@, data_to_add@),
        sorted_layout(final(defs)@, final(data)@),
        forall|x: DatumId| #[trigger] final(data)@.contains(x) <==> old(data)@.contains(x) || data_to_add@.contains(x),
        forall|j: int|
            0 < j < data_to_add@.len() ==> offset_of(final(defs)@, #[trigger] data_to_add@[j]) >= end_of(
                final(defs)@,
                data_to_add@[j - 1],
            ),
        forall|j: int|
            0 < j < data_to_add@.len() ==> #[trigger] placed_before(final(data)@, data_to_add@[j - 1], data_to_add@[j]),
        ({
            let last = first_room_steps((old(defs)@, old(data)@, 0, 0), data_to_add@, strict);
            (final(defs)@, final(data)@) == (last.0, last.1)
        }),
{
    let ghost defs0 = defs@;
    let ghost data0 = data@;
    let ghost add = data_to_add@;
    let ghost n = add.len() as int;
    let mut data_caret: usize = 0;
    let mut byte_caret: usize = 0;
    let mut k: usize = 0;
    proof {
        assert(add.take(0) =~= Seq::<DatumId>::empty());
    }
    while k < data_to_add.len()
        invariant
            k <= n == add.len(),
            data_to_add@ == add,
            valid_ids(defs0.len(), add),
            forall|i: int| 0 <= i < add.len() ==> !data0.contains(#[trigger] add[i]) && align_of_datum(defs0, add[i]) > 0,
            forall|i: int| 0 <= i < add.len() ==> extent(defs0, #[trigger] add[i]) <= m,
            m >= 0,
            (n - k) * m <= usize::MAX,
            same_but_offsets(defs0, defs@),
            offsets_kept_but(defs0, defs@, add.take(k as int)),
            sorted_layout(defs@, data@),
            forall|x: DatumId| #[trigger] data@.contains(x) <==> data0.contains(x) || add.take(k as int).contains(x),
            ends_within(defs@, data@, usize::MAX - (n - k) * m),
            data_caret <= data@.len(),
            forall|i: int| 0 <= i < data_caret ==> end_of(defs@, #[trigger] data@[i]) <= byte_caret,
            data_caret < data@.len() ==> byte_caret <= offset_of(defs@, data@[data_caret as int]),
            byte_caret <= usize::MAX - (n - k) * m,
            k > 0 ==> data_caret < data@.len() && data@[data_caret as int] == add[k - 1] && byte_caret == offset_of(
                defs@,
                add[k - 1],
            ),
            forall|j: int| 0 < j < k ==> offset_of(defs@, #[trigger] add[j]) >= end_of(defs@, add[j - 1]),
            forall|j: int| 0 < j < k ==> #[trigger] placed_before(data@, add[j - 1], add[j]),
            (defs@, data@, data_caret as int, byte_caret as int) == first_room_steps(
                (defs0, data0, 0, 0),
                add.take(k as int),
                strict,
            ),
        decreases n - k,
    {
        let datum_id = data_to_add[k];
        let size = defs.as_slice()[datum_id.0].details.type_info.size;
        let align = defs.as_slice()[datum_id.0].details.type_info.align;
        let ghost limit = usize::MAX - (n - k) * m;
        proof {
            lemma_budget_step(n, k as int, m);
            assert(datum_id == add[k as int]);
            assert(extent(defs0, add[k as int]) <= m);
            assert(align_of_datum(defs0, add[k as int]) > 0);
            assert(defs@[datum_id.0 as int].details.type_info == defs0[datum_id.0 as int].details.type_info);
        }
        let ghost target = scan_room(defs@, data@, data_caret as int, byte_caret as int, size as int, align as int, strict);
        let ghost dc0 = data_caret as int;
        let ghost bc0 = byte_caret as int;
        while data_caret < data.len()
            invariant_except_break
                scan_room(defs@, data@, data_caret as int, byte_caret as int, size as int, align as int, strict) == target,
            invariant
                data_caret <= data@.len(),
                sorted_layout(defs@, data@),
                ends_within(defs@, data@, limit),
                limit + m <= usize::MAX,
                align > 0,
                align + size <= m,
                forall|i: int| 0 <= i < data_caret ==> end_of(defs@, #[trigger] data@[i]) <= byte_caret,
                data_caret < data@.len() ==> byte_caret <= offset_of(defs@, data@[data_caret as int]),
                byte_caret <= limit,
                dc0 <= data_caret,
                k > 0 ==> dc0 < data@.len() && data@[dc0] == add[k - 1] && bc0 == offset_of(defs@, add[k - 1]),
                k > 0 && data_caret == dc0 ==> byte_caret == bc0,
                k > 0 && data_caret != dc0 ==> byte_caret >= end_of(defs@, add[k - 1]),
            ensures
                k > 0 ==> data_caret > dc0 && byte_caret >= end_of(defs@, add[k - 1]),
                target == (data_caret as int, byte_caret as int),
                forall|i: int| 0 <= i < data_caret ==> end_of(defs@, #[trigger] data@[i]) <= byte_caret,
                data_caret < data@.len() ==> byte_caret % align == 0 && (if strict {
                    byte_caret + size < offset_of(defs@, data@[data_caret as int])
                } else {
                    byte_caret + size <= offset_of(defs@, data@[data_caret as int])
                }),
                byte_caret <= limit + align - 1,
                data_caret <= data@.len(),
            decreases data@.len() - data_caret,
        {
            let caret_datum_id = data[data_caret];
            let caret_offset = defs.as_slice()[caret_datum_id.0].details.offset;
            let caret_size = defs.as_slice()[caret_datum_id.0].details.type_info.size;
            proof {
                assert(end_of(defs@, data@[data_caret as int]) <= limit);
                assert forall|j: int| data_caret < j < data@.len() implies end_of(defs@, data@[data_caret as int])
                    <= offset_of(defs@, #[trigger] data@[j]) by {}
            }
            if caret_offset == byte_caret {
                data_caret = data_caret + 1;
                byte_caret = byte_caret + caret_size;
            } else {
                let bc = align_bytes(byte_caret, align);
                let room = if strict {
                    bc + size < caret_offset
                } else {
                    bc + size <= caret_offset
                };
                if room {
                    byte_caret = bc;
                    break ;
                } else {
                    data_caret = data_caret + 1;
                    byte_caret = caret_offset + caret_size;
                }
            }
        }
        let offset = align_bytes(byte_caret, align);
        proof {
            if data_caret < data@.len() {
                lemma_align_up_aligned(byte_caret as int, align as int);
            }
            assert(defs@[datum_id.0 as int].details.type_info.size == size);
            assert(!data@.contains(datum_id)) by {
                if data@.contains(datum_id) {
                    if data0.contains(datum_id) {
                        assert(data0.contains(add[k as int]));
                    } else {
                        let j = choose|j: int| 0 <= j < add.take(k as int).len() && add.take(k as int)[j] == datum_id;
                        assert(add[j] == add[k as int]);
                    }
                }
            }
            lemma_insert_sorted(defs@, data@, data_caret as int, datum_id, offset);
            lemma_insert_contains(data@, data_caret as int, datum_id);
            assert(add.take(k + 1) =~= add.take(k as int).push(datum_id));
            lemma_push_contains(add.take(k as int), datum_id);
            assert(add.take(k + 1).drop_last() =~= add.take(k as int));
            assert(add.take(k + 1).last() == datum_id);
        }
        let ghost data_before = data@;
        let ghost defs_before = defs@;
        data.insert(data_caret, datum_id);
        defs.set_offset(datum_id, offset);
        proof {
            assert forall|i: int| 0 <= i < data@.len() implies end_of(defs@, #[trigger] data@[i]) <= usize::MAX - (n - (k + 1)) * m by {
                if i < data_caret {
                    assert(data@[i] == data_before[i]);
                } else if i > data_caret {
                    assert(data@[i] == data_before[i - 1]);
                }
            }
            assert forall|i: int| 0 <= i < data_caret implies end_of(defs@, #[trigger] data@[i]) <= offset by {
                assert(data@[i] == data_before[i]);
            }
            lemma_placed_in_order(defs_before, defs@, data_before, data@, add, k as int, dc0, data_caret as int, offset);
        }
        byte_caret = offset;
        k = k + 1;
    }
    proof {
        assert(add.take(n) =~= add);
    }
}

/// The first implementation of a native variant builder: each datum to add is placed in the first
/// room large enough between the data, or at the end.
///
/// The data to add are placed in their order: the scan for a datum goes on from the datum placed
/// before it, which it follows in memory and in the data of the variant.
pub fn basic(
    data: Vec<DatumId>,
    data_to_add: Vec<DatumId>,
    data_to_remove: Vec<DatumId>,
    datum_definitions: &mut DatumDefinitionCollection<NativeDatumDetails>,
) -> (r: Vec<DatumId>)
    requires
        layout_pre(old(datum_definitions)@, data@, data_to_add@, data_to_remove@),
        sorted_layout(old(datum_definitions)@, data@),
    ensures
        layout_post(old(datum_definitions)@, final(datum_definitions)@, data@, data_to_add@, data_to_remove@, r@),
        sorted_layout(final(datum_definitions)@, r@),
        forall|j: int|
            0 < j < data_to_add@.len() ==> offset_of(final(datum_definitions)@, #[trigger] data_to_add@[j]) >= end_of(
                final(datum_definitions)@,
                data_to_add@[j - 1],
            ),
        forall|j: int| 0 < j < data_to_add@.len() ==> #[trigger] placed_before(r@, data_to_add@[j - 1], data_to_add@[j]),
        forall|k: int|
            0 <= k < data_to_add@.len() ==> #[trigger] in_first_room(
                final(datum_definitions)@,
                r@,
                data_to_add@,
                k,
                false,
            ),
        subsequence_of(without(data@, data_to_remove@), r@),
        r@.len() == without(data@, data_to_remove@).len() + data_to_add@.len(),
        (final(datum_definitions)@, r@) == first_room_layout(
            old(datum_definitions)@,
            data@,
            data_to_add@,
            data_to_remove@,
            false,
        ),
{
    proof {
        law_first_room_layout_ids(old(datum_definitions)@, data@, data_to_add@, data_to_remove@, false);
        law_first_room_places_in_order(old(datum_definitions)@, data@, data_to_add@, data_to_remove@, false);
    }
    basic_with(data, data_to_add, data_to_remove, datum_definitions, false)
}

/// Removes the data to remove, then places the data to add in the first room large enough.
pub(crate) fn basic_with(
    data: Vec<DatumId>,
    data_to_add: Vec<DatumId>,
    data_to_remove: Vec<DatumId>,
    datum_definitions: &mut DatumDefinitionCollection<NativeDatumDetails>,
    strict: bool,
) -> (r: Vec<DatumId>)
    requires
        layout_pre(old(datum_definitions)@, data@, data_to_add@, data_to_remove@),
        sorted_layout(old(datum_definitions)@, data@),
    ensures
        layout_post(old(datum_definitions)@, final(datum_definitions)@, data@, data_to_add@, data_to_remove@, r@),
        sorted_layout(final(datum_definitions)@, r@),
        forall|j: int|
            0 < j < data_to_add@.len() ==> offset_of(final(datum_definitions)@, #[trigger] data_to_add@[j]) >= end_of(
                final(datum_definitions)@,
                data_to_add@[j - 1],
            ),
        forall|j: int| 0 < j < data_to_add@.len() ==> #[trigger] placed_before(r@, data_to_add@[j - 1], data_to_add@[j]),
        (final(datum_definitions)@, r@) == first_room_layout(
            old(datum_definitions)@,
            data@,
            data_to_add@,
            data_to_remove@,
            strict,
        ),
{
    let ghost data0 = data@;
    let mut data = data;
    data.remove_data(data_to_remove.as_slice());
    proof {
        lemma_removed_layout(old(datum_definitions)@, data@, data0, data_to_add@);
        lemma_max_extent(old(datum_definitions)@, data_to_add@);
    }
    let ghost kept = data@;
    fill_first_room(
        &mut data,
        data_to_add.as_slice(),
        datum_definitions,
        strict,
        Ghost(max_extent(old(datum_definitions)@, data_to_add@)),
    );
    proof {
        assert forall|x: DatumId| #[trigger] data@.contains(x) <==> (data0.contains(x) && !data_to_remove@.contains(x))
            || data_to_add@.contains(x) by {}
    }
    data
}

/// Unused bytes between data: from `start` to `end`, before the datum at `datum_index`.
#[derive(Clone, Copy, Debug)]
pub struct Gap {
    pub start: usize,
    pub end: usize,
    pub datum_index: usize,
}

/// The gaps are non-empty, ordered, and each one lies after the non-empty data before its datum
/// index and before the data from its datum index on.
spec fn gaps_ok(defs: NativeDefs, data: Seq<DatumId>, gaps: Seq<Gap>) -> bool {
    &&& forall|a: int|
        0 <= a < gaps.len() ==> {
            &&& (#[trigger] gaps[a]).start < gaps[a].end
            &&& gaps[a].datum_index < data.len()
        }
    &&& forall|a: int, i: int|
        0 <= a < gaps.len() && 0 <= i < (#[trigger] gaps[a]).datum_index && size_of_datum(defs, #[trigger] data[i])
            > 0 ==> end_of(defs, data[i]) <= gaps[a].start
    &&& forall|a: int, j: int|
        0 <= a < gaps.len() && (#[trigger] gaps[a]).datum_index <= j < data.len() ==> gaps[a].end <= offset_of(
            defs,
            #[trigger] data[j],
        )
    &&& forall|a: int, b: int|
        0 <= a < b < gaps.len() ==> (#[trigger] gaps[a]).datum_index < (#[trigger] gaps[b]).datum_index
            && gaps[a].end <= gaps[b].start
}

/// The unused bytes between the non-empty data from position `i` on, the previous non-empty
/// datum ending at `last`.
pub open spec fn gaps_from(defs: NativeDefs, data: Seq<DatumId>, i: int, last: usize) -> Seq<Gap>
    decreases data.len() - i,
{
    if i < 0 || i >= data.len() {
        Seq::empty()
    } else {
        let d = data[i];
        let size = defs[d.0 as int].details.type_info.size;
        let offset = defs[d.0 as int].details.offset;
        if size == 0 {
            gaps_from(defs, data, i + 1, last)
        } else if offset > last {
            seq![Gap { start: last, end: offset, datum_index: i as usize }] + gaps_from(
                defs,
                data,
                i + 1,
                (offset + size) as usize,
            )
        } else {
            gaps_from(defs, data, i + 1, (offset + size) as usize)
        }
    }
}

/// Finds the unused bytes between the non-empty data of a variant.
fn compute_initial_gaps(data: &Vec<DatumId>, defs: &DatumDefinitionCollection<NativeDatumDetails>) -> (r: Vec<Gap>)
    requires
        ordered_layout(defs@, data@),
    ensures
        gaps_ok(defs@, data@, r@),
        r@ == gaps_from(defs@, data@, 0, 0),
{
    let mut gaps: Vec<Gap> = Vec::new();
    let mut last_offset: usize = 0;
    let mut i: usize = 0;
    while i < data.len()
        invariant
            i <= data@.len(),
            ordered_layout(defs@, data@),
            gaps_ok(defs@, data@, gaps@),
            forall|k: int| 0 <= k < i && size_of_datum(defs@, #[trigger] data@[k]) > 0 ==> end_of(defs@, data@[k]) <= last_offset,
            forall|a: int| 0 <= a < gaps@.len() ==> (#[trigger] gaps@[a]).end <= last_offset && gaps@[a].datum_index < i,
            i < data@.len() ==> last_offset <= offset_of(defs@, data@[i as int]) || last_offset == 0,
            last_offset == 0 || exists|k: int| 0 <= k < i && size_of_datum(defs@, data@[k]) > 0 && end_of(defs@, #[trigger] data@[k]) == last_offset,
            gaps@ + gaps_from(defs@, data@, i as int, last_offset) == gaps_from(defs@, data@, 0, 0),
        decreases data@.len() - i,
    {
        let d = data[i];
        let datum = &defs.as_slice()[d.0];
        let size = datum.details.type_info.size;
        let offset = datum.details.offset;
        proof {
            if last_offset != 0 {
                let k = choose|k: int| 0 <= k < i && size_of_datum(defs@, data@[k]) > 0 && end_of(defs@, #[trigger] data@[k]) == last_offset;
                assert(end_of(defs@, data@[k]) <= offset_of(defs@, data@[i as int]));
            }
        }
        let ghost before = gaps@;
        let ghost rest = gaps_from(defs@, data@, i as int, last_offset);
        if size != 0 {
            if offset > last_offset {
                let ghost old_gaps = gaps@;
                gaps.push(Gap { start: last_offset, end: offset, datum_index: i });
                proof {
                    let g = Gap { start: last_offset, end: offset, datum_index: i };
                    assert(rest == seq![g] + gaps_from(defs@, data@, i + 1, (offset + size) as usize));
                    assert(gaps@ + gaps_from(defs@, data@, i + 1, (offset + size) as usize) =~= before + rest);
                }
                proof {
                    assert forall|a: int, j: int|
                        0 <= a < gaps@.len() && (#[trigger] gaps@[a]).datum_index <= j < data@.len() implies gaps@[a].end
                        <= offset_of(defs@, #[trigger] data@[j]) by {
                        if a == old_gaps.len() && j > i {
                            assert(end_of(defs@, data@[i as int]) <= offset_of(defs@, data@[j]));
                        }
                    }
                }
            }
            last_offset = offset + size;
        }
        proof {
            assert(gaps@ + gaps_from(defs@, data@, i + 1, last_offset) =~= before + rest);
        }
        i = i + 1;
        proof {
            if i < data@.len() && size > 0 {
                assert(end_of(defs@, data@[i - 1]) <= offset_of(defs@, data@[i as int]));
            }
        }
    }
    proof {
        assert(gaps@ =~= gaps@ + gaps_from(defs@, data@, i as int, last_offset));
    }
    gaps
}

/// Where a datum sits in a gap.
#[derive(Clone, Copy, PartialEq, Eq, Debug, Structural)]
pub enum FittedDatumKind {
    StartOfGap,
    EndOfGap,
}

/// A datum placed in a gap.
#[derive(Clone, Copy, Debug)]
pub struct FittedDatum {
    pub kind: FittedDatumKind,
    pub gap_index: usize,
    pub gap_before: usize,
    pub gap_after: usize,
    pub datum_start: usize,
    pub datum_end: usize,
}

/// `f` places an aligned datum of `size` bytes within its gap.
spec fn fitted_ok(f: FittedDatum, gaps: Seq<Gap>, size: int, align: int) -> bool {
    &&& f.gap_index < gaps.len()
    &&& gaps[f.gap_index as int].start + f.gap_before == f.datum_start
    &&& f.datum_start + size == f.datum_end
    &&& f.datum_end + f.gap_after == gaps[f.gap_index as int].end
    &&& (f.datum_start as int) % align == 0
}

impl FittedDatum {
    fn selection_value(&self) -> (r: usize)
        ensures
            r == (if self.kind == FittedDatumKind::StartOfGap { self.datum_end } else { self.datum_start }),
    {
        match self.kind {
            FittedDatumKind::StartOfGap => self.datum_end,
            FittedDatumKind::EndOfGap => self.datum_start,
        }
    }
}

/// A datum of `size` bytes aligned on `align` placed at the start of a gap, with the unused
/// bytes left around it, if it fits.
pub open spec fn fit(gap_index: usize, gap: Gap, size: usize, align: usize) -> Option<(usize, FittedDatum)> {
    let start = align_up(gap.start as int, align as int);
    let end = start + size;
    if gap.end >= end {
        Some(
            (
                ((start - gap.start) + (gap.end - end)) as usize,
                FittedDatum {
                    kind: FittedDatumKind::StartOfGap,
                    gap_index,
                    gap_before: (start - gap.start) as usize,
                    gap_after: (gap.end - end) as usize,
                    datum_start: start as usize,
                    datum_end: end as usize,
                },
            ),
        )
    } else {
        None
    }
}

/// Places a datum at the start of a gap, if it fits.
fn fit_datum_to_gap(gap_index: usize, gap: &Gap, size: usize, align: usize, Ghost(gaps): Ghost<Seq<Gap>>) -> (r: Option<
    (usize, FittedDatum),
>)
    requires
        gap_index < gaps.len(),
        *gap == gaps[gap_index as int],
        align > 0,
        gap.start + align + size <= usize::MAX,
    ensures
        r matches Some((full_gap, f)) ==> fitted_ok(f, gaps, size as int, align as int) && f.kind
            == FittedDatumKind::StartOfGap && f.gap_index == gap_index && full_gap == f.gap_before + f.gap_after
            && f.datum_start == align_up(gap.start as int, align as int),
        r is None <==> gap.end < align_up(gap.start as int, align as int) + size,
        r == fit(gap_index, *gap, size, align),
{
    let datum_start = align_bytes(gap.start, align);
    let datum_end = datum_start + size;
    if gap.end >= datum_end {
        let gap_before = datum_start - gap.start;
        let gap_after = gap.end - datum_end;
        Some(
            (
                gap_before + gap_after,
                FittedDatum {
                    kind: FittedDatumKind::StartOfGap,
                    gap_index,
                    gap_before,
                    gap_after,
                    datum_start,
                    datum_end,
                },
            ),
        )
    } else {
        None
    }
}

/// Whether `first` realigns to a power of 2 at least as high as `second` does: zero realigns
/// best, then the number with more trailing zero bits, `first` winning ties.
pub open spec fn best_realigned(first: nat, second: nat) -> bool
    decreases first,
{
    if first == 0 {
        true
    } else if second == 0 {
        false
    } else if second % 2 == 1 {
        true
    } else if first % 2 == 1 {
        false
    } else {
        best_realigned(first / 2, second / 2)
    }
}

/// The one that best realigns to the highest power of 2 wins: gives whether `first` wins.
fn select_best(first: usize, second: usize) -> (r: bool)
    ensures
        r == best_realigned(first as nat, second as nat),
{
    if first == 0 {
        true
    } else if second == 0 {
        false
    } else {
        let mut a = first;
        let mut b = second;
        loop
            invariant
                a > 0,
                b > 0,
                best_realigned(a as nat, b as nat) == best_realigned(first as nat, second as nat),
            decreases a,
        {
            if b % 2 == 1 {
                return true;
            }
            if a % 2 == 1 {
                return false;
            }
            a = a / 2;
            b = b / 2;
        }
    }
}

/// The datum moved towards the end of its gap by the largest multiple of its alignment that
/// keeps it in the gap, if that realigns better.
pub open spec fn start_or_end(f: FittedDatum, align: usize) -> FittedDatum {
    let delta = (f.gap_after / align * align) as usize;
    if delta > 0 {
        let e = FittedDatum {
            kind: FittedDatumKind::EndOfGap,
            gap_index: f.gap_index,
            gap_before: (f.gap_before + delta) as usize,
            gap_after: (f.gap_after - delta) as usize,
            datum_start: (f.datum_start + delta) as usize,
            datum_end: (f.datum_end + delta) as usize,
        };
        if best_realigned(f.datum_end as nat, e.datum_start as nat) {
            f
        } else {
            e
        }
    } else {
        f
    }
}

/// Chooses between keeping a datum at the start of its gap or moving it towards the end of the
/// gap by a multiple of its alignment.
fn select_start_or_end_of_gap(start_of_gap: FittedDatum, type_align: usize, size: usize, Ghost(gaps): Ghost<Seq<Gap>>) -> (r: FittedDatum)
    requires
        type_align > 0,
        start_of_gap.kind == FittedDatumKind::StartOfGap,
        fitted_ok(start_of_gap, gaps, size as int, type_align as int),
    ensures
        fitted_ok(r, gaps, size as int, type_align as int),
        r.gap_index == start_of_gap.gap_index,
        r == start_or_end(start_of_gap, type_align),
{
    proof {
        vstd::arithmetic::div_mod::lemma_fundamental_div_mod(start_of_gap.gap_after as int, type_align as int);
        vstd::arithmetic::div_mod::lemma_mod_pos_bound(start_of_gap.gap_after as int, type_align as int);
        vstd::arithmetic::div_mod::lemma_div_pos_is_pos(start_of_gap.gap_after as int, type_align as int);
        vstd::arithmetic::mul::lemma_mul_is_commutative(start_of_gap.gap_after as int / type_align as int, type_align as int);
        lemma_aligned_add(start_of_gap.datum_start as int, start_of_gap.gap_after as int / type_align as int, type_align as int);
        assert((start_of_gap.gap_after as int / type_align as int) * type_align <= start_of_gap.gap_after);
    }
    let delta = start_of_gap.gap_after / type_align * type_align;
    if delta > 0 {
        let end_of_gap = FittedDatum {
            kind: FittedDatumKind::EndOfGap,
            gap_index: start_of_gap.gap_index,
            gap_before: start_of_gap.gap_before + delta,
            gap_after: start_of_gap.gap_after - delta,
            datum_start: start_of_gap.datum_start + delta,
            datum_end: start_of_gap.datum_end + delta,
        };
        if select_best(start_of_gap.datum_end, end_of_gap.datum_start) {
            start_of_gap
        } else {
            end_of_gap
        }
    } else {
        start_of_gap
    }
}

/// Where a datum of `size` bytes goes among the first `j` data of `r`: after the last one that is
/// at least as large.
pub open spec fn size_position(defs: NativeDefs, r: Seq<DatumId>, size: usize, j: int) -> int
    decreases j,
{
    if j <= 0 {
        0
    } else if size_of_datum(defs, r[j - 1]) < size {
        size_position(defs, r, size, j - 1)
    } else {
        j
    }
}

/// The data ordered by decreasing size, data of the same size in their order.
pub open spec fn sorted_by_size(defs: NativeDefs, add: Seq<DatumId>) -> Seq<DatumId>
    decreases add.len(),
{
    if add.len() == 0 {
        Seq::empty()
    } else {
        let r = sorted_by_size(defs, add.drop_last());
        let d = add.last();
        r.insert(size_position(defs, r, defs[d.0 as int].details.type_info.size, r.len() as int), d)
    }
}

/// Orders the data to add by decreasing size, keeping the order of data of the same size.
fn by_decreasing_size(data_to_add: &Vec<DatumId>, defs: &DatumDefinitionCollection<NativeDatumDetails>) -> (r: Vec<
    DatumId,
>)
    requires
        valid_ids(defs@.len(), data_to_add@),
    ensures
        valid_ids(defs@.len(), r@),
        r@.len() == data_to_add@.len(),
        forall|x: DatumId| #[trigger] r@.contains(x) <==> data_to_add@.contains(x),
        forall|i: int, j: int|
            0 <= i < j < r@.len() ==> size_of_datum(defs@, #[trigger] r@[i]) >= size_of_datum(defs@, #[trigger] r@[j]),
        r@ == sorted_by_size(defs@, data_to_add@),
{
    let ghost add = data_to_add@;
    let mut r: Vec<DatumId> = Vec::new();
    let mut i: usize = 0;
    proof {
        assert(add.take(0) =~= Seq::<DatumId>::empty());
    }
    while i < data_to_add.len()
        invariant
            i <= add.len(),
            data_to_add@ == add,
            valid_ids(defs@.len(), add),
            valid_ids(defs@.len(), r@),
            r@.len() == i,
            forall|x: DatumId| #[trigger] r@.contains(x) <==> add.take(i as int).contains(x),
            forall|a: int, b: int|
                0 <= a < b < r@.len() ==> size_of_datum(defs@, #[trigger] r@[a]) >= size_of_datum(defs@, #[trigger] r@[b]),
            r@ == sorted_by_size(defs@, add.take(i as int)),
        decreases add.len() - i,
    {
        let d = data_to_add[i];
        let size = defs.as_slice()[d.0].details.type_info.size;
        let mut j: usize = r.len();
        while j > 0 && defs.as_slice()[r[j - 1].0].details.type_info.size < size
            invariant
                j <= r@.len(),
                valid_ids(defs@.len(), r@),
                size == size_of_datum(defs@, d),
                forall|k: int| j <= k < r@.len() ==> size_of_datum(defs@, #[trigger] r@[k]) < size,
                size_position(defs@, r@, size, j as int) == size_position(defs@, r@, size, r@.len() as int),
            decreases j,
        {
            j = j - 1;
        }
        proof {
            assert forall|k: int| 0 <= k < j implies size_of_datum(defs@, #[trigger] r@[k]) >= size by {
                if j > 0 && k < j - 1 {
                    assert(size_of_datum(defs@, r@[k]) >= size_of_datum(defs@, r@[j - 1]));
                }
            }
            assert(!r@.contains(d)) by {
                if r@.contains(d) {
                    let k = choose|k: int| 0 <= k < add.take(i as int).len() && add.take(i as int)[k] == d;
                    assert(add[k] == add[i as int]);
                }
            }
            lemma_insert_contains(r@, j as int, d);
            assert(add.take(i + 1) =~= add.take(i as int).push(d));
            lemma_push_contains(add.take(i as int), d);
        }
        let ghost before = r@;
        proof {
            assert(add.take(i + 1).drop_last() =~= add.take(i as int));
            assert(add.take(i + 1).last() == d);
            assert(size_position(defs@, r@, size, j as int) == j);
        }
        r.insert(j, d);
        proof {
            assert forall|k: int| 0 <= k < r@.len() implies (#[trigger] r@[k]) == (if k < j {
                before[k]
            } else if k == j {
                d
            } else {
                before[k - 1]
            }) by {}
            assert forall|a: int, b: int| 0 <= a < b < r@.len() implies r@[a] != r@[b] by {
                if a < j && b > j {
                    assert(before[a] != before[b - 1]);
                } else if a > j {
                    assert(before[a - 1] != before[b - 1]);
                } else if a < j && b < j {
                    assert(before[a] != before[b]);
                } else if a == j {
                    assert(before.contains(before[b - 1]));
                } else {
                    assert(before.contains(before[a]));
                }
            }
            assert forall|a: int, b: int|
                0 <= a < b < r@.len() implies size_of_datum(defs@, #[trigger] r@[a]) >= size_of_datum(defs@, #[trigger] r@[b]) by {
                if a < j && b > j {
                    assert(size_of_datum(defs@, before[a]) >= size);
                } else if a > j {
                    assert(size_of_datum(defs@, before[a - 1]) >= size_of_datum(defs@, before[b - 1]));
                } else if a < j && b < j {
                    assert(size_of_datum(defs@, before[a]) >= size_of_datum(defs@, before[b]));
                }
            }
        }
        i = i + 1;
    }
    proof {
        assert(add.take(add.len() as int) =~= add);
    }
    r
}

/// The datum fills its gap exactly.
pub open spec fn exact(f: FittedDatum) -> bool {
    f.gap_before == 0 && f.gap_after == 0
}

/// The gaps where a datum leaves the least unused bytes, from gap `i` on, given the best ones
/// before: the search stops at the first gap that the datum fills exactly.
pub open spec fn candidates_from(
    gaps: Seq<Gap>,
    size: usize,
    align: usize,
    i: int,
    best: usize,
    fitted: Seq<FittedDatum>,
) -> Seq<FittedDatum>
    decreases gaps.len() - i,
{
    if i < 0 || i >= gaps.len() {
        fitted
    } else {
        let g = gaps[i];
        if g.end - g.start >= size && fit(i as usize, g, size, align) is Some {
            let (full, f) = fit(i as usize, g, size, align)->0;
            let next = if fitted.len() == 0 || full < best {
                seq![f]
            } else if full == best {
                fitted.push(f)
            } else {
                fitted
            };
            let next_best = if fitted.len() == 0 || full < best {
                full
            } else {
                best
            };
            if exact(f) {
                next
            } else {
                candidates_from(gaps, size, align, i + 1, next_best, next)
            }
        } else {
            candidates_from(gaps, size, align, i + 1, best, fitted)
        }
    }
}

/// The offset by which a placed datum realigns: its end at the start of its gap, its start at
/// the end of its gap.
pub open spec fn realignment(f: FittedDatum) -> usize {
    if f.kind == FittedDatumKind::StartOfGap {
        f.datum_end
    } else {
        f.datum_start
    }
}

/// The best of the candidates from `k` on, given the best one before.
pub open spec fn best_from(c: Seq<FittedDatum>, align: usize, k: int, chosen: FittedDatum) -> FittedDatum
    decreases c.len() - k,
{
    if k < 0 || k >= c.len() {
        chosen
    } else {
        let current = start_or_end(c[k], align);
        best_from(
            c,
            align,
            k + 1,
            if best_realigned(realignment(chosen) as nat, realignment(current) as nat) {
                chosen
            } else {
                current
            },
        )
    }
}

/// Where a datum of `size` bytes aligned on `align` goes in the gaps, if anywhere.
pub open spec fn chosen_gap(gaps: Seq<Gap>, size: usize, align: usize) -> Option<FittedDatum> {
    let c = candidates_from(gaps, size, align, 0, 0, Seq::empty());
    if c.len() == 0 {
        None
    } else {
        Some(best_from(c, align, 1, start_or_end(c[0], align)))
    }
}

/// Finds where to put a datum of `size` bytes aligned on `align` in the gaps: among the gaps
/// where it leaves the least unused bytes, the one where it best realigns.
fn choose_gap(gaps: &Vec<Gap>, size: usize, align: usize, Ghost(limit): Ghost<int>) -> (r: Option<FittedDatum>)
    requires
        align > 0,
        forall|a: int| 0 <= a < gaps@.len() ==> (#[trigger] gaps@[a]).start < gaps@[a].end <= limit,
        limit + align + size <= usize::MAX,
    ensures
        r matches Some(f) ==> fitted_ok(f, gaps@, size as int, align as int),
        r == chosen_gap(gaps@, size, align),
{
    let ghost all = candidates_from(gaps@, size, align, 0, 0, Seq::empty());
    let mut best_full_gap: usize = 0;
    let mut fitted: Vec<FittedDatum> = Vec::new();
    let mut gap_index: usize = 0;
    let mut done = false;
    while gap_index < gaps.len() && !done
        invariant
            gap_index <= gaps@.len(),
            align > 0,
            forall|a: int| 0 <= a < gaps@.len() ==> (#[trigger] gaps@[a]).start < gaps@[a].end <= limit,
            limit + align + size <= usize::MAX,
            forall|k: int| 0 <= k < fitted@.len() ==> fitted_ok(#[trigger] fitted@[k], gaps@, size as int, align as int)
                && fitted@[k].kind == FittedDatumKind::StartOfGap,
            done ==> fitted@ == all,
            !done ==> candidates_from(gaps@, size, align, gap_index as int, best_full_gap, fitted@) == all,
        decreases gaps@.len() - gap_index,
    {
        let gap = &gaps[gap_index];
        if gap.end - gap.start >= size {
            if let Some((full_gap, f)) = fit_datum_to_gap(gap_index, gap, size, align, Ghost(gaps@)) {
                let exact = f.gap_before == 0 && f.gap_after == 0;
                if fitted.len() == 0 || full_gap < best_full_gap {
                    fitted = Vec::new();
                    fitted.push(f);
                    best_full_gap = full_gap;
                } else if full_gap == best_full_gap {
                    fitted.push(f);
                }
                if exact {
                    done = true;
                }
            }
        }
        gap_index = gap_index + 1;
    }
    proof {
        if !done {
            assert(fitted@ == all);
        }
    }
    if fitted.len() == 0 {
        None
    } else {
        let mut chosen = select_start_or_end_of_gap(fitted[0], align, size, Ghost(gaps@));
        let mut k: usize = 1;
        while k < fitted.len()
            invariant
                1 <= k <= fitted@.len(),
                align > 0,
                fitted_ok(chosen, gaps@, size as int, align as int),
                forall|k: int| 0 <= k < fitted@.len() ==> fitted_ok(#[trigger] fitted@[k], gaps@, size as int, align as int)
                    && fitted@[k].kind == FittedDatumKind::StartOfGap,
                fitted@ == all,
                best_from(all, align, k as int, chosen) == best_from(all, align, 1, start_or_end(all[0], align)),
            decreases fitted@.len() - k,
        {
            let current = select_start_or_end_of_gap(fitted[k], align, size, Ghost(gaps@));
            if !select_best(chosen.selection_value(), current.selection_value()) {
                chosen = current;
            }
            k = k + 1;
        }
        Some(chosen)
    }
}

/// The gap with its datum index moved one step further.
pub open spec fn shifted(g: Gap) -> Gap {
    Gap { start: g.start, end: g.end, datum_index: (g.datum_index + 1) as usize }
}

/// The gaps once the datum of `f` is placed in its gap: the gap is replaced by what is left
/// before and after the datum, and the following gaps shift by one datum.
pub open spec fn replaced_gaps(gaps: Seq<Gap>, f: FittedDatum) -> Seq<Gap> {
    let g = gaps[f.gap_index as int];
    let before = if f.gap_before > 0 {
        seq![Gap { start: g.start, end: f.datum_start, datum_index: g.datum_index }]
    } else {
        Seq::empty()
    };
    let after = if f.gap_after > 0 {
        seq![Gap { start: f.datum_end, end: g.end, datum_index: (g.datum_index + 1) as usize }]
    } else {
        Seq::empty()
    };
    gaps.take(f.gap_index as int) + before + after + gaps.skip(f.gap_index + 1).map_values(|h: Gap| shifted(h))
}

/// Builds the gaps once the datum of `f` is placed in its gap.
fn replace_gap(gaps: &Vec<Gap>, f: FittedDatum, Ghost(len): Ghost<nat>) -> (r: Vec<Gap>)
    requires
        f.gap_index < gaps@.len(),
        forall|a: int| 0 <= a < gaps@.len() ==> (#[trigger] gaps@[a]).datum_index < len,
        len < usize::MAX,
        f.gap_before > 0 ==> f.datum_start == gaps@[f.gap_index as int].start + f.gap_before,
    ensures
        r@ == replaced_gaps(gaps@, f),
{
    let gi = f.gap_index;
    let n = gaps.len();
    let g = gaps[gi];
    let mut r: Vec<Gap> = Vec::new();
    let mut a: usize = 0;
    while a < gi
        invariant
            a <= gi < gaps@.len(),
            r@ == gaps@.take(a as int),
        decreases gi - a,
    {
        r.push(gaps[a]);
        a = a + 1;
        proof {
            assert(r@ =~= gaps@.take(a as int));
        }
    }
    let ghost prefix_len = r@.len();
    if f.gap_before > 0 {
        r.push(Gap { start: g.start, end: f.datum_start, datum_index: g.datum_index });
    }
    if f.gap_after > 0 {
        r.push(Gap { start: f.datum_end, end: g.end, datum_index: g.datum_index + 1 });
    }
    let ghost middle = r@;
    let mut b: usize = gi + 1;
    while b < n
        invariant
            gi < b <= gaps@.len(),
            n == gaps@.len(),
            forall|a: int| 0 <= a < gaps@.len() ==> (#[trigger] gaps@[a]).datum_index < len,
            len < usize::MAX,
            r@ == middle + gaps@.subrange(gi + 1, b as int).map_values(|h: Gap| shifted(h)),
        decreases gaps@.len() - b,
    {
        let h = gaps[b];
        r.push(Gap { start: h.start, end: h.end, datum_index: h.datum_index + 1 });
        b = b + 1;
        proof {
            assert(r@ =~= middle + gaps@.subrange(gi + 1, b as int).map_values(|h: Gap| shifted(h)));
        }
    }
    proof {
        assert(gaps@.subrange(gi + 1, gaps@.len() as int) =~= gaps@.skip(gi + 1));
        assert(r@ =~= replaced_gaps(gaps@, f));
    }
    r
}

/// One datum added by [simple]: placed in the gap chosen for it and the gap replaced by what is
/// left around the datum, or else appended after the data, the alignment bytes becoming a gap.
pub open spec fn simple_step(state: (NativeDefs, Seq<DatumId>, Seq<Gap>), d: DatumId) -> (NativeDefs, Seq<DatumId>, Seq<Gap>) {
    let defs = state.0;
    let data = state.1;
    let gaps = state.2;
    let size = defs[d.0 as int].details.type_info.size;
    let align = defs[d.0 as int].details.type_info.align;
    match chosen_gap(gaps, size, align) {
        Some(f) => (
            defs.update(d.0 as int, with_offset(defs[d.0 as int], f.datum_start)),
            data.insert(gaps[f.gap_index as int].datum_index as int, d),
            replaced_gaps(gaps, f),
        ),
        None => {
            let end = data_end(defs, data);
            let offset = align_up(end, align as int);
            (
                defs.update(d.0 as int, with_offset(defs[d.0 as int], offset as usize)),
                data.push(d),
                if offset > end {
                    gaps.push(Gap { start: end as usize, end: offset as usize, datum_index: data.len() as usize })
                } else {
                    gaps
                },
            )
        },
    }
}

/// The data of `order` added one after the other by [simple].
pub open spec fn simple_steps(state: (NativeDefs, Seq<DatumId>, Seq<Gap>), order: Seq<DatumId>) -> (
    NativeDefs,
    Seq<DatumId>,
    Seq<Gap>,
)
    decreases order.len(),
{
    if order.len() == 0 {
        state
    } else {
        simple_step(simple_steps(state, order.drop_last()), order.last())
    }
}

/// What [simple] gives, the definitions then the data of the new variant: the data to remove are
/// removed; the unused bytes between the remaining non-empty data are gaps; the data to add,
/// ordered by decreasing size (data of the same size in their order), go one after the other in
/// the gap where they leave the fewest unused bytes (the first one they fill exactly, if any;
/// among equal ones, the one where they end, or start at the end of the gap, on the highest
/// power of 2), or else after the data.
pub open spec fn simple_layout(
    defs: NativeDefs,
    data: Seq<DatumId>,
    data_to_add: Seq<DatumId>,
    data_to_remove: Seq<DatumId>,
) -> (NativeDefs, Seq<DatumId>) {
    let kept = without(data, data_to_remove);
    let last = simple_steps((defs, kept, gaps_from(defs, kept, 0, 0)), sorted_by_size(defs, data_to_add));
    (last.0, last.1)
}

/// Inserting a datum after the non-empty data that end before it and before the data that start
/// after it keeps the ordered layout.
pub proof fn lemma_insert_ordered(defs: NativeDefs, data: Seq<DatumId>, p: int, id: DatumId, offset: usize)
    requires
        ordered_layout(defs, data),
        0 <= p <= data.len(),
        id.0 < defs.len(),
        !data.contains(id),
        align_of_datum(defs, id) > 0,
        (offset as int) % align_of_datum(defs, id) == 0,
        offset + size_of_datum(defs, id) <= usize::MAX,
        forall|i: int| 0 <= i < p && size_of_datum(defs, #[trigger] data[i]) > 0 ==> end_of(defs, data[i]) <= offset,
        forall|j: int| p <= j < data.len() ==> offset + size_of_datum(defs, id) <= offset_of(defs, #[trigger] data[j]),
    ensures
        ordered_layout(defs.update(id.0 as int, with_offset(defs[id.0 as int], offset)), data.insert(p, id)),
        offsets_kept(defs, defs.update(id.0 as int, with_offset(defs[id.0 as int], offset)), data),
{
    let defs2 = defs.update(id.0 as int, with_offset(defs[id.0 as int], offset));
    let data2 = data.insert(p, id);
    assert forall|i: int| 0 <= i < data.len() implies (#[trigger] data[i]) != id by {
        if data[i] == id {
            assert(data.contains(id));
        }
    }
    assert forall|i: int| 0 <= i < data.len() implies defs2[(#[trigger] data[i]).0 as int] == defs[data[i].0 as int] by {}
    assert forall|i: int| 0 <= i < data2.len() implies (#[trigger] data2[i]) == (if i < p {
        data[i]
    } else if i == p {
        id
    } else {
        data[i - 1]
    }) by {}
    assert forall|i: int| 0 <= i < data2.len() implies (#[trigger] data2[i]).0 < defs2.len() by {}
    assert forall|i: int, j: int| 0 <= i < j < data2.len() implies data2[i] != data2[j] by {
        if i < p && j > p {
            assert(data[i] != data[j - 1]);
        } else if i > p {
            assert(data[i - 1] != data[j - 1]);
        }
    }
    assert forall|i: int| 0 <= i < data2.len() implies {
        &&& align_of_datum(defs2, #[trigger] data2[i]) > 0
        &&& offset_of(defs2, data2[i]) % align_of_datum(defs2, data2[i]) == 0
        &&& end_of(defs2, data2[i]) <= usize::MAX
    } by {}
    assert forall|i: int, j: int|
        0 <= i < j < data2.len() && size_of_datum(defs2, #[trigger] data2[i]) > 0 implies end_of(defs2, data2[i])
        <= offset_of(defs2, #[trigger] data2[j]) by {
        if i < p && j == p {
        } else if i < p && j > p {
            assert(end_of(defs, data[i]) <= offset_of(defs, data[j - 1]));
        } else if i == p {
        } else if i > p {
            assert(end_of(defs, data[i - 1]) <= offset_of(defs, data[j - 1]));
        } else {
            assert(end_of(defs, data[i]) <= offset_of(defs, data[j]));
        }
    }
}

/// Placing the datum of `f` in its gap keeps the gap properties of the remaining gaps.
proof fn lemma_replaced_gaps_ok(defs: NativeDefs, data: Seq<DatumId>, gaps: Seq<Gap>, f: FittedDatum, id: DatumId)
    requires
        gaps_ok(defs, data, gaps),
        ordered_layout(defs, data),
        id.0 < defs.len(),
        !data.contains(id),
        fitted_ok(f, gaps, size_of_datum(defs, id), align_of_datum(defs, id)),
        data.len() < usize::MAX,
    ensures
        gaps_ok(
            defs.update(id.0 as int, with_offset(defs[id.0 as int], f.datum_start)),
            data.insert(gaps[f.gap_index as int].datum_index as int, id),
            replaced_gaps(gaps, f),
        ),
{
    let defs2 = defs.update(id.0 as int, with_offset(defs[id.0 as int], f.datum_start));
    let g = gaps[f.gap_index as int];
    let p = g.datum_index as int;
    let gi = f.gap_index as int;
    let data2 = data.insert(p, id);
    let ng = replaced_gaps(gaps, f);
    let before: Seq<Gap> = if f.gap_before > 0 {
        seq![Gap { start: g.start, end: f.datum_start, datum_index: g.datum_index }]
    } else {
        Seq::empty()
    };
    let after: Seq<Gap> = if f.gap_after > 0 {
        seq![Gap { start: f.datum_end, end: g.end, datum_index: (g.datum_index + 1) as usize }]
    } else {
        Seq::empty()
    };
    let tail = gaps.skip(gi + 1).map_values(|h: Gap| shifted(h));
    let nb = before.len() as int;
    let na = after.len() as int;
    assert(ng == gaps.take(gi) + before + after + tail);
    assert forall|i: int| 0 <= i < data.len() implies (#[trigger] data[i]) != id by {
        if data[i] == id {
            assert(data.contains(id));
        }
    }
    assert forall|i: int| 0 <= i < data.len() implies defs2[(#[trigger] data[i]).0 as int] == defs[data[i].0 as int] by {}
    assert forall|i: int| 0 <= i < data2.len() implies (#[trigger] data2[i]) == (if i < p {
        data[i]
    } else if i == p {
        id
    } else {
        data[i - 1]
    }) by {}
    // What each new gap is.
    assert forall|a: int| 0 <= a < ng.len() implies (#[trigger] ng[a]) == (if a < gi {
        gaps[a]
    } else if a < gi + nb {
        before[a - gi]
    } else if a < gi + nb + na {
        after[a - gi - nb]
    } else {
        shifted(gaps[a - nb - na + 1])
    }) by {
        if a >= gi + nb + na {
            assert(tail[a - gi - nb - na] == shifted(gaps.skip(gi + 1)[a - gi - nb - na]));
        }
    }
    // Gaps are non-empty and their datum index is in range.
    assert forall|a: int| 0 <= a < ng.len() implies {
        &&& (#[trigger] ng[a]).start < ng[a].end
        &&& ng[a].datum_index < data2.len()
    } by {
        if a >= gi + nb + na {
            assert(gaps[a - nb - na + 1].datum_index < data.len());
        }
    }
    // Non-empty data before the datum index end before the gap.
    assert forall|a: int, i: int|
        0 <= a < ng.len() && 0 <= i < (#[trigger] ng[a]).datum_index && size_of_datum(defs2, #[trigger] data2[i]) > 0
            implies end_of(defs2, data2[i]) <= ng[a].start by {
        if a < gi {
            assert(gaps[a].datum_index < g.datum_index);
            assert(end_of(defs, data[i]) <= gaps[a].start);
        } else if a < gi + nb {
            assert(end_of(defs, data[i]) <= g.start);
        } else if a < gi + nb + na {
            if i < p {
                assert(end_of(defs, data[i]) <= g.start);
            }
        } else {
            let h = gaps[a - nb - na + 1];
            assert(g.datum_index < h.datum_index && g.end <= h.start);
            if i < p {
                assert(end_of(defs, data[i]) <= h.start);
            } else if i > p {
                assert(end_of(defs, data[i - 1]) <= h.start);
            }
        }
    }
    // Data from the datum index on start after the gap.
    assert forall|a: int, j: int|
        0 <= a < ng.len() && (#[trigger] ng[a]).datum_index <= j < data2.len() implies ng[a].end <= offset_of(
        defs2,
        #[trigger] data2[j],
    ) by {
        if a < gi {
            assert(gaps[a].datum_index < g.datum_index && gaps[a].end <= g.start);
            if j < p {
                assert(gaps[a].end <= offset_of(defs, data[j]));
            } else if j > p {
                assert(gaps[a].end <= offset_of(defs, data[j - 1]));
            }
        } else if a < gi + nb {
            if j > p {
                assert(g.end <= offset_of(defs, data[j - 1]));
            }
        } else if a < gi + nb + na {
            assert(g.end <= offset_of(defs, data[j - 1]));
        } else {
            let h = gaps[a - nb - na + 1];
            assert(h.end <= offset_of(defs, data[j - 1]));
        }
    }
    // Gaps stay ordered.
    assert forall|a: int, b: int| 0 <= a < b < ng.len() implies (#[trigger] ng[a]).datum_index < (
    #[trigger] ng[b]).datum_index && ng[a].end <= ng[b].start by {
        if b < gi {
        } else if a < gi && b >= gi {
            assert(gaps[a].datum_index < g.datum_index && gaps[a].end <= g.start);
            if b >= gi + nb + na {
                assert(gaps[a].datum_index < gaps[b - nb - na + 1].datum_index);
                assert(gaps[a].end <= gaps[b - nb - na + 1].start);
            }
        } else if a >= gi + nb + na {
            assert(gaps[a - nb - na + 1].datum_index < gaps[b - nb - na + 1].datum_index);
            assert(gaps[a - nb - na + 1].end <= gaps[b - nb - na + 1].start);
        } else if b >= gi + nb + na {
            assert(g.datum_index < gaps[b - nb - na + 1].datum_index);
            assert(g.end <= gaps[b - nb - na + 1].start);
        }
    }
}

/// Pushing a datum keeps the gap properties, and what lies between the previous end and the new
/// offset is a gap before the pushed datum.
proof fn lemma_pushed_gaps_ok(defs: NativeDefs, data: Seq<DatumId>, gaps: Seq<Gap>, id: DatumId, offset: usize)
    requires
        gaps_ok(defs, data, gaps),
        ordered_layout(defs, data),
        id.0 < defs.len(),
        !data.contains(id),
        data_end(defs, data) <= offset,
        data.len() < usize::MAX,
    ensures
        gaps_ok(defs.update(id.0 as int, with_offset(defs[id.0 as int], offset)), data.push(id), gaps),
        data_end(defs, data) < offset ==> gaps_ok(
            defs.update(id.0 as int, with_offset(defs[id.0 as int], offset)),
            data.push(id),
            gaps.push(Gap { start: data_end(defs, data) as usize, end: offset, datum_index: data.len() as usize }),
        ),
{
    let defs2 = defs.update(id.0 as int, with_offset(defs[id.0 as int], offset));
    let data2 = data.push(id);
    assert forall|i: int| 0 <= i < data.len() implies (#[trigger] data[i]) != id by {
        if data[i] == id {
            assert(data.contains(id));
        }
    }
    assert forall|i: int| 0 <= i < data.len() implies defs2[(#[trigger] data[i]).0 as int] == defs[data[i].0 as int] by {}
    assert forall|i: int| 0 <= i < data2.len() implies (#[trigger] data2[i]) == (if i < data.len() {
        data[i]
    } else {
        id
    }) by {}
    assert forall|i: int| 0 <= i < data.len() && size_of_datum(defs, #[trigger] data[i]) > 0 implies end_of(defs, data[i])
        <= data_end(defs, data) by {
        if i < data.len() - 1 {
            assert(end_of(defs, data[i]) <= offset_of(defs, data[data.len() - 1]));
        }
    }
    assert forall|a: int, j: int|
        0 <= a < gaps.len() && (#[trigger] gaps[a]).datum_index <= j < data2.len() implies gaps[a].end <= offset_of(
        defs2,
        #[trigger] data2[j],
    ) by {
        if j == data.len() {
            assert(gaps[a].end <= offset_of(defs, data[data.len() - 1]));
        }
    }
    if data_end(defs, data) < offset {
        let new_gap = Gap { start: data_end(defs, data) as usize, end: offset, datum_index: data.len() as usize };
        let ng = gaps.push(new_gap);
        assert(data.len() > 0 ==> data_end(defs, data) == end_of(defs, data[data.len() - 1]));
        assert(new_gap.start == data_end(defs, data));
        assert(new_gap.datum_index == data.len());
        assert forall|a: int| 0 <= a < ng.len() implies (#[trigger] ng[a]) == (if a < gaps.len() {
            gaps[a]
        } else {
            new_gap
        }) by {}
        assert forall|a: int, b: int| 0 <= a < b < ng.len() implies (#[trigger] ng[a]).datum_index < (
        #[trigger] ng[b]).datum_index && ng[a].end <= ng[b].start by {
            if b == gaps.len() {
                assert(gaps[a].datum_index < data.len());
                assert(gaps[a].end <= offset_of(defs, data[data.len() - 1]));
            }
        }
        assert forall|a: int, j: int|
            0 <= a < ng.len() && (#[trigger] ng[a]).datum_index <= j < data2.len() implies ng[a].end <= offset_of(
            defs2,
            #[trigger] data2[j],
        ) by {
            if j == data.len() && a < gaps.len() {
                assert(gaps[a].end <= offset_of(defs, data[data.len() - 1]));
            }
        }
    }
}

/// Not so simple but yes, it tries to fill in the gaps in a simple way.
///
/// The data to add are taken by decreasing size. Among the gaps where a datum fits, the ones
/// where it leaves the fewest unused bytes are preferred (exact gaps first), then the placement
/// that best realigns to a power of 2; a datum that fits in no gap is appended at the end.
pub fn simple(
    data: Vec<DatumId>,
    data_to_add: Vec<DatumId>,
    data_to_remove: Vec<DatumId>,
    datum_definitions: &mut DatumDefinitionCollection<NativeDatumDetails>,
) -> (r: Vec<DatumId>)
    requires
        layout_pre(old(datum_definitions)@, data@, data_to_add@, data_to_remove@),
    ensures
        layout_post(old(datum_definitions)@, final(datum_definitions)@, data@, data_to_add@, data_to_remove@, r@),
        subsequence_of(without(data@, data_to_remove@), r@),
        r@.len() == without(data@, data_to_remove@).len() + data_to_add@.len(),
        (final(datum_definitions)@, r@) == simple_layout(old(datum_definitions)@, data@, data_to_add@, data_to_remove@),
{
    let ghost defs0 = datum_definitions@;
    let ghost data0 = data@;
    let ghost add = data_to_add@;
    let definitions_count = datum_definitions.data.len();
    proof {
        lemma_disjoint_ids_bound(defs0, data0, add);
        assert(data0.len() + add.len() <= definitions_count);
    }
    let mut data = data;
    // Remove first to optimize space
    data.remove_data(data_to_remove.as_slice());
    proof {
        lemma_removed_layout(defs0, data@, data0, add);
        lemma_max_extent(defs0, add);
    }
    let ghost kept = data@;
    let ghost m = max_extent(defs0, add);
    // Then add
    let mut gaps = compute_initial_gaps(&data, datum_definitions);
    let order = by_decreasing_size(&data_to_add, datum_definitions);
    let ghost n = order@.len() as int;
    proof {
        assert forall|i: int| 0 <= i < order@.len() implies extent(defs0, #[trigger] order@[i]) <= m && !kept.contains(
            order@[i],
        ) && align_of_datum(defs0, order@[i]) > 0 by {
            assert(order@.contains(order@[i]));
            assert(add.contains(order@[i]));
            let j = choose|j: int| 0 <= j < add.len() && add[j] == order@[i];
            assert(add[j] == order@[i]);
        }
        assert(order@.take(0) =~= Seq::<DatumId>::empty());
        assert(simple_steps((defs0, kept, gaps_from(defs0, kept, 0, 0)), order@.take(0)) == (defs0, kept, gaps@));
    }
    let mut k: usize = 0;
    while k < order.len()
        invariant
            k <= n == order@.len() == add.len(),
            valid_ids(defs0.len(), order@),
            forall|x: DatumId| #[trigger] order@.contains(x) <==> add.contains(x),
            forall|i: int|
                0 <= i < order@.len() ==> extent(defs0, #[trigger] order@[i]) <= m && !kept.contains(order@[i])
                    && align_of_datum(defs0, order@[i]) > 0,
            m >= 0,
            (n - k) * m <= usize::MAX,
            same_but_offsets(defs0, datum_definitions@),
            offsets_kept_but(defs0, datum_definitions@, order@.take(k as int)),
            ordered_layout(datum_definitions@, data@),
            gaps_ok(datum_definitions@, data@, gaps@),
            forall|x: DatumId| #[trigger] data@.contains(x) <==> kept.contains(x) || order@.take(k as int).contains(x),
            ends_within(datum_definitions@, data@, usize::MAX - (n - k) * m),
            (datum_definitions@, data@, gaps@) == simple_steps((defs0, kept, gaps_from(defs0, kept, 0, 0)), order@.take(k as int)),
        decreases n - k,
    {
        let datum_id = order[k];
        let ndefs = datum_definitions.as_slice().len();
        let size = datum_definitions.as_slice()[datum_id.0].details.type_info.size;
        let align = datum_definitions.as_slice()[datum_id.0].details.type_info.align;
        let ghost limit = usize::MAX - (n - k) * m;
        let ghost defs_before = datum_definitions@;
        let ghost data_before = data@;
        proof {
            lemma_budget_step(n, k as int, m);
            assert(datum_id == order@[k as int]);
            assert(extent(defs0, order@[k as int]) <= m);
            assert(defs_before[datum_id.0 as int].details.type_info == defs0[datum_id.0 as int].details.type_info);
            assert(!data@.contains(datum_id)) by {
                if data@.contains(datum_id) {
                    if !kept.contains(datum_id) {
                        let j = choose|j: int| 0 <= j < order@.take(k as int).len() && order@.take(k as int)[j] == datum_id;
                        assert(order@[j] == order@[k as int]);
                    }
                }
            }
            assert forall|a: int| 0 <= a < gaps@.len() implies (#[trigger] gaps@[a]).start < gaps@[a].end <= limit by {
                let p = gaps@[a].datum_index as int;
                assert(gaps@[a].end <= offset_of(defs_before, data@[p]));
                assert(end_of(defs_before, data@[p]) <= limit);
            }
            lemma_push_contains(data@, datum_id);
            assert forall|i: int| 0 <= i < data@.push(datum_id).len() implies (#[trigger] data@.push(datum_id)[i]).0 < ndefs by {
                if i < data@.len() {
                    assert(data@.push(datum_id)[i] == data@[i]);
                }
            }
            assert forall|i: int, j: int| 0 <= i < j < data@.push(datum_id).len() implies data@.push(datum_id)[i]
                != data@.push(datum_id)[j] by {
                if j == data@.len() {
                    assert(data@.push(datum_id)[i] == data@[i]);
                    assert(data@.contains(data@[i]));
                } else {
                    assert(data@.push(datum_id)[i] == data@[i]);
                    assert(data@.push(datum_id)[j] == data@[j]);
                }
            }
            lemma_distinct_ids_bound(data@.push(datum_id), ndefs as nat);
            assert(order@.take(k + 1) =~= order@.take(k as int).push(datum_id));
            lemma_push_contains(order@.take(k as int), datum_id);
        }
        let ghost gaps_before = gaps@;
        proof {
            assert(order@.take(k + 1).drop_last() =~= order@.take(k as int));
            assert(order@.take(k + 1).last() == datum_id);
        }
        let insert = choose_gap(&gaps, size, align, Ghost(limit));
        match insert {
            Some(f) => {
                let p = gaps[f.gap_index].datum_index;
                proof {
                    let g = gaps@[f.gap_index as int];
                    assert forall|i: int| 0 <= i < p && size_of_datum(defs_before, #[trigger] data@[i]) > 0 implies end_of(
                        defs_before,
                        data@[i],
                    ) <= f.datum_start by {
                        assert(end_of(defs_before, data@[i]) <= g.start);
                    }
                    assert forall|j: int| p <= j < data@.len() implies f.datum_start + size_of_datum(defs_before, datum_id)
                        <= offset_of(defs_before, #[trigger] data@[j]) by {
                        assert(g.end <= offset_of(defs_before, data@[j]));
                    }
                    assert(f.datum_end <= offset_of(defs_before, data@[p as int]));
                    assert(end_of(defs_before, data@[p as int]) <= limit);
                    lemma_insert_ordered(defs_before, data@, p as int, datum_id, f.datum_start);
                    lemma_replaced_gaps_ok(defs_before, data@, gaps@, f, datum_id);
                    lemma_insert_contains(data@, p as int, datum_id);
                }
                let new_gaps = replace_gap(&gaps, f, Ghost(data@.len()));
                data.insert(p, datum_id);
                datum_definitions.set_offset(datum_id, f.datum_start);
                gaps = new_gaps;
                proof {
                    assert forall|i: int| 0 <= i < data@.len() implies end_of(datum_definitions@, #[trigger] data@[i])
                        <= usize::MAX - (n - (k + 1)) * m by {
                        if i < p {
                            assert(data@[i] == data_before[i]);
                            assert(data_before[i] != datum_id);
                        } else if i > p {
                            assert(data@[i] == data_before[i - 1]);
                            assert(data_before[i - 1] != datum_id);
                        }
                    }
                }
            },
            None => {
                proof {
                    if data@.len() > 0 {
                        assert(end_of(defs_before, data@[data@.len() - 1]) <= limit);
                    }
                    lemma_align_up(data_end(defs_before, data@), align as int);
                }
                let (gap_start, gap_end) = data.push_datum(datum_definitions, datum_id);
                proof {
                    lemma_push_layout(defs_before, data_before, datum_id, gap_end);
                    lemma_pushed_gaps_ok(defs_before, data_before, gaps@, datum_id, gap_end);
                    assert forall|i: int| 0 <= i < data@.len() implies end_of(datum_definitions@, #[trigger] data@[i])
                        <= usize::MAX - (n - (k + 1)) * m by {
                        if i < data_before.len() {
                            assert(data@[i] == data_before[i]);
                            assert(data_before[i] != datum_id);
                        }
                    }
                }
                if gap_end > gap_start {
                    gaps.push(Gap { start: gap_start, end: gap_end, datum_index: data.len() - 1 });
                }
            },
        }
        k = k + 1;
    }
    proof {
        assert(order@.take(n) =~= order@);
        assert forall|x: DatumId| #[trigger] data@.contains(x) <==> (data0.contains(x) && !data_to_remove@.contains(x))
            || add.contains(x) by {}
        assert forall|i: int|
            0 <= i < defs0.len() && !add.contains(DatumId(i as usize)) implies (#[trigger] datum_definitions@[i]).details.offset
            == defs0[i].details.offset by {
            assert(!order@.contains(DatumId(i as usize)));
        }
        law_simple_layout_ids(defs0, data0, add, data_to_remove@);
    }
    data
}

/// The native builder [simple] as a value.
pub struct Simple;

impl RecordVariantBuilder<NativeDatumDetails> for Simple {
    open spec fn admits(
        &self,
        defs: Seq<DatumDefinition<NativeDatumDetails>>,
        data: Seq<DatumId>,
        data_to_add: Seq<DatumId>,
        data_to_remove: Seq<DatumId>,
    ) -> bool {
        layout_pre(defs, data, data_to_add, data_to_remove)
    }

    open spec fn builds(
        &self,
        old_defs: Seq<DatumDefinition<NativeDatumDetails>>,
        new_defs: Seq<DatumDefinition<NativeDatumDetails>>,
        data: Seq<DatumId>,
        data_to_add: Seq<DatumId>,
        data_to_remove: Seq<DatumId>,
        result: Seq<DatumId>,
    ) -> bool {
        layout_post(old_defs, new_defs, data, data_to_add, data_to_remove, result)
            && (new_defs, result) == simple_layout(old_defs, data, data_to_add, data_to_remove)
    }

    fn build(
        self,
        data: Vec<DatumId>,
        data_to_add: Vec<DatumId>,
        data_to_remove: Vec<DatumId>,
        datum_definitions: &mut DatumDefinitionCollection<NativeDatumDetails>,
    ) -> (r: Vec<DatumId>) {
        simple(data, data_to_add, data_to_remove, datum_definitions)
    }
}

/// The native builder [basic] as a value.
pub struct Basic;

impl RecordVariantBuilder<NativeDatumDetails> for Basic {
    open spec fn admits(
        &self,
        defs: Seq<DatumDefinition<NativeDatumDetails>>,
        data: Seq<DatumId>,
        data_to_add: Seq<DatumId>,
        data_to_remove: Seq<DatumId>,
    ) -> bool {
        layout_pre(defs, data, data_to_add, data_to_remove) && sorted_layout(defs, data)
    }

    open spec fn builds(
        &self,
        old_defs: Seq<DatumDefinition<NativeDatumDetails>>,
        new_defs: Seq<DatumDefinition<NativeDatumDetails>>,
        data: Seq<DatumId>,
        data_to_add: Seq<DatumId>,
        data_to_remove: Seq<DatumId>,
        result: Seq<DatumId>,
    ) -> bool {
        layout_post(old_defs, new_defs, data, data_to_add, data_to_remove, result)
            && sorted_layout(new_defs, result)
            && (new_defs, result) == first_room_layout(old_defs, data, data_to_add, data_to_remove, false)
    }

    fn build(
        self,
        data: Vec<DatumId>,
        data_to_add: Vec<DatumId>,
        data_to_remove: Vec<DatumId>,
        datum_definitions: &mut DatumDefinitionCollection<NativeDatumDetails>,
    ) -> (r: Vec<DatumId>) {
        basic(data, data_to_add, data_to_remove, datum_definitions)
    }
}

/// The native builder [append_data] as a value.
pub struct AppendData;

impl RecordVariantBuilder<NativeDatumDetails> for AppendData {
    open spec fn admits(
        &self,
        defs: Seq<DatumDefinition<NativeDatumDetails>>,
        data: Seq<DatumId>,
        data_to_add: Seq<DatumId>,
        data_to_remove: Seq<DatumId>,
    ) -> bool {
        layout_pre(defs, data, data_to_add, data_to_remove)
    }

    open spec fn builds(
        &self,
        old_defs: Seq<DatumDefinition<NativeDatumDetails>>,
        new_defs: Seq<DatumDefinition<NativeDatumDetails>>,
        data: Seq<DatumId>,
        data_to_add: Seq<DatumId>,
        data_to_remove: Seq<DatumId>,
        result: Seq<DatumId>,
    ) -> bool {
        layout_post(old_defs, new_defs, data, data_to_add, data_to_remove, result)
            && appended(data, data_to_add, result)
            && (sorted_layout(old_defs, data) ==> sorted_layout(new_defs, result))
            && (new_defs, result) == append_layout(old_defs, data, data_to_add, data_to_remove)
    }

    fn build(
        self,
        data: Vec<DatumId>,
        data_to_add: Vec<DatumId>,
        data_to_remove: Vec<DatumId>,
        datum_definitions: &mut DatumDefinitionCollection<NativeDatumDetails>,
    ) -> (r: Vec<DatumId>) {
        append_data(data, data_to_add, data_to_remove, datum_definitions)
    }
}

/// The native builder [append_data_reverse] as a value.
pub struct AppendDataReverse;

impl RecordVariantBuilder<NativeDatumDetails> for AppendDataReverse {
    open spec fn admits(
        &self,
        defs: Seq<DatumDefinition<NativeDatumDetails>>,
        data: Seq<DatumId>,
        data_to_add: Seq<DatumId>,
        data_to_remove: Seq<DatumId>,
    ) -> bool {
        layout_pre(defs, data, data_to_add, data_to_remove)
    }

    open spec fn builds(
        &self,
        old_defs: Seq<DatumDefinition<NativeDatumDetails>>,
        new_defs: Seq<DatumDefinition<NativeDatumDetails>>,
        data: Seq<DatumId>,
        data_to_add: Seq<DatumId>,
        data_to_remove: Seq<DatumId>,
        result: Seq<DatumId>,
    ) -> bool {
        layout_post(old_defs, new_defs, data, data_to_add, data_to_remove, result)
            && appended(data, data_to_add.reverse(), result)
            && (sorted_layout(old_defs, data) ==> sorted_layout(new_defs, result))
            && (new_defs, result) == append_layout(old_defs, data, data_to_add.reverse(), data_to_remove)
    }

    fn build(
        self,
        data: Vec<DatumId>,
        data_to_add: Vec<DatumId>,
        data_to_remove: Vec<DatumId>,
        datum_definitions: &mut DatumDefinitionCollection<NativeDatumDetails>,
    ) -> (r: Vec<DatumId>) {
        append_data_reverse(data, data_to_add, data_to_remove, datum_definitions)
    }
}


/// Every gap refers to a position in data of length `n`, and there are at most `n + 1` gaps.
pub open spec fn gaps_within(gaps: Seq<Gap>, n: int) -> bool {
    &&& gaps.len() <= n + 1
    &&& forall|a: int| 0 <= a < gaps.len() ==> (#[trigger] gaps[a]).datum_index <= n
}

/// The gaps found from position `i` on refer to positions of the data, one gap at most for each.
proof fn lemma_gaps_from_within(defs: NativeDefs, data: Seq<DatumId>, i: int, last: usize)
    requires
        0 <= i,
        data.len() <= usize::MAX,
    ensures
        gaps_from(defs, data, i, last).len() <= if i < data.len() { data.len() - i } else { 0 },
        forall|a: int|
            0 <= a < gaps_from(defs, data, i, last).len() ==> i <= (#[trigger] gaps_from(defs, data, i, last)[a]).datum_index
                < data.len(),
    decreases data.len() - i,
{
    if i < data.len() {
        let d = data[i];
        let size = defs[d.0 as int].details.type_info.size;
        let offset = defs[d.0 as int].details.offset;
        if size == 0 {
            lemma_gaps_from_within(defs, data, i + 1, last);
        } else if offset > last {
            let rest = gaps_from(defs, data, i + 1, (offset + size) as usize);
            lemma_gaps_from_within(defs, data, i + 1, (offset + size) as usize);
            let g = seq![Gap { start: last, end: offset, datum_index: i as usize }];
            assert(gaps_from(defs, data, i, last) == g + rest);
            assert forall|a: int| 0 <= a < (g + rest).len() implies i <= (#[trigger] (g + rest)[a]).datum_index < data.len() by {
                if a > 0 {
                    assert((g + rest)[a] == rest[a - 1]);
                }
            }
        } else {
            lemma_gaps_from_within(defs, data, i + 1, (offset + size) as usize);
        }
    }
}

/// The candidate placements found from gap `i` on are in gaps that exist.
proof fn lemma_candidates_in_gaps(gaps: Seq<Gap>, size: usize, align: usize, i: int, best: usize, fitted: Seq<FittedDatum>)
    requires
        gaps.len() <= usize::MAX,
        forall|k: int| 0 <= k < fitted.len() ==> (#[trigger] fitted[k]).gap_index < gaps.len(),
    ensures
        forall|k: int|
            0 <= k < candidates_from(gaps, size, align, i, best, fitted).len() ==> (#[trigger] candidates_from(
                gaps,
                size,
                align,
                i,
                best,
                fitted,
            )[k]).gap_index < gaps.len(),
    decreases gaps.len() - i,
{
    if 0 <= i < gaps.len() {
        let g = gaps[i];
        if g.end - g.start >= size && fit(i as usize, g, size, align) is Some {
            let (full, f) = fit(i as usize, g, size, align)->0;
            assert(f.gap_index == i);
            let next = if fitted.len() == 0 || full < best {
                seq![f]
            } else if full == best {
                fitted.push(f)
            } else {
                fitted
            };
            let next_best = if fitted.len() == 0 || full < best {
                full
            } else {
                best
            };
            assert forall|k: int| 0 <= k < next.len() implies (#[trigger] next[k]).gap_index < gaps.len() by {
                if fitted.len() == 0 || full < best {
                } else if full == best {
                    if k < fitted.len() {
                        assert(next[k] == fitted[k]);
                    }
                }
            }
            if !exact(f) {
                lemma_candidates_in_gaps(gaps, size, align, i + 1, next_best, next);
            }
        } else {
            lemma_candidates_in_gaps(gaps, size, align, i + 1, best, fitted);
        }
    }
}

/// The best candidate from `k` on is in a gap that exists.
proof fn lemma_best_in_gaps(c: Seq<FittedDatum>, align: usize, k: int, chosen: FittedDatum, n: int)
    requires
        forall|j: int| 0 <= j < c.len() ==> (#[trigger] c[j]).gap_index < n,
        chosen.gap_index < n,
    ensures
        best_from(c, align, k, chosen).gap_index < n,
    decreases c.len() - k,
{
    if 0 <= k < c.len() {
        let current = start_or_end(c[k], align);
        let next = if best_realigned(realignment(chosen) as nat, realignment(current) as nat) {
            chosen
        } else {
            current
        };
        lemma_best_in_gaps(c, align, k + 1, next, n);
    }
}

/// The gap chosen for a datum exists.
proof fn lemma_chosen_gap_exists(gaps: Seq<Gap>, size: usize, align: usize)
    requires
        gaps.len() <= usize::MAX,
    ensures
        chosen_gap(gaps, size, align) matches Some(f) ==> f.gap_index < gaps.len(),
{
    let c = candidates_from(gaps, size, align, 0, 0, Seq::empty());
    lemma_candidates_in_gaps(gaps, size, align, 0, 0, Seq::empty());
    if c.len() > 0 {
        assert(c[0].gap_index < gaps.len());
        lemma_best_in_gaps(c, align, 1, start_or_end(c[0], align), gaps.len() as int);
    }
}

/// Inserting an element keeps the subsequences.
pub proof fn lemma_insert_subsequence(a: Seq<DatumId>, b: Seq<DatumId>, p: int, x: DatumId)
    requires
        subsequence_of(a, b),
        0 <= p <= b.len(),
    ensures
        subsequence_of(a, b.insert(p, x)),
{
    let idx = choose|idx: Seq<int>|
        {
            &&& idx.len() == a.len()
            &&& forall|k: int| 0 <= k < idx.len() ==> 0 <= #[trigger] idx[k] < b.len() && a[k] == b[idx[k]]
            &&& forall|k: int, l: int| 0 <= k < l < idx.len() ==> #[trigger] idx[k] < #[trigger] idx[l]
        };
    let c = b.insert(p, x);
    let idx2 = idx.map_values(|i: int| if i < p { i } else { i + 1 });
    assert forall|k: int| 0 <= k < idx2.len() implies 0 <= #[trigger] idx2[k] < c.len() && a[k] == c[idx2[k]] by {
        assert(0 <= idx[k] < b.len() && a[k] == b[idx[k]]);
    }
    assert forall|k: int, l: int| 0 <= k < l < idx2.len() implies #[trigger] idx2[k] < #[trigger] idx2[l] by {
        assert(idx[k] < idx[l]);
    }
    assert(idx2.len() == a.len());
}

/// The data of a laid-out variant and new data to add to it are at most as many as the
/// definitions.
pub proof fn lemma_disjoint_ids_bound(defs: NativeDefs, data: Seq<DatumId>, add: Seq<DatumId>)
    requires
        ordered_layout(defs, data),
        valid_ids(defs.len(), add),
        forall|i: int| 0 <= i < add.len() ==> !data.contains(#[trigger] add[i]),
    ensures
        data.len() + add.len() <= defs.len(),
{
    let s = data + add;
    let l = data.len() as int;
    assert forall|i: int| 0 <= i < s.len() implies (#[trigger] s[i]).0 < defs.len() by {
        if i >= l {
            assert(s[i] == add[i - l]);
        }
    }
    assert forall|i: int, j: int| 0 <= i < j < s.len() implies s[i] != s[j] by {
        if j >= l && i < l {
            assert(s[j] == add[j - l]);
            assert(s[i] == data[i]);
            if s[i] == s[j] {
                assert(data.contains(add[j - l]));
            }
        } else if i >= l {
            assert(s[i] == add[i - l] && s[j] == add[j - l]);
        }
    }
    lemma_distinct_ids_bound(s, defs.len());
}

/// Every sequence is a subsequence of itself.
pub proof fn lemma_subsequence_refl(a: Seq<DatumId>)
    ensures
        subsequence_of(a, a),
{
    let idx = Seq::new(a.len(), |k: int| k);
    assert(idx.len() == a.len());
    assert forall|k: int| 0 <= k < idx.len() implies 0 <= #[trigger] idx[k] < a.len() && a[k] == a[idx[k]] by {}
}

/// One datum added by [simple] is inserted among the data, and the gaps still refer to them.
proof fn lemma_simple_step_ids(state: (NativeDefs, Seq<DatumId>, Seq<Gap>), d: DatumId)
    requires
        gaps_within(state.2, state.1.len() as int),
        state.1.len() + 1 <= usize::MAX,
    ensures
        ({
            let next = simple_step(state, d);
            &&& next.1.len() == state.1.len() + 1
            &&& forall|x: DatumId| #[trigger] next.1.contains(x) <==> state.1.contains(x) || x == d
            &&& forall|a: Seq<DatumId>| subsequence_of(a, state.1) ==> #[trigger] subsequence_of(a, next.1)
            &&& gaps_within(next.2, next.1.len() as int)
        }),
{
    let defs = state.0;
    let data = state.1;
    let gaps = state.2;
    let n = data.len() as int;
    let size = defs[d.0 as int].details.type_info.size;
    let align = defs[d.0 as int].details.type_info.align;
    lemma_chosen_gap_exists(gaps, size, align);
    let next = simple_step(state, d);
    match chosen_gap(gaps, size, align) {
        Some(f) => {
            let g = gaps[f.gap_index as int];
            let p = g.datum_index as int;
            assert(0 <= p <= n);
            lemma_insert_contains(data, p, d);
            assert forall|a: Seq<DatumId>| subsequence_of(a, data) implies #[trigger] subsequence_of(a, next.1) by {
                lemma_insert_subsequence(a, data, p, d);
            }
            let gi = f.gap_index as int;
            let before = if f.gap_before > 0 {
                seq![Gap { start: g.start, end: f.datum_start, datum_index: g.datum_index }]
            } else {
                Seq::empty()
            };
            let after = if f.gap_after > 0 {
                seq![Gap { start: f.datum_end, end: g.end, datum_index: (g.datum_index + 1) as usize }]
            } else {
                Seq::empty()
            };
            let tail = gaps.skip(gi + 1).map_values(|h: Gap| shifted(h));
            let r = gaps.take(gi) + before + after + tail;
            assert(next.2 == r);
            assert forall|a: int| 0 <= a < r.len() implies (#[trigger] r[a]).datum_index <= n + 1 by {
                let l1 = gi;
                let l2 = l1 + before.len();
                let l3 = l2 + after.len();
                if a < l1 {
                    assert(r[a] == gaps[a]);
                } else if a < l2 {
                    assert(r[a] == before[a - l1]);
                } else if a < l3 {
                    assert(r[a] == after[a - l2]);
                } else {
                    assert(r[a] == tail[a - l3]);
                    assert(tail[a - l3] == shifted(gaps[gi + 1 + a - l3]));
                }
            }
        },
        None => {
            lemma_push_contains(data, d);
            assert(data.push(d) == data.insert(n, d));
            assert forall|a: Seq<DatumId>| subsequence_of(a, data) implies #[trigger] subsequence_of(a, next.1) by {
                lemma_insert_subsequence(a, data, n, d);
            }
            assert forall|a: int| 0 <= a < next.2.len() implies (#[trigger] next.2[a]).datum_index <= n + 1 by {
                if a < gaps.len() {
                    assert(next.2[a] == gaps[a]);
                }
            }
        },
    }
}

/// The data added one after the other by [simple] are inserted among the data, which keep their
/// order.
proof fn lemma_simple_steps_ids(state: (NativeDefs, Seq<DatumId>, Seq<Gap>), order: Seq<DatumId>)
    requires
        gaps_within(state.2, state.1.len() as int),
        state.1.len() + order.len() <= usize::MAX,
    ensures
        ({
            let last = simple_steps(state, order);
            &&& last.1.len() == state.1.len() + order.len()
            &&& forall|x: DatumId| #[trigger] last.1.contains(x) <==> state.1.contains(x) || order.contains(x)
            &&& subsequence_of(state.1, last.1)
            &&& gaps_within(last.2, last.1.len() as int)
        }),
    decreases order.len(),
{
    if order.len() == 0 {
        lemma_subsequence_refl(state.1);
    } else {
        let front = order.drop_last();
        let d = order.last();
        lemma_simple_steps_ids(state, front);
        let mid = simple_steps(state, front);
        lemma_simple_step_ids(mid, d);
        assert(front.push(d) =~= order);
        lemma_push_contains(front, d);
    }
}

/// Where a datum goes among data sorted by decreasing size is a position among them.
proof fn lemma_size_position_bounds(defs: NativeDefs, r: Seq<DatumId>, size: usize, j: int)
    ensures
        0 <= size_position(defs, r, size, j) <= if j < 0 { 0 } else { j },
    decreases j,
{
    if j > 0 && size_of_datum(defs, r[j - 1]) < size {
        lemma_size_position_bounds(defs, r, size, j - 1);
    }
}

/// Ordering data by size keeps them all, and only them.
proof fn lemma_sorted_by_size_ids(defs: NativeDefs, add: Seq<DatumId>)
    ensures
        sorted_by_size(defs, add).len() == add.len(),
        forall|x: DatumId| #[trigger] sorted_by_size(defs, add).contains(x) <==> add.contains(x),
    decreases add.len(),
{
    if add.len() > 0 {
        let front = add.drop_last();
        let d = add.last();
        lemma_sorted_by_size_ids(defs, front);
        let r = sorted_by_size(defs, front);
        lemma_size_position_bounds(defs, r, defs[d.0 as int].details.type_info.size, r.len() as int);
        lemma_insert_contains(r, size_position(defs, r, defs[d.0 as int].details.type_info.size, r.len() as int), d);
        assert(front.push(d) =~= add);
        lemma_push_contains(front, d);
    }
}

/// Removing data never makes more of them.
proof fn lemma_without_len(data: Seq<DatumId>, removed: Seq<DatumId>)
    ensures
        without(data, removed).len() <= data.len(),
    decreases data.len(),
{
    if data.len() > 0 {
        lemma_without_len(data.drop_last(), removed);
    }
}

/// Whatever the offsets, the data that [simple] gives are the data of the previous variant that
/// are not removed, in their order, with the added data inserted among them: as many data as the
/// kept ones and the added ones together.
pub proof fn law_simple_layout_ids(
    defs: NativeDefs,
    data: Seq<DatumId>,
    data_to_add: Seq<DatumId>,
    data_to_remove: Seq<DatumId>,
)
    requires
        data.len() + data_to_add.len() <= usize::MAX,
    ensures
        forall|x: DatumId|
            #[trigger] simple_layout(defs, data, data_to_add, data_to_remove).1.contains(x) <==> (data.contains(x)
                && !data_to_remove.contains(x)) || data_to_add.contains(x),
        simple_layout(defs, data, data_to_add, data_to_remove).1.len() == without(data, data_to_remove).len()
            + data_to_add.len(),
        subsequence_of(without(data, data_to_remove), simple_layout(defs, data, data_to_add, data_to_remove).1),
{
    let kept = without(data, data_to_remove);
    lemma_without_len(data, data_to_remove);
    lemma_without_contains(data, data_to_remove);
    let gaps = gaps_from(defs, kept, 0, 0);
    lemma_gaps_from_within(defs, kept, 0, 0);
    let order = sorted_by_size(defs, data_to_add);
    lemma_sorted_by_size_ids(defs, data_to_add);
    lemma_simple_steps_ids((defs, kept, gaps), order);
}


/// The first-room scan stops at a position among the data, at or after where it started.
proof fn lemma_scan_room_bounds(defs: NativeDefs, data: Seq<DatumId>, dc: int, bc: int, size: int, align: int, strict: bool)
    requires
        0 <= dc <= data.len(),
    ensures
        dc <= scan_room(defs, data, dc, bc, size, align, strict).0 <= data.len(),
    decreases data.len() - dc,
{
    if dc < data.len() {
        let c = data[dc];
        let off = offset_of(defs, c);
        if off == bc {
            lemma_scan_room_bounds(defs, data, dc + 1, bc + size_of_datum(defs, c), size, align, strict);
        } else {
            let a = align_up(bc, align);
            if !(if strict { a + size < off } else { a + size <= off }) {
                lemma_scan_room_bounds(defs, data, dc + 1, off + size_of_datum(defs, c), size, align, strict);
            }
        }
    }
}

/// The data placed one after the other by the first-room scan are inserted among the data, which
/// keep their order.
proof fn lemma_first_room_steps_ids(state: (NativeDefs, Seq<DatumId>, int, int), order: Seq<DatumId>, strict: bool)
    requires
        0 <= state.2 <= state.1.len(),
    ensures
        ({
            let last = first_room_steps(state, order, strict);
            &&& last.1.len() == state.1.len() + order.len()
            &&& forall|x: DatumId| #[trigger] last.1.contains(x) <==> state.1.contains(x) || order.contains(x)
            &&& subsequence_of(state.1, last.1)
            &&& 0 <= last.2 <= last.1.len()
        }),
    decreases order.len(),
{
    if order.len() == 0 {
        lemma_subsequence_refl(state.1);
    } else {
        let front = order.drop_last();
        let d = order.last();
        lemma_first_room_steps_ids(state, front, strict);
        let mid = first_room_steps(state, front, strict);
        let defs = mid.0;
        lemma_scan_room_bounds(defs, mid.1, mid.2, mid.3, size_of_datum(defs, d), align_of_datum(defs, d), strict);
        let p = scan_room(defs, mid.1, mid.2, mid.3, size_of_datum(defs, d), align_of_datum(defs, d), strict).0;
        lemma_insert_contains(mid.1, p, d);
        lemma_insert_subsequence(state.1, mid.1, p, d);
        assert(front.push(d) =~= order);
        lemma_push_contains(front, d);
    }
}

/// Whatever the offsets, the data that the first-room builders ([basic] and its strict form)
/// give are the data of the previous variant that are not removed, in their order, with the
/// added data inserted among them: as many data as the kept ones and the added ones together.
pub proof fn law_first_room_layout_ids(
    defs: NativeDefs,
    data: Seq<DatumId>,
    data_to_add: Seq<DatumId>,
    data_to_remove: Seq<DatumId>,
    strict: bool,
)
    ensures
        forall|x: DatumId|
            #[trigger] first_room_layout(defs, data, data_to_add, data_to_remove, strict).1.contains(x) <==> (
            data.contains(x) && !data_to_remove.contains(x)) || data_to_add.contains(x),
        first_room_layout(defs, data, data_to_add, data_to_remove, strict).1.len() == without(data, data_to_remove).len()
            + data_to_add.len(),
        subsequence_of(without(data, data_to_remove), first_room_layout(defs, data, data_to_add, data_to_remove, strict).1),
{
    let kept = without(data, data_to_remove);
    lemma_without_contains(data, data_to_remove);
    lemma_first_room_steps_ids((defs, kept, 0, 0), data_to_add, strict);
}


/// A datum of `size` bytes aligned on `align` fits between the caret and a datum at `offset`
/// (strictly with `strict`).
pub open spec fn room_before(caret: int, size: int, align: int, offset: int, strict: bool) -> bool {
    let a = align_up(caret, align);
    if strict {
        a + size < offset
    } else {
        a + size <= offset
    }
}

/// The byte caret of the scan when it reaches position `i`, having started at `dc` with `bc`.
pub open spec fn scan_caret(defs: NativeDefs, data: Seq<DatumId>, dc: int, bc: int, i: int) -> int {
    if i == dc {
        bc
    } else {
        end_of(defs, data[i - 1])
    }
}

/// What the first-room scan finds in sorted data, from a caret that no datum before it goes past
/// and that does not go past the datum under it: a position at or after the caret, and a byte
/// caret at or after the given one that no datum before the position goes past; before a datum,
/// the byte caret is aligned and leaves room for the datum to place. Starting on a datum that
/// begins at the byte caret, the scan goes past that datum.
proof fn lemma_scan_room_facts(
    defs: NativeDefs,
    data: Seq<DatumId>,
    dc: int,
    bc: int,
    size: int,
    align: int,
    strict: bool,
    limit: int,
)
    requires
        sorted_layout(defs, data),
        0 <= dc <= data.len(),
        ends_within(defs, data, limit),
        align > 0,
        size >= 0,
        0 <= bc <= limit,
        forall|i: int| 0 <= i < dc ==> end_of(defs, #[trigger] data[i]) <= bc,
        dc < data.len() ==> bc <= offset_of(defs, data[dc]),
    ensures
        ({
            let (q, a) = scan_room(defs, data, dc, bc, size, align, strict);
            &&& dc <= q <= data.len()
            &&& bc <= a
            &&& forall|i: int| 0 <= i < q ==> end_of(defs, #[trigger] data[i]) <= a
            &&& q < data.len() ==> a % align == 0 && a <= limit + align - 1 && (if strict {
                a + size < offset_of(defs, data[q])
            } else {
                a + size <= offset_of(defs, data[q])
            })
            &&& q == data.len() ==> a <= limit
            &&& (dc < data.len() && offset_of(defs, data[dc]) == bc) ==> q > dc && a >= end_of(defs, data[dc])
            &&& forall|i: int|
                dc <= i < q ==> offset_of(defs, #[trigger] data[i]) == scan_caret(defs, data, dc, bc, i) || !room_before(
                    scan_caret(defs, data, dc, bc, i),
                    size,
                    align,
                    offset_of(defs, data[i]),
                    strict,
                )
            &&& a == if q < data.len() {
                align_up(scan_caret(defs, data, dc, bc, q), align)
            } else {
                scan_caret(defs, data, dc, bc, q)
            }
        }),
    decreases data.len() - dc,
{
    if dc < data.len() {
        let c = data[dc];
        let off = offset_of(defs, c);
        assert(end_of(defs, data[dc]) <= limit);
        assert forall|j: int| dc < j < data.len() implies end_of(defs, data[dc]) <= offset_of(defs, #[trigger] data[j]) by {}
        if off == bc {
            lemma_scan_room_facts(defs, data, dc + 1, bc + size_of_datum(defs, c), size, align, strict, limit);
            let q = scan_room(defs, data, dc, bc, size, align, strict).0;
            assert forall|i: int| dc + 1 <= i <= q implies scan_caret(defs, data, dc + 1, end_of(defs, c), i)
                == scan_caret(defs, data, dc, bc, i) by {}
        } else {
            let a = align_up(bc, align);
            lemma_align_up(bc, align);
            if !(if strict { a + size < off } else { a + size <= off }) {
                lemma_scan_room_facts(defs, data, dc + 1, off + size_of_datum(defs, c), size, align, strict, limit);
                let q = scan_room(defs, data, dc, bc, size, align, strict).0;
                assert forall|i: int| dc + 1 <= i <= q implies scan_caret(defs, data, dc + 1, end_of(defs, c), i)
                    == scan_caret(defs, data, dc, bc, i) by {}
                assert(!room_before(bc, size, align, off, strict));
            }
        }
    }
}


/// Where a scan from the start of `data`, or from a datum, stands before position `i`: byte 0
/// before the first datum, else the end of the datum before.
pub open spec fn room_caret(defs: NativeDefs, data: Seq<DatumId>, i: int) -> int {
    if i == 0 {
        0
    } else {
        end_of(defs, data[i - 1])
    }
}

/// The datum `add[k]` is in the first room large enough after the datum added before it (after
/// byte 0 for the first one): it starts at the first aligned byte after the datum before it in
/// `data`, and between the datum added before it and its position, no datum leaves it room before
/// itself (except the ones that start right where the previous one ends).
pub open spec fn in_first_room(defs: NativeDefs, data: Seq<DatumId>, add: Seq<DatumId>, k: int, strict: bool) -> bool {
    forall|p: int, pp: int|
        0 <= p < data.len() && data[p] == add[k] && ((k == 0 && pp == -1) || (k > 0 && 0 <= pp < data.len()
            && data[pp] == add[k - 1])) ==> #[trigger] first_room_between(defs, data, add[k], pp, p, strict)
}

/// The datum `d` at position `p` starts at the first aligned byte after the datum before it, and
/// no datum between positions `pp` and `p` leaves it room before itself (except the ones that
/// start right where the previous one ends).
pub open spec fn first_room_between(defs: NativeDefs, data: Seq<DatumId>, d: DatumId, pp: int, p: int, strict: bool) -> bool {
    &&& offset_of(defs, d) == align_up(room_caret(defs, data, p), align_of_datum(defs, d))
    &&& forall|i: int|
        pp < i < p ==> offset_of(defs, #[trigger] data[i]) == room_caret(defs, data, i) || !room_before(
            room_caret(defs, data, i),
            size_of_datum(defs, d),
            align_of_datum(defs, d),
            offset_of(defs, data[i]),
            strict,
        )
}

/// What holds after the first `k` data of `add` are placed by the first-room scan from `state`:
/// the data stay sorted in memory within the room left for the data still to place, the carets
/// stand on the last placed datum, and the placed data follow one another in memory and in the
/// data.
pub open spec fn first_room_placed(
    defs0: NativeDefs,
    kept: Seq<DatumId>,
    add: Seq<DatumId>,
    m: int,
    strict: bool,
    k: int,
    state: (NativeDefs, Seq<DatumId>, int, int),
) -> bool {
    let (defs, data, dc, bc) = state;
    let limit = usize::MAX - (add.len() - k) * m;
    &&& sorted_layout(defs, data)
    &&& same_but_offsets(defs0, defs)
    &&& forall|x: DatumId| #[trigger] data.contains(x) <==> kept.contains(x) || add.take(k).contains(x)
    &&& ends_within(defs, data, limit)
    &&& 0 <= dc <= data.len()
    &&& forall|i: int| 0 <= i < dc ==> end_of(defs, #[trigger] data[i]) <= bc
    &&& dc < data.len() ==> bc <= offset_of(defs, data[dc])
    &&& 0 <= bc <= limit
    &&& k > 0 ==> dc < data.len() && data[dc] == add[k - 1] && bc == offset_of(defs, add[k - 1])
    &&& forall|j: int| 0 < j < k ==> offset_of(defs, #[trigger] add[j]) >= end_of(defs, add[j - 1])
    &&& forall|j: int| 0 < j < k ==> #[trigger] placed_before(data, add[j - 1], add[j])
    &&& k == 0 ==> dc == 0 && bc == 0
    &&& forall|j: int, p: int| #![trigger data[p], add[j]] 0 <= j < k && 0 <= p < data.len() && data[p] == add[j] ==> p <= dc
    &&& forall|j: int| 0 <= j < k ==> #[trigger] in_first_room(defs, data, add, j, strict)
}

/// The conditions on the data to place by the first-room scan: new, distinct, aligned, and within
/// the room left after the data.
pub open spec fn first_room_can_place(defs0: NativeDefs, kept: Seq<DatumId>, add: Seq<DatumId>, m: int) -> bool {
    &&& sorted_layout(defs0, kept)
    &&& valid_ids(defs0.len(), add)
    &&& forall|i: int| 0 <= i < add.len() ==> !kept.contains(#[trigger] add[i]) && align_of_datum(defs0, add[i]) > 0
    &&& forall|i: int| 0 <= i < add.len() ==> extent(defs0, #[trigger] add[i]) <= m
    &&& m >= 0
    &&& add.len() * m <= usize::MAX
    &&& ends_within(defs0, kept, usize::MAX - add.len() * m)
}

/// Placing one more datum keeps `first_room_placed`.
#[verifier::spinoff_prover]
#[verifier::rlimit(50)]
proof fn lemma_first_room_step_placed(
    defs0: NativeDefs,
    kept: Seq<DatumId>,
    add: Seq<DatumId>,
    m: int,
    strict: bool,
    k0: int,
    st: (NativeDefs, Seq<DatumId>, int, int),
)
    requires
        first_room_can_place(defs0, kept, add, m),
        0 <= k0 < add.len(),
        first_room_placed(defs0, kept, add, m, strict, k0, st),
    ensures
        first_room_placed(defs0, kept, add, m, strict, k0 + 1, first_room_step(st, add[k0], strict)),
{
    let n = add.len() as int;
    let k = k0 + 1;
    let (defs, data, dc, bc) = st;
    let d = add[k0];
    lemma_budget_step(n, k0, m);
    let limit = usize::MAX - (n - k0) * m;
    let size = size_of_datum(defs, d);
    let align = align_of_datum(defs, d);
    assert(defs[d.0 as int].details.type_info == defs0[d.0 as int].details.type_info);
    assert(extent(defs0, add[k0]) <= m);
    lemma_scan_room_facts(defs, data, dc, bc, size, align, strict, limit);
    let (q, a) = scan_room(defs, data, dc, bc, size, align, strict);
    let offset = align_up(a, align);
    lemma_align_up(a, align);
    if q < data.len() {
        lemma_align_up_aligned(a, align);
    }
    assert(offset + size <= usize::MAX - (n - k) * m);
    assert(!data.contains(d)) by {
        if data.contains(d) {
            if kept.contains(d) {
                assert(kept.contains(add[k0]));
            } else {
                let j = choose|j: int| 0 <= j < add.take(k0).len() && add.take(k0)[j] == d;
                assert(add[j] == add[k0]);
            }
        }
    }
    lemma_insert_sorted(defs, data, q, d, offset as usize);
    lemma_insert_contains(data, q, d);
    assert(add.take(k) =~= add.take(k0).push(d));
    lemma_push_contains(add.take(k0), d);
    let defs2 = defs.update(d.0 as int, with_offset(defs[d.0 as int], offset as usize));
    let data2 = data.insert(q, d);
    assert(first_room_step(st, d, strict) == (defs2, data2, q, offset));
    if k0 > 0 {
        assert(q > dc);
        assert(offset >= end_of(defs, add[k0 - 1]));
    }
    lemma_placed_in_order(defs, defs2, data, data2, add, k0, dc, q, offset as usize);
    assert(same_but_offsets(defs0, defs2));
    assert forall|i: int| 0 <= i < data2.len() implies end_of(defs2, #[trigger] data2[i]) <= usize::MAX - (n - k) * m by {
        if i < q {
            assert(data2[i] == data[i]);
        } else if i > q {
            assert(data2[i] == data[i - 1]);
        }
    }
    assert forall|i: int| 0 <= i < q implies end_of(defs2, #[trigger] data2[i]) <= offset by {
        assert(data2[i] == data[i]);
    }
    lemma_first_room_kept(defs0, kept, add, m, strict, k0, st, q, offset as usize);
}

/// The data placed before keep their first rooms, and the new one is in its first room.
#[verifier::spinoff_prover]
#[verifier::rlimit(50)]
proof fn lemma_first_room_kept(
    defs0: NativeDefs,
    kept: Seq<DatumId>,
    add: Seq<DatumId>,
    m: int,
    strict: bool,
    k0: int,
    st: (NativeDefs, Seq<DatumId>, int, int),
    q: int,
    offset: usize,
)
    requires
        first_room_can_place(defs0, kept, add, m),
        0 <= k0 < add.len(),
        first_room_placed(defs0, kept, add, m, strict, k0, st),
        ({
            let (defs, data, dc, bc) = st;
            let d = add[k0];
            let (q2, a) = scan_room(defs, data, dc, bc, size_of_datum(defs, d), align_of_datum(defs, d), strict);
            &&& q == q2
            &&& offset == align_up(a, align_of_datum(defs, d))
            &&& dc <= q <= data.len()
            &&& k0 > 0 ==> q > dc
            &&& !data.contains(d)
            &&& sorted_layout(
                defs.update(d.0 as int, with_offset(defs[d.0 as int], offset)),
                data.insert(q, d),
            )
            &&& forall|i: int|
                dc <= i < q ==> offset_of(defs, #[trigger] data[i]) == scan_caret(defs, data, dc, bc, i)
                    || !room_before(
                    scan_caret(defs, data, dc, bc, i),
                    size_of_datum(defs, d),
                    align_of_datum(defs, d),
                    offset_of(defs, data[i]),
                    strict,
                )
            &&& align_up(a, align_of_datum(defs, d)) == align_up(
                scan_caret(defs, data, dc, bc, q),
                align_of_datum(defs, d),
            )
        }),
    ensures
        ({
            let (defs, data, dc, bc) = st;
            let d = add[k0];
            let defs2 = defs.update(d.0 as int, with_offset(defs[d.0 as int], offset));
            let data2 = data.insert(q, d);
            &&& forall|j: int, p: int| #![trigger data2[p], add[j]] 0 <= j < k0 + 1 && 0 <= p < data2.len() && data2[p] == add[j] ==> p <= q
            &&& forall|j: int| 0 <= j < k0 + 1 ==> #[trigger] in_first_room(defs2, data2, add, j, strict)
        }),
{
    let (defs, data, dc, bc) = st;
    let d = add[k0];
    let defs2 = defs.update(d.0 as int, with_offset(defs[d.0 as int], offset));
    let data2 = data.insert(q, d);
    assert(valid_ids(defs2.len(), data2));
    assert forall|i: int| 0 <= i < q implies data2[i] == data[i] && data[i] != d
        && defs2[data[i].0 as int] == defs[data[i].0 as int] by {
        if data[i] == d {
            assert(data.contains(d));
        }
    }
    assert(data2[q] == d);
    assert forall|j: int, p: int| #![trigger data2[p], add[j]] 0 <= j < k0 + 1 && 0 <= p < data2.len() && data2[p] == add[j] implies p <= q by {
        if j < k0 {
            assert(add[j] != d);
            if p > q {
                assert(data2[p] == data[p - 1]);
                assert(p - 1 <= dc);
            }
        } else {
            if p != q {
                assert(data2[p] == data2[q]);
            }
        }
    }
    assert forall|j: int| 0 <= j < k0 + 1 implies #[trigger] in_first_room(defs2, data2, add, j, strict) by {
        if j < k0 {
            assert(add[j] != d);
            if j > 0 {
                assert(add[j - 1] != d);
            }
            assert forall|p: int| 0 <= p < data.len() && data[p] == add[j] implies p < q by {
                assert(p <= dc);
            }
            assert forall|p: int| 0 <= p < data.len() && j > 0 && data[p] == add[j - 1] implies p < q by {
                assert(p <= dc);
            }
            lemma_first_room_kept_old(defs, data, add, strict, j, q, d, offset);
        } else {
            if k0 > 0 {
                assert(add[k0 - 1] != d);
            }
            lemma_first_room_kept_new(defs, data, add, strict, k0, q, offset, dc, bc);
        }
    }
}

/// A datum placed further on leaves an earlier datum in its first room.
proof fn lemma_first_room_kept_old(
    defs: NativeDefs,
    data: Seq<DatumId>,
    add: Seq<DatumId>,
    strict: bool,
    j: int,
    q: int,
    d: DatumId,
    offset: usize,
)
    requires
        0 <= j < add.len(),
        0 <= q <= data.len(),
        d.0 < defs.len(),
        valid_ids(defs.len(), data),
        add[j].0 < defs.len(),
        !data.contains(d),
        add[j] != d,
        j > 0 ==> add[j - 1] != d,
        forall|p: int| 0 <= p < data.len() && data[p] == add[j] ==> p < q,
        forall|p: int| 0 <= p < data.len() && j > 0 && data[p] == add[j - 1] ==> p < q,
        in_first_room(defs, data, add, j, strict),
    ensures
        in_first_room(
            defs.update(d.0 as int, with_offset(defs[d.0 as int], offset)),
            data.insert(q, d),
            add,
            j,
            strict,
        ),
{
    let defs2 = defs.update(d.0 as int, with_offset(defs[d.0 as int], offset));
    let data2 = data.insert(q, d);
    assert forall|i: int| 0 <= i < q implies data2[i] == data[i] && defs2[data[i].0 as int] == defs[data[i].0 as int] by {
        if data[i] == d {
            assert(data.contains(d));
        }
    }
    assert(defs2[add[j].0 as int] == defs[add[j].0 as int]);
    assert forall|p: int, pp: int|
        0 <= p < data2.len() && data2[p] == add[j] && ((j == 0 && pp == -1) || (j > 0 && 0 <= pp < data2.len()
            && data2[pp] == add[j - 1])) implies #[trigger] first_room_between(defs2, data2, add[j], pp, p, strict) by {
        if p > q {
            assert(data2[p] == data[p - 1]);
            assert(false);
        }
        assert(p != q);
        assert(data2[p] == data[p]);
        if j > 0 {
            if pp > q {
                assert(data2[pp] == data[pp - 1]);
                assert(false);
            }
            assert(pp != q);
            assert(data2[pp] == data[pp]);
        }
        if p > 0 {
            assert(data2[p - 1] == data[p - 1]);
        }
        assert(room_caret(defs2, data2, p) == room_caret(defs, data, p));
        assert(first_room_between(defs, data, add[j], pp, p, strict));
        assert forall|i: int| pp < i < p implies offset_of(defs2, #[trigger] data2[i]) == room_caret(defs2, data2, i)
            || !room_before(
            room_caret(defs2, data2, i),
            size_of_datum(defs2, add[j]),
            align_of_datum(defs2, add[j]),
            offset_of(defs2, data2[i]),
            strict,
        ) by {
            assert(data2[i] == data[i]);
            if i > 0 {
                assert(data2[i - 1] == data[i - 1]);
            }
            assert(room_caret(defs2, data2, i) == room_caret(defs, data, i));
        }
    }
}

/// The datum just placed by the scan is in its first room.
proof fn lemma_first_room_kept_new(
    defs: NativeDefs,
    data: Seq<DatumId>,
    add: Seq<DatumId>,
    strict: bool,
    k0: int,
    q: int,
    offset: usize,
    dc: int,
    bc: int,
)
    requires
        0 <= k0 < add.len(),
        0 <= dc <= q <= data.len(),
        add[k0].0 < defs.len(),
        valid_ids(defs.len(), data),
        !data.contains(add[k0]),
        valid_ids(defs.len(), data.insert(q, add[k0])),
        k0 > 0 ==> q > dc && dc < data.len() && data[dc] == add[k0 - 1] && add[k0 - 1] != add[k0],
        k0 == 0 ==> dc == 0 && bc == 0,
        forall|i: int|
            dc <= i < q ==> offset_of(defs, #[trigger] data[i]) == scan_caret(defs, data, dc, bc, i) || !room_before(
                scan_caret(defs, data, dc, bc, i),
                size_of_datum(defs, add[k0]),
                align_of_datum(defs, add[k0]),
                offset_of(defs, data[i]),
                strict,
            ),
        offset == align_up(scan_caret(defs, data, dc, bc, q), align_of_datum(defs, add[k0])),
    ensures
        in_first_room(
            defs.update(add[k0].0 as int, with_offset(defs[add[k0].0 as int], offset)),
            data.insert(q, add[k0]),
            add,
            k0,
            strict,
        ),
{
    let d = add[k0];
    let defs2 = defs.update(d.0 as int, with_offset(defs[d.0 as int], offset));
    let data2 = data.insert(q, d);
    assert forall|i: int| 0 <= i < q implies data2[i] == data[i] && defs2[data[i].0 as int] == defs[data[i].0 as int] by {
        if data[i] == d {
            assert(data.contains(d));
        }
    }
    assert(data2[q] == d);
    assert forall|p: int, pp: int|
        0 <= p < data2.len() && data2[p] == add[k0] && ((k0 == 0 && pp == -1) || (k0 > 0 && 0 <= pp < data2.len()
            && data2[pp] == add[k0 - 1])) implies #[trigger] first_room_between(defs2, data2, add[k0], pp, p, strict) by {
        if p != q {
            assert(data2[p] == data2[q]);
        }
        assert(p == q);
        if k0 > 0 {
            if pp > q {
                assert(data2[pp] == data[pp - 1]);
                assert(data2[pp] == data2[q]);
            }
            assert(pp != q);
            assert(data2[pp] == data[pp]);
            if pp != dc {
                assert(data2[dc] == data[dc]);
                assert(data2[pp] == data2[dc]);
            }
            assert(pp == dc);
        }
        if q > 0 {
            assert(data2[q - 1] == data[q - 1]);
        }
        assert(room_caret(defs2, data2, q) == scan_caret(defs, data, dc, bc, q));
        assert forall|i: int| pp < i < p implies offset_of(defs2, #[trigger] data2[i]) == room_caret(defs2, data2, i)
            || !room_before(
            room_caret(defs2, data2, i),
            size_of_datum(defs2, add[k0]),
            align_of_datum(defs2, add[k0]),
            offset_of(defs2, data2[i]),
            strict,
        ) by {
            assert(data2[i] == data[i]);
            if i > 0 {
                assert(data2[i - 1] == data[i - 1]);
            }
            assert(room_caret(defs2, data2, i) == scan_caret(defs, data, dc, bc, i));
        }
    }
}

/// The first-room scan places the data of `add` one after the other (see `first_room_placed`).
proof fn lemma_first_room_placed(
    defs0: NativeDefs,
    kept: Seq<DatumId>,
    add: Seq<DatumId>,
    m: int,
    strict: bool,
    k: int,
)
    requires
        first_room_can_place(defs0, kept, add, m),
        0 <= k <= add.len(),
    ensures
        first_room_placed(defs0, kept, add, m, strict, k, first_room_steps((defs0, kept, 0, 0), add.take(k), strict)),
    decreases k,
{
    if k == 0 {
        assert(add.take(0) =~= Seq::<DatumId>::empty());
        assert forall|x: DatumId| #[trigger] kept.contains(x) <==> kept.contains(x) || add.take(0).contains(x) by {}
        assert(same_but_offsets(defs0, defs0));
    } else {
        lemma_first_room_placed(defs0, kept, add, m, strict, k - 1);
        let st = first_room_steps((defs0, kept, 0, 0), add.take(k - 1), strict);
        assert(add.take(k).drop_last() =~= add.take(k - 1));
        assert(add.take(k).last() == add[k - 1]);
        lemma_first_room_step_placed(defs0, kept, add, m, strict, k - 1, st);
    }
}

/// The data added in one call of a first-room builder ([basic] and its strict form) are placed in
/// their order: each one starts at or after the end of the one added before it, and comes after
/// it in the data of the new variant. Each one goes in the first room large enough after the one
/// added before it (after byte 0 for the first one): it starts at the first aligned byte after
/// the datum before it, and none of the data between them leaves it room before itself.
pub proof fn law_first_room_places_in_order(
    defs: NativeDefs,
    data: Seq<DatumId>,
    data_to_add: Seq<DatumId>,
    data_to_remove: Seq<DatumId>,
    strict: bool,
)
    requires
        layout_pre(defs, data, data_to_add, data_to_remove),
        sorted_layout(defs, data),
    ensures
        forall|j: int|
            0 < j < data_to_add.len() ==> offset_of(
                first_room_layout(defs, data, data_to_add, data_to_remove, strict).0,
                #[trigger] data_to_add[j],
            ) >= end_of(first_room_layout(defs, data, data_to_add, data_to_remove, strict).0, data_to_add[j - 1]),
        forall|j: int|
            0 < j < data_to_add.len() ==> #[trigger] placed_before(
                first_room_layout(defs, data, data_to_add, data_to_remove, strict).1,
                data_to_add[j - 1],
                data_to_add[j],
            ),
        forall|k: int|
            0 <= k < data_to_add.len() ==> #[trigger] in_first_room(
                first_room_layout(defs, data, data_to_add, data_to_remove, strict).0,
                first_room_layout(defs, data, data_to_add, data_to_remove, strict).1,
                data_to_add,
                k,
                strict,
            ),
{
    let kept = without(data, data_to_remove);
    lemma_without_subsequence(data, data_to_remove);
    lemma_removed_layout(defs, kept, data, data_to_add);
    let m = max_extent(defs, data_to_add);
    lemma_max_extent(defs, data_to_add);
    let n = data_to_add.len() as int;
    lemma_first_room_placed(defs, kept, data_to_add, m, strict, n);
    assert(data_to_add.take(n) =~= data_to_add);
}

/// The data left after removing some keep their order.
pub proof fn lemma_without_subsequence(data: Seq<DatumId>, removed: Seq<DatumId>)
    ensures
        subsequence_of(without(data, removed), data),
    decreases data.len(),
{
    if data.len() == 0 {
        lemma_subsequence_refl(data);
    } else {
        let t = data.drop_last();
        lemma_without_subsequence(t, removed);
        let w = without(t, removed);
        let idx = choose|idx: Seq<int>|
            {
                &&& idx.len() == w.len()
                &&& forall|k: int| 0 <= k < idx.len() ==> 0 <= #[trigger] idx[k] < t.len() && w[k] == t[idx[k]]
                &&& forall|k: int, l: int| 0 <= k < l < idx.len() ==> #[trigger] idx[k] < #[trigger] idx[l]
            };
        assert forall|k: int| 0 <= k < idx.len() implies 0 <= #[trigger] idx[k] < data.len() && w[k] == data[idx[k]] by {
            assert(t[idx[k]] == data[idx[k]]);
        }
        if !removed.contains(data.last()) {
            let idx2 = idx.push(data.len() - 1);
            let w2 = w.push(data.last());
            assert forall|k: int| 0 <= k < idx2.len() implies 0 <= #[trigger] idx2[k] < data.len() && w2[k] == data[idx2[k]] by {
                if k < idx.len() {
                    assert(idx2[k] == idx[k]);
                }
            }
            assert forall|k: int, l: int| 0 <= k < l < idx2.len() implies #[trigger] idx2[k] < #[trigger] idx2[l] by {
                if l < idx.len() {
                    assert(idx2[k] == idx[k] && idx2[l] == idx[l]);
                } else {
                    assert(idx2[k] == idx[k]);
                }
            }
            assert(idx2.len() == w2.len());
        } else {
            assert(idx.len() == w.len());
        }
    }
}


/// Where the non-empty data before position `i` end: the end of the last one, 0 when there is
/// none.
pub open spec fn last_nonempty_end(defs: NativeDefs, data: Seq<DatumId>, i: int) -> int
    decreases i,
{
    if i <= 0 {
        0
    } else if size_of_datum(defs, data[i - 1]) > 0 {
        end_of(defs, data[i - 1])
    } else {
        last_nonempty_end(defs, data, i - 1)
    }
}

/// The unused bytes before the non-empty datum at position `i` can hold a datum of `size` bytes
/// aligned on `align`.
pub open spec fn room_among(defs: NativeDefs, data: Seq<DatumId>, i: int, size: int, align: int) -> bool {
    &&& 0 <= i < data.len()
    &&& size_of_datum(defs, data[i]) > 0
    &&& offset_of(defs, data[i]) > last_nonempty_end(defs, data, i)
    &&& align_up(last_nonempty_end(defs, data, i), align) + size <= offset_of(defs, data[i])
}

/// The non-empty data end within the address space, after the ones before them.
proof fn lemma_last_nonempty_end_bounds(defs: NativeDefs, data: Seq<DatumId>, i: int)
    requires
        ordered_layout(defs, data),
        0 <= i <= data.len(),
    ensures
        0 <= last_nonempty_end(defs, data, i) <= usize::MAX,
    decreases i,
{
    if i > 0 {
        lemma_last_nonempty_end_bounds(defs, data, i - 1);
        assert(end_of(defs, data[i - 1]) <= usize::MAX);
    }
}

/// The gaps found from position `j` hold the unused bytes before each later non-empty datum that
/// starts after the data before it.
proof fn lemma_gap_found(defs: NativeDefs, data: Seq<DatumId>, j: int, i: int)
    requires
        ordered_layout(defs, data),
        0 <= j <= i < data.len(),
        size_of_datum(defs, data[i]) > 0,
        offset_of(defs, data[i]) > last_nonempty_end(defs, data, i),
    ensures
        gaps_from(defs, data, j, last_nonempty_end(defs, data, j) as usize).contains(
            Gap {
                start: last_nonempty_end(defs, data, i) as usize,
                end: offset_of(defs, data[i]) as usize,
                datum_index: i as usize,
            },
        ),
    decreases i - j,
{
    lemma_last_nonempty_end_bounds(defs, data, j);
    lemma_last_nonempty_end_bounds(defs, data, j + 1);
    let last = last_nonempty_end(defs, data, j) as usize;
    let d = data[j];
    let size = defs[d.0 as int].details.type_info.size;
    let offset = defs[d.0 as int].details.offset;
    let g = Gap {
        start: last_nonempty_end(defs, data, i) as usize,
        end: offset_of(defs, data[i]) as usize,
        datum_index: i as usize,
    };
    if j == i {
        assert(gaps_from(defs, data, j, last)[0] == g);
    } else {
        lemma_gap_found(defs, data, j + 1, i);
        assert(end_of(defs, d) <= usize::MAX);
        let rest = if size == 0 {
            gaps_from(defs, data, j + 1, last)
        } else {
            gaps_from(defs, data, j + 1, (offset + size) as usize)
        };
        assert(rest == gaps_from(defs, data, j + 1, last_nonempty_end(defs, data, j + 1) as usize));
        let k = choose|k: int| 0 <= k < rest.len() && rest[k] == g;
        if size != 0 && offset > last {
            let first = seq![Gap { start: last, end: offset, datum_index: j as usize }];
            assert(gaps_from(defs, data, j, last) == first + rest);
            assert((first + rest)[k + 1] == g);
        } else {
            assert(gaps_from(defs, data, j, last) == rest);
        }
    }
}

/// Some placement is found when a gap from position `i` on can hold the datum, or one was found
/// before.
proof fn lemma_candidates_found(
    gaps: Seq<Gap>,
    size: usize,
    align: usize,
    i: int,
    best: usize,
    fitted: Seq<FittedDatum>,
    g: int,
)
    requires
        gaps.len() <= usize::MAX,
        align > 0,
        fitted.len() > 0 || (0 <= i <= g < gaps.len() && gaps[g].end >= align_up(gaps[g].start as int, align as int) + size),
    ensures
        candidates_from(gaps, size, align, i, best, fitted).len() > 0,
    decreases gaps.len() - i,
{
    if 0 <= i < gaps.len() {
        let gi = gaps[i];
        lemma_align_up(gi.start as int, align as int);
        if gi.end - gi.start >= size && fit(i as usize, gi, size, align) is Some {
            let (full, f) = fit(i as usize, gi, size, align)->0;
            let next = if fitted.len() == 0 || full < best {
                seq![f]
            } else if full == best {
                fitted.push(f)
            } else {
                fitted
            };
            let next_best = if fitted.len() == 0 || full < best {
                full
            } else {
                best
            };
            assert(next.len() > 0);
            if !exact(f) {
                lemma_candidates_found(gaps, size, align, i + 1, next_best, next, g);
            }
        } else {
            if fitted.len() == 0 {
                lemma_align_up(gaps[g].start as int, align as int);
                assert(g != i);
            }
            lemma_candidates_found(gaps, size, align, i + 1, best, fitted, g);
        }
    }
}

/// A datum added alone by [simple] goes in the unused bytes among the data that are kept when
/// they can hold it: it is inserted before the last of them, not appended after them.
pub proof fn law_simple_fills_a_gap(defs: NativeDefs, data: Seq<DatumId>, d: DatumId, data_to_remove: Seq<DatumId>)
    requires
        defs.len() <= usize::MAX,
        layout_pre(defs, data, seq![d], data_to_remove),
        exists|i: int|
            room_among(defs, without(data, data_to_remove), i, size_of_datum(defs, d), align_of_datum(defs, d)),
    ensures
        exists|p: int|
            0 <= p < without(data, data_to_remove).len() && simple_layout(defs, data, seq![d], data_to_remove).1
                == without(data, data_to_remove).insert(p, d),
{
    let kept = without(data, data_to_remove);
    lemma_without_subsequence(data, data_to_remove);
    lemma_removed_layout(defs, kept, data, seq![d]);
    let i = choose|i: int| room_among(defs, kept, i, size_of_datum(defs, d), align_of_datum(defs, d));
    lemma_distinct_ids_bound(kept, defs.len());
    let gaps = gaps_from(defs, kept, 0, 0);
    assert(last_nonempty_end(defs, kept, 0) == 0);
    lemma_gap_found(defs, kept, 0, i);
    lemma_last_nonempty_end_bounds(defs, kept, i);
    lemma_gaps_from_within(defs, kept, 0, 0);
    let g = Gap {
        start: last_nonempty_end(defs, kept, i) as usize,
        end: offset_of(defs, kept[i]) as usize,
        datum_index: i as usize,
    };
    let gk = choose|gk: int| 0 <= gk < gaps.len() && gaps[gk] == g;
    let size = defs[d.0 as int].details.type_info.size;
    let align = defs[d.0 as int].details.type_info.align;
    assert(align > 0);
    lemma_candidates_found(gaps, size, align, 0, 0, Seq::empty(), gk);
    lemma_chosen_gap_exists(gaps, size, align);
    let order = sorted_by_size(defs, seq![d]);
    assert(seq![d].drop_last() =~= Seq::<DatumId>::empty());
    assert(sorted_by_size(defs, seq![d].drop_last()) == Seq::<DatumId>::empty());
    assert(Seq::<DatumId>::empty().insert(0, d) =~= seq![d]);
    assert(order =~= seq![d]);
    assert(order.drop_last() =~= Seq::<DatumId>::empty());
    let state = (defs, kept, gaps);
    assert(simple_steps(state, order) == simple_step(simple_steps(state, order.drop_last()), d));
    assert(simple_steps(state, order.drop_last()) == state);
    let f = chosen_gap(gaps, size, align)->0;
    let p = gaps[f.gap_index as int].datum_index as int;
    assert(simple_step(state, d).1 == kept.insert(p, d));
    assert(simple_layout(defs, data, seq![d], data_to_remove).1 == kept.insert(p, d));
}

} // verus!
