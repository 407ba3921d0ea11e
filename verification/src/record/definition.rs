//! Record related structures.

pub mod builder;
pub mod convert;

use vstd::prelude::*;

use crate::record::type_resolver::TypeInfo;
use crate::text::{decimal, decimal_string, append_decimal};

verus! {

/// Identifier of datums (elementary data in records).
///
/// It allows identifying a datum appearing in multiple consecutive variants of a record
/// definition. Once a datum is removed from a variant, its identifier will never be readded to a
/// later variant.
#[derive(Clone, Copy, PartialEq, Eq, PartialOrd, Ord, Hash, Debug, Structural)]
pub struct DatumId(pub usize);

impl From<usize> for DatumId {
    fn from(value: usize) -> (r: DatumId)
        ensures
            r.0 == value,
    {
        DatumId(value)
    }
}

impl vstd::std_specs::convert::FromSpecImpl<usize> for DatumId {
    open spec fn obeys_from_spec() -> bool {
        true
    }

    open spec fn from_spec(v: usize) -> DatumId {
        DatumId(v)
    }
}

impl DatumId {
    /// The textual representation of the identifier (its number).
    pub fn to_string(&self) -> (r: String)
        ensures
            r@ == decimal(self.0 as nat),
    {
        decimal_string(self.0)
    }
}

/// Generic datum definition.
///
/// Use [NativeDatumDetails] as `D` for native datum definitions.
#[derive(PartialEq, Eq, Debug)]
pub struct DatumDefinition<D> {
    /// The identifier of the datum.
    pub id: DatumId,
    /// The name of the datum, unique in a record variant.
    pub name: String,
    /// Details attached to the datum.
    pub details: D,
}

impl<D> DatumDefinition<D> {
    /// Creates a datum definition.
    pub fn new(id: DatumId, name: String, details: D) -> (r: Self)
        ensures
            r.id == id,
            r.name@ == name@,
            r.details == details,
    {
        DatumDefinition { id, name, details }
    }

    /// Gets the identifier of this datum.
    pub fn id(&self) -> (r: DatumId)
        ensures
            r == self.id,
    {
        self.id
    }

    /// Gets the datum name.
    ///
    /// A datum name may appear only once in a record variant. It can be used to identify a datum
    /// in a specific variant. Lookup functions are exposed in the various builders.
    pub fn name(&self) -> (r: &str)
        ensures
            r@ == self.name@,
    {
        self.name.as_str()
    }

    /// Gets the details of that datum.
    pub fn details(&self) -> (r: &D)
        ensures
            *r == self.details,
    {
        &self.details
    }

    /// Gets mutable access to the details of that datum.
    pub fn details_mut(&mut self) -> (r: &mut D)
        ensures
            *r == old(self).details,
            final(self).details == *final(r),
            final(self).id == old(self).id,
            final(self).name == old(self).name,
    {
        &mut self.details
    }
}

/// Container for datum definitions.
///
/// The datum at position `i` has the identifier `i`.
#[derive(Debug)]
pub struct DatumDefinitionCollection<D> {
    /// The datum definitions, in the order of their identifiers.
    pub data: Vec<DatumDefinition<D>>,
}

impl<D> DatumDefinitionCollection<D> {
    /// The datum definitions as a sequence.
    pub open spec fn view(&self) -> Seq<DatumDefinition<D>> {
        self.data@
    }

    /// Every datum is stored at the position given by its identifier.
    pub open spec fn wf(&self) -> bool {
        forall|i: int| 0 <= i < self@.len() ==> (#[trigger] self@[i]).id.0 == i
    }

    /// Whether `id` designates a datum of the collection.
    pub open spec fn contains(&self, id: DatumId) -> bool {
        id.0 < self@.len()
    }

    /// Creates an empty collection.
    pub fn new() -> (r: Self)
        ensures
            r@ == Seq::<DatumDefinition<D>>::empty(),
            r.wf(),
    {
        DatumDefinitionCollection { data: Vec::new() }
    }

    /// Gets all the datum definitions, in the order of their identifiers.
    pub fn as_slice(&self) -> (r: &[DatumDefinition<D>])
        ensures
            r@ == self@,
    {
        self.data.as_slice()
    }

    /// Gets a datum definition by ID.
    pub fn get(&self, id: DatumId) -> (r: Option<&DatumDefinition<D>>)
        ensures
            r == (if self.contains(id) { Some(&self@[id.0 as int]) } else { None }),
    {
        if id.0 < self.data.len() {
            Some(&self.data[id.0])
        } else {
            None
        }
    }

    /// Gives the datum designated by `id` for modification, if any.
    pub fn get_mut(&mut self, id: DatumId) -> (r: Option<&mut DatumDefinition<D>>)
        ensures
            old(self).contains(id) == (r is Some),
            r matches Some(d) ==> *d == old(self)@[id.0 as int] && final(self)@ == old(self)@.update(
                id.0 as int,
                *final(d),
            ),
            r is None ==> final(self)@ == old(self)@,
    {
        if id.0 < self.data.len() {
            Some(&mut self.data[id.0])
        } else {
            None
        }
    }

    /// Sets the details of a datum, leaving its identifier and name unchanged.
    pub fn set_details(&mut self, id: DatumId, details: D)
        requires
            old(self).contains(id),
        ensures
            final(self)@ == old(self)@.update(
                id.0 as int,
                DatumDefinition { id: old(self)@[id.0 as int].id, name: old(self)@[id.0 as int].name, details },
            ),
    {
        let mut datum = self.data.remove(id.0);
        datum.details = details;
        self.data.insert(id.0, datum);
        assert(self@ =~= old(self)@.update(
            id.0 as int,
            DatumDefinition { id: old(self)@[id.0 as int].id, name: old(self)@[id.0 as int].name, details },
        ));
    }

    /// Adds a new datum definition and gives its identifier.
    pub fn push(&mut self, name: String, details: D) -> (r: DatumId)
        requires
            old(self).wf(),
        ensures
            r.0 == old(self)@.len(),
            final(self)@.len() == old(self)@.len() + 1,
            final(self)@.take(old(self)@.len() as int) == old(self)@,
            final(self)@.last().id == r,
            final(self)@.last().name@ == name@,
            final(self)@.last().details == details,
            final(self).wf(),
    {
        let id = DatumId(self.data.len());
        let datum = DatumDefinition { id, name, details };
        self.data.push(datum);
        assert(self@.take(old(self)@.len() as int) =~= old(self)@);
        id
    }
}

impl<D> Default for DatumDefinitionCollection<D> {
    fn default() -> (r: Self)
        ensures
            r@ == Seq::<DatumDefinition<D>>::empty(),
    {
        DatumDefinitionCollection { data: Vec::new() }
    }
}

/// Identifier of record variants.
#[derive(Debug, Clone, Copy, PartialEq, Eq, PartialOrd, Ord, Hash, Structural)]
pub struct RecordVariantId(pub usize);

impl From<usize> for RecordVariantId {
    fn from(value: usize) -> (r: RecordVariantId)
        ensures
            r.0 == value,
    {
        RecordVariantId(value)
    }
}

impl vstd::std_specs::convert::FromSpecImpl<usize> for RecordVariantId {
    open spec fn obeys_from_spec() -> bool {
        true
    }

    open spec fn from_spec(v: usize) -> RecordVariantId {
        RecordVariantId(v)
    }
}

impl RecordVariantId {
    /// The textual representation of the identifier (its number).
    pub fn to_string(&self) -> (r: String)
        ensures
            r@ == decimal(self.0 as nat),
    {
        decimal_string(self.0)
    }
}

/// Record variant definition.
#[derive(PartialEq, Eq, Debug)]
pub struct RecordVariant {
    /// The identifier of the variant.
    pub id: RecordVariantId,
    /// The data of the variant, in the internal order (the order in memory for native
    /// definitions).
    pub data: Vec<DatumId>,
}

/// The sequence of the identifiers, separated by `", "`.
pub open spec fn ids_text(data: Seq<DatumId>) -> Seq<char>
    decreases data.len(),
{
    if data.len() == 0 {
        Seq::empty()
    } else if data.len() == 1 {
        decimal(data[0].0 as nat)
    } else {
        ids_text(data.drop_last()) + ", "@ + decimal(data.last().0 as nat)
    }
}

/// The data of `data` that are not in `removed`, in order.
pub open spec fn without(data: Seq<DatumId>, removed: Seq<DatumId>) -> Seq<DatumId>
    decreases data.len(),
{
    if data.len() == 0 {
        Seq::empty()
    } else if removed.contains(data.last()) {
        without(data.drop_last(), removed)
    } else {
        without(data.drop_last(), removed).push(data.last())
    }
}

/// A datum of a variant is in the previous variant, or in no earlier variant: once removed from
/// a variant, a datum never comes back.
pub open spec fn no_datum_comes_back(variants: Seq<RecordVariant>) -> bool {
    forall|k: int, x: DatumId|
        0 < k < variants.len() && (#[trigger] variants[k].data@.contains(x)) ==> variants[k - 1].data@.contains(x)
            || forall|j: int| 0 <= j < k ==> !(#[trigger] variants[j].data@.contains(x))
}

/// Once a datum is removed from a variant, it is in no later variant.
pub proof fn law_removed_datum_never_comes_back(variants: Seq<RecordVariant>, d: DatumId, i: int, j: int, k: int)
    requires
        no_datum_comes_back(variants),
        0 <= i < j <= k < variants.len(),
        variants[i].data@.contains(d),
        !variants[j].data@.contains(d),
    ensures
        !variants[k].data@.contains(d),
    decreases k - j,
{
    if k > j {
        law_removed_datum_never_comes_back(variants, d, i, j, k - 1);
        if variants[k].data@.contains(d) {
            assert(!variants[i].data@.contains(d));
        }
    }
}

/// Whether `s` is sorted by increasing identifiers.
pub open spec fn ids_sorted(s: Seq<DatumId>) -> bool {
    forall|i: int, j: int| 0 <= i < j < s.len() ==> s[i].0 <= s[j].0
}

impl RecordVariant {
    /// Creates a record variant.
    pub fn new(id: RecordVariantId, data: Vec<DatumId>) -> (r: Self)
        ensures
            r.id == id,
            r.data@ == data@,
    {
        RecordVariant { id, data }
    }

    /// Gets the identifier of this variant.
    pub fn id(&self) -> (r: RecordVariantId)
        ensures
            r == self.id,
    {
        self.id
    }

    /// Gets access to record data in an internal order.
    ///
    /// In the case of native definitions, the order matches the order in memory and is different
    /// from the order of insertion of data.
    pub fn data(&self) -> (r: &[DatumId])
        ensures
            r@ == self.data@,
    {
        self.data.as_slice()
    }

    /// Gets access to record data in the order of insertion.
    ///
    /// Since datum IDs are generated with a sequence, sorting by ID gives the order of insertion.
    pub fn data_sorted(&self) -> (r: Vec<DatumId>)
        ensures
            ids_sorted(r@),
            r@.to_multiset() == self.data@.to_multiset(),
    {
        let mut r: Vec<DatumId> = Vec::new();
        let mut i: usize = 0;
        proof {
            broadcast use vstd::seq_lib::group_seq_properties;
            assert(self.data@.take(0) =~= Seq::<DatumId>::empty());
        }
        while i < self.data.len()
            invariant
                i <= self.data@.len(),
                ids_sorted(r@),
                r@.to_multiset() == self.data@.take(i as int).to_multiset(),
            decreases self.data@.len() - i,
        {
            let d = self.data[i];
            let mut j: usize = r.len();
            while j > 0 && r[j - 1].0 > d.0
                invariant
                    j <= r@.len(),
                    ids_sorted(r@),
                    forall|k: int| j <= k < r@.len() ==> r@[k].0 > d.0,
                decreases j,
            {
                j = j - 1;
            }
            proof {
                assert(forall|k: int| 0 <= k < j ==> r@[k].0 <= d.0) by {
                    if j > 0 {
                        assert(r@[j - 1].0 <= d.0);
                    }
                }
            }
            let ghost before = r@;
            r.insert(j, d);
            proof {
                broadcast use vstd::seq_lib::group_seq_properties;
                assert(r@ =~= before.take(j as int).push(d) + before.skip(j as int));
                assert(self.data@.take(i + 1) =~= self.data@.take(i as int).push(d));
                assert(before =~= before.take(j as int) + before.skip(j as int));
                vstd::seq_lib::lemma_multiset_commutative(before.take(j as int).push(d), before.skip(j as int));
                vstd::seq_lib::lemma_multiset_commutative(before.take(j as int), before.skip(j as int));
            }
            i = i + 1;
        }
        assert(self.data@.take(self.data@.len() as int) =~= self.data@);
        r
    }

    /// Gets the number of datums in the variant.
    pub fn data_len(&self) -> (r: usize)
        ensures
            r == self.data@.len(),
    {
        self.data.len()
    }

    /// The textual representation of the variant: its identifier followed by the identifiers of
    /// its data in brackets.
    pub fn to_string(&self) -> (r: String)
        ensures
            r@ == decimal(self.id.0 as nat) + " ["@ + ids_text(self.data@) + "]"@,
    {
        let mut r = decimal_string(self.id.0);
        r.append(" [");
        let ghost prefix = r@;
        let mut i: usize = 0;
        while i < self.data.len()
            invariant
                i <= self.data@.len(),
                r@ == prefix + ids_text(self.data@.take(i as int)),
            decreases self.data@.len() - i,
        {
            if i > 0 {
                r.append(", ");
            }
            append_decimal(&mut r, self.data[i].0);
            proof {
                let t = self.data@.take(i + 1);
                assert(t.drop_last() =~= self.data@.take(i as int));
                if i == 0 {
                    assert(self.data@.take(0) =~= Seq::<DatumId>::empty());
                    assert(ids_text(Seq::<DatumId>::empty()) =~= Seq::<char>::empty());
                }
            }
            i = i + 1;
        }
        assert(self.data@.take(self.data@.len() as int) =~= self.data@);
        r.append("]");
        r
    }
}

/// Rust native datum details to use as generic in [RecordDefinition].
#[derive(PartialEq, Eq, Debug)]
pub struct NativeDatumDetails {
    /// The offset of the datum in the record buffer.
    pub offset: usize,
    /// The type information of the datum.
    pub type_info: TypeInfo,
    /// Whether the datum may be left uninitialized.
    pub allow_uninit: bool,
}

impl NativeDatumDetails {
    /// Creates native datum details.
    pub fn new(offset: usize, type_info: TypeInfo, allow_uninit: bool) -> (r: Self)
        ensures
            r.offset == offset,
            r.type_info == type_info,
            r.allow_uninit == allow_uninit,
    {
        NativeDatumDetails { offset, type_info, allow_uninit }
    }

    /// Gets the offset of this datum in the record buffer.
    pub fn offset(&self) -> (r: usize)
        ensures
            r == self.offset,
    {
        self.offset
    }

    /// Gets the size of this datum in the record buffer.
    pub fn size(&self) -> (r: usize)
        ensures
            r == self.type_info.size,
    {
        self.type_info.size
    }

    /// Gets the type information of this datum.
    pub fn type_info(&self) -> (r: &TypeInfo)
        ensures
            *r == self.type_info,
    {
        &self.type_info
    }

    /// Gets the type name of this datum.
    pub fn name_of_type(&self) -> (r: &str)
        ensures
            r@ == self.type_info.name@,
    {
        self.type_info.name.as_str()
    }

    /// Gets the type alignment of this datum.
    pub fn type_align(&self) -> (r: usize)
        ensures
            r == self.type_info.align,
    {
        self.type_info.align
    }

    /// Gets the type `allow_uninit` flag of this datum.
    pub fn allow_uninit(&self) -> (r: bool)
        ensures
            r == self.allow_uninit,
    {
        self.allow_uninit
    }
}

/// Native datum definitions, indexed by datum identifier.
pub type NativeDefs = Seq<DatumDefinition<NativeDatumDetails>>;

/// The offset of datum `d`.
pub open spec fn offset_of(defs: NativeDefs, d: DatumId) -> int {
    defs[d.0 as int].details.offset as int
}

/// The size of datum `d`.
pub open spec fn size_of_datum(defs: NativeDefs, d: DatumId) -> int {
    defs[d.0 as int].details.type_info.size as int
}

/// The alignment of datum `d`.
pub open spec fn align_of_datum(defs: NativeDefs, d: DatumId) -> int {
    defs[d.0 as int].details.type_info.align as int
}

/// The offset just after datum `d`.
pub open spec fn end_of(defs: NativeDefs, d: DatumId) -> int {
    offset_of(defs, d) + size_of_datum(defs, d)
}

/// The data are distinct datums of the collection.
pub open spec fn valid_ids(len: nat, data: Seq<DatumId>) -> bool {
    &&& forall|i: int| 0 <= i < data.len() ==> (#[trigger] data[i]).0 < len
    &&& forall|i: int, j: int| 0 <= i < j < data.len() ==> data[i] != data[j]
}

/// Whether `data` holds distinct identifiers below `len`.
pub fn valid_datum_ids(len: usize, data: &[DatumId]) -> (r: bool)
    ensures
        r == valid_ids(len as nat, data@),
{
    let n = data.len();
    let mut i: usize = 0;
    while i < n
        invariant
            n == data@.len(),
            i <= n,
            forall|k: int| 0 <= k < i ==> (#[trigger] data@[k]).0 < len,
            forall|k: int, l: int| 0 <= k < l < i ==> data@[k] != data@[l],
        decreases n - i,
    {
        if data[i].0 >= len {
            return false;
        }
        let mut j: usize = 0;
        while j < i
            invariant
                i < n == data@.len(),
                j <= i,
                forall|k: int| 0 <= k < j ==> data@[k] != data@[i as int],
            decreases i - j,
        {
            if data[j].0 == data[i].0 {
                proof {
                    assert(data@[j as int] == data@[i as int]);
                }
                return false;
            }
            j = j + 1;
        }
        i = i + 1;
    }
    true
}

/// The layout of a record variant in memory: every datum is aligned, fits in the address
/// space, and every non-empty datum ends before any datum that comes after it in `data`.
///
/// In particular the bytes of two distinct non-empty datums never overlap.
pub open spec fn ordered_layout(defs: NativeDefs, data: Seq<DatumId>) -> bool {
    &&& valid_ids(defs.len(), data)
    &&& forall|i: int| 0 <= i < data.len() ==> {
        &&& align_of_datum(defs, #[trigger] data[i]) > 0
        &&& offset_of(defs, data[i]) % align_of_datum(defs, data[i]) == 0
        &&& end_of(defs, data[i]) <= usize::MAX
    }
    &&& forall|i: int, j: int|
        0 <= i < j < data.len() && size_of_datum(defs, #[trigger] data[i]) > 0 ==> end_of(defs, data[i])
            <= offset_of(defs, #[trigger] data[j])
}

/// Every datum ends before the next one in `data` starts.
pub open spec fn consecutive_layout(defs: NativeDefs, data: Seq<DatumId>) -> bool {
    &&& forall|i: int| 0 <= i < data.len() ==> (#[trigger] data[i]).0 < defs.len()
    &&& forall|i: int| 0 <= i < data.len() ==> end_of(defs, #[trigger] data[i]) <= usize::MAX
    &&& forall|i: int| 0 < i < data.len() ==> end_of(defs, data[i - 1]) <= offset_of(defs, #[trigger] data[i])
}

/// The textual representation of a native datum.
pub open spec fn datum_text(d: DatumDefinition<NativeDatumDetails>) -> Seq<char> {
    decimal(d.id.0 as nat) + ": "@ + d.name@ + " ("@ + d.details.type_info.name@ + ", align "@
        + decimal(d.details.type_info.align as nat) + ", offset "@ + decimal(d.details.offset as nat)
        + ", size "@ + decimal(d.details.type_info.size as nat) + ")"@
}

/// The textual representation of unused bytes between `from` and `to`.
pub open spec fn void_text(from: int, to: int) -> Seq<char> {
    if from < to {
        "(void, "@ + decimal((to - from) as nat) + "), "@
    } else {
        Seq::empty()
    }
}

/// The textual representation of the data of a variant with the unused bytes between them.
pub open spec fn layout_text(defs: NativeDefs, data: Seq<DatumId>) -> Seq<char>
    decreases data.len(),
{
    if data.len() == 0 {
        Seq::empty()
    } else {
        let prev_end = if data.len() > 1 { end_of(defs, data[data.len() - 2]) } else { 0 };
        layout_text(defs, data.drop_last()) + (if data.len() > 1 { ", "@ } else { Seq::empty() })
            + void_text(prev_end, offset_of(defs, data.last())) + datum_text(defs[data.last().0 as int])
    }
}

/// The textual representation of a native variant.
pub open spec fn variant_layout_text(defs: NativeDefs, variant: RecordVariant) -> Seq<char> {
    decimal(variant.id.0 as nat) + " ["@ + layout_text(defs, variant.data@) + "]"@
}

/// The textual representation of native variants, one per line.
pub open spec fn variants_text(defs: NativeDefs, variants: Seq<RecordVariant>) -> Seq<char>
    decreases variants.len(),
{
    if variants.len() == 0 {
        Seq::empty()
    } else {
        variants_text(defs, variants.drop_last()) + variant_layout_text(defs, variants.last()) + "\n"@
    }
}

/// The largest alignment of the datums, 0 when there is none.
pub open spec fn max_align(defs: NativeDefs) -> int
    decreases defs.len(),
{
    if defs.len() == 0 {
        0
    } else {
        let m = max_align(defs.drop_last());
        let a = defs.last().details.type_info.align as int;
        if m < a { a } else { m }
    }
}

/// The largest end offset of the datums, 0 when there is none.
pub open spec fn max_end(defs: NativeDefs) -> int
    decreases defs.len(),
{
    if defs.len() == 0 {
        0
    } else {
        let m = max_end(defs.drop_last());
        let e = defs.last().details.offset + defs.last().details.type_info.size;
        if m < e { e } else { m }
    }
}

/// Every datum ends at or before [max_end].
pub proof fn lemma_max_end(defs: NativeDefs)
    ensures
        forall|i: int|
            0 <= i < defs.len() ==> (#[trigger] defs[i]).details.offset + defs[i].details.type_info.size <= max_end(defs),
    decreases defs.len(),
{
    if defs.len() > 0 {
        let t = defs.drop_last();
        lemma_max_end(t);
        assert forall|i: int| 0 <= i < defs.len() implies (#[trigger] defs[i]).details.offset
            + defs[i].details.type_info.size <= max_end(defs) by {
            if i < t.len() {
                assert(t[i] == defs[i]);
            }
        }
    }
}

/// In a definition laid out in memory, each datum of a variant is aligned and ends at or before
/// the maximum size of the record, which is where the last datum ends.
pub proof fn law_variant_data_fit(def: RecordDefinition<NativeDatumDetails>, v: int, i: int)
    requires
        def.laid_out(),
        0 <= v < def.variants@.len(),
        0 <= i < def.variants@[v].data@.len(),
    ensures
        ({
            let d = def.variants@[v].data@[i];
            &&& offset_of(def.datum_definitions@, d) % align_of_datum(def.datum_definitions@, d) == 0
            &&& end_of(def.datum_definitions@, d) <= max_end(def.datum_definitions@)
        }),
{
    let defs = def.datum_definitions@;
    let d = def.variants@[v].data@[i];
    assert(ordered_layout(defs, def.variants@[v].data@));
    lemma_max_end(defs);
    assert(defs[d.0 as int].details.offset + defs[d.0 as int].details.type_info.size <= max_end(defs));
}

/// One more datum in the textual representation of a variant.
pub proof fn lemma_layout_text_step(defs: NativeDefs, data: Seq<DatumId>, i: int)
    requires
        0 <= i < data.len(),
    ensures
        layout_text(defs, data.take(i + 1)) == layout_text(defs, data.take(i)) + (if i > 0 {
            ", "@
        } else {
            Seq::empty()
        }) + void_text(if i > 0 { end_of(defs, data[i - 1]) } else { 0 }, offset_of(defs, data[i]))
            + datum_text(defs[data[i].0 as int]),
{
    let s = data.take(i + 1);
    assert(s.drop_last() =~= data.take(i));
    assert(s.last() == data[i]);
    if i > 0 {
        assert(s[s.len() - 2] == data[i - 1]);
    } else {
        assert(data.take(0) =~= Seq::<DatumId>::empty());
        assert(layout_text(defs, Seq::<DatumId>::empty()) =~= Seq::<char>::empty());
    }
}

/// Datum `d` with its offset replaced.
pub open spec fn with_offset(d: DatumDefinition<NativeDatumDetails>, offset: usize) -> DatumDefinition<
    NativeDatumDetails,
> {
    DatumDefinition {
        id: d.id,
        name: d.name,
        details: NativeDatumDetails {
            offset,
            type_info: d.details.type_info,
            allow_uninit: d.details.allow_uninit,
        },
    }
}

impl DatumDefinitionCollection<NativeDatumDetails> {
    /// Sets the offset of a datum, leaving everything else unchanged.
    pub fn set_offset(&mut self, id: DatumId, offset: usize)
        requires
            old(self).contains(id),
        ensures
            final(self)@ == old(self)@.update(id.0 as int, with_offset(old(self)@[id.0 as int], offset)),
    {
        let mut datum = self.data.remove(id.0);
        datum.details.offset = offset;
        self.data.insert(id.0, datum);
        assert(self@ =~= old(self)@.update(id.0 as int, with_offset(old(self)@[id.0 as int], offset)));
    }
}

impl DatumDefinition<NativeDatumDetails> {
    /// The offset of the datum in the record.
    pub fn offset(&self) -> (r: usize)
        ensures
            r == self.details.offset,
    {
        self.details.offset
    }

    /// The size of the datum.
    pub fn size(&self) -> (r: usize)
        ensures
            r == self.details.type_info.size,
    {
        self.details.type_info.size
    }

    /// Whether the datum may be left uninitialized.
    pub fn allow_uninit(&self) -> (r: bool)
        ensures
            r == self.details.allow_uninit,
    {
        self.details.allow_uninit
    }

    /// The textual representation of the datum: identifier, name and details.
    pub fn to_string(&self) -> (r: String)
        ensures
            r@ == datum_text(*self),
    {
        let mut r = decimal_string(self.id.0);
        r.append(": ");
        r.append(self.name.as_str());
        r.append(" (");
        r.append(self.details.type_info.name.as_str());
        r.append(", align ");
        append_decimal(&mut r, self.details.type_info.align);
        r.append(", offset ");
        append_decimal(&mut r, self.details.offset);
        r.append(", size ");
        append_decimal(&mut r, self.details.type_info.size);
        r.append(")");
        r
    }
}

/// Record definition structure.
///
/// It is the output of record definition builders (see [builder]).
#[derive(Debug)]
pub struct RecordDefinition<D> {
    /// All the datum definitions, including the ones of removed data.
    pub datum_definitions: DatumDefinitionCollection<D>,
    /// The variants, in the order of their identifiers.
    pub variants: Vec<RecordVariant>,
}

impl<D> RecordDefinition<D> {
    /// Every variant is stored at the position given by its identifier and holds distinct
    /// datums of the definition.
    pub open spec fn wf(&self) -> bool {
        &&& self.datum_definitions.wf()
        &&& forall|i: int| 0 <= i < self.variants@.len() ==> (#[trigger] self.variants@[i]).id.0 == i
        &&& forall|i: int|
            0 <= i < self.variants@.len() ==> valid_ids(
                self.datum_definitions@.len(),
                (#[trigger] self.variants@[i]).data@,
            )
    }

    /// Whether the definition is consistent (see `wf`).
    pub fn is_wf(&self) -> (r: bool)
        ensures
            r == self.wf(),
    {
        let defs = self.datum_definitions.as_slice();
        let n = defs.len();
        let mut i: usize = 0;
        while i < n
            invariant
                n == defs@.len(),
                defs@ == self.datum_definitions@,
                i <= n,
                forall|k: int| 0 <= k < i ==> (#[trigger] defs@[k]).id.0 == k,
            decreases n - i,
        {
            if defs[i].id.0 != i {
                return false;
            }
            i = i + 1;
        }
        let variants = self.variants.as_slice();
        let m = variants.len();
        let mut v: usize = 0;
        while v < m
            invariant
                m == variants@.len(),
                variants@ == self.variants@,
                n == self.datum_definitions@.len(),
                v <= m,
                forall|k: int| 0 <= k < v ==> (#[trigger] variants@[k]).id.0 == k,
                forall|k: int| 0 <= k < v ==> valid_ids(n as nat, (#[trigger] variants@[k]).data@),
            decreases m - v,
        {
            if variants[v].id.0 != v || !valid_datum_ids(n, variants[v].data.as_slice()) {
                return false;
            }
            v = v + 1;
        }
        true
    }

    /// Gets all the datum definitions, in the order of their identifiers.
    pub fn datum_definitions(&self) -> (r: &[DatumDefinition<D>])
        ensures
            r@ == self.datum_definitions@,
    {
        self.datum_definitions.as_slice()
    }

    /// Gets a datum definition by ID.
    pub fn get_datum_definition(&self, id: DatumId) -> (r: Option<&DatumDefinition<D>>)
        ensures
            r == (if self.datum_definitions.contains(id) {
                Some(&self.datum_definitions@[id.0 as int])
            } else {
                None
            }),
    {
        self.datum_definitions.get(id)
    }

    /// Gets all the record variants, in the order of their identifiers.
    pub fn variants(&self) -> (r: &[RecordVariant])
        ensures
            r@ == self.variants@,
    {
        self.variants.as_slice()
    }

    /// Gets a variant definition by ID.
    pub fn get_variant(&self, id: RecordVariantId) -> (r: Option<&RecordVariant>)
        ensures
            r == (if id.0 < self.variants@.len() { Some(&self.variants@[id.0 as int]) } else { None }),
    {
        if id.0 < self.variants.len() {
            Some(&self.variants[id.0])
        } else {
            None
        }
    }
}

impl RecordDefinition<NativeDatumDetails> {
    /// Every datum ends within the address space.
    pub open spec fn ends_in_address_space(&self) -> bool {
        forall|i: int|
            0 <= i < self.datum_definitions@.len() ==> (#[trigger] self.datum_definitions@[i]).details.offset
                + self.datum_definitions@[i].details.type_info.size <= usize::MAX
    }

    /// Whether every datum ends within the address space.
    pub fn fits_in_address_space(&self) -> (r: bool)
        ensures
            r == self.ends_in_address_space(),
    {
        let defs = self.datum_definitions.as_slice();
        let n = defs.len();
        let mut i: usize = 0;
        while i < n
            invariant
                n == defs@.len(),
                defs@ == self.datum_definitions@,
                i <= n,
                forall|k: int|
                    0 <= k < i ==> (#[trigger] defs@[k]).details.offset + defs@[k].details.type_info.size <= usize::MAX,
            decreases n - i,
        {
            if defs[i].details.offset > usize::MAX - defs[i].details.type_info.size {
                return false;
            }
            i = i + 1;
        }
        true
    }

    /// Every variant of the definition is laid out in memory without overlap.
    pub open spec fn laid_out(&self) -> bool {
        forall|i: int|
            0 <= i < self.variants@.len() ==> ordered_layout(
                self.datum_definitions@,
                (#[trigger] self.variants@[i]).data@,
            )
    }

    /// Gets the maximum value of type alignment in the definition.
    ///
    /// It is used to determine the alignment of the record structure. It is the alignment of `()`
    /// when there is no datum.
    pub fn max_type_align(&self) -> (r: usize)
        ensures
            self.datum_definitions@.len() == 0 ==> r == 1,
            self.datum_definitions@.len() > 0 ==> r == max_align(self.datum_definitions@),
            forall|i: int|
                0 <= i < self.datum_definitions@.len() ==> (#[trigger] self.datum_definitions@[i]).details.type_info.align
                    <= r,
    {
        let defs = self.datum_definitions.as_slice();
        let mut m: usize = 0;
        let mut i: usize = 0;
        while i < defs.len()
            invariant
                i <= defs@.len(),
                defs@ == self.datum_definitions@,
                m == max_align(defs@.take(i as int)),
                forall|k: int| 0 <= k < i ==> (#[trigger] defs@[k]).details.type_info.align <= m,
            decreases defs@.len() - i,
        {
            proof {
                assert(defs@.take(i + 1).drop_last() =~= defs@.take(i as int));
            }
            if m < defs[i].details.type_info.align {
                m = defs[i].details.type_info.align;
            }
            i = i + 1;
        }
        assert(defs@.take(defs@.len() as int) =~= defs@);
        if defs.len() == 0 {
            proof {
                broadcast use vstd::layout::layout_of_unit_tuple;
            }
            core::mem::align_of::<()>()
        } else {
            m
        }
    }

    /// Gets the maximum size of all record variants.
    ///
    /// This is used to determine the size of the byte buffer required to store any variant of this
    /// record definition: every datum ends at or before that size.
    pub fn max_size(&self) -> (r: usize)
        requires
            forall|i: int|
                0 <= i < self.datum_definitions@.len() ==> (#[trigger] self.datum_definitions@[i]).details.offset
                    + self.datum_definitions@[i].details.type_info.size <= usize::MAX,
        ensures
            r == max_end(self.datum_definitions@),
            forall|i: int|
                0 <= i < self.datum_definitions@.len() ==> (#[trigger] self.datum_definitions@[i]).details.offset
                    + self.datum_definitions@[i].details.type_info.size <= r,
    {
        let defs = self.datum_definitions.as_slice();
        let mut m: usize = 0;
        let mut i: usize = 0;
        while i < defs.len()
            invariant
                i <= defs@.len(),
                defs@ == self.datum_definitions@,
                forall|k: int|
                    0 <= k < defs@.len() ==> (#[trigger] defs@[k]).details.offset + defs@[k].details.type_info.size
                        <= usize::MAX,
                m == max_end(defs@.take(i as int)),
                forall|k: int|
                    0 <= k < i ==> (#[trigger] defs@[k]).details.offset + defs@[k].details.type_info.size <= m,
            decreases defs@.len() - i,
        {
            proof {
                assert(defs@.take(i + 1).drop_last() =~= defs@.take(i as int));
            }
            let e = defs[i].details.offset + defs[i].details.type_info.size;
            if m < e {
                m = e;
            }
            i = i + 1;
        }
        assert(defs@.take(defs@.len() as int) =~= defs@);
        m
    }

    fn layout_piece(not_first: bool, byte_offset: usize, datum: &DatumDefinition<NativeDatumDetails>) -> (r: String)
        ensures
            r@ == (if not_first { ", "@ } else { Seq::empty() }) + void_text(
                byte_offset as int,
                datum.details.offset as int,
            ) + datum_text(*datum),
    {
        let mut r = String::new();
        if not_first {
            r.append(", ");
        }
        if byte_offset < datum.details.offset {
            r.append("(void, ");
            append_decimal(&mut r, datum.details.offset - byte_offset);
            r.append("), ");
        }
        let t = datum.to_string();
        r.append(t.as_str());
        proof {
            let sep: Seq<char> = if not_first { ", "@ } else { Seq::empty() };
            assert(r@ =~= sep + void_text(byte_offset as int, datum.details.offset as int) + datum_text(*datum));
        }
        r
    }

    /// The textual representation of a variant with the unused bytes between its data.
    ///
    /// Each datum must start at or after the end of the previous one: the unused bytes between
    /// them are shown as `(void, n)`.
    #[verifier::rlimit(30)]
    pub fn variant_to_string(&self, variant: &RecordVariant) -> (r: String)
        requires
            consecutive_layout(self.datum_definitions@, variant.data@),
            self.datum_definitions.wf(),
        ensures
            r@ == variant_layout_text(self.datum_definitions@, *variant),
    {
        let defs = self.datum_definitions.as_slice();
        let mut r = decimal_string(variant.id.0);
        r.append(" [");
        let ghost prefix = r@;
        let mut byte_offset: usize = 0;
        let mut i: usize = 0;
        while i < variant.data.len()
            invariant
                i <= variant.data@.len(),
                defs@ == self.datum_definitions@,
                self.datum_definitions.wf(),
                consecutive_layout(defs@, variant.data@),
                r@ == prefix + layout_text(defs@, variant.data@.take(i as int)),
                byte_offset == (if i > 0 { end_of(defs@, variant.data@[i - 1]) } else { 0 }),
            decreases variant.data@.len() - i,
        {
            let d = variant.data[i];
            let datum = &defs[d.0];
            let piece = Self::layout_piece(i > 0, byte_offset, datum);
            let ghost before = r@;
            r.append(piece.as_str());
            proof {
                lemma_layout_text_step(defs@, variant.data@, i as int);
                assert(defs@[d.0 as int] == *datum);
                assert(r@ =~= prefix + layout_text(defs@, variant.data@.take(i + 1)));
            }
            byte_offset = datum.details.offset + datum.details.type_info.size;
            i = i + 1;
        }
        assert(variant.data@.take(variant.data@.len() as int) =~= variant.data@);
        r.append("]");
        r
    }

    /// The textual representation of the definition: one line per variant, see
    /// [variant_to_string](Self::variant_to_string).
    pub fn to_string(&self) -> (r: String)
        requires
            self.datum_definitions.wf(),
            forall|i: int|
                0 <= i < self.variants@.len() ==> consecutive_layout(
                    self.datum_definitions@,
                    (#[trigger] self.variants@[i]).data@,
                ),
        ensures
            r@ == variants_text(self.datum_definitions@, self.variants@),
    {
        let mut r = String::new();
        let mut i: usize = 0;
        while i < self.variants.len()
            invariant
                i <= self.variants@.len(),
                self.datum_definitions.wf(),
                forall|k: int|
                    0 <= k < self.variants@.len() ==> consecutive_layout(
                        self.datum_definitions@,
                        (#[trigger] self.variants@[k]).data@,
                    ),
                r@ == variants_text(self.datum_definitions@, self.variants@.take(i as int)),
            decreases self.variants@.len() - i,
        {
            let v = self.variant_to_string(&self.variants[i]);
            r.append(v.as_str());
            r.append("\n");
            proof {
                let s = self.variants@.take(i + 1);
                assert(s.drop_last() =~= self.variants@.take(i as int));
                if i == 0 {
                    assert(self.variants@.take(0) =~= Seq::<RecordVariant>::empty());
                }
            }
            i = i + 1;
        }
        assert(self.variants@.take(self.variants@.len() as int) =~= self.variants@);
        r
    }
}

} // verus!
