//! What the code generator derives from a record definition, variant after variant: the names
//! of the generated types, the data of each record sorted by identifier, the data removed and
//! added since the previous record, and the generic parameters of the records whose data may be
//! left uninitialized.

pub mod access;
pub mod constructor;
pub mod data_record;
pub mod from_previous;
pub mod plan;

use vstd::prelude::*;

use crate::record::definition::{
    ids_sorted, valid_ids, without, DatumDefinition, DatumId, NativeDatumDetails, RecordDefinition, RecordVariant,
};
use crate::text::{append_decimal, decimal};

verus! {

/// Generic parameters of a record: one type parameter `T<index>` for each datum that may be left
/// uninitialized.
#[derive(PartialEq, Eq, Debug)]
pub struct RecordGeneric {
    /// The declaration of the parameters, such as `T0: Copy, T2: Copy`.
    pub full: String,
    /// The parameters, such as `T0, T2`.
    pub short: String,
    /// The types of the data, such as `u32, u8`.
    pub typed: String,
}

impl View for RecordGeneric {
    type V = (Seq<char>, Seq<char>, Seq<char>);

    open spec fn view(&self) -> (Seq<char>, Seq<char>, Seq<char>) {
        (self.full@, self.short@, self.typed@)
    }
}

/// The separator before a generic parameter: none before the first one.
pub open spec fn separator(count: nat) -> Seq<char> {
    if count > 0 {
        ", "@
    } else {
        Seq::empty()
    }
}

/// The generic parameters of the records holding `data`, with the number of parameters.
pub open spec fn generic_parts(data: Seq<&DatumDefinition<NativeDatumDetails>>) -> (
    Seq<char>,
    Seq<char>,
    Seq<char>,
    nat,
)
    decreases data.len(),
{
    if data.len() == 0 {
        (Seq::empty(), Seq::empty(), Seq::empty(), 0)
    } else {
        let (full, short, typed, count) = generic_parts(data.drop_last());
        let index = (data.len() - 1) as nat;
        let datum = data.last();
        if datum.details.allow_uninit {
            let sep = separator(count);
            (
                full + sep + "T"@ + decimal(index) + ": Copy"@,
                short + sep + "T"@ + decimal(index),
                typed + sep + datum.details.type_info.name@,
                count + 1,
            )
        } else {
            (full, short, typed, count)
        }
    }
}

/// The generic parameters of the records holding `data`, when some datum may be left
/// uninitialized.
pub open spec fn safe_generic(data: Seq<&DatumDefinition<NativeDatumDetails>>) -> Option<
    (Seq<char>, Seq<char>, Seq<char>),
> {
    let (full, short, typed, count) = generic_parts(data);
    if count > 0 {
        Some((full, short, typed))
    } else {
        None
    }
}

/// Gives the generic parameters of the records holding `data`: `None` when no datum may be left
/// uninitialized.
pub fn safe_record_generic(data: &[&DatumDefinition<NativeDatumDetails>]) -> (r: Option<RecordGeneric>)
    ensures
        match r {
            Some(g) => safe_generic(data@) == Some(g@),
            None => safe_generic(data@) is None,
        },
{
    let mut generic = String::new();
    let mut short_generic = String::new();
    let mut typed_generic = String::new();
    let mut count: usize = 0;
    let mut index: usize = 0;
    proof {
        assert(data@.take(0) =~= Seq::<&DatumDefinition<NativeDatumDetails>>::empty());
    }
    while index < data.len()
        invariant
            index <= data@.len(),
            count <= index,
            generic_parts(data@.take(index as int)) == (generic@, short_generic@, typed_generic@, count as nat),
        decreases data@.len() - index,
    {
        let datum = data[index];
        proof {
            assert(data@.take(index + 1).drop_last() =~= data@.take(index as int));
            assert(data@.take(index + 1).last() == datum);
        }
        if datum.details.allow_uninit {
            if count > 0 {
                generic.append(", ");
                short_generic.append(", ");
                typed_generic.append(", ");
            }
            generic.append("T");
            append_decimal(&mut generic, index);
            generic.append(": Copy");
            short_generic.append("T");
            append_decimal(&mut short_generic, index);
            typed_generic.append(datum.details.type_info.name.as_str());
            count = count + 1;
        }
        index = index + 1;
    }
    proof {
        assert(data@.take(data@.len() as int) =~= data@);
    }
    if count > 0 {
        Some(RecordGeneric { full: generic, short: short_generic, typed: typed_generic })
    } else {
        None
    }
}

/// The identifiers of the definitions in `data`.
pub open spec fn ids_of(data: Seq<&DatumDefinition<NativeDatumDetails>>) -> Seq<DatumId> {
    data.map_values(|d: &DatumDefinition<NativeDatumDetails>| d.id)
}

/// The definitions of `data` whose identifier is not in `removed`, in the same order.
pub open spec fn without_ids(
    data: Seq<&DatumDefinition<NativeDatumDetails>>,
    removed: Seq<DatumId>,
) -> Seq<&DatumDefinition<NativeDatumDetails>>
    decreases data.len(),
{
    if data.len() == 0 {
        Seq::empty()
    } else if removed.contains(data.last().id) {
        without_ids(data.drop_last(), removed)
    } else {
        without_ids(data.drop_last(), removed).push(data.last())
    }
}

/// Taking out definitions by identifier takes out their identifiers.
pub proof fn lemma_ids_without(data: Seq<&DatumDefinition<NativeDatumDetails>>, removed: Seq<DatumId>)
    ensures
        ids_of(without_ids(data, removed)) == without(ids_of(data), removed),
    decreases data.len(),
{
    if data.len() > 0 {
        lemma_ids_without(data.drop_last(), removed);
        assert(ids_of(data).drop_last() =~= ids_of(data.drop_last()));
        assert(ids_of(data).last() == data.last().id);
        if !removed.contains(data.last().id) {
            assert(ids_of(without_ids(data.drop_last(), removed).push(data.last())) =~= ids_of(
                without_ids(data.drop_last(), removed),
            ).push(data.last().id));
        }
    }
}

/// The definitions of `data` whose identifier is not in `removed`, in the same order.
fn refs_without<'a>(data: &Vec<&'a DatumDefinition<NativeDatumDetails>>, removed: &[DatumId]) -> (r: Vec<
    &'a DatumDefinition<NativeDatumDetails>,
>)
    ensures
        r@ == without_ids(data@, removed@),
{
    let mut r: Vec<&'a DatumDefinition<NativeDatumDetails>> = Vec::new();
    let mut i: usize = 0;
    proof {
        assert(data@.take(0) =~= Seq::<&DatumDefinition<NativeDatumDetails>>::empty());
    }
    while i < data.len()
        invariant
            i <= data@.len(),
            r@ == without_ids(data@.take(i as int), removed@),
        decreases data@.len() - i,
    {
        let d = data[i];
        let mut found = false;
        let mut j: usize = 0;
        while j < removed.len()
            invariant
                j <= removed@.len(),
                found <==> removed@.take(j as int).contains(d.id),
            decreases removed@.len() - j,
        {
            proof {
                assert(removed@.take(j + 1) =~= removed@.take(j as int).push(removed@[j as int]));
                crate::record::definition::builder::native::variant::lemma_push_contains(
                    removed@.take(j as int),
                    removed@[j as int],
                );
            }
            if removed[j] == d.id {
                found = true;
            }
            j = j + 1;
        }
        proof {
            assert(removed@.take(removed@.len() as int) =~= removed@);
            assert(data@.take(i + 1).drop_last() =~= data@.take(i as int));
            assert(data@.take(i + 1).last() == d);
        }
        if !found {
            r.push(d);
        }
        i = i + 1;
    }
    proof {
        assert(data@.take(data@.len() as int) =~= data@);
    }
    r
}

/// The definitions of the data `ids`, in the same order.
fn refs_of<'a>(definition: &'a RecordDefinition<NativeDatumDetails>, ids: &Vec<DatumId>) -> (r: Vec<
    &'a DatumDefinition<NativeDatumDetails>,
>)
    requires
        forall|i: int| 0 <= i < ids@.len() ==> (#[trigger] ids@[i]).0 < definition.datum_definitions@.len(),
    ensures
        r@.len() == ids@.len(),
        forall|i: int| 0 <= i < ids@.len() ==> *(#[trigger] r@[i]) == definition.datum_definitions@[ids@[i].0 as int],
{
    let mut r: Vec<&'a DatumDefinition<NativeDatumDetails>> = Vec::new();
    let mut i: usize = 0;
    while i < ids.len()
        invariant
            forall|i: int| 0 <= i < ids@.len() ==> (#[trigger] ids@[i]).0 < definition.datum_definitions@.len(),
            i <= ids@.len(),
            r@.len() == i,
            forall|k: int| 0 <= k < i ==> *(#[trigger] r@[k]) == definition.datum_definitions@[ids@[k].0 as int],
        decreases ids@.len() - i,
    {
        r.push(&definition.datum_definitions.data[ids[i].0]);
        i = i + 1;
    }
    r
}

/// What the generator derives from a record variant to generate its types.
#[derive(PartialEq, Eq, Debug)]
pub struct RecordSpec<'a> {
    /// The maximum type alignment of the definition, which is the alignment of the records.
    pub max_type_align: usize,
    /// The variant.
    pub variant: &'a RecordVariant,
    /// `CappedRecord<id>`.
    pub capped_record_name: String,
    /// `Record<id>`.
    pub record_name: String,
    /// `UnpackedRecord<id>`.
    pub unpacked_record_name: String,
    /// `UnpackedUninitRecord<id>`.
    pub unpacked_uninit_record_name: String,
    /// `UnpackedUninitSafeRecord<id>`.
    pub unpacked_uninit_safe_record_name: String,
    /// `UnpackedRecordIn<id>`.
    pub unpacked_record_in_name: String,
    /// `UnpackedUninitRecordIn<id>`.
    pub unpacked_uninit_record_in_name: String,
    /// `UnpackedUninitSafeRecordIn<id>`.
    pub unpacked_uninit_safe_record_in_name: String,
    /// `Record<id>AndUnpackedOut`.
    pub record_and_unpacked_out_name: String,
    /// The data of the variant, sorted by identifier.
    pub data: Vec<&'a DatumDefinition<NativeDatumDetails>>,
    /// The data of the previous variant that are not in this one, sorted by identifier.
    pub minus_data: Vec<&'a DatumDefinition<NativeDatumDetails>>,
    /// The data of this variant that are not in the previous one, sorted by identifier.
    pub plus_data: Vec<&'a DatumDefinition<NativeDatumDetails>>,
    /// The generic parameters of the records holding `data`.
    pub unpacked_uninit_safe_generic: Option<RecordGeneric>,
    /// The generic parameters of the records holding `plus_data`.
    pub plus_uninit_safe_generic: Option<RecordGeneric>,
}

/// What a fragment generator receives: the record of the variant and the one of the previous
/// variant, if any.
#[derive(Debug)]
pub struct FragmentGeneratorSpecs<'a> {
    /// The record of the variant.
    pub record: &'a RecordSpec<'a>,
    /// The record of the previous variant, if any.
    pub prev_record: Option<&'a RecordSpec<'a>>,
}

/// `prefix` followed by the variant identifier, then `suffix`.
pub open spec fn variant_name(prefix: Seq<char>, id: usize, suffix: Seq<char>) -> Seq<char> {
    prefix + decimal(id as nat) + suffix
}

fn make_name(prefix: &str, id: usize, suffix: &str) -> (r: String)
    ensures
        r@ == variant_name(prefix@, id, suffix@),
{
    let mut r = String::from_str(prefix);
    append_decimal(&mut r, id);
    r.append(suffix);
    r
}

/// The names of the types of a variant.
pub open spec fn names_of(s: RecordSpec, id: usize) -> bool {
    &&& s.capped_record_name@ == variant_name("CappedRecord"@, id, ""@)
    &&& s.record_name@ == variant_name("Record"@, id, ""@)
    &&& s.unpacked_record_name@ == variant_name("UnpackedRecord"@, id, ""@)
    &&& s.unpacked_uninit_record_name@ == variant_name("UnpackedUninitRecord"@, id, ""@)
    &&& s.unpacked_uninit_safe_record_name@ == variant_name("UnpackedUninitSafeRecord"@, id, ""@)
    &&& s.unpacked_record_in_name@ == variant_name("UnpackedRecordIn"@, id, ""@)
    &&& s.unpacked_uninit_record_in_name@ == variant_name("UnpackedUninitRecordIn"@, id, ""@)
    &&& s.unpacked_uninit_safe_record_in_name@ == variant_name("UnpackedUninitSafeRecordIn"@, id, ""@)
    &&& s.record_and_unpacked_out_name@ == variant_name("Record"@, id, "AndUnpackedOut"@)
}

/// The definitions of `data` come by increasing identifiers, which are distinct.
pub open spec fn strictly_sorted(data: Seq<&DatumDefinition<NativeDatumDetails>>) -> bool {
    forall|i: int, j: int| 0 <= i < j < data.len() ==> (#[trigger] data[i]).id.0 < (#[trigger] data[j]).id.0
}

/// The definitions of `data` are definitions of `definition`.
pub open spec fn refs_in(
    definition: RecordDefinition<NativeDatumDetails>,
    data: Seq<&DatumDefinition<NativeDatumDetails>>,
) -> bool {
    forall|i: int|
        0 <= i < data.len() ==> (#[trigger] data[i]).id.0 < definition.datum_definitions@.len() && *data[i]
            == definition.datum_definitions@[data[i].id.0 as int]
}

/// The generic parameters match the data.
pub open spec fn generic_of(g: Option<RecordGeneric>, data: Seq<&DatumDefinition<NativeDatumDetails>>) -> bool {
    match g {
        Some(g) => safe_generic(data) == Some(g@),
        None => safe_generic(data) is None,
    }
}

/// A sorted permutation of distinct identifiers is strictly sorted and has the same members.
pub proof fn lemma_sorted_permutation(s: Seq<DatumId>, t: Seq<DatumId>, len: nat)
    requires
        ids_sorted(s),
        s.to_multiset() == t.to_multiset(),
        valid_ids(len, t),
    ensures
        forall|i: int, j: int| 0 <= i < j < s.len() ==> (#[trigger] s[i]).0 < (#[trigger] s[j]).0,
        forall|x: DatumId| #[trigger] s.contains(x) <==> t.contains(x),
{
    assert(t.no_duplicates()) by {
        assert forall|i: int, j: int| 0 <= i < t.len() && 0 <= j < t.len() && i != j implies t[i] != t[j] by {
            if i < j {
                assert(t[i] != t[j]);
            } else {
                assert(t[j] != t[i]);
            }
        }
    }
    t.lemma_multiset_has_no_duplicates();
    s.to_multiset_ensures();
    t.to_multiset_ensures();
    assert forall|x: DatumId| s.to_multiset().contains(x) implies s.to_multiset().count(x) == 1 by {}
    s.lemma_multiset_has_no_duplicates_conv();
    assert forall|i: int, j: int| 0 <= i < j < s.len() implies (#[trigger] s[i]).0 < (#[trigger] s[j]).0 by {
        assert(s[i] != s[j]);
    }
    assert forall|x: DatumId| #[trigger] s.contains(x) <==> t.contains(x) by {
        vstd::seq_lib::to_multiset_contains(s, x);
        vstd::seq_lib::to_multiset_contains(t, x);
    }
}

/// Taking out definitions keeps the order and the membership in `definition`.
pub proof fn lemma_without_ids_props(
    definition: RecordDefinition<NativeDatumDetails>,
    data: Seq<&DatumDefinition<NativeDatumDetails>>,
    removed: Seq<DatumId>,
)
    ensures
        strictly_sorted(data) ==> strictly_sorted(without_ids(data, removed)),
        refs_in(definition, data) ==> refs_in(definition, without_ids(data, removed)),
        forall|x: &DatumDefinition<NativeDatumDetails>| #[trigger] without_ids(data, removed).contains(x) ==> data.contains(x),
    decreases data.len(),
{
    if data.len() > 0 {
        let t = data.drop_last();
        lemma_without_ids_props(definition, t, removed);
        let w = without_ids(t, removed);
        assert forall|x: &DatumDefinition<NativeDatumDetails>| #[trigger] without_ids(data, removed).contains(x) implies data.contains(x) by {
            if w.contains(x) {
                let k = choose|k: int| 0 <= k < t.len() && t[k] == x;
                assert(data[k] == x);
            } else {
                assert(x == data.last());
                assert(data[data.len() - 1] == x);
            }
        }
        if !removed.contains(data.last().id) {
            let v = w.push(data.last());
            if strictly_sorted(data) {
                assert(strictly_sorted(t)) by {
                    assert forall|i: int, j: int| 0 <= i < j < t.len() implies (#[trigger] t[i]).id.0 < (#[trigger] t[j]).id.0 by {
                        assert(t[i] == data[i] && t[j] == data[j]);
                    }
                }
                assert forall|i: int, j: int| 0 <= i < j < v.len() implies (#[trigger] v[i]).id.0 < (#[trigger] v[j]).id.0 by {
                    if j == w.len() {
                        assert(w.contains(w[i]));
                        let k = choose|k: int| 0 <= k < t.len() && t[k] == w[i];
                        assert(data[k] == t[k]);
                    } else {
                        assert(v[i] == w[i] && v[j] == w[j]);
                    }
                }
            }
            if refs_in(definition, data) {
                assert(refs_in(definition, t)) by {
                    assert forall|i: int| 0 <= i < t.len() implies (#[trigger] t[i]).id.0 < definition.datum_definitions@.len()
                        && *t[i] == definition.datum_definitions@[t[i].id.0 as int] by {
                        assert(t[i] == data[i]);
                    }
                }
                assert forall|i: int| 0 <= i < v.len() implies (#[trigger] v[i]).id.0 < definition.datum_definitions@.len()
                    && *v[i] == definition.datum_definitions@[v[i].id.0 as int] by {
                    if i < w.len() {
                        assert(v[i] == w[i]);
                    } else {
                        assert(v[i] == data[data.len() - 1]);
                    }
                }
            }
        } else {
            if strictly_sorted(data) {
                assert forall|i: int, j: int| 0 <= i < j < t.len() implies (#[trigger] t[i]).id.0 < (#[trigger] t[j]).id.0 by {
                    assert(t[i] == data[i] && t[j] == data[j]);
                }
            }
            if refs_in(definition, data) {
                assert forall|i: int| 0 <= i < t.len() implies (#[trigger] t[i]).id.0 < definition.datum_definitions@.len()
                    && *t[i] == definition.datum_definitions@[t[i].id.0 as int] by {
                    assert(t[i] == data[i]);
                }
            }
        }
    }
}

/// Derives what the generator needs for a variant of a definition, given the record of the
/// previous variant.
pub fn variant_record_spec<'a>(
    definition: &'a RecordDefinition<NativeDatumDetails>,
    max_type_align: usize,
    variant: &'a RecordVariant,
    prev_record_spec: Option<&RecordSpec<'a>>,
) -> (r: RecordSpec<'a>)
    requires
        definition.wf(),
        valid_ids(definition.datum_definitions@.len(), variant.data@),
        prev_record_spec matches Some(p) ==> valid_ids(definition.datum_definitions@.len(), p.variant.data@),
    ensures
        r.max_type_align == max_type_align,
        r.variant == variant,
        names_of(r, variant.id.0),
        strictly_sorted(r.data@),
        refs_in(*definition, r.data@),
        forall|x: DatumId| #[trigger] ids_of(r.data@).contains(x) <==> variant.data@.contains(x),
        match prev_record_spec {
            Some(p) => {
                &&& strictly_sorted(r.minus_data@)
                &&& refs_in(*definition, r.minus_data@)
                &&& forall|x: DatumId| #[trigger] ids_of(r.minus_data@).contains(x)
                    <==> p.variant.data@.contains(x) && !variant.data@.contains(x)
                &&& r.plus_data@ == without_ids(r.data@, p.variant.data@)
            },
            None => {
                &&& r.minus_data@ == Seq::<&DatumDefinition<NativeDatumDetails>>::empty()
                &&& r.plus_data@ == r.data@
            },
        },
        generic_of(r.unpacked_uninit_safe_generic, r.data@),
        generic_of(r.plus_uninit_safe_generic, r.plus_data@),
{
    let ids = variant.data_sorted();
    let ghost len = definition.datum_definitions@.len();
    proof {
        lemma_sorted_permutation(ids@, variant.data@, len);
        assert forall|i: int| 0 <= i < ids@.len() implies (#[trigger] ids@[i]).0 < len by {
            assert(ids@.contains(ids@[i]));
        }
    }
    let data = refs_of(definition, &ids);
    proof {
        assert(ids_of(data@) =~= ids@) by {
            assert forall|i: int| 0 <= i < ids@.len() implies ids_of(data@)[i] == ids@[i] by {
                assert(ids@.contains(ids@[i]));
                assert(definition.datum_definitions@[ids@[i].0 as int].id.0 == ids@[i].0);
            }
        }
        assert forall|i: int, j: int| 0 <= i < j < data@.len() implies (#[trigger] data@[i]).id.0 < (
        #[trigger] data@[j]).id.0 by {
            assert(data@[i].id == ids_of(data@)[i] && data@[j].id == ids_of(data@)[j]);
        }
        assert forall|x: DatumId| #[trigger] ids_of(data@).contains(x) <==> variant.data@.contains(x) by {
            assert(ids@.contains(x) <==> variant.data@.contains(x));
        }
        assert forall|i: int| 0 <= i < data@.len() implies (#[trigger] data@[i]).id.0 < len && *data@[i]
            == definition.datum_definitions@[data@[i].id.0 as int] by {
            assert(data@[i].id == ids_of(data@)[i]);
            assert(ids@.contains(ids@[i]));
        }
    }
    let (minus_data, plus_data) = match prev_record_spec {
        Some(prev) => {
            let prev_ids = prev.variant.data_sorted();
            proof {
                lemma_sorted_permutation(prev_ids@, prev.variant.data@, len);
                assert forall|i: int| 0 <= i < prev_ids@.len() implies (#[trigger] prev_ids@[i]).0 < len by {
                    assert(prev_ids@.contains(prev_ids@[i]));
                }
            }
            let prev_data = refs_of(definition, &prev_ids);
            proof {
                assert(ids_of(prev_data@) =~= prev_ids@) by {
                    assert forall|i: int| 0 <= i < prev_ids@.len() implies ids_of(prev_data@)[i] == prev_ids@[i] by {
                        assert(prev_ids@.contains(prev_ids@[i]));
                        assert(definition.datum_definitions@[prev_ids@[i].0 as int].id.0 == prev_ids@[i].0);
                    }
                }
                assert forall|i: int, j: int| 0 <= i < j < prev_data@.len() implies (#[trigger] prev_data@[i]).id.0 < (
                #[trigger] prev_data@[j]).id.0 by {
                    assert(prev_data@[i].id == ids_of(prev_data@)[i] && prev_data@[j].id == ids_of(prev_data@)[j]);
                }
                assert forall|i: int| 0 <= i < prev_data@.len() implies (#[trigger] prev_data@[i]).id.0 < len
                    && *prev_data@[i] == definition.datum_definitions@[prev_data@[i].id.0 as int] by {
                    assert(prev_data@[i].id == ids_of(prev_data@)[i]);
                    assert(prev_ids@.contains(prev_ids@[i]));
                }
            }
            let minus_data = refs_without(&prev_data, variant.data.as_slice());
            let plus_data = refs_without(&data, prev.variant.data.as_slice());
            proof {
                lemma_without_ids_props(*definition, prev_data@, variant.data@);
                lemma_ids_without(prev_data@, variant.data@);
                crate::record::definition::builder::generic::variant::lemma_without_contains(prev_ids@, variant.data@);
                assert forall|x: DatumId| #[trigger] ids_of(minus_data@).contains(x) <==> prev.variant.data@.contains(x)
                    && !variant.data@.contains(x) by {
                    assert(ids_of(minus_data@) == without(prev_ids@, variant.data@));
                    assert(without(prev_ids@, variant.data@).contains(x) <==> prev_ids@.contains(x) && !variant.data@.contains(x));
                    assert(prev_ids@.contains(x) <==> prev.variant.data@.contains(x));
                }
            }
            (minus_data, plus_data)
        },
        None => {
            let nothing: Vec<DatumId> = Vec::new();
            let plus_data = refs_without(&data, nothing.as_slice());
            proof {
                lemma_without_ids_empty(data@);
            }
            (Vec::new(), plus_data)
        },
    };
    let unpacked_uninit_safe_generic = safe_record_generic(data.as_slice());
    let plus_uninit_safe_generic = safe_record_generic(plus_data.as_slice());
    let id = variant.id.0;
    RecordSpec {
        max_type_align,
        variant,
        capped_record_name: make_name("CappedRecord", id, ""),
        record_name: make_name("Record", id, ""),
        unpacked_record_name: make_name("UnpackedRecord", id, ""),
        unpacked_uninit_record_name: make_name("UnpackedUninitRecord", id, ""),
        unpacked_uninit_safe_record_name: make_name("UnpackedUninitSafeRecord", id, ""),
        unpacked_record_in_name: make_name("UnpackedRecordIn", id, ""),
        unpacked_uninit_record_in_name: make_name("UnpackedUninitRecordIn", id, ""),
        unpacked_uninit_safe_record_in_name: make_name("UnpackedUninitSafeRecordIn", id, ""),
        record_and_unpacked_out_name: make_name("Record", id, "AndUnpackedOut"),
        data,
        minus_data,
        plus_data,
        unpacked_uninit_safe_generic,
        plus_uninit_safe_generic,
    }
}

/// What [record_specs] gives for `definition`: one record per variant, in order, with its names,
/// its data sorted by identifier, the data removed and added since the previous variant, and the
/// generic parameters of the records holding the data that may be left uninitialized.
pub open spec fn record_specs_of(definition: RecordDefinition<NativeDatumDetails>, r: Seq<RecordSpec>) -> bool {
    &&& r.len() == definition.variants@.len()
    &&& forall|i: int|
        0 <= i < r.len() ==> {
            &&& *(#[trigger] r[i]).variant == definition.variants@[i]
            &&& definition.datum_definitions@.len() == 0 ==> r[i].max_type_align == 1
            &&& definition.datum_definitions@.len() > 0 ==> r[i].max_type_align == crate::record::definition::max_align(
                definition.datum_definitions@,
            )
            &&& names_of(r[i], i as usize)
            &&& strictly_sorted(r[i].data@)
            &&& refs_in(definition, r[i].data@)
            &&& forall|x: DatumId| #[trigger] ids_of(r[i].data@).contains(x) <==> definition.variants@[i].data@.contains(x)
            &&& generic_of(r[i].unpacked_uninit_safe_generic, r[i].data@)
            &&& generic_of(r[i].plus_uninit_safe_generic, r[i].plus_data@)
            &&& i == 0 ==> r[i].minus_data@.len() == 0 && r[i].plus_data@ == r[i].data@
            &&& i > 0 ==> {
                &&& strictly_sorted(r[i].minus_data@)
                &&& refs_in(definition, r[i].minus_data@)
                &&& forall|x: DatumId| #[trigger] ids_of(r[i].minus_data@).contains(x)
                    <==> definition.variants@[i - 1].data@.contains(x) && !definition.variants@[i].data@.contains(x)
                &&& r[i].plus_data@ == without_ids(r[i].data@, definition.variants@[i - 1].data@)
            }
        }
}

/// Derives what the generator needs for every variant of a definition, in the order of the
/// variants, each one with the record of the previous variant.
pub fn record_specs<'a>(definition: &'a RecordDefinition<NativeDatumDetails>) -> (r: Vec<RecordSpec<'a>>)
    requires
        definition.wf(),
    ensures
        record_specs_of(*definition, r@),
{
    let max_type_align = definition.max_type_align();
    let variants = definition.variants.as_slice();
    let mut specs: Vec<RecordSpec<'a>> = Vec::new();
    let mut v: usize = 0;
    while v < variants.len()
        invariant
            definition.wf(),
            variants@ == definition.variants@,
            v <= variants@.len(),
            specs@.len() == v,
            definition.datum_definitions@.len() == 0 ==> max_type_align == 1,
            definition.datum_definitions@.len() > 0 ==> max_type_align == crate::record::definition::max_align(
                definition.datum_definitions@,
            ),
            forall|i: int|
                0 <= i < v ==> {
                    &&& *(#[trigger] specs@[i]).variant == definition.variants@[i]
                    &&& specs@[i].max_type_align == max_type_align
                    &&& names_of(specs@[i], i as usize)
                    &&& strictly_sorted(specs@[i].data@)
                    &&& refs_in(*definition, specs@[i].data@)
                    &&& forall|x: DatumId| #[trigger] ids_of(specs@[i].data@).contains(x) <==> definition.variants@[i].data@.contains(x)
                    &&& generic_of(specs@[i].unpacked_uninit_safe_generic, specs@[i].data@)
                    &&& generic_of(specs@[i].plus_uninit_safe_generic, specs@[i].plus_data@)
                    &&& i == 0 ==> specs@[i].minus_data@.len() == 0 && specs@[i].plus_data@ == specs@[i].data@
                    &&& i > 0 ==> {
                        &&& strictly_sorted(specs@[i].minus_data@)
                        &&& refs_in(*definition, specs@[i].minus_data@)
                        &&& forall|x: DatumId| #[trigger] ids_of(specs@[i].minus_data@).contains(x)
                            <==> definition.variants@[i - 1].data@.contains(x) && !definition.variants@[i].data@.contains(x)
                        &&& specs@[i].plus_data@ == without_ids(specs@[i].data@, definition.variants@[i - 1].data@)
                    }
                },
        decreases variants@.len() - v,
    {
        let variant = &variants[v];
        proof {
            assert(valid_ids(definition.datum_definitions@.len(), variant.data@));
            if v > 0 {
                assert(valid_ids(definition.datum_definitions@.len(), definition.variants@[v - 1].data@));
            }
        }
        let spec = if v > 0 {
            variant_record_spec(definition, max_type_align, variant, Some(&specs[v - 1]))
        } else {
            variant_record_spec(definition, max_type_align, variant, None)
        };
        specs.push(spec);
        proof {
            assert(variant.id.0 == v);
        }
        v = v + 1;
    }
    specs
}

/// Taking out nothing keeps everything.
pub proof fn lemma_without_ids_empty(data: Seq<&DatumDefinition<NativeDatumDetails>>)
    ensures
        without_ids(data, Seq::empty()) == data,
    decreases data.len(),
{
    if data.len() > 0 {
        lemma_without_ids_empty(data.drop_last());
        assert(data.drop_last().push(data.last()) =~= data);
    }
}

} // verus!
