//! The plan of the whole generated code: the maximum size of the records, the records of the
//! variants, and the type sizes that the generated code checks.

use vstd::prelude::*;

use crate::generator::data_record::{data_record, data_record_plan, data_record_text, DataRecordPlan, UninitKind};
use crate::generator::{record_specs, record_specs_of, RecordGeneric, RecordSpec};
use crate::text::{append_decimal, decimal};
use crate::record::definition::{max_align, max_end, DatumDefinition, NativeDatumDetails, RecordDefinition};

verus! {

/// `a` comes before `b` in the order of Rust strings: character by character, a prefix first.
pub open spec fn text_less(a: Seq<char>, b: Seq<char>) -> bool
    decreases a.len(),
{
    if a.len() == 0 {
        b.len() > 0
    } else if b.len() == 0 {
        false
    } else if a[0] != b[0] {
        (a[0] as int) < (b[0] as int)
    } else {
        text_less(a.drop_first(), b.drop_first())
    }
}

/// `a` comes before `b`: by type name, then by size.
pub open spec fn pair_less(a: (Seq<char>, usize), b: (Seq<char>, usize)) -> bool {
    text_less(a.0, b.0) || (a.0 == b.0 && a.1 < b.1)
}

/// The pairs are in increasing order, each once.
pub open spec fn pairs_sorted(s: Seq<(Seq<char>, usize)>) -> bool {
    forall|i: int, j: int| 0 <= i < j < s.len() ==> pair_less(#[trigger] s[i], #[trigger] s[j])
}

/// The texts of the pairs.
pub open spec fn pair_texts(s: Seq<(String, usize)>) -> Seq<(Seq<char>, usize)> {
    s.map_values(|p: (String, usize)| (p.0@, p.1))
}

/// Of two texts, exactly one comes first, or they are equal.
pub proof fn lemma_text_trichotomy(a: Seq<char>, b: Seq<char>)
    ensures
        !(text_less(a, b) && text_less(b, a)),
        a != b ==> text_less(a, b) || text_less(b, a),
        !text_less(a, a),
    decreases a.len(),
{
    if a.len() > 0 && b.len() > 0 {
        lemma_text_trichotomy(a.drop_first(), b.drop_first());
        lemma_text_trichotomy(a.drop_first(), a.drop_first());
        if a[0] == b[0] && a.drop_first() == b.drop_first() {
            assert forall|k: int| 0 <= k < a.len() implies a[k] == b[k] by {
                if k > 0 {
                    assert(a[k] == a.drop_first()[k - 1]);
                    assert(b[k] == b.drop_first()[k - 1]);
                }
            }
            assert(a =~= b);
        }
    } else if a.len() > 0 {
        lemma_text_trichotomy(a.drop_first(), a.drop_first());
    } else if b.len() == 0 {
        assert(a =~= b);
    }
}

/// The order of texts is transitive.
pub proof fn lemma_text_transitive(a: Seq<char>, b: Seq<char>, c: Seq<char>)
    requires
        text_less(a, b),
        text_less(b, c),
    ensures
        text_less(a, c),
    decreases a.len(),
{
    if a.len() > 0 && b.len() > 0 && c.len() > 0 && a[0] == b[0] && b[0] == c[0] {
        lemma_text_transitive(a.drop_first(), b.drop_first(), c.drop_first());
    }
}

/// Of two pairs, exactly one comes first, or they are equal; the order is transitive.
pub proof fn lemma_pair_order(a: (Seq<char>, usize), b: (Seq<char>, usize), c: (Seq<char>, usize))
    ensures
        !(pair_less(a, b) && pair_less(b, a)),
        a != b ==> pair_less(a, b) || pair_less(b, a),
        !pair_less(a, a),
        pair_less(a, b) && pair_less(b, c) ==> pair_less(a, c),
{
    lemma_text_trichotomy(a.0, b.0);
    lemma_text_trichotomy(a.0, a.0);
    lemma_text_trichotomy(a.0, c.0);
    lemma_text_trichotomy(b.0, c.0);
    if text_less(a.0, b.0) && text_less(b.0, c.0) {
        lemma_text_transitive(a.0, b.0, c.0);
    }
}

/// Whether `a` comes before `b` in the order of Rust strings.
pub fn text_before(a: &str, b: &str) -> (r: bool)
    ensures
        r == text_less(a@, b@),
{
    let n = a.unicode_len();
    let m = b.unicode_len();
    let mut i: usize = 0;
    proof {
        assert(a@.skip(0) =~= a@);
        assert(b@.skip(0) =~= b@);
    }
    while i < n && i < m
        invariant
            n == a@.len(),
            m == b@.len(),
            i <= n,
            i <= m,
            text_less(a@, b@) == text_less(a@.skip(i as int), b@.skip(i as int)),
        decreases n - i,
    {
        let x = a.get_char(i);
        let y = b.get_char(i);
        proof {
            assert(a@.skip(i as int)[0] == x);
            assert(b@.skip(i as int)[0] == y);
            assert(a@.skip(i as int).drop_first() =~= a@.skip(i + 1));
            assert(b@.skip(i as int).drop_first() =~= b@.skip(i + 1));
        }
        if x != y {
            return x < y;
        }
        i = i + 1;
    }
    i == n && i < m
}

/// Inserts `(name, size)` at its place in increasing pairs, unless it is there already.
fn insert_pair(pairs: &mut Vec<(String, usize)>, name: &str, size: usize)
    requires
        pairs_sorted(pair_texts(old(pairs)@)),
    ensures
        pairs_sorted(pair_texts(final(pairs)@)),
        forall|p: (Seq<char>, usize)| #[trigger] pair_texts(final(pairs)@).contains(p)
            <==> pair_texts(old(pairs)@).contains(p) || p == (name@, size),
{
    let ghost old_texts = pair_texts(pairs@);
    let ghost x = (name@, size);
    let mut i: usize = 0;
    while i < pairs.len()
        invariant
            i <= pairs@.len(),
            x == (name@, size),
            pair_texts(pairs@) == old_texts,
            pairs_sorted(old_texts),
            forall|k: int| 0 <= k < i ==> pair_less(#[trigger] old_texts[k], x),
        ensures
            i <= pairs@.len(),
            forall|k: int| 0 <= k < i ==> pair_less(#[trigger] old_texts[k], x),
            i < pairs@.len() ==> !pair_less(old_texts[i as int], x),
        decreases pairs@.len() - i,
    {
        let entry = &pairs[i];
        let lower = text_before(entry.0.as_str(), name);
        let same = str_is(entry.0.as_str(), name);
        let before = lower || (same && entry.1 < size);
        proof {
            assert(old_texts[i as int] == (pairs@[i as int].0@, pairs@[i as int].1));
            assert(entry.0@ == old_texts[i as int].0);
            assert(entry.1 == old_texts[i as int].1);
            assert(lower == text_less(old_texts[i as int].0, x.0));
            assert(same == (old_texts[i as int].0 == x.0));
            assert(before == pair_less(old_texts[i as int], x));
        }
        if !before {
            break;
        }
        i = i + 1;
    }
    proof {
        assert(old_texts.len() == pairs@.len());
    }
    if i < pairs.len() && str_is(pairs[i].0.as_str(), name) && pairs[i].1 == size {
        proof {
            assert(old_texts[i as int] == x);
            assert forall|p: (Seq<char>, usize)| #[trigger] old_texts.contains(p) <==> old_texts.contains(p) || p == x by {
                if p == x {
                    assert(old_texts[i as int] == p);
                }
            }
        }
        return;
    }
    proof {
        if i < old_texts.len() {
            assert(old_texts[i as int] == (pairs@[i as int].0@, pairs@[i as int].1));
            lemma_pair_order(old_texts[i as int], x, x);
            assert(old_texts[i as int] != x);
            assert(pair_less(x, old_texts[i as int]));
        }
    }
    pairs.insert(i, (String::from_str(name), size));
    proof {
        let t = pair_texts(pairs@);
        assert(t =~= old_texts.insert(i as int, x));
        assert forall|a: int, b: int| 0 <= a < b < t.len() implies pair_less(#[trigger] t[a], #[trigger] t[b]) by {
            if b < i {
                assert(t[a] == old_texts[a] && t[b] == old_texts[b]);
            } else if b == i {
                assert(t[a] == old_texts[a]);
            } else if a < i {
                assert(t[a] == old_texts[a] && t[b] == old_texts[b - 1]);
                lemma_pair_order(old_texts[a], x, old_texts[b - 1]);
                if b - 1 > i {
                    lemma_pair_order(x, old_texts[i as int], old_texts[b - 1]);
                }
            } else if a == i {
                assert(t[b] == old_texts[b - 1]);
                if b - 1 > i {
                    lemma_pair_order(x, old_texts[i as int], old_texts[b - 1]);
                }
            } else {
                assert(t[a] == old_texts[a - 1] && t[b] == old_texts[b - 1]);
            }
        }
        assert forall|p: (Seq<char>, usize)| #[trigger] t.contains(p) <==> old_texts.contains(p) || p == x by {
            if t.contains(p) {
                let k = choose|k: int| 0 <= k < t.len() && t[k] == p;
                if k < i {
                    assert(old_texts[k] == p);
                } else if k > i {
                    assert(old_texts[k - 1] == p);
                }
            }
            if old_texts.contains(p) {
                let k = choose|k: int| 0 <= k < old_texts.len() && old_texts[k] == p;
                if k < i {
                    assert(t[k] == p);
                } else {
                    assert(t[k + 1] == p);
                }
            }
            if p == x {
                assert(t[i as int] == p);
            }
        }
    }
}

/// Whether two strings hold the same characters.
fn str_is(a: &str, b: &str) -> (r: bool)
    ensures
        r == (a@ == b@),
{
    crate::text::str_eq(a, b)
}

/// The plan of the whole generated code.
pub struct GenerationPlan<'a> {
    /// The maximum size of the records, regardless of the variant.
    pub max_size: usize,
    /// The maximum alignment of the types of the data, which is the alignment of the records.
    pub max_type_align: usize,
    /// The records of the variants, in order.
    pub records: Vec<RecordSpec<'a>>,
    /// The type names and sizes of the data, in increasing order, each once, whose sizes the
    /// generated code checks.
    pub type_size_assertions: Vec<(String, usize)>,
}

/// The type name and size of a datum added by a record.
pub open spec fn added_type_size(records: Seq<RecordSpec>, p: (Seq<char>, usize)) -> bool {
    exists|i: int, k: int|
        0 <= i < records.len() && 0 <= k < records[i].plus_data@.len() && p.0 == (
            #[trigger] records[i].plus_data@[k]).details.type_info.name@ && p.1 == records[i].plus_data@[k].details.type_info.size
}

/// Plans the generated code of a definition: its maximum size and alignment, the records of its
/// variants, and the type name and size of every datum that a variant adds, sorted, once each.
pub fn generation_plan<'a>(definition: &'a RecordDefinition<NativeDatumDetails>) -> (r: GenerationPlan<'a>)
    requires
        definition.wf(),
        definition.ends_in_address_space(),
    ensures
        r.max_size == max_end(definition.datum_definitions@),
        definition.datum_definitions@.len() == 0 ==> r.max_type_align == 1,
        definition.datum_definitions@.len() > 0 ==> r.max_type_align == max_align(definition.datum_definitions@),
        record_specs_of(*definition, r.records@),
        pairs_sorted(pair_texts(r.type_size_assertions@)),
        forall|p: (Seq<char>, usize)| #[trigger] pair_texts(r.type_size_assertions@).contains(p)
            <==> added_type_size(r.records@, p),
{
    let max_size = definition.max_size();
    let max_type_align = definition.max_type_align();
    let records = record_specs(definition);
    let mut pairs: Vec<(String, usize)> = Vec::new();
    proof {
        assert(pair_texts(pairs@) =~= Seq::<(Seq<char>, usize)>::empty());
    }
    let mut v: usize = 0;
    while v < records.len()
        invariant
            v <= records@.len(),
            pairs_sorted(pair_texts(pairs@)),
            forall|p: (Seq<char>, usize)| #[trigger] pair_texts(pairs@).contains(p)
                <==> added_type_size(records@.take(v as int), p),
        decreases records@.len() - v,
    {
        let plus = &records[v].plus_data;
        let mut k: usize = 0;
        while k < plus.len()
            invariant
                v < records@.len(),
                plus@ == records@[v as int].plus_data@,
                k <= plus@.len(),
                pairs_sorted(pair_texts(pairs@)),
                forall|p: (Seq<char>, usize)| #[trigger] pair_texts(pairs@).contains(p)
                    <==> added_type_size(records@.take(v as int), p) || exists|q: int|
                    0 <= q < k && p.0 == (#[trigger] plus@[q]).details.type_info.name@ && p.1
                        == plus@[q].details.type_info.size,
            decreases plus@.len() - k,
        {
            let d = plus[k];
            insert_pair(&mut pairs, d.details.type_info.name.as_str(), d.details.type_info.size);
            proof {
                assert forall|p: (Seq<char>, usize)| #[trigger] pair_texts(pairs@).contains(p)
                    <==> added_type_size(records@.take(v as int), p) || exists|q: int|
                    0 <= q < k + 1 && p.0 == (#[trigger] plus@[q]).details.type_info.name@ && p.1
                        == plus@[q].details.type_info.size by {
                    if p == (d.details.type_info.name@, d.details.type_info.size) {
                        assert(plus@[k as int] == d);
                    }
                }
            }
            k = k + 1;
        }
        proof {
            assert forall|p: (Seq<char>, usize)| #[trigger] pair_texts(pairs@).contains(p)
                <==> added_type_size(records@.take(v + 1), p) by {
                let t = records@.take(v + 1);
                if added_type_size(t, p) {
                    let (i, q) = choose|i: int, q: int|
                        0 <= i < t.len() && 0 <= q < t[i].plus_data@.len() && p.0 == (
                            #[trigger] t[i].plus_data@[q]).details.type_info.name@ && p.1 == t[i].plus_data@[q].details.type_info.size;
                    if i < v {
                        assert(records@.take(v as int)[i] == t[i]);
                    }
                }
                if added_type_size(records@.take(v as int), p) {
                    let (i, q) = choose|i: int, q: int|
                        0 <= i < records@.take(v as int).len() && 0 <= q < records@.take(v as int)[i].plus_data@.len()
                            && p.0 == (#[trigger] records@.take(v as int)[i].plus_data@[q]).details.type_info.name@ && p.1
                            == records@.take(v as int)[i].plus_data@[q].details.type_info.size;
                    assert(t[i] == records@.take(v as int)[i]);
                }
                if exists|q: int|
                    0 <= q < plus@.len() && p.0 == (#[trigger] plus@[q]).details.type_info.name@ && p.1
                        == plus@[q].details.type_info.size {
                    let q = choose|q: int|
                        0 <= q < plus@.len() && p.0 == (#[trigger] plus@[q]).details.type_info.name@ && p.1
                            == plus@[q].details.type_info.size;
                    assert(t[v as int] == records@[v as int]);
                    assert(t[v as int].plus_data@[q] == plus@[q]);
                }
            }
        }
        v = v + 1;
    }
    proof {
        assert(records@.take(records@.len() as int) =~= records@);
    }
    GenerationPlan { max_size, max_type_align, records, type_size_assertions: pairs }
}

/// A data record to generate: its name, whether it is public, its documentation and its plan.
pub struct NamedDataRecord {
    pub name: String,
    pub public: bool,
    pub doc: String,
    pub plan: DataRecordPlan,
}

/// The records generated for the conversion from the previous variant: the data records of the
/// added data (all of them, without those that may be left uninitialized, and the one checking
/// that those are `Copy`), then the record given back with the removed data.
pub struct FromPreviousDataRecordsPlan {
    pub data_records: Vec<NamedDataRecord>,
    /// `Record<id>AndUnpackedOut`.
    pub out_name: String,
    pub out_doc: String,
    /// The fields of the record given back: the converted record, then the removed data.
    pub out_fields: Vec<(String, String)>,
}

/// The generic parameters given to a data record, from those of a record.
pub open spec fn generic_ref(g: &Option<RecordGeneric>) -> Option<&RecordGeneric> {
    match g {
        Some(x) => Some(x),
        None => None,
    }
}

/// The fields of the record given back by the conversion, after the converted record.
pub open spec fn out_data_fields(data: Seq<&DatumDefinition<NativeDatumDetails>>) -> Seq<(Seq<char>, Seq<char>)> {
    data.map_values(|d: &DatumDefinition<NativeDatumDetails>| ("pub "@ + d.name@, d.details.type_info.name@))
}

/// The texts of fields.
pub open spec fn fields_texts(fields: Seq<(String, String)>) -> Seq<(Seq<char>, Seq<char>)> {
    fields.map_values(|f: (String, String)| (f.0@, f.1@))
}

/// The fields of a data record only depend on how its kind holds the data that may be left
/// uninitialized.
pub proof fn lemma_fields_same_kind(data: Seq<&DatumDefinition<NativeDatumDetails>>, k1: UninitKind, k2: UninitKind)
    requires
        k1 is False <==> k2 is False,
        k1 is Safe <==> k2 is Safe,
    ensures
        crate::generator::data_record::data_record_fields(data, k1)
            == crate::generator::data_record::data_record_fields(data, k2),
    decreases data.len(),
{
    if data.len() > 0 {
        lemma_fields_same_kind(data.drop_last(), k1, k2);
    }
}

/// Plans the records generated for the conversion from the variant of `prev` to the one of
/// `record`.
pub fn from_previous_data_records_plan(record: &RecordSpec, prev: &RecordSpec) -> (r: FromPreviousDataRecordsPlan)
    ensures
        r.data_records@.len() == 3,
        r.data_records@[0].name@ == record.unpacked_record_in_name@ && r.data_records@[0].public,
        r.data_records@[0].doc@ == "Data container for conversion from [`Record"@ + decimal(prev.variant.id.0 as nat)
            + "`]."@,
        data_record_text(r.data_records@[0].plan) == data_record(
            record.unpacked_record_in_name@,
            record.plus_data@,
            UninitKind::False,
        ),
        r.data_records@[1].name@ == record.unpacked_uninit_record_in_name@ && r.data_records@[1].public,
        r.data_records@[1].doc@ == "Data container for conversion from [`Record"@ + decimal(prev.variant.id.0 as nat)
            + "`] without the data to be left uninitialized."@,
        data_record_text(r.data_records@[1].plan) == data_record(
            record.unpacked_uninit_record_in_name@,
            record.plus_data@,
            UninitKind::Unsafe,
        ),
        r.data_records@[2].name@ == record.unpacked_uninit_safe_record_in_name@ && !r.data_records@[2].public,
        r.data_records@[2].doc@ == "It only exists to check that the uninitialized data is actually [`Copy`] at run time."@,
        forall|k: UninitKind|
            k matches UninitKind::Safe { unsafe_record_name, safe_generic } && unsafe_record_name@
                == record.unpacked_uninit_record_in_name@ && safe_generic == generic_ref(&record.plus_uninit_safe_generic)
                ==> data_record_text(r.data_records@[2].plan) == #[trigger] data_record(
                record.unpacked_uninit_safe_record_in_name@,
                record.plus_data@,
                k,
            ),
        r.out_name@ == record.record_and_unpacked_out_name@,
        r.out_doc@ == "Result of conversion from record variant #"@ + decimal(prev.variant.id.0 as nat) + " to variant #"@
            + decimal(record.variant.id.0 as nat)
            + " via a [`From::from`] call.\n\nIt contains all the removed data so that one can still use them, or drop them."@,
        fields_texts(r.out_fields@) == seq![("pub record"@, record.capped_record_name@ + "<CAP>"@)] + out_data_fields(
            record.minus_data@,
        ),
{
    let prev_id = prev.variant.id.0;
    let mut doc0 = String::from_str("Data container for conversion from [`Record");
    append_decimal(&mut doc0, prev_id);
    doc0.append("`].");
    let mut doc1 = String::from_str("Data container for conversion from [`Record");
    append_decimal(&mut doc1, prev_id);
    doc1.append("`] without the data to be left uninitialized.");
    let doc2 = String::from_str("It only exists to check that the uninitialized data is actually [`Copy`] at run time.");
    let plan0 = data_record_plan(record.unpacked_record_in_name.as_str(), record.plus_data.as_slice(), &UninitKind::False);
    let plan1 = data_record_plan(
        record.unpacked_uninit_record_in_name.as_str(),
        record.plus_data.as_slice(),
        &UninitKind::Unsafe,
    );
    let safe_kind = UninitKind::Safe {
        unsafe_record_name: record.unpacked_uninit_record_in_name.as_str(),
        safe_generic: record.plus_uninit_safe_generic.as_ref(),
    };
    let plan2 = data_record_plan(record.unpacked_uninit_safe_record_in_name.as_str(), record.plus_data.as_slice(), &safe_kind);
    let mut data_records: Vec<NamedDataRecord> = Vec::new();
    data_records.push(
        NamedDataRecord { name: record.unpacked_record_in_name.clone(), public: true, doc: doc0, plan: plan0 },
    );
    data_records.push(
        NamedDataRecord { name: record.unpacked_uninit_record_in_name.clone(), public: true, doc: doc1, plan: plan1 },
    );
    data_records.push(
        NamedDataRecord {
            name: record.unpacked_uninit_safe_record_in_name.clone(),
            public: false,
            doc: doc2,
            plan: plan2,
        },
    );
    let mut out_doc = String::from_str("Result of conversion from record variant #");
    append_decimal(&mut out_doc, prev_id);
    out_doc.append(" to variant #");
    append_decimal(&mut out_doc, record.variant.id.0);
    out_doc.append(" via a [`From::from`] call.\n\nIt contains all the removed data so that one can still use them, or drop them.");
    let mut capped = record.capped_record_name.clone();
    capped.append("<CAP>");
    let mut out_fields: Vec<(String, String)> = Vec::new();
    out_fields.push((String::from_str("pub record"), capped));
    let minus = &record.minus_data;
    let mut i: usize = 0;
    while i < minus.len()
        invariant
            i <= minus@.len(),
            fields_texts(out_fields@) == seq![("pub record"@, record.capped_record_name@ + "<CAP>"@)] + out_data_fields(
                minus@.take(i as int),
            ),
        decreases minus@.len() - i,
    {
        let d = minus[i];
        let mut name = String::from_str("pub ");
        name.append(d.name.as_str());
        let ghost before = out_fields@;
        let ty_text = d.details.type_info.name.clone();
        proof {
            assert(ty_text@ == d.details.type_info.name@);
            assert(name@ == "pub "@ + d.name@);
        }
        out_fields.push((name, ty_text));
        proof {
            assert(fields_texts(out_fields@) =~= fields_texts(before).push(("pub "@ + d.name@, d.details.type_info.name@)));
            assert(minus@.take(i + 1) =~= minus@.take(i as int).push(d));
            assert(out_data_fields(minus@.take(i + 1)) =~= out_data_fields(minus@.take(i as int)).push(
                ("pub "@ + d.name@, d.details.type_info.name@),
            ));
            assert(fields_texts(out_fields@) =~= seq![("pub record"@, record.capped_record_name@ + "<CAP>"@)]
                + out_data_fields(minus@.take(i + 1)));
        }
        i = i + 1;
    }
    proof {
        assert(minus@.take(minus@.len() as int) =~= minus@);
        assert forall|k: UninitKind|
            k matches UninitKind::Safe { unsafe_record_name, safe_generic } && unsafe_record_name@
                == record.unpacked_uninit_record_in_name@ && safe_generic == generic_ref(&record.plus_uninit_safe_generic)
                implies data_record_text(data_records@[2].plan) == #[trigger] data_record(
            record.unpacked_uninit_safe_record_in_name@,
            record.plus_data@,
            k,
        ) by {
            lemma_fields_same_kind(record.plus_data@, k, safe_kind);
        }
    }
    FromPreviousDataRecordsPlan { data_records, out_name: record.record_and_unpacked_out_name.clone(), out_doc, out_fields }
}

} // verus!
