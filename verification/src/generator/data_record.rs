//! The data records: structures with one public field per datum, used to pack and unpack records.

use vstd::prelude::*;

use crate::generator::from_previous::{texts, FromImplPlan};
use crate::generator::RecordGeneric;
use crate::record::definition::{DatumDefinition, NativeDatumDetails};
use crate::text::{append_decimal, decimal};

verus! {

/// How a data record holds the data that may be left uninitialized.
pub enum UninitKind<'a> {
    /// Like the other data.
    False,
    /// Not at all.
    Unsafe,
    /// As a marker of their type, checking that the type is `Copy`; the record is built from the
    /// record that does not hold them.
    Safe {
        /// The record that does not hold the data that may be left uninitialized.
        unsafe_record_name: &'a str,
        /// The generic parameters of the record, if any.
        safe_generic: Option<&'a RecordGeneric>,
    },
}

/// A data record: the generic parameters, the fields (name and type), and the `From`
/// implementation from the record that does not hold the data that may be left uninitialized,
/// if any.
pub struct DataRecordPlan {
    /// The declaration of the generic parameters.
    pub generic: Option<String>,
    /// The fields, by name and type.
    pub fields: Vec<(String, String)>,
    /// The generic parameters of the `From` implementation (declaration, then the parameters of
    /// the record), if any, and the implementation.
    pub from_impl: Option<(Option<(String, String)>, FromImplPlan)>,
}

/// The texts of fields.
pub open spec fn field_texts(fields: Seq<(String, String)>) -> Seq<(Seq<char>, Seq<char>)> {
    fields.map_values(|f: (String, String)| (f.0@, f.1@))
}

/// `T<index>`, marker of the type of the datum at `index`.
pub open spec fn marker_type(index: nat) -> Seq<char> {
    "std::marker::PhantomData<T"@ + decimal(index) + ">"@
}

/// The fields of a data record holding `data`.
pub open spec fn data_record_fields(data: Seq<&DatumDefinition<NativeDatumDetails>>, kind: UninitKind) -> Seq<
    (Seq<char>, Seq<char>),
>
    decreases data.len(),
{
    if data.len() == 0 {
        Seq::empty()
    } else {
        let fields = data_record_fields(data.drop_last(), kind);
        let index = (data.len() - 1) as nat;
        let datum = data.last();
        let name = "pub "@ + datum.name@;
        if !datum.details.allow_uninit || kind is False {
            fields.push((name, datum.details.type_info.name@))
        } else if kind is Safe {
            fields.push((name, marker_type(index)))
        } else {
            fields
        }
    }
}

/// A data record that holds all the data like the other data has one field for each datum, in
/// order, named after it and of its type; one that holds markers has one field for each datum
/// too, of its type or, for a datum that may be left uninitialized, of the marker of its index.
pub proof fn law_data_record_fields(data: Seq<&DatumDefinition<NativeDatumDetails>>, kind: UninitKind)
    requires
        !(kind is Unsafe),
    ensures
        data_record_fields(data, kind).len() == data.len(),
        forall|k: int|
            0 <= k < data.len() ==> #[trigger] data_record_fields(data, kind)[k] == (
                "pub "@ + data[k].name@,
                if data[k].details.allow_uninit && kind is Safe {
                    marker_type(k as nat)
                } else {
                    data[k].details.type_info.name@
                },
            ),
    decreases data.len(),
{
    if data.len() > 0 {
        let front = data.drop_last();
        law_data_record_fields(front, kind);
        assert forall|k: int| 0 <= k < data.len() implies #[trigger] data_record_fields(data, kind)[k] == (
            "pub "@ + data[k].name@,
            if data[k].details.allow_uninit && kind is Safe {
                marker_type(k as nat)
            } else {
                data[k].details.type_info.name@
            },
        ) by {
            if k < data.len() - 1 {
                assert(front[k] == data[k]);
                assert(data_record_fields(front, kind)[k] == data_record_fields(data, kind)[k]);
            }
        }
    }
}

/// A data record without the data that may be left uninitialized holds, in order, one field for
/// each datum that may not, named after it and of its type.
pub proof fn law_data_record_fields_without_uninit(data: Seq<&DatumDefinition<NativeDatumDetails>>, kind: UninitKind)
    requires
        kind is Unsafe,
    ensures
        data_record_fields(data, kind) == data.filter(|d: &DatumDefinition<NativeDatumDetails>| !d.details.allow_uninit).map_values(
            |d: &DatumDefinition<NativeDatumDetails>| ("pub "@ + d.name@, d.details.type_info.name@),
        ),
    decreases data.len(),
{
    reveal(Seq::filter);
    if data.len() > 0 {
        law_data_record_fields_without_uninit(data.drop_last(), kind);
        let f = |d: &DatumDefinition<NativeDatumDetails>| ("pub "@ + d.name@, d.details.type_info.name@);
        let keep = |d: &DatumDefinition<NativeDatumDetails>| !d.details.allow_uninit;
        assert(data.filter(keep) == if keep(data.last()) {
            data.drop_last().filter(keep).push(data.last())
        } else {
            data.drop_last().filter(keep)
        });
        if keep(data.last()) {
            assert(data.drop_last().filter(keep).push(data.last()).map_values(f) =~= data.drop_last().filter(
                keep,
            ).map_values(f).push(f(data.last())));
        }
    }
}

/// The field initializer of a datum in the conversion from the record that does not hold the
/// data that may be left uninitialized.
pub open spec fn initializer(d: &DatumDefinition<NativeDatumDetails>) -> Seq<char> {
    if !d.details.allow_uninit {
        d.name@ + ": from."@ + d.name@
    } else {
        d.name@ + ": std::marker::PhantomData"@
    }
}

/// The field initializers separated by `, `.
pub open spec fn initializers(data: Seq<&DatumDefinition<NativeDatumDetails>>) -> Seq<char>
    decreases data.len(),
{
    if data.len() == 0 {
        Seq::empty()
    } else if data.len() == 1 {
        initializer(data[0])
    } else {
        initializers(data.drop_last()) + ", "@ + initializer(data.last())
    }
}

/// The data record holding `data`, as texts.
pub open spec fn data_record(
    record_name: Seq<char>,
    data: Seq<&DatumDefinition<NativeDatumDetails>>,
    kind: UninitKind,
) -> (Option<Seq<char>>, Seq<(Seq<char>, Seq<char>)>, Option<(Option<(Seq<char>, Seq<char>)>, (Seq<char>, Seq<char>, Seq<char>, Seq<Seq<char>>))>) {
    let generic = match kind {
        UninitKind::Safe { safe_generic: Some(g), .. } => Some(g.full@),
        _ => None,
    };
    let from_impl = match kind {
        UninitKind::Safe { unsafe_record_name, safe_generic } => Some(
            (
                match safe_generic {
                    Some(g) => Some((g.full@, g.short@)),
                    None => None,
                },
                (
                    record_name,
                    unsafe_record_name@,
                    if exists|i: int| 0 <= i < data.len() && !(#[trigger] data[i]).details.allow_uninit {
                        "from"@
                    } else {
                        "_from"@
                    },
                    seq!["Self { "@ + initializers(data) + " }"@],
                ),
            ),
        ),
        _ => None,
    };
    (generic, data_record_fields(data, kind), from_impl)
}

/// The plan as texts.
pub open spec fn data_record_text(p: DataRecordPlan) -> (Option<Seq<char>>, Seq<(Seq<char>, Seq<char>)>, Option<(Option<(Seq<char>, Seq<char>)>, (Seq<char>, Seq<char>, Seq<char>, Seq<Seq<char>>))>) {
    (
        match p.generic {
            Some(g) => Some(g@),
            None => None,
        },
        field_texts(p.fields@),
        match p.from_impl {
            Some((g, f)) => Some(
                (
                    match g {
                        Some((full, short)) => Some((full@, short@)),
                        None => None,
                    },
                    (f.target@, f.from_type@, f.arg@, texts(f.lines@)),
                ),
            ),
            None => None,
        },
    )
}

fn fields_of(data: &[&DatumDefinition<NativeDatumDetails>], kind: &UninitKind) -> (r: Vec<(String, String)>)
    ensures
        field_texts(r@) == data_record_fields(data@, *kind),
{
    let mut r: Vec<(String, String)> = Vec::new();
    let mut i: usize = 0;
    while i < data.len()
        invariant
            i <= data@.len(),
            field_texts(r@) == data_record_fields(data@.take(i as int), *kind),
        decreases data@.len() - i,
    {
        proof {
            assert(data@.take(i + 1).drop_last() =~= data@.take(i as int));
        }
        let datum = data[i];
        let keep_type = !datum.details.allow_uninit || matches!(kind, UninitKind::False);
        let as_marker = matches!(kind, UninitKind::Safe { .. });
        if keep_type || as_marker {
            let mut name = String::from_str("pub ");
            name.append(datum.name.as_str());
            let ty = if keep_type {
                String::from_str(datum.details.type_info.name.as_str())
            } else {
                let mut ty = String::from_str("std::marker::PhantomData<T");
                append_decimal(&mut ty, i);
                ty.append(">");
                ty
            };
            let ghost before = r@;
            let ghost field = (name@, ty@);
            r.push((name, ty));
            proof {
                assert(field_texts(r@) =~= field_texts(before).push(field));
            }
        }
        i = i + 1;
    }
    proof {
        assert(data@.take(data@.len() as int) =~= data@);
    }
    r
}

fn initializers_of(data: &[&DatumDefinition<NativeDatumDetails>]) -> (r: String)
    ensures
        r@ == initializers(data@),
{
    let mut r = String::new();
    let mut i: usize = 0;
    proof {
        assert(data@.take(0) =~= Seq::<&DatumDefinition<NativeDatumDetails>>::empty());
    }
    while i < data.len()
        invariant
            i <= data@.len(),
            r@ == initializers(data@.take(i as int)),
        decreases data@.len() - i,
    {
        proof {
            assert(data@.take(i + 1).drop_last() =~= data@.take(i as int));
            if i == 0 {
                assert(data@.take(1)[0] == data@[0]);
            }
        }
        let datum = data[i];
        if i > 0 {
            r.append(", ");
        }
        r.append(datum.name.as_str());
        if !datum.details.allow_uninit {
            r.append(": from.");
            r.append(datum.name.as_str());
        } else {
            r.append(": std::marker::PhantomData");
        }
        i = i + 1;
        proof {
            assert(r@ =~= initializers(data@.take(i as int)));
        }
    }
    proof {
        assert(data@.take(data@.len() as int) =~= data@);
    }
    r
}

/// Plans the data record named `record_name` holding `data`.
pub fn data_record_plan(record_name: &str, data: &[&DatumDefinition<NativeDatumDetails>], kind: &UninitKind) -> (r:
    DataRecordPlan)
    ensures
        data_record_text(r) == data_record(record_name@, data@, *kind),
{
    let generic = match kind {
        UninitKind::Safe { safe_generic: Some(g), .. } => Some(String::from_str(g.full.as_str())),
        _ => None,
    };
    let fields = fields_of(data, kind);
    let from_impl = match kind {
        UninitKind::Safe { unsafe_record_name, safe_generic } => {
            let impl_generic = match safe_generic {
                Some(g) => Some((String::from_str(g.full.as_str()), String::from_str(g.short.as_str()))),
                None => None,
            };
            let mut has_data = false;
            let mut i: usize = 0;
            while i < data.len()
                invariant
                    i <= data@.len(),
                    has_data == exists|j: int| 0 <= j < i && !(#[trigger] data@[j]).details.allow_uninit,
                decreases data@.len() - i,
            {
                if !data[i].details.allow_uninit {
                    has_data = true;
                }
                i = i + 1;
            }
            let arg = if has_data {
                String::from_str("from")
            } else {
                String::from_str("_from")
            };
            let mut line = String::from_str("Self { ");
            let inits = initializers_of(data);
            line.append(inits.as_str());
            line.append(" }");
            let mut lines: Vec<String> = Vec::new();
            lines.push(line);
            proof {
                assert(texts(lines@) =~= seq!["Self { "@ + initializers(data@) + " }"@]);
            }
            Some(
                (
                    impl_generic,
                    FromImplPlan {
                        target: String::from_str(record_name),
                        from_type: String::from_str(unsafe_record_name),
                        arg,
                        lines,
                    },
                ),
            )
        },
        _ => None,
    };
    DataRecordPlan { generic, fields, from_impl }
}

} // verus!
