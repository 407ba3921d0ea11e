//! The constructors of the records: from an unpacked record, from the data as arguments, and
//! the `From` implementations from tuples of the data.

use vstd::prelude::*;

use crate::generator::from_previous::{
    any_required, any_uninit, append_joined, append_tuple, append_typed_suffix, copy_str, has_required, has_uninit,
    joined, names, texts, tuple_of, type_names, typed_suffix, written, written_data, FromImplPlan,
};
use crate::generator::RecordSpec;
use crate::record::definition::{DatumDefinition, NativeDatumDetails};
use crate::text::{append_decimal, decimal};

verus! {

/// A public function returning `Self`: its name, its arguments (name and type) and its lines.
pub struct FnPlan {
    /// The name of the function.
    pub name: String,
    /// The arguments, by name and type.
    pub args: Vec<(String, String)>,
    /// The lines of the body.
    pub lines: Vec<String>,
}

/// The plan as texts.
pub open spec fn fn_text(p: FnPlan) -> (Seq<char>, Seq<(Seq<char>, Seq<char>)>, Seq<Seq<char>>) {
    (p.name@, p.args@.map_values(|a: (String, String)| (a.0@, a.1@)), texts(p.lines@))
}

/// The line that writes a datum given to a constructor in the new record.
pub open spec fn constructor_write_line(d: &DatumDefinition<NativeDatumDetails>) -> Seq<char> {
    "unsafe { data.write("@ + decimal(d.details.offset as nat) + ", from."@ + d.name@ + "); }"@
}

/// The lines that build the record once its data are in `from`: all of them for a full record,
/// only those that cannot be left uninitialized otherwise.
pub open spec fn constructor_tail(record: RecordSpec, full: bool) -> Seq<Seq<char>> {
    let mutable = if full {
        record.data@.len() > 0
    } else {
        any_required(record.data@)
    };
    seq![
        "let "@ + (if mutable {
            "mut "@
        } else {
            Seq::<char>::empty()
        }) + "data = RecordMaybeUninit::new();"@,
    ] + written(record.data@, full).map_values(|d: &DatumDefinition<NativeDatumDetails>| constructor_write_line(d))
        + seq!["Self { data }"@]
}

/// The data given to a full constructor are all the data of the record, and the ones given to
/// the other constructor are, in order, the data that cannot be left uninitialized.
pub proof fn law_written_data(data: Seq<&DatumDefinition<NativeDatumDetails>>)
    ensures
        written(data, true) == data,
        written(data, false) == data.filter(|d: &DatumDefinition<NativeDatumDetails>| !d.details.allow_uninit),
    decreases data.len(),
{
    reveal(Seq::filter);
    if data.len() > 0 {
        law_written_data(data.drop_last());
        assert(data.drop_last().push(data.last()) =~= data);
    } else {
        assert(data =~= Seq::<&DatumDefinition<NativeDatumDetails>>::empty());
    }
}

/// A constructor starts the new record, writes each given datum once, in order, at its own
/// offset, from the field of `from` named after it, and gives the record.
pub proof fn law_constructor_writes_each_datum(record: RecordSpec, full: bool)
    ensures
        constructor_tail(record, full).len() == written(record.data@, full).len() + 2,
        forall|k: int|
            0 <= k < written(record.data@, full).len() ==> constructor_tail(record, full)[k + 1] == "unsafe { data.write("@
                + decimal((#[trigger] written(record.data@, full)[k]).details.offset as nat) + ", from."@ + written(
                record.data@,
                full,
            )[k].name@ + "); }"@,
        constructor_tail(record, full).last() == "Self { data }"@,
{
    let given = written(record.data@, full);
    let lines = given.map_values(|d: &DatumDefinition<NativeDatumDetails>| constructor_write_line(d));
    assert forall|k: int| 0 <= k < given.len() implies constructor_tail(record, full)[k + 1] == "unsafe { data.write("@
        + decimal((#[trigger] given[k]).details.offset as nat) + ", from."@ + given[k].name@ + "); }"@ by {
        assert(constructor_tail(record, full)[k + 1] == lines[k]);
    }
}

/// `from` when it is read, `_from` otherwise.
pub open spec fn from_name(used: bool) -> Seq<char> {
    if used {
        "from"@
    } else {
        "_from"@
    }
}

/// The constructor from an unpacked record, all of whose data are given (`new`) or only the
/// ones that cannot be left uninitialized (`new_uninit`).
pub open spec fn record_constructor_plan(record: RecordSpec, unpacked_record_name: Seq<char>, full: bool) -> (
    Seq<char>,
    Seq<(Seq<char>, Seq<char>)>,
    Seq<Seq<char>>,
) {
    let name = if full {
        "new"@
    } else {
        "new_uninit"@
    };
    let arg = from_name(!full || record.data@.len() > 0);
    let head = if full {
        Seq::empty()
    } else {
        seq![
            "let "@ + from_name(any_required(record.data@)) + " = "@ + record.unpacked_uninit_safe_record_name@
                + typed_suffix(record.unpacked_uninit_safe_generic) + "::from(from);"@,
        ]
    };
    (name, seq![(arg, unpacked_record_name)], head + constructor_tail(record, full))
}

/// The constructor from the data as arguments, all of them (`new_unnamed`) or only the ones that
/// cannot be left uninitialized (`new_uninit_unnamed`).
pub open spec fn record_unnamed_constructor_plan(record: RecordSpec, full: bool) -> (
    Seq<char>,
    Seq<(Seq<char>, Seq<char>)>,
    Seq<Seq<char>>,
) {
    let name = if full {
        "new_unnamed"@
    } else {
        "new_uninit_unnamed"@
    };
    let given = written(record.data@, full);
    let args = given.map_values(
        |d: &DatumDefinition<NativeDatumDetails>| (d.name@, d.details.type_info.name@),
    );
    let head = if full {
        seq![
            "let "@ + from_name(record.data@.len() > 0) + " = "@ + record.unpacked_record_name@ + " { "@ + joined(
                names(given),
            ) + " };"@,
        ]
    } else {
        seq![
            "let "@ + from_name(any_required(record.data@)) + " = "@ + record.unpacked_uninit_safe_record_name@
                + typed_suffix(record.unpacked_uninit_safe_generic) + "::from("@
                + record.unpacked_uninit_record_name@ + " { "@ + joined(names(given)) + " });"@,
        ]
    };
    (name, args, head + constructor_tail(record, full))
}

/// The `From` implementation from the data as a tuple, calling the constructor from the data as
/// arguments, if there is one: there is none from the data that cannot be left uninitialized
/// when all of them can.
pub open spec fn from_unnamed_fields_plan(record: RecordSpec, full: bool) -> Option<
    (Seq<char>, Seq<char>, Seq<char>, Seq<Seq<char>>),
> {
    if !full && !any_uninit(record.data@) {
        None
    } else {
        let given = written(record.data@, full);
        Some(
            (
                record.capped_record_name@,
                tuple_of(type_names(given)),
                tuple_of(names(given)),
                seq![
                    "Self::"@ + (if full {
                        "new_unnamed"@
                    } else {
                        "new_uninit_unnamed"@
                    }) + "("@ + joined(names(given)) + ")"@,
                ],
            ),
        )
    }
}

fn constructor_tail_of(record: &RecordSpec, full: bool) -> (r: Vec<String>)
    ensures
        texts(r@) == constructor_tail(*record, full),
{
    let mutable = if full {
        record.data.len() > 0
    } else {
        has_required(&record.data)
    };
    let mut r: Vec<String> = Vec::new();
    let mut line = copy_str("let ");
    if mutable {
        line.append("mut ");
    }
    line.append("data = RecordMaybeUninit::new();");
    r.push(line);
    let ghost head = texts(r@);
    let given = written_data(&record.data, full);
    let mut i: usize = 0;
    while i < given.len()
        invariant
            i <= given@.len(),
            texts(r@) == head + given@.take(i as int).map_values(
                |d: &DatumDefinition<NativeDatumDetails>| constructor_write_line(d),
            ),
        decreases given@.len() - i,
    {
        let d = given[i];
        let mut line = copy_str("unsafe { data.write(");
        append_decimal(&mut line, d.details.offset);
        line.append(", from.");
        line.append(d.name.as_str());
        line.append("); }");
        let ghost before = r@;
        let ghost text = line@;
        r.push(line);
        proof {
            let f = |d: &DatumDefinition<NativeDatumDetails>| constructor_write_line(d);
            assert(text =~= f(d));
            assert(texts(r@) =~= texts(before).push(text));
            assert(given@.take(i + 1) =~= given@.take(i as int).push(d));
            assert(given@.take(i + 1).map_values(f) =~= given@.take(i as int).map_values(f).push(f(d)));
            assert(texts(r@) =~= head + given@.take(i + 1).map_values(f));
        }
        i = i + 1;
    }
    proof {
        assert(given@.take(given@.len() as int) =~= given@);
    }
    let ghost before_last = texts(r@);
    r.push(copy_str("Self { data }"));
    proof {
        assert(texts(r@) =~= before_last.push("Self { data }"@));
        assert(texts(r@) =~= constructor_tail(*record, full));
    }
    r
}

/// Plans the constructor of the record from an unpacked record named `unpacked_record_name`:
/// `new` for all the data, `new_uninit` for the data that cannot be left uninitialized.
pub fn record_constructor(record: &RecordSpec, unpacked_record_name: &str, full: bool) -> (r: FnPlan)
    ensures
        fn_text(r) == record_constructor_plan(*record, unpacked_record_name@, full),
{
    let name = if full {
        copy_str("new")
    } else {
        copy_str("new_uninit")
    };
    let arg = if !full || record.data.len() > 0 {
        copy_str("from")
    } else {
        copy_str("_from")
    };
    let mut args: Vec<(String, String)> = Vec::new();
    args.push((arg, copy_str(unpacked_record_name)));
    let mut lines: Vec<String> = Vec::new();
    if !full {
        let mut line = copy_str("let ");
        if has_required(&record.data) {
            line.append("from");
        } else {
            line.append("_from");
        }
        line.append(" = ");
        line.append(record.unpacked_uninit_safe_record_name.as_str());
        append_typed_suffix(&mut line, &record.unpacked_uninit_safe_generic);
        line.append("::from(from);");
        lines.push(line);
    }
    let ghost head = texts(lines@);
    let mut tail = constructor_tail_of(record, full);
    lines.append(&mut tail);
    let r = FnPlan { name, args, lines };
    proof {
        let (n, a, l) = record_constructor_plan(*record, unpacked_record_name@, full);
        assert(texts(r.lines@) =~= l);
        assert(r.args@.map_values(|a: (String, String)| (a.0@, a.1@)) =~= a);
    }
    r
}

/// Plans the constructor of the record from the data as arguments: `new_unnamed` for all the
/// data, `new_uninit_unnamed` for the data that cannot be left uninitialized.
pub fn record_unnamed_constructor(record: &RecordSpec, full: bool) -> (r: FnPlan)
    ensures
        fn_text(r) == record_unnamed_constructor_plan(*record, full),
{
    let name = if full {
        copy_str("new_unnamed")
    } else {
        copy_str("new_uninit_unnamed")
    };
    let given = written_data(&record.data, full);
    let mut args: Vec<(String, String)> = Vec::new();
    let mut i: usize = 0;
    while i < given.len()
        invariant
            i <= given@.len(),
            args@.map_values(|a: (String, String)| (a.0@, a.1@)) == given@.take(i as int).map_values(
                |d: &DatumDefinition<NativeDatumDetails>| (d.name@, d.details.type_info.name@),
            ),
        decreases given@.len() - i,
    {
        let d = given[i];
        let ghost before = args@;
        args.push((copy_str(d.name.as_str()), copy_str(d.details.type_info.name.as_str())));
        proof {
            let f = |d: &DatumDefinition<NativeDatumDetails>| (d.name@, d.details.type_info.name@);
            let g = |a: (String, String)| (a.0@, a.1@);
            assert(args@.map_values(g) =~= before.map_values(g).push(f(d)));
            assert(given@.take(i + 1) =~= given@.take(i as int).push(d));
            assert(given@.take(i + 1).map_values(f) =~= given@.take(i as int).map_values(f).push(f(d)));
        }
        i = i + 1;
    }
    proof {
        assert(given@.take(given@.len() as int) =~= given@);
    }
    let mut line = copy_str("let ");
    if full {
        if record.data.len() > 0 {
            line.append("from");
        } else {
            line.append("_from");
        }
        line.append(" = ");
        line.append(record.unpacked_record_name.as_str());
    } else {
        if has_required(&record.data) {
            line.append("from");
        } else {
            line.append("_from");
        }
        line.append(" = ");
        line.append(record.unpacked_uninit_safe_record_name.as_str());
        append_typed_suffix(&mut line, &record.unpacked_uninit_safe_generic);
        line.append("::from(");
        line.append(record.unpacked_uninit_record_name.as_str());
    }
    line.append(" { ");
    append_joined(&mut line, &given, false);
    if full {
        line.append(" };");
    } else {
        line.append(" });");
    }
    let mut lines: Vec<String> = Vec::new();
    lines.push(line);
    let mut tail = constructor_tail_of(record, full);
    lines.append(&mut tail);
    let r = FnPlan { name, args, lines };
    proof {
        let (n, a, l) = record_unnamed_constructor_plan(*record, full);
        assert(texts(r.lines@) =~= l);
    }
    r
}

/// Plans the `From` implementation of the record from the data as a tuple, if there is one to
/// plan: all the data, or only the ones that cannot be left uninitialized.
pub fn from_unnamed_fields_impl(record: &RecordSpec, full: bool) -> (r: Option<FromImplPlan>)
    ensures
        match r {
            Some(p) => from_unnamed_fields_plan(*record, full) == Some(
                (p.target@, p.from_type@, p.arg@, texts(p.lines@)),
            ),
            None => from_unnamed_fields_plan(*record, full) is None,
        },
{
    if !full && !has_uninit(&record.data) {
        return None;
    }
    let given = written_data(&record.data, full);
    let mut from_type = String::new();
    append_tuple(&mut from_type, &given, true);
    let mut arg = String::new();
    append_tuple(&mut arg, &given, false);
    let mut line = copy_str("Self::");
    if full {
        line.append("new_unnamed");
    } else {
        line.append("new_uninit_unnamed");
    }
    line.append("(");
    append_joined(&mut line, &given, false);
    line.append(")");
    let mut lines: Vec<String> = Vec::new();
    lines.push(line);
    let r = FromImplPlan { target: copy_str(record.capped_record_name.as_str()), from_type, arg, lines };
    proof {
        let plan = from_unnamed_fields_plan(*record, full);
        let (t, f, a, l) = plan->0;
        assert(texts(r.lines@) =~= l);
    }
    Some(r)
}

} // verus!
