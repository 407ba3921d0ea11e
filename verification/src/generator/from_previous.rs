//! The `From` implementations that build a record from the record of the previous variant: the
//! data that are not in the new variant are read out of the previous record, its bytes are
//! taken over, and the data added by the new variant are written in.

use vstd::prelude::*;

use crate::generator::{RecordGeneric, RecordSpec};
use crate::record::definition::{DatumDefinition, NativeDatumDetails};
use crate::text::{append_decimal, decimal};

verus! {

/// What the conversion takes besides the previous record.
#[derive(Clone, Copy, PartialEq, Eq, Debug, Structural)]
pub enum FromKind {
    /// All the added data.
    FromFull,
    /// Only the added data that cannot be left uninitialized.
    FromUninit,
}

/// What the conversion gives.
#[derive(Clone, Copy, PartialEq, Eq, Debug, Structural)]
pub enum IntoKind {
    /// The new record alone.
    IntoSimple,
    /// The new record with the data read out of the previous one.
    IntoAndOut,
}

/// A `From` implementation for a record type: `impl From<from_type> for target`, with
/// `fn from(arg: from_type) -> Self` made of `lines`.
pub struct FromImplPlan {
    /// The type that implements `From`.
    pub target: String,
    /// The type converted from.
    pub from_type: String,
    /// The pattern of the argument of `from`.
    pub arg: String,
    /// The lines of the body of `from`.
    pub lines: Vec<String>,
}

/// The texts of a sequence of strings.
pub open spec fn texts(lines: Seq<String>) -> Seq<Seq<char>> {
    lines.map_values(|s: String| s@)
}

/// The names of data.
pub open spec fn names(data: Seq<&DatumDefinition<NativeDatumDetails>>) -> Seq<Seq<char>> {
    data.map_values(|d: &DatumDefinition<NativeDatumDetails>| d.name@)
}

/// The type names of data.
pub open spec fn type_names(data: Seq<&DatumDefinition<NativeDatumDetails>>) -> Seq<Seq<char>> {
    data.map_values(|d: &DatumDefinition<NativeDatumDetails>| d.details.type_info.name@)
}

/// The items separated by `, `.
pub open spec fn joined(items: Seq<Seq<char>>) -> Seq<char>
    decreases items.len(),
{
    if items.len() == 0 {
        Seq::empty()
    } else if items.len() == 1 {
        items[0]
    } else {
        joined(items.drop_last()) + ", "@ + items.last()
    }
}

/// The items as a tuple: `()` when there is none, the item alone when there is one.
pub open spec fn tuple_of(items: Seq<Seq<char>>) -> Seq<char> {
    if items.len() == 0 {
        "()"@
    } else if items.len() == 1 {
        items[0]
    } else {
        "("@ + joined(items) + ")"@
    }
}

/// The data that are written in the new record: all the added data from a full record, only the
/// ones that cannot be left uninitialized otherwise.
pub open spec fn written(
    data: Seq<&DatumDefinition<NativeDatumDetails>>,
    from_full: bool,
) -> Seq<&DatumDefinition<NativeDatumDetails>>
    decreases data.len(),
{
    if data.len() == 0 {
        Seq::empty()
    } else if from_full || !data.last().details.allow_uninit {
        written(data.drop_last(), from_full).push(data.last())
    } else {
        written(data.drop_last(), from_full)
    }
}

/// Some datum cannot be left uninitialized.
pub open spec fn any_required(data: Seq<&DatumDefinition<NativeDatumDetails>>) -> bool {
    exists|i: int| 0 <= i < data.len() && !(#[trigger] data[i]).details.allow_uninit
}

/// Some datum may be left uninitialized.
pub open spec fn any_uninit(data: Seq<&DatumDefinition<NativeDatumDetails>>) -> bool {
    exists|i: int| 0 <= i < data.len() && (#[trigger] data[i]).details.allow_uninit
}

/// The line that reads a removed datum out of the previous record.
pub open spec fn read_line(d: &DatumDefinition<NativeDatumDetails>, into_and_out: bool) -> Seq<char> {
    "let "@ + (if into_and_out {
        Seq::<char>::empty()
    } else {
        "_"@
    }) + d.name@ + ": "@ + d.details.type_info.name@ + " = unsafe { from.data.read("@ + decimal(
        d.details.offset as nat,
    ) + ") };"@
}

/// The line that writes an added datum in the new record.
pub open spec fn write_line(d: &DatumDefinition<NativeDatumDetails>) -> Seq<char> {
    "unsafe { data.write("@ + decimal(d.details.offset as nat) + ", plus."@ + d.name@ + "); }"@
}

/// The line that takes over the bytes of the previous record.
pub open spec fn data_line(mutable: bool) -> Seq<char> {
    "let "@ + (if mutable {
        "mut "@
    } else {
        Seq::<char>::empty()
    }) + "data = unsafe { std::ptr::read(&manually_drop.data) };"@
}

/// The line that keeps the previous record from being dropped.
pub open spec fn manually_drop_line() -> Seq<char> {
    "let manually_drop = std::mem::ManuallyDrop::new(from);"@
}

/// `, name` for each datum.
pub open spec fn prefixed_names(data: Seq<&DatumDefinition<NativeDatumDetails>>) -> Seq<char>
    decreases data.len(),
{
    if data.len() == 0 {
        Seq::empty()
    } else {
        prefixed_names(data.drop_last()) + ", "@ + data.last().name@
    }
}

/// The last lines: the new record, with the data read out of the previous one when they are
/// given too.
pub open spec fn closing_lines(record: RecordSpec, into_and_out: bool) -> Seq<Seq<char>> {
    if into_and_out {
        seq![
            "let record = "@ + record.capped_record_name@ + " { data };"@,
            record.record_and_unpacked_out_name@ + " { record"@ + prefixed_names(record.minus_data@) + " }"@,
        ]
    } else {
        seq!["Self { data }"@]
    }
}

/// `::<types>` for generic parameters, if any.
pub open spec fn typed_suffix(generic: Option<RecordGeneric>) -> Seq<char> {
    match generic {
        Some(g) => "::<"@ + g.typed@ + ">"@,
        None => Seq::<char>::empty(),
    }
}

/// `::<types>` for the generic parameters of the added data, if any.
pub open spec fn generic_suffix(record: RecordSpec) -> Seq<char> {
    typed_suffix(record.plus_uninit_safe_generic)
}

/// The type that implements `From`.
pub open spec fn target_of(record: RecordSpec, into_and_out: bool) -> Seq<char> {
    if into_and_out {
        record.record_and_unpacked_out_name@
    } else {
        record.capped_record_name@
    }
}

/// Whether the bytes taken over are written to.
pub open spec fn data_written(record: RecordSpec, from_full: bool) -> bool {
    if from_full {
        record.plus_data@.len() > 0
    } else {
        any_required(record.plus_data@)
    }
}

/// The lines from the manually dropped previous record on.
pub open spec fn tail_lines(record: RecordSpec, from_full: bool, into_and_out: bool) -> Seq<Seq<char>> {
    seq![manually_drop_line(), data_line(data_written(record, from_full))] + written(
        record.plus_data@,
        from_full,
    ).map_values(|d: &DatumDefinition<NativeDatumDetails>| write_line(d)) + closing_lines(record, into_and_out)
}

/// The lines that read the removed data.
pub open spec fn read_lines(record: RecordSpec, into_and_out: bool) -> Seq<Seq<char>> {
    record.minus_data@.map_values(|d: &DatumDefinition<NativeDatumDetails>| read_line(d, into_and_out))
}

/// The conversion from the previous record first reads each removed datum out of the previous
/// record at its own offset, as a value of its type (kept under its name when the removed data are
/// given back); after taking over the bytes of the previous record, it writes each added datum it
/// is given, in order, at its own offset; then it gives the new record.
pub proof fn law_conversion_reads_removed_and_writes_added(
    record: RecordSpec,
    prev_record: RecordSpec,
    from_full: bool,
    into_and_out: bool,
)
    ensures
        ({
            let lines = from_previous_plan(record, prev_record, from_full, into_and_out).3;
            let minus = record.minus_data@;
            let given = written(record.plus_data@, from_full);
            let start = minus.len() + (if from_full { 0int } else { 1int }) + 2;
            &&& lines.len() == start + given.len() + (if into_and_out { 2int } else { 1int })
            &&& forall|k: int|
                0 <= k < minus.len() ==> lines[k] == "let "@ + (if into_and_out {
                    Seq::<char>::empty()
                } else {
                    "_"@
                }) + (#[trigger] minus[k]).name@ + ": "@ + minus[k].details.type_info.name@
                    + " = unsafe { from.data.read("@ + decimal(minus[k].details.offset as nat) + ") };"@
            &&& forall|k: int|
                0 <= k < given.len() ==> lines[start + k] == "unsafe { data.write("@ + decimal(
                    (#[trigger] given[k]).details.offset as nat,
                ) + ", plus."@ + given[k].name@ + "); }"@
        }),
{
    let lines = from_previous_plan(record, prev_record, from_full, into_and_out).3;
    let minus = record.minus_data@;
    let given = written(record.plus_data@, from_full);
    let reads = read_lines(record, into_and_out);
    let middle: Seq<Seq<char>> = if from_full {
        Seq::empty()
    } else {
        seq![
            "let "@ + (if any_required(record.plus_data@) {
                "plus"@
            } else {
                "_plus"@
            }) + " = "@ + record.unpacked_uninit_safe_record_in_name@ + generic_suffix(record) + "::from(plus);"@,
        ]
    };
    let tail = tail_lines(record, from_full, into_and_out);
    let writes = given.map_values(|d: &DatumDefinition<NativeDatumDetails>| write_line(d));
    assert(lines == reads + middle + tail);
    let start = minus.len() + middle.len() + 2;
    assert forall|k: int| 0 <= k < minus.len() implies lines[k] == "let "@ + (if into_and_out {
        Seq::<char>::empty()
    } else {
        "_"@
    }) + (#[trigger] minus[k]).name@ + ": "@ + minus[k].details.type_info.name@ + " = unsafe { from.data.read("@
        + decimal(minus[k].details.offset as nat) + ") };"@ by {
        assert(lines[k] == reads[k]);
    }
    assert forall|k: int| 0 <= k < given.len() implies lines[start + k] == "unsafe { data.write("@ + decimal(
        (#[trigger] given[k]).details.offset as nat,
    ) + ", plus."@ + given[k].name@ + "); }"@ by {
        assert(lines[start + k] == tail[2 + k]);
        assert(tail[2 + k] == writes[k]);
    }
}

/// The `From` implementation that takes the previous record and an unpacked record of the added
/// data.
pub open spec fn from_previous_plan(
    record: RecordSpec,
    prev_record: RecordSpec,
    from_full: bool,
    into_and_out: bool,
) -> (Seq<char>, Seq<char>, Seq<char>, Seq<Seq<char>>) {
    let from_type = "("@ + prev_record.capped_record_name@ + "<CAP>, "@ + (if from_full {
        record.unpacked_record_in_name@
    } else {
        record.unpacked_uninit_record_in_name@
    }) + ")"@;
    let arg = if !from_full || record.plus_data@.len() > 0 {
        "(from, plus)"@
    } else {
        "(from, _plus)"@
    };
    let middle = if from_full {
        Seq::empty()
    } else {
        seq![
            "let "@ + (if any_required(record.plus_data@) {
                "plus"@
            } else {
                "_plus"@
            }) + " = "@ + record.unpacked_uninit_safe_record_in_name@ + generic_suffix(record) + "::from(plus);"@,
        ]
    };
    (target_of(record, into_and_out), from_type, arg, read_lines(record, into_and_out) + middle + tail_lines(
        record,
        from_full,
        into_and_out,
    ))
}

/// The `From` implementation that takes the previous record and the added data as a tuple, if
/// there is one: there is none from the data that cannot be left uninitialized when all of them
/// can.
pub open spec fn from_previous_unnamed_plan(
    record: RecordSpec,
    prev_record: RecordSpec,
    from_full: bool,
    into_and_out: bool,
) -> Option<(Seq<char>, Seq<char>, Seq<char>, Seq<Seq<char>>)> {
    if !from_full && !any_uninit(record.plus_data@) {
        None
    } else {
        let given = written(record.plus_data@, from_full);
        let from_type = "("@ + prev_record.capped_record_name@ + "<CAP>, "@ + tuple_of(type_names(given)) + ")"@;
        let arg = "(from, "@ + tuple_of(names(given)) + ")"@;
        let middle = if from_full {
            if record.plus_data@.len() > 0 {
                seq!["let plus = "@ + record.unpacked_record_in_name@ + " { "@ + joined(names(given)) + " };"@]
            } else {
                Seq::empty()
            }
        } else {
            if any_required(record.plus_data@) {
                seq![
                    "let plus = "@ + record.unpacked_uninit_safe_record_in_name@ + generic_suffix(record) + "::from("@
                        + record.unpacked_uninit_record_in_name@ + " { "@ + joined(names(given)) + " });"@,
                ]
            } else {
                Seq::empty()
            }
        };
        Some(
            (
                target_of(record, into_and_out),
                from_type,
                arg,
                read_lines(record, into_and_out) + middle + tail_lines(record, from_full, into_and_out),
            ),
        )
    }
}

/// The plan as texts.
pub open spec fn plan_text(p: FromImplPlan) -> (Seq<char>, Seq<char>, Seq<char>, Seq<Seq<char>>) {
    (p.target@, p.from_type@, p.arg@, texts(p.lines@))
}

pub(crate) fn copy_str(s: &str) -> (r: String)
    ensures
        r@ == s@,
{
    String::from_str(s)
}

pub(crate) fn written_data<'a>(data: &Vec<&'a DatumDefinition<NativeDatumDetails>>, from_full: bool) -> (r: Vec<
    &'a DatumDefinition<NativeDatumDetails>,
>)
    ensures
        r@ == written(data@, from_full),
{
    let mut r: Vec<&'a DatumDefinition<NativeDatumDetails>> = Vec::new();
    let mut i: usize = 0;
    while i < data.len()
        invariant
            i <= data@.len(),
            r@ == written(data@.take(i as int), from_full),
        decreases data@.len() - i,
    {
        proof {
            assert(data@.take(i + 1).drop_last() =~= data@.take(i as int));
        }
        let d = data[i];
        if from_full || !d.details.allow_uninit {
            r.push(d);
        }
        i = i + 1;
    }
    proof {
        assert(data@.take(data@.len() as int) =~= data@);
    }
    r
}

pub(crate) fn has_required(data: &Vec<&DatumDefinition<NativeDatumDetails>>) -> (r: bool)
    ensures
        r == any_required(data@),
{
    let mut i: usize = 0;
    while i < data.len()
        invariant
            i <= data@.len(),
            forall|j: int| 0 <= j < i ==> (#[trigger] data@[j]).details.allow_uninit,
        decreases data@.len() - i,
    {
        if !data[i].details.allow_uninit {
            return true;
        }
        i = i + 1;
    }
    false
}

pub(crate) fn has_uninit(data: &Vec<&DatumDefinition<NativeDatumDetails>>) -> (r: bool)
    ensures
        r == any_uninit(data@),
{
    let mut i: usize = 0;
    while i < data.len()
        invariant
            i <= data@.len(),
            forall|j: int| 0 <= j < i ==> !(#[trigger] data@[j]).details.allow_uninit,
        decreases data@.len() - i,
    {
        if data[i].details.allow_uninit {
            return true;
        }
        i = i + 1;
    }
    false
}

/// Appends the names or the type names of data, separated by `, `.
pub(crate) fn append_joined(out: &mut String, data: &Vec<&DatumDefinition<NativeDatumDetails>>, type_name_of: bool)
    ensures
        final(out)@ == old(out)@ + joined(
            if type_name_of {
                type_names(data@)
            } else {
                names(data@)
            },
        ),
{
    let ghost items = if type_name_of {
        type_names(data@)
    } else {
        names(data@)
    };
    let ghost start = out@;
    let mut i: usize = 0;
    while i < data.len()
        invariant
            i <= data@.len(),
            items == (if type_name_of {
                type_names(data@)
            } else {
                names(data@)
            }),
            items.len() == data@.len(),
            out@ == start + joined(items.take(i as int)),
        decreases data@.len() - i,
    {
        proof {
            assert(items.take(i + 1).drop_last() =~= items.take(i as int));
            if i == 0 {
                assert(items.take(1)[0] == items[0]);
            }
        }
        if i > 0 {
            out.append(", ");
        }
        if type_name_of {
            out.append(data[i].details.type_info.name.as_str());
        } else {
            out.append(data[i].name.as_str());
        }
        i = i + 1;
        proof {
            assert(out@ =~= start + joined(items.take(i as int)));
        }
    }
    proof {
        assert(items.take(data@.len() as int) =~= items);
    }
}

/// Appends the data as a tuple of their names or type names.
pub(crate) fn append_tuple(out: &mut String, data: &Vec<&DatumDefinition<NativeDatumDetails>>, type_name_of: bool)
    ensures
        final(out)@ == old(out)@ + tuple_of(
            if type_name_of {
                type_names(data@)
            } else {
                names(data@)
            },
        ),
{
    let ghost items = if type_name_of {
        type_names(data@)
    } else {
        names(data@)
    };
    if data.len() == 0 {
        out.append("()");
    } else if data.len() == 1 {
        if type_name_of {
            out.append(data[0].details.type_info.name.as_str());
        } else {
            out.append(data[0].name.as_str());
        }
    } else {
        out.append("(");
        append_joined(out, data, type_name_of);
        out.append(")");
    }
}

fn read_lines_of(record: &RecordSpec, into_and_out: bool) -> (r: Vec<String>)
    ensures
        texts(r@) == read_lines(*record, into_and_out),
{
    let mut r: Vec<String> = Vec::new();
    let mut i: usize = 0;
    while i < record.minus_data.len()
        invariant
            i <= record.minus_data@.len(),
            texts(r@) == record.minus_data@.take(i as int).map_values(
                |d: &DatumDefinition<NativeDatumDetails>| read_line(d, into_and_out),
            ),
        decreases record.minus_data@.len() - i,
    {
        let d = record.minus_data[i];
        let mut line = copy_str("let ");
        if !into_and_out {
            line.append("_");
        }
        line.append(d.name.as_str());
        line.append(": ");
        line.append(d.details.type_info.name.as_str());
        line.append(" = unsafe { from.data.read(");
        append_decimal(&mut line, d.details.offset);
        line.append(") };");
        proof {
            assert(line@ =~= read_line(d, into_and_out));
        }
        let ghost before = r@;
        let ghost text = line@;
        r.push(line);
        proof {
            let f = |d: &DatumDefinition<NativeDatumDetails>| read_line(d, into_and_out);
            assert(texts(r@) =~= texts(before).push(text));
            assert(record.minus_data@.take(i + 1) =~= record.minus_data@.take(i as int).push(d));
            assert(record.minus_data@.take(i + 1).map_values(f) =~= record.minus_data@.take(i as int).map_values(f).push(
                f(d),
            ));
        }
        i = i + 1;
    }
    proof {
        assert(record.minus_data@.take(record.minus_data@.len() as int) =~= record.minus_data@);
    }
    r
}

/// Appends `::<types>` for generic parameters, if any.
pub(crate) fn append_typed_suffix(out: &mut String, generic: &Option<RecordGeneric>)
    ensures
        final(out)@ == old(out)@ + typed_suffix(*generic),
{
    match generic {
        Some(g) => {
            out.append("::<");
            out.append(g.typed.as_str());
            out.append(">");
        },
        None => {},
    }
}

fn tail_lines_of(record: &RecordSpec, from_full: bool, into_and_out: bool) -> (r: Vec<String>)
    ensures
        texts(r@) == tail_lines(*record, from_full, into_and_out),
{
    let mut r: Vec<String> = Vec::new();
    r.push(copy_str("let manually_drop = std::mem::ManuallyDrop::new(from);"));
    let written_to = if from_full {
        record.plus_data.len() > 0
    } else {
        has_required(&record.plus_data)
    };
    let mut line = copy_str("let ");
    if written_to {
        line.append("mut ");
    }
    line.append("data = unsafe { std::ptr::read(&manually_drop.data) };");
    r.push(line);
    let ghost head = texts(r@);
    proof {
        assert(head =~= seq![manually_drop_line(), data_line(data_written(*record, from_full))]);
    }
    let plus = written_data(&record.plus_data, from_full);
    let mut i: usize = 0;
    while i < plus.len()
        invariant
            i <= plus@.len(),
            texts(r@) == head + plus@.take(i as int).map_values(|d: &DatumDefinition<NativeDatumDetails>| write_line(d)),
        decreases plus@.len() - i,
    {
        let d = plus[i];
        let mut line = copy_str("unsafe { data.write(");
        append_decimal(&mut line, d.details.offset);
        line.append(", plus.");
        line.append(d.name.as_str());
        line.append("); }");
        proof {
            assert(line@ =~= write_line(d));
        }
        let ghost before = r@;
        let ghost text = line@;
        r.push(line);
        proof {
            let f = |d: &DatumDefinition<NativeDatumDetails>| write_line(d);
            assert(texts(r@) =~= texts(before).push(text));
            assert(plus@.take(i + 1) =~= plus@.take(i as int).push(d));
            assert(plus@.take(i + 1).map_values(f) =~= plus@.take(i as int).map_values(f).push(f(d)));
            assert(texts(r@) =~= head + plus@.take(i + 1).map_values(f));
        }
        i = i + 1;
    }
    proof {
        assert(plus@.take(plus@.len() as int) =~= plus@);
    }
    let ghost before_closing = texts(r@);
    if into_and_out {
        let mut line = copy_str("let record = ");
        line.append(record.capped_record_name.as_str());
        line.append(" { data };");
        r.push(line);
        let mut last = copy_str(record.record_and_unpacked_out_name.as_str());
        last.append(" { record");
        let ghost start = last@;
        let mut k: usize = 0;
        while k < record.minus_data.len()
            invariant
                k <= record.minus_data@.len(),
                last@ == start + prefixed_names(record.minus_data@.take(k as int)),
            decreases record.minus_data@.len() - k,
        {
            proof {
                assert(record.minus_data@.take(k + 1).drop_last() =~= record.minus_data@.take(k as int));
            }
            last.append(", ");
            last.append(record.minus_data[k].name.as_str());
            k = k + 1;
            proof {
                assert(last@ =~= start + prefixed_names(record.minus_data@.take(k as int)));
            }
        }
        proof {
            assert(record.minus_data@.take(record.minus_data@.len() as int) =~= record.minus_data@);
        }
        last.append(" }");
        r.push(last);
    } else {
        r.push(copy_str("Self { data }"));
    }
    proof {
        assert(texts(r@) =~= before_closing + closing_lines(*record, into_and_out));
    }
    r
}

/// Plans the `From` implementation that builds a record of `record` from the previous record
/// and an unpacked record of the added data.
pub fn from_previous_record_impl(
    record: &RecordSpec,
    prev_record: &RecordSpec,
    from_kind: FromKind,
    into_kind: IntoKind,
) -> (r: FromImplPlan)
    ensures
        plan_text(r) == from_previous_plan(
            *record,
            *prev_record,
            from_kind == FromKind::FromFull,
            into_kind == IntoKind::IntoAndOut,
        ),
{
    let from_full = from_kind == FromKind::FromFull;
    let into_and_out = into_kind == IntoKind::IntoAndOut;
    let mut from_type = copy_str("(");
    from_type.append(prev_record.capped_record_name.as_str());
    from_type.append("<CAP>, ");
    if from_full {
        from_type.append(record.unpacked_record_in_name.as_str());
    } else {
        from_type.append(record.unpacked_uninit_record_in_name.as_str());
    }
    from_type.append(")");
    let arg = if !from_full || record.plus_data.len() > 0 {
        copy_str("(from, plus)")
    } else {
        copy_str("(from, _plus)")
    };
    let target = if into_and_out {
        copy_str(record.record_and_unpacked_out_name.as_str())
    } else {
        copy_str(record.capped_record_name.as_str())
    };
    let mut lines = read_lines_of(record, into_and_out);
    let ghost read = texts(lines@);
    if !from_full {
        let mut line = copy_str("let ");
        if has_required(&record.plus_data) {
            line.append("plus");
        } else {
            line.append("_plus");
        }
        line.append(" = ");
        line.append(record.unpacked_uninit_safe_record_in_name.as_str());
        append_typed_suffix(&mut line, &record.plus_uninit_safe_generic);
        line.append("::from(plus);");
        lines.push(line);
    }
    let ghost middle = texts(lines@);
    let mut tail = tail_lines_of(record, from_full, into_and_out);
    lines.append(&mut tail);
    proof {
        let plan = from_previous_plan(*record, *prev_record, from_full, into_and_out);
        assert(texts(lines@) =~= plan.3);
    }
    FromImplPlan { target, from_type, arg, lines }
}

/// Plans the `From` implementation that builds a record of `record` from the previous record
/// and the added data as a tuple, if there is one to plan.
pub fn from_previous_record_unnamed_fields_impl(
    record: &RecordSpec,
    prev_record: &RecordSpec,
    from_kind: FromKind,
    into_kind: IntoKind,
) -> (r: Option<FromImplPlan>)
    ensures
        match r {
            Some(p) => from_previous_unnamed_plan(
                *record,
                *prev_record,
                from_kind == FromKind::FromFull,
                into_kind == IntoKind::IntoAndOut,
            ) == Some(plan_text(p)),
            None => from_previous_unnamed_plan(
                *record,
                *prev_record,
                from_kind == FromKind::FromFull,
                into_kind == IntoKind::IntoAndOut,
            ) is None,
        },
{
    let from_full = from_kind == FromKind::FromFull;
    let into_and_out = into_kind == IntoKind::IntoAndOut;
    if !from_full && !has_uninit(&record.plus_data) {
        return None;
    }
    let given = written_data(&record.plus_data, from_full);
    let mut from_type = copy_str("(");
    from_type.append(prev_record.capped_record_name.as_str());
    from_type.append("<CAP>, ");
    append_tuple(&mut from_type, &given, true);
    from_type.append(")");
    let mut arg = copy_str("(from, ");
    append_tuple(&mut arg, &given, false);
    arg.append(")");
    let target = if into_and_out {
        copy_str(record.record_and_unpacked_out_name.as_str())
    } else {
        copy_str(record.capped_record_name.as_str())
    };
    let mut lines = read_lines_of(record, into_and_out);
    if from_full {
        if record.plus_data.len() > 0 {
            let mut line = copy_str("let plus = ");
            line.append(record.unpacked_record_in_name.as_str());
            line.append(" { ");
            append_joined(&mut line, &given, false);
            line.append(" };");
            lines.push(line);
        }
    } else {
        if has_required(&record.plus_data) {
            let mut line = copy_str("let plus = ");
            line.append(record.unpacked_uninit_safe_record_in_name.as_str());
            append_typed_suffix(&mut line, &record.plus_uninit_safe_generic);
            line.append("::from(");
            line.append(record.unpacked_uninit_record_in_name.as_str());
            line.append(" { ");
            append_joined(&mut line, &given, false);
            line.append(" });");
            lines.push(line);
        }
    }
    let mut tail = tail_lines_of(record, from_full, into_and_out);
    lines.append(&mut tail);
    let r = FromImplPlan { target, from_type, arg, lines };
    proof {
        let plan = from_previous_unnamed_plan(*record, *prev_record, from_full, into_and_out);
        assert(plan is Some);
        let (t, f, a, l) = plan->0;
        assert(texts(r.lines@) =~= l);
        assert(plan_text(r) == plan->0);
    }
    Some(r)
}

} // verus!
