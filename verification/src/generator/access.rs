//! The lines of the functions that reach the data of a record: unpacking, dropping, accessors,
//! cloning and (de)serialization.

use vstd::prelude::*;

use crate::generator::constructor::constructor_write_line;
use crate::generator::from_previous::{append_joined, copy_str, joined, names, read_line, texts, write_line};
use crate::generator::RecordSpec;
use crate::record::definition::{DatumDefinition, NativeDatumDetails};
use crate::text::{append_decimal, decimal};

verus! {

/// The lines written once per datum.
#[derive(Clone, Copy, PartialEq, Eq, Debug, Structural)]
pub enum DatumLine {
    /// Reads the datum out of the record to unpack it.
    Unpack,
    /// Reads the datum out of the record to drop it.
    Drop,
    /// Gives the clone of the datum.
    Clone,
    /// Clones the datum of another record into this one.
    CloneFrom,
    /// Serializes the datum as an element of a tuple.
    Serialize,
    /// Deserializes the datum as an element of a sequence.
    Visit,
}

/// The line written for a datum.
pub open spec fn datum_line(kind: DatumLine, d: &DatumDefinition<NativeDatumDetails>) -> Seq<char> {
    let name = d.name@;
    let type_text = d.details.type_info.name@;
    let offset = decimal(d.details.offset as nat);
    match kind {
        DatumLine::Unpack => "let "@ + name + ": "@ + type_text + " = unsafe { self.data.read("@ + offset + ") };"@,
        DatumLine::Drop => "let _"@ + name + ": "@ + type_text + " = unsafe { self.data.read("@ + offset + ") };"@,
        DatumLine::Clone => if d.details.allow_uninit {
            "    "@ + name + ": *self."@ + name + "(),"@
        } else {
            "    "@ + name + ": self."@ + name + "().clone(),"@
        },
        DatumLine::CloneFrom => if d.details.allow_uninit {
            "*self."@ + name + "_mut() = *source."@ + name + "();"@
        } else {
            "self."@ + name + "_mut().clone_from(source."@ + name + "());"@
        },
        DatumLine::Serialize => "tuple.serialize_element(self."@ + name + "())?;"@,
        DatumLine::Visit => "let "@ + name + " = seq.next_element::<"@ + type_text
            + ">()?.ok_or_else(|| A::Error::missing_field(\""@ + name + "\"))?;"@,
    }
}

/// The lines that read a datum out of its record, to unpack it or to drop it, read at the datum's
/// own offset as a value of its type, and differ only by the `_` that marks the dropped value.
pub proof fn law_datum_reads_use_the_datum_offset(d: &DatumDefinition<NativeDatumDetails>)
    ensures
        datum_line(DatumLine::Unpack, d) == "let "@ + d.name@ + ": "@ + d.details.type_info.name@
            + " = unsafe { self.data.read("@ + decimal(d.details.offset as nat) + ") };"@,
        datum_line(DatumLine::Drop, d) == "let _"@ + d.name@ + ": "@ + d.details.type_info.name@
            + " = unsafe { self.data.read("@ + decimal(d.details.offset as nat) + ") };"@,
        datum_line(DatumLine::Drop, d) == "let _"@ + datum_line(DatumLine::Unpack, d).skip("let "@.len() as int),
{
    reveal_strlit("let ");
    reveal_strlit("let _");
    let tail = d.name@ + ": "@ + d.details.type_info.name@ + " = unsafe { self.data.read("@ + decimal(
        d.details.offset as nat,
    ) + ") };"@;
    assert(datum_line(DatumLine::Unpack, d) =~= "let "@ + tail);
    assert(datum_line(DatumLine::Drop, d) =~= "let _"@ + tail);
    assert(("let "@ + tail).skip("let "@.len() as int) =~= tail);
}

/// The lines that write a datum into a new record (from a constructor's data or from the data
/// added by a conversion) write it at the datum's own offset, and the line that reads a removed
/// datum out of the previous record reads it at that datum's own offset, as a value of its type.
pub proof fn law_record_writes_use_the_datum_offset(d: &DatumDefinition<NativeDatumDetails>, into_and_out: bool)
    ensures
        constructor_write_line(d) == "unsafe { data.write("@ + decimal(d.details.offset as nat) + ", from."@ + d.name@
            + "); }"@,
        write_line(d) == "unsafe { data.write("@ + decimal(d.details.offset as nat) + ", plus."@ + d.name@ + "); }"@,
        read_line(d, into_and_out) == "let "@ + (if into_and_out {
            Seq::<char>::empty()
        } else {
            "_"@
        }) + d.name@ + ": "@ + d.details.type_info.name@ + " = unsafe { from.data.read("@ + decimal(
            d.details.offset as nat,
        ) + ") };"@,
{
}

/// The lines written for the data, in order.
pub open spec fn datum_lines(kind: DatumLine, data: Seq<&DatumDefinition<NativeDatumDetails>>) -> Seq<Seq<char>> {
    data.map_values(|d: &DatumDefinition<NativeDatumDetails>| datum_line(kind, d))
}

/// Gives the line written for a datum.
pub fn datum_line_of(kind: DatumLine, d: &DatumDefinition<NativeDatumDetails>) -> (r: String)
    ensures
        r@ == datum_line(kind, d),
{
    let name = d.name.as_str();
    let type_text = d.details.type_info.name.as_str();
    let r = match kind {
        DatumLine::Unpack | DatumLine::Drop => {
            let mut line = if kind == DatumLine::Unpack {
                copy_str("let ")
            } else {
                copy_str("let _")
            };
            line.append(name);
            line.append(": ");
            line.append(type_text);
            line.append(" = unsafe { self.data.read(");
            append_decimal(&mut line, d.details.offset);
            line.append(") };");
            line
        },
        DatumLine::Clone => {
            let mut line = copy_str("    ");
            line.append(name);
            if d.details.allow_uninit {
                line.append(": *self.");
                line.append(name);
                line.append("(),");
            } else {
                line.append(": self.");
                line.append(name);
                line.append("().clone(),");
            }
            line
        },
        DatumLine::CloneFrom => {
            if d.details.allow_uninit {
                let mut line = copy_str("*self.");
                line.append(name);
                line.append("_mut() = *source.");
                line.append(name);
                line.append("();");
                line
            } else {
                let mut line = copy_str("self.");
                line.append(name);
                line.append("_mut().clone_from(source.");
                line.append(name);
                line.append("());");
                line
            }
        },
        DatumLine::Serialize => {
            let mut line = copy_str("tuple.serialize_element(self.");
            line.append(name);
            line.append("())?;");
            line
        },
        DatumLine::Visit => {
            let mut line = copy_str("let ");
            line.append(name);
            line.append(" = seq.next_element::<");
            line.append(type_text);
            line.append(">()?.ok_or_else(|| A::Error::missing_field(\"");
            line.append(name);
            line.append("\"))?;");
            line
        },
    };
    proof {
        assert(r@ =~= datum_line(kind, d));
    }
    r
}

/// Gives the lines written for the data, in order.
pub fn datum_lines_of(kind: DatumLine, data: &Vec<&DatumDefinition<NativeDatumDetails>>) -> (r: Vec<String>)
    ensures
        texts(r@) == datum_lines(kind, data@),
{
    let mut r: Vec<String> = Vec::new();
    let mut i: usize = 0;
    while i < data.len()
        invariant
            i <= data@.len(),
            texts(r@) == datum_lines(kind, data@.take(i as int)),
        decreases data@.len() - i,
    {
        let d = data[i];
        let line = datum_line_of(kind, d);
        let ghost before = r@;
        let ghost text = line@;
        r.push(line);
        proof {
            let f = |d: &DatumDefinition<NativeDatumDetails>| datum_line(kind, d);
            assert(texts(r@) =~= texts(before).push(text));
            assert(data@.take(i + 1) =~= data@.take(i as int).push(d));
            assert(data@.take(i + 1).map_values(f) =~= data@.take(i as int).map_values(f).push(f(d)));
        }
        i = i + 1;
    }
    proof {
        assert(data@.take(data@.len() as int) =~= data@);
    }
    r
}

/// The lines of `unpack`: the data are read out of the record, which is forgotten, and put in an
/// unpacked record.
pub open spec fn unpacker_lines(record: RecordSpec) -> Seq<Seq<char>> {
    datum_lines(DatumLine::Unpack, record.data@) + seq![
        "std::mem::forget(self);"@,
        record.unpacked_record_name@ + " { "@ + joined(names(record.data@)) + " }"@,
    ]
}

/// Gives the lines of `unpack`.
pub fn unpacker_lines_of(record: &RecordSpec) -> (r: Vec<String>)
    ensures
        texts(r@) == unpacker_lines(*record),
{
    let mut r = datum_lines_of(DatumLine::Unpack, &record.data);
    let ghost reads = texts(r@);
    r.push(copy_str("std::mem::forget(self);"));
    let mut last = copy_str(record.unpacked_record_name.as_str());
    last.append(" { ");
    append_joined(&mut last, &record.data, false);
    last.append(" }");
    let ghost text = last@;
    r.push(last);
    proof {
        assert(texts(r@) =~= reads.push("std::mem::forget(self);"@).push(text));
        assert(texts(r@) =~= unpacker_lines(*record));
    }
    r
}

/// The return type and the line of the accessor of a datum, or of its mutable accessor.
pub open spec fn accessor(d: &DatumDefinition<NativeDatumDetails>, mutable: bool) -> (Seq<char>, Seq<char>) {
    let type_text = d.details.type_info.name@;
    let offset = decimal(d.details.offset as nat);
    if mutable {
        ("&mut "@ + type_text, "unsafe { self.data.get_mut::<"@ + type_text + ">("@ + offset + ") }"@)
    } else {
        ("&"@ + type_text, "unsafe { self.data.get::<"@ + type_text + ">("@ + offset + ") }"@)
    }
}

/// The accessor of a datum and its mutable accessor read the datum at its own offset: the line
/// calls `get` or `get_mut` with the datum's type and the decimal offset of the datum, and the
/// two accessors differ only by `get`/`get_mut` and `&`/`&mut `.
pub proof fn law_accessors_read_the_datum_offset(d: &DatumDefinition<NativeDatumDetails>)
    ensures
        accessor(d, false).0 == "&"@ + d.details.type_info.name@,
        accessor(d, true).0 == "&mut "@ + d.details.type_info.name@,
        accessor(d, false).1 == "unsafe { self.data.get::<"@ + d.details.type_info.name@ + ">("@ + decimal(
            d.details.offset as nat,
        ) + ") }"@,
        accessor(d, true).1 == "unsafe { self.data.get_mut::<"@ + d.details.type_info.name@ + ">("@ + decimal(
            d.details.offset as nat,
        ) + ") }"@,
        accessor(d, true).1 == "unsafe { self.data.get_mut"@ + accessor(d, false).1.skip(
            "unsafe { self.data.get"@.len() as int,
        ),
{
    reveal_strlit("unsafe { self.data.get");
    reveal_strlit("unsafe { self.data.get::<");
    reveal_strlit("unsafe { self.data.get_mut");
    reveal_strlit("unsafe { self.data.get_mut::<");
    reveal_strlit("::<");
    let tail = "::<"@ + d.details.type_info.name@ + ">("@ + decimal(d.details.offset as nat) + ") }"@;
    assert("unsafe { self.data.get::<"@ =~= "unsafe { self.data.get"@ + "::<"@);
    assert("unsafe { self.data.get_mut::<"@ =~= "unsafe { self.data.get_mut"@ + "::<"@);
    assert(accessor(d, false).1 =~= "unsafe { self.data.get"@ + tail);
    assert(accessor(d, true).1 =~= "unsafe { self.data.get_mut"@ + tail);
    assert(("unsafe { self.data.get"@ + tail).skip("unsafe { self.data.get"@.len() as int) =~= tail);
}

/// Gives the return type and the line of the accessor of a datum, or of its mutable accessor.
pub fn accessor_of(d: &DatumDefinition<NativeDatumDetails>, mutable: bool) -> (r: (String, String))
    ensures
        (r.0@, r.1@) == accessor(d, mutable),
        r.0@ == (if mutable {
            "&mut "@
        } else {
            "&"@
        }) + d.details.type_info.name@,
        r.1@ == "unsafe { self.data."@ + (if mutable {
            "get_mut"@
        } else {
            "get"@
        }) + "::<"@ + d.details.type_info.name@ + ">("@ + decimal(d.details.offset as nat) + ") }"@,
{
    let type_text = d.details.type_info.name.as_str();
    let mut ret = if mutable {
        copy_str("&mut ")
    } else {
        copy_str("&")
    };
    ret.append(type_text);
    let mut line = if mutable {
        copy_str("unsafe { self.data.get_mut::<")
    } else {
        copy_str("unsafe { self.data.get::<")
    };
    line.append(type_text);
    line.append(">(");
    append_decimal(&mut line, d.details.offset);
    line.append(") }");
    proof {
        assert((ret@, line@) =~= accessor(d, mutable));
        law_accessors_read_the_datum_offset(d);
        reveal_strlit("get");
        reveal_strlit("get_mut");
        reveal_strlit("unsafe { self.data.");
        reveal_strlit("unsafe { self.data.get::<");
        reveal_strlit("unsafe { self.data.get_mut::<");
        reveal_strlit("::<");
        assert("unsafe { self.data.get::<"@ =~= "unsafe { self.data."@ + "get"@ + "::<"@);
        assert("unsafe { self.data.get_mut::<"@ =~= "unsafe { self.data."@ + "get_mut"@ + "::<"@);
    }
    (ret, line)
}

/// The lines of `clone`: a new record from the clones of the data.
pub open spec fn clone_lines(record: RecordSpec) -> Seq<Seq<char>> {
    seq!["Self::from("@ + record.unpacked_record_name@ + " {"@] + datum_lines(DatumLine::Clone, record.data@) + seq![
        "})"@,
    ]
}

/// Gives the lines of `clone`.
pub fn clone_lines_of(record: &RecordSpec) -> (r: Vec<String>)
    ensures
        texts(r@) == clone_lines(*record),
{
    let mut first = copy_str("Self::from(");
    first.append(record.unpacked_record_name.as_str());
    first.append(" {");
    let mut r: Vec<String> = Vec::new();
    r.push(first);
    let ghost head = texts(r@);
    let mut clones = datum_lines_of(DatumLine::Clone, &record.data);
    r.append(&mut clones);
    let ghost body = texts(r@);
    r.push(copy_str("})"));
    proof {
        assert(texts(r@) =~= body.push("})"@));
        assert(texts(r@) =~= clone_lines(*record));
    }
    r
}

/// The lines of `serialize`: the data as the elements of a tuple.
pub open spec fn serialize_lines(record: RecordSpec) -> Seq<Seq<char>> {
    seq![
        if record.data@.len() > 0 {
            "let mut tuple = serializer.serialize_tuple("@ + decimal(record.data@.len()) + ")?;"@
        } else {
            "let tuple = serializer.serialize_tuple(0)?;"@
        },
    ] + datum_lines(DatumLine::Serialize, record.data@) + seq!["tuple.end()"@]
}

/// Gives the lines of `serialize`.
pub fn serialize_lines_of(record: &RecordSpec) -> (r: Vec<String>)
    ensures
        texts(r@) == serialize_lines(*record),
{
    let first = if record.data.len() > 0 {
        let mut line = copy_str("let mut tuple = serializer.serialize_tuple(");
        append_decimal(&mut line, record.data.len());
        line.append(")?;");
        line
    } else {
        copy_str("let tuple = serializer.serialize_tuple(0)?;")
    };
    let mut r: Vec<String> = Vec::new();
    r.push(first);
    let mut elements = datum_lines_of(DatumLine::Serialize, &record.data);
    r.append(&mut elements);
    let ghost body = texts(r@);
    r.push(copy_str("tuple.end()"));
    proof {
        assert(texts(r@) =~= body.push("tuple.end()"@));
        assert(texts(r@) =~= serialize_lines(*record));
    }
    r
}

/// The lines of `visit_seq`: the number of elements is checked, the data are read one by one and
/// a new record is built from them.
pub open spec fn visit_seq_lines(record: RecordSpec) -> Seq<Seq<char>> {
    let n = decimal(record.data@.len());
    seq![
        "if let Some(size) = seq.size_hint() {"@,
        "    if size != "@ + n + " { return Err(A::Error::invalid_length(size, &\""@ + n + "\")); }"@,
        "}"@,
    ] + datum_lines(DatumLine::Visit, record.data@) + seq![
        "if let Some(size) = seq.size_hint() {"@,
        "    assert_eq!(size, 0);"@,
        "}"@,
        "Ok("@ + record.capped_record_name@ + "::new("@ + record.unpacked_record_name@ + " { "@ + joined(
            names(record.data@),
        ) + " }))"@,
    ]
}

/// Gives the lines of `visit_seq`.
pub fn visit_seq_lines_of(record: &RecordSpec) -> (r: Vec<String>)
    ensures
        texts(r@) == visit_seq_lines(*record),
{
    let n = record.data.len();
    let mut r: Vec<String> = Vec::new();
    r.push(copy_str("if let Some(size) = seq.size_hint() {"));
    let mut check = copy_str("    if size != ");
    append_decimal(&mut check, n);
    check.append(" { return Err(A::Error::invalid_length(size, &\"");
    append_decimal(&mut check, n);
    check.append("\")); }");
    r.push(check);
    r.push(copy_str("}"));
    let mut elements = datum_lines_of(DatumLine::Visit, &record.data);
    r.append(&mut elements);
    r.push(copy_str("if let Some(size) = seq.size_hint() {"));
    r.push(copy_str("    assert_eq!(size, 0);"));
    r.push(copy_str("}"));
    let mut last = copy_str("Ok(");
    last.append(record.capped_record_name.as_str());
    last.append("::new(");
    last.append(record.unpacked_record_name.as_str());
    last.append(" { ");
    append_joined(&mut last, &record.data, false);
    last.append(" }))");
    r.push(last);
    proof {
        assert(texts(r@) =~= visit_seq_lines(*record));
    }
    r
}

} // verus!
