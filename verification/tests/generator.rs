use truc::generator::{record_specs, safe_record_generic, RecordGeneric};
use truc::record::definition::builder::RecordDefinitionBuilder;
use truc::record::definition::convert::convert_record_definition;
use truc::record::definition::{
    DatumDefinition, DatumId, NativeDatumDetails, RecordDefinition, RecordVariantId,
};
use truc::record::type_resolver::{HostTypeResolver, TypeInfo};

fn info<T>(name: &str) -> TypeInfo {
    TypeInfo {
        name: name.to_owned(),
        size: std::mem::size_of::<T>(),
        align: std::mem::align_of::<T>(),
    }
}

fn sample() -> RecordDefinition<NativeDatumDetails> {
    let type_resolver = HostTypeResolver;
    let mut definition = RecordDefinitionBuilder::new(&type_resolver);
    let a = definition.add_datum_allow_uninit("a", info::<u32>("u32"));
    definition.add_datum("b", info::<String>("String"));
    definition.close_record_variant();
    definition.remove_datum(a);
    definition.add_datum_allow_uninit("c", info::<u8>("u8"));
    definition.close_record_variant();
    definition.build()
}

#[test]
fn safe_generic_lists_the_data_left_uninitialized() {
    let def = sample();
    let data: Vec<&DatumDefinition<NativeDatumDetails>> = def.datum_definitions().iter().collect();
    assert_eq!(
        safe_record_generic(&data),
        Some(RecordGeneric {
            full: "T0: Copy, T2: Copy".to_owned(),
            short: "T0, T2".to_owned(),
            typed: "u32, u8".to_owned(),
        })
    );
    assert_eq!(safe_record_generic(&data[1..2]), None);
}

#[test]
fn record_specs_follow_the_variants() {
    let def = sample();
    let specs = record_specs(&def);
    assert_eq!(specs.len(), 2);
    assert_eq!(specs[0].record_name, "Record0");
    assert_eq!(specs[1].capped_record_name, "CappedRecord1");
    assert_eq!(specs[1].record_and_unpacked_out_name, "Record1AndUnpackedOut");
    assert_eq!(specs[1].unpacked_uninit_safe_record_in_name, "UnpackedUninitSafeRecordIn1");
    assert_eq!(specs[0].max_type_align, def.max_type_align());
    let ids = |data: &Vec<&DatumDefinition<NativeDatumDetails>>| {
        data.iter().map(|d| d.id).collect::<Vec<DatumId>>()
    };
    assert_eq!(ids(&specs[0].data), vec![DatumId(0), DatumId(1)]);
    assert_eq!(ids(&specs[0].plus_data), vec![DatumId(0), DatumId(1)]);
    assert!(specs[0].minus_data.is_empty());
    assert_eq!(ids(&specs[1].data), vec![DatumId(1), DatumId(2)]);
    assert_eq!(ids(&specs[1].minus_data), vec![DatumId(0)]);
    assert_eq!(ids(&specs[1].plus_data), vec![DatumId(2)]);
    assert_eq!(
        specs[1].plus_uninit_safe_generic,
        Some(RecordGeneric {
            full: "T0: Copy".to_owned(),
            short: "T0".to_owned(),
            typed: "u8".to_owned(),
        })
    );
}

struct Recorder {
    calls: Vec<String>,
    next_datum: usize,
    next_variant: usize,
}

#[test]
fn conversion_replays_the_variants() {
    let def = sample();
    let mut recorder = Recorder {
        calls: Vec::new(),
        next_datum: 0,
        next_variant: 0,
    };
    let mapping = convert_record_definition(
        &def,
        |recorder: &mut Recorder, datum: &DatumDefinition<NativeDatumDetails>| {
            recorder.calls.push(format!("add {}", datum.name()));
            recorder.next_datum += 1;
            Ok(DatumId(100 + recorder.next_datum))
        },
        |recorder: &mut Recorder, datum_id: DatumId| {
            recorder.calls.push(format!("remove {}", datum_id.0));
            Ok(())
        },
        |recorder: &mut Recorder| {
            recorder.calls.push("close".to_owned());
            recorder.next_variant += 1;
            RecordVariantId(10 + recorder.next_variant)
        },
        &mut recorder,
    )
    .unwrap();
    assert_eq!(
        mapping,
        vec![
            (RecordVariantId(0), RecordVariantId(11)),
            (RecordVariantId(1), RecordVariantId(12))
        ]
    );
    assert_eq!(
        recorder.calls,
        vec!["add a", "add b", "close", "remove 101", "add c", "close"]
    );
}

#[test]
fn conversion_stops_at_the_first_converter_error() {
    let def = sample();
    let mut closed = 0;
    assert_eq!(
        convert_record_definition(
            &def,
            |_: &mut usize, datum: &DatumDefinition<NativeDatumDetails>| Err(format!("no {}", datum.name())),
            |_: &mut usize, _: DatumId| Ok(()),
            |closed: &mut usize| {
                *closed += 1;
                RecordVariantId(0)
            },
            &mut closed,
        ),
        Err("no a".to_owned())
    );
    assert_eq!(closed, 0);
}

#[test]
fn conversion_stops_at_the_first_removal_error() {
    let def = sample();
    let mut added = Vec::new();
    let result = convert_record_definition(
        &def,
        |added: &mut Vec<String>, datum: &DatumDefinition<NativeDatumDetails>| {
            added.push(datum.name().to_owned());
            Ok(DatumId(added.len()))
        },
        |_: &mut Vec<String>, datum_id: DatumId| Err(format!("keep {}", datum_id.0)),
        |_: &mut Vec<String>| RecordVariantId(0),
        &mut added,
    );
    assert_eq!(result, Err("keep 1".to_owned()));
    assert_eq!(added, vec!["a", "b"]);
}

use truc::generator::constructor::{
    from_unnamed_fields_impl, record_constructor, record_unnamed_constructor,
};
use truc::generator::data_record::{data_record_plan, UninitKind};
use truc::generator::from_previous::{
    from_previous_record_impl, from_previous_record_unnamed_fields_impl, FromImplPlan, FromKind,
    IntoKind,
};

fn plan_parts(plan: &FromImplPlan) -> (&str, &str, &str, Vec<&str>) {
    (
        &plan.target,
        &plan.from_type,
        &plan.arg,
        plan.lines.iter().map(|l| l.as_str()).collect(),
    )
}

#[test]
fn from_previous_record_reads_removed_and_writes_added_data() {
    let def = sample();
    let specs = record_specs(&def);
    let full = from_previous_record_impl(&specs[1], &specs[0], FromKind::FromFull, IntoKind::IntoSimple);
    assert_eq!(
        plan_parts(&full),
        (
            "CappedRecord1",
            "(CappedRecord0<CAP>, UnpackedRecordIn1)",
            "(from, plus)",
            vec![
                "let _a: u32 = unsafe { from.data.read(0) };",
                "let manually_drop = std::mem::ManuallyDrop::new(from);",
                "let mut data = unsafe { std::ptr::read(&manually_drop.data) };",
                "unsafe { data.write(0, plus.c); }",
                "Self { data }",
            ]
        )
    );
    let uninit_out =
        from_previous_record_impl(&specs[1], &specs[0], FromKind::FromUninit, IntoKind::IntoAndOut);
    assert_eq!(
        plan_parts(&uninit_out),
        (
            "Record1AndUnpackedOut",
            "(CappedRecord0<CAP>, UnpackedUninitRecordIn1)",
            "(from, plus)",
            vec![
                "let a: u32 = unsafe { from.data.read(0) };",
                "let _plus = UnpackedUninitSafeRecordIn1::<u8>::from(plus);",
                "let manually_drop = std::mem::ManuallyDrop::new(from);",
                "let data = unsafe { std::ptr::read(&manually_drop.data) };",
                "let record = CappedRecord1 { data };",
                "Record1AndUnpackedOut { record, a }",
            ]
        )
    );
}

#[test]
fn from_previous_record_with_unnamed_fields() {
    let def = sample();
    let specs = record_specs(&def);
    let uninit = from_previous_record_unnamed_fields_impl(
        &specs[1],
        &specs[0],
        FromKind::FromUninit,
        IntoKind::IntoSimple,
    )
    .unwrap();
    assert_eq!(
        plan_parts(&uninit),
        (
            "CappedRecord1",
            "(CappedRecord0<CAP>, ())",
            "(from, ())",
            vec![
                "let _a: u32 = unsafe { from.data.read(0) };",
                "let manually_drop = std::mem::ManuallyDrop::new(from);",
                "let data = unsafe { std::ptr::read(&manually_drop.data) };",
                "Self { data }",
            ]
        )
    );
    let full = from_previous_record_unnamed_fields_impl(
        &specs[1],
        &specs[0],
        FromKind::FromFull,
        IntoKind::IntoSimple,
    )
    .unwrap();
    assert_eq!(
        plan_parts(&full),
        (
            "CappedRecord1",
            "(CappedRecord0<CAP>, u8)",
            "(from, c)",
            vec![
                "let _a: u32 = unsafe { from.data.read(0) };",
                "let plus = UnpackedRecordIn1 { c };",
                "let manually_drop = std::mem::ManuallyDrop::new(from);",
                "let mut data = unsafe { std::ptr::read(&manually_drop.data) };",
                "unsafe { data.write(0, plus.c); }",
                "Self { data }",
            ]
        )
    );
    // The first variant adds a datum that may be left uninitialized.
    assert!(from_previous_record_unnamed_fields_impl(
        &specs[0],
        &specs[0],
        FromKind::FromUninit,
        IntoKind::IntoSimple
    )
    .is_some());
}

#[test]
fn safe_data_record_holds_markers() {
    let def = sample();
    let specs = record_specs(&def);
    let kind = UninitKind::Safe {
        unsafe_record_name: &specs[1].unpacked_uninit_record_name,
        safe_generic: specs[1].unpacked_uninit_safe_generic.as_ref(),
    };
    let plan = data_record_plan(&specs[1].unpacked_uninit_safe_record_name, &specs[1].data, &kind);
    assert_eq!(plan.generic.as_deref(), Some("T1: Copy"));
    assert_eq!(
        plan.fields,
        vec![
            ("pub b".to_owned(), "String".to_owned()),
            ("pub c".to_owned(), "std::marker::PhantomData<T1>".to_owned()),
        ]
    );
    let (generic, from) = plan.from_impl.unwrap();
    assert_eq!(generic, Some(("T1: Copy".to_owned(), "T1".to_owned())));
    assert_eq!(
        plan_parts(&from),
        (
            "UnpackedUninitSafeRecord1",
            "UnpackedUninitRecord1",
            "from",
            vec!["Self { b: from.b, c: std::marker::PhantomData }"]
        )
    );
    let unsafe_plan = data_record_plan("X", &specs[1].data, &UninitKind::Unsafe);
    assert_eq!(unsafe_plan.fields, vec![("pub b".to_owned(), "String".to_owned())]);
    assert!(unsafe_plan.from_impl.is_none());
}

#[test]
fn constructors_write_the_given_data() {
    let def = sample();
    let specs = record_specs(&def);
    let b_offset = def.get_datum_definition(DatumId(1)).unwrap().offset();
    let c_offset = def.get_datum_definition(DatumId(2)).unwrap().offset();

    let uninit = record_constructor(&specs[1], "UnpackedUninitRecord1", false);
    assert_eq!(uninit.name, "new_uninit");
    assert_eq!(
        uninit.args,
        vec![("from".to_owned(), "UnpackedUninitRecord1".to_owned())]
    );
    assert_eq!(
        uninit.lines,
        vec![
            "let from = UnpackedUninitSafeRecord1::<u8>::from(from);".to_owned(),
            "let mut data = RecordMaybeUninit::new();".to_owned(),
            format!("unsafe {{ data.write({}, from.b); }}", b_offset),
            "Self { data }".to_owned(),
        ]
    );

    let unnamed = record_unnamed_constructor(&specs[1], true);
    assert_eq!(unnamed.name, "new_unnamed");
    assert_eq!(
        unnamed.args,
        vec![
            ("b".to_owned(), "String".to_owned()),
            ("c".to_owned(), "u8".to_owned())
        ]
    );
    assert_eq!(
        unnamed.lines,
        vec![
            "let from = UnpackedRecord1 { b, c };".to_owned(),
            "let mut data = RecordMaybeUninit::new();".to_owned(),
            format!("unsafe {{ data.write({}, from.b); }}", b_offset),
            format!("unsafe {{ data.write({}, from.c); }}", c_offset),
            "Self { data }".to_owned(),
        ]
    );

    let from_tuple = from_unnamed_fields_impl(&specs[1], false).unwrap();
    assert_eq!(
        plan_parts(&from_tuple),
        (
            "CappedRecord1",
            "String",
            "b",
            vec!["Self::new_uninit_unnamed(b)"]
        )
    );
}

use truc::generator::access::{
    accessor_of, clone_lines_of, datum_lines_of, serialize_lines_of, unpacker_lines_of,
    visit_seq_lines_of, DatumLine,
};

#[test]
fn access_lines_follow_the_data() {
    let def = sample();
    let specs = record_specs(&def);
    let spec = &specs[1];
    let b_offset = def.get_datum_definition(DatumId(1)).unwrap().offset();

    assert_eq!(
        unpacker_lines_of(spec),
        vec![
            format!("let b: String = unsafe {{ self.data.read({}) }};", b_offset),
            "let c: u8 = unsafe { self.data.read(0) };".to_owned(),
            "std::mem::forget(self);".to_owned(),
            "UnpackedRecord1 { b, c }".to_owned(),
        ]
    );
    assert_eq!(
        datum_lines_of(DatumLine::Drop, &spec.data),
        vec![
            format!("let _b: String = unsafe {{ self.data.read({}) }};", b_offset),
            "let _c: u8 = unsafe { self.data.read(0) };".to_owned(),
        ]
    );
    assert_eq!(
        accessor_of(spec.data[1], true),
        (
            "&mut u8".to_owned(),
            "unsafe { self.data.get_mut::<u8>(0) }".to_owned()
        )
    );
    assert_eq!(
        clone_lines_of(spec),
        vec![
            "Self::from(UnpackedRecord1 {",
            "    b: self.b().clone(),",
            "    c: *self.c(),",
            "})"
        ]
    );
    assert_eq!(
        datum_lines_of(DatumLine::CloneFrom, &spec.data),
        vec![
            "self.b_mut().clone_from(source.b());",
            "*self.c_mut() = *source.c();"
        ]
    );
    assert_eq!(
        serialize_lines_of(spec),
        vec![
            "let mut tuple = serializer.serialize_tuple(2)?;",
            "tuple.serialize_element(self.b())?;",
            "tuple.serialize_element(self.c())?;",
            "tuple.end()"
        ]
    );
    let visit = visit_seq_lines_of(spec);
    assert_eq!(
        visit[1],
        "    if size != 2 { return Err(A::Error::invalid_length(size, &\"2\")); }"
    );
    assert_eq!(
        visit[3],
        "let b = seq.next_element::<String>()?.ok_or_else(|| A::Error::missing_field(\"b\"))?;"
    );
    assert_eq!(
        visit.last().unwrap(),
        "Ok(CappedRecord1::new(UnpackedRecord1 { b, c }))"
    );
}

use truc::generator::plan::{from_previous_data_records_plan, generation_plan};
use truc::record::definition::builder::native::NativeRecordDefinitionBuilder;

#[test]
fn should_generate_empty_data_records() {
    let type_resolver = HostTypeResolver;
    let mut builder = NativeRecordDefinitionBuilder::new(&type_resolver);
    builder.close_record_variant();
    let definition = builder.build();
    let plan = generation_plan(&definition);
    assert_eq!(plan.records.len(), 1);
    assert!(plan.type_size_assertions.is_empty());
}

#[test]
fn should_generate_data_records_with_data() {
    let type_resolver = HostTypeResolver;
    let mut builder = NativeRecordDefinitionBuilder::new(&type_resolver);
    builder.add_datum_allow_uninit("integer", info::<u32>("u32")).unwrap();
    builder.add_datum("not_copy_integer", info::<u32>("u32")).unwrap();
    builder.close_record_variant();
    let definition = builder.build();
    let plan = generation_plan(&definition);
    assert_eq!(
        plan.type_size_assertions,
        vec![("u32".to_owned(), std::mem::size_of::<u32>())]
    );
    assert_eq!(plan.max_size, definition.max_size());
}

#[test]
fn should_generate_next_data_records_with_data() {
    let type_resolver = HostTypeResolver;
    let mut builder = NativeRecordDefinitionBuilder::new(&type_resolver);
    let i0 = builder.add_datum_allow_uninit("integer0", info::<u32>("u32")).unwrap();
    let nci0 = builder.add_datum("not_copy_integer0", info::<u32>("u32")).unwrap();
    builder.add_datum_allow_uninit("boolean1", info::<bool>("bool")).unwrap();
    builder.close_record_variant();
    builder.remove_datum(i0).unwrap();
    builder.remove_datum(nci0).unwrap();
    builder.add_datum_allow_uninit("integer1", info::<u32>("u32")).unwrap();
    builder.add_datum("not_copy_integer1", info::<u32>("u32")).unwrap();
    builder.close_record_variant();
    let definition = builder.build();

    let plan = generation_plan(&definition);
    assert_eq!(
        plan.type_size_assertions,
        vec![
            ("bool".to_owned(), std::mem::size_of::<bool>()),
            ("u32".to_owned(), std::mem::size_of::<u32>())
        ]
    );

    let records = from_previous_data_records_plan(&plan.records[1], &plan.records[0]);
    let texts = |fields: &Vec<(String, String)>| {
        fields
            .iter()
            .map(|(n, t)| format!("{}: {}", n, t))
            .collect::<Vec<String>>()
    };

    let unpacked = &records.data_records[0];
    assert_eq!(unpacked.name, "UnpackedRecordIn1");
    assert!(unpacked.public);
    assert_eq!(unpacked.doc, "Data container for conversion from [`Record0`].");
    assert_eq!(unpacked.plan.generic, None);
    assert_eq!(
        texts(&unpacked.plan.fields),
        vec!["pub integer1: u32", "pub not_copy_integer1: u32"]
    );

    let uninit = &records.data_records[1];
    assert_eq!(uninit.name, "UnpackedUninitRecordIn1");
    assert_eq!(
        uninit.doc,
        "Data container for conversion from [`Record0`] without the data to be left uninitialized."
    );
    assert_eq!(texts(&uninit.plan.fields), vec!["pub not_copy_integer1: u32"]);

    let safe = &records.data_records[2];
    assert_eq!(safe.name, "UnpackedUninitSafeRecordIn1");
    assert!(!safe.public);
    assert_eq!(
        safe.doc,
        "It only exists to check that the uninitialized data is actually [`Copy`] at run time."
    );
    assert_eq!(safe.plan.generic.as_deref(), Some("T0: Copy"));
    assert_eq!(
        texts(&safe.plan.fields),
        vec![
            "pub integer1: std::marker::PhantomData<T0>",
            "pub not_copy_integer1: u32"
        ]
    );
    let (generic, from) = safe.plan.from_impl.as_ref().unwrap();
    assert_eq!(
        generic.as_ref().map(|(f, s)| (f.as_str(), s.as_str())),
        Some(("T0: Copy", "T0"))
    );
    assert_eq!(from.target, "UnpackedUninitSafeRecordIn1");
    assert_eq!(from.from_type, "UnpackedUninitRecordIn1");
    assert_eq!(from.arg, "from");
    assert_eq!(
        from.lines,
        vec!["Self { integer1: std::marker::PhantomData, not_copy_integer1: from.not_copy_integer1 }"]
    );

    assert_eq!(records.out_name, "Record1AndUnpackedOut");
    assert_eq!(
        records.out_doc,
        "Result of conversion from record variant #0 to variant #1 via a [`From::from`] call.\n\nIt contains all the removed data so that one can still use them, or drop them."
    );
    assert_eq!(
        texts(&records.out_fields),
        vec![
            "pub record: CappedRecord1<CAP>",
            "pub integer0: u32",
            "pub not_copy_integer0: u32"
        ]
    );
}

#[test]
fn default_close_places_data_in_the_first_strict_room() {
    let type_resolver = HostTypeResolver;
    let mut definition = RecordDefinitionBuilder::new(&type_resolver);
    let cp = definition.copy_datum(&DatumDefinition {
        id: DatumId(0),
        name: "copy".to_owned(),
        details: NativeDatumDetails {
            offset: 1,
            type_info: TypeInfo { name: "foo".to_owned(), size: 3, align: 5 },
            allow_uninit: true,
        },
    });
    let nc = definition.copy_datum(&DatumDefinition {
        id: DatumId(0),
        name: "not_copy".to_owned(),
        details: NativeDatumDetails {
            offset: 7,
            type_info: TypeInfo { name: "foo".to_owned(), size: 11, align: 13 },
            allow_uninit: false,
        },
    });
    definition.close_record_variant();
    let def = definition.build();
    assert_eq!(def.get_datum_definition(cp).unwrap().details.offset, 0);
    assert_eq!(def.get_datum_definition(nc).unwrap().details.offset, 13);
}

#[test]
fn native_close_places_the_larger_datum_first() {
    let type_resolver = HostTypeResolver;
    let mut definition = NativeRecordDefinitionBuilder::new(&type_resolver);
    let cp = definition
        .copy_datum(&DatumDefinition {
            id: DatumId(0),
            name: "copy".to_owned(),
            details: NativeDatumDetails {
                offset: 1,
                type_info: TypeInfo { name: "foo".to_owned(), size: 3, align: 5 },
                allow_uninit: true,
            },
        })
        .unwrap();
    let nc = definition
        .copy_datum(&DatumDefinition {
            id: DatumId(0),
            name: "not_copy".to_owned(),
            details: NativeDatumDetails {
                offset: 7,
                type_info: TypeInfo { name: "foo".to_owned(), size: 11, align: 13 },
                allow_uninit: false,
            },
        })
        .unwrap();
    definition.close_record_variant();
    let def = definition.build();
    assert_eq!(def.get_datum_definition(cp).unwrap().details.offset, 15);
    assert_eq!(def.get_datum_definition(nc).unwrap().details.offset, 0);
}
