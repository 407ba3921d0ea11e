use truc::generator::constructor::{from_unnamed_fields_impl, record_unnamed_constructor};
use truc::generator::data_record::{data_record_plan, DataRecordPlan, UninitKind};
use truc::generator::from_previous::{
    from_previous_record_unnamed_fields_impl, FromImplPlan, FromKind, IntoKind,
};
use truc::generator::{record_specs, RecordSpec};
use truc::record::definition::builder::native::NativeRecordDefinitionBuilder;
use truc::record::definition::builder::RecordDefinitionBuilder;
use truc::record::definition::{NativeDatumDetails, RecordDefinition};
use truc::record::type_resolver::{HostTypeResolver, TypeInfo};

fn info<T>(name: &str) -> TypeInfo {
    TypeInfo {
        name: name.to_owned(),
        size: std::mem::size_of::<T>(),
        align: std::mem::align_of::<T>(),
    }
}

fn fields(plan: &DataRecordPlan) -> Vec<String> {
    plan.fields
        .iter()
        .map(|(n, t)| format!("{}: {}", n, t))
        .collect()
}

fn parts(plan: &FromImplPlan) -> (&str, &str, &str, Vec<&str>) {
    (
        &plan.target,
        &plan.from_type,
        &plan.arg,
        plan.lines.iter().map(|l| l.as_str()).collect(),
    )
}

/// The three data records of a variant: all the data, the data that cannot be left
/// uninitialized, and the markers of the data that can.
fn data_records(spec: &RecordSpec) -> [DataRecordPlan; 3] {
    let safe = UninitKind::Safe {
        unsafe_record_name: &spec.unpacked_uninit_record_name,
        safe_generic: spec.unpacked_uninit_safe_generic.as_ref(),
    };
    [
        data_record_plan(&spec.unpacked_record_name, &spec.data, &UninitKind::False),
        data_record_plan(&spec.unpacked_uninit_record_name, &spec.data, &UninitKind::Unsafe),
        data_record_plan(&spec.unpacked_uninit_safe_record_name, &spec.data, &safe),
    ]
}

fn one_variant_v2() -> RecordDefinition<NativeDatumDetails> {
    let type_resolver = HostTypeResolver;
    let mut builder = RecordDefinitionBuilder::new(&type_resolver);
    builder.add_datum_allow_uninit("integer", info::<u32>("u32"));
    builder.add_datum("not_copy_integer", info::<u32>("u32"));
    builder.close_record_variant();
    builder.build()
}

fn two_variants_v2() -> RecordDefinition<NativeDatumDetails> {
    let type_resolver = HostTypeResolver;
    let mut builder = RecordDefinitionBuilder::new(&type_resolver);
    let i0 = builder.add_datum_allow_uninit("integer0", info::<u32>("u32"));
    let nci0 = builder.add_datum("not_copy_integer0", info::<u32>("u32"));
    builder.add_datum_allow_uninit("boolean1", info::<bool>("bool"));
    builder.close_record_variant();
    builder.remove_datum(i0);
    builder.remove_datum(nci0);
    builder.add_datum_allow_uninit("integer1", info::<u32>("u32"));
    builder.add_datum("not_copy_integer1", info::<u32>("u32"));
    builder.close_record_variant();
    builder.build()
}

#[test]
fn should_generate_empty_data_record() {
    let type_resolver = HostTypeResolver;
    let mut builder = RecordDefinitionBuilder::new(&type_resolver);
    builder.close_record_variant();
    let definition = builder.build();
    let specs = record_specs(&definition);
    let [unpacked, uninit, safe] = data_records(&specs[0]);
    assert_eq!(specs[0].unpacked_record_name, "UnpackedRecord0");
    assert!(unpacked.fields.is_empty());
    assert!(uninit.fields.is_empty());
    assert!(safe.fields.is_empty());
    assert_eq!(safe.generic, None);
    let (generic, from) = safe.from_impl.unwrap();
    assert_eq!(generic, None);
    assert_eq!(
        parts(&from),
        ("UnpackedUninitSafeRecord0", "UnpackedUninitRecord0", "_from", vec!["Self {  }"])
    );
}

#[test]
fn should_generate_data_record_with_data() {
    let definition = one_variant_v2();
    let specs = record_specs(&definition);
    let [unpacked, uninit, safe] = data_records(&specs[0]);
    assert_eq!(specs[0].unpacked_record_name, "UnpackedRecord0");
    assert_eq!(unpacked.generic, None);
    assert_eq!(
        fields(&unpacked),
        vec!["pub integer: u32", "pub not_copy_integer: u32"]
    );
    assert!(unpacked.from_impl.is_none());
    assert_eq!(specs[0].unpacked_uninit_record_name, "UnpackedUninitRecord0");
    assert_eq!(fields(&uninit), vec!["pub not_copy_integer: u32"]);
    assert!(uninit.from_impl.is_none());
    assert_eq!(specs[0].unpacked_uninit_safe_record_name, "UnpackedUninitSafeRecord0");
    assert_eq!(safe.generic.as_deref(), Some("T0: Copy"));
    assert_eq!(
        fields(&safe),
        vec![
            "pub integer: std::marker::PhantomData<T0>",
            "pub not_copy_integer: u32"
        ]
    );
    let (generic, from) = safe.from_impl.unwrap();
    assert_eq!(generic, Some(("T0: Copy".to_owned(), "T0".to_owned())));
    assert_eq!(
        parts(&from),
        (
            "UnpackedUninitSafeRecord0",
            "UnpackedUninitRecord0",
            "from",
            vec!["Self { integer: std::marker::PhantomData, not_copy_integer: from.not_copy_integer }"]
        )
    );
}

#[test]
fn should_generate_next_data_record_with_data() {
    let definition = two_variants_v2();
    let specs = record_specs(&definition);
    let [unpacked, uninit, safe] = data_records(&specs[1]);
    assert_eq!(specs[1].unpacked_record_name, "UnpackedRecord1");
    assert_eq!(
        fields(&unpacked),
        vec![
            "pub boolean1: bool",
            "pub integer1: u32",
            "pub not_copy_integer1: u32"
        ]
    );
    assert_eq!(fields(&uninit), vec!["pub not_copy_integer1: u32"]);
    assert_eq!(safe.generic.as_deref(), Some("T0: Copy, T1: Copy"));
    assert_eq!(
        fields(&safe),
        vec![
            "pub boolean1: std::marker::PhantomData<T0>",
            "pub integer1: std::marker::PhantomData<T1>",
            "pub not_copy_integer1: u32"
        ]
    );
    let (generic, from) = safe.from_impl.unwrap();
    assert_eq!(
        generic,
        Some(("T0: Copy, T1: Copy".to_owned(), "T0, T1".to_owned()))
    );
    assert_eq!(
        parts(&from),
        (
            "UnpackedUninitSafeRecord1",
            "UnpackedUninitRecord1",
            "from",
            vec!["Self { boolean1: std::marker::PhantomData, integer1: std::marker::PhantomData, not_copy_integer1: from.not_copy_integer1 }"]
        )
    );
}

fn one_variant_native() -> RecordDefinition<NativeDatumDetails> {
    let type_resolver = HostTypeResolver;
    let mut builder = NativeRecordDefinitionBuilder::new(&type_resolver);
    builder.add_datum_allow_uninit("integer", info::<u32>("u32")).unwrap();
    builder.add_datum("not_copy_integer", info::<u32>("u32")).unwrap();
    builder.close_record_variant();
    builder.build()
}

#[test]
fn from_unnamed_fields_impls_should_generate_empty_impls() {
    let type_resolver = HostTypeResolver;
    let mut builder = NativeRecordDefinitionBuilder::new(&type_resolver);
    builder.close_record_variant();
    let definition = builder.build();
    let specs = record_specs(&definition);
    let full = from_unnamed_fields_impl(&specs[0], true).unwrap();
    assert_eq!(parts(&full), ("CappedRecord0", "()", "()", vec!["Self::new_unnamed()"]));
    assert!(from_unnamed_fields_impl(&specs[0], false).is_none());
}

#[test]
fn from_unnamed_fields_impls_should_generate_impls_with_data() {
    let definition = one_variant_native();
    let specs = record_specs(&definition);
    let full = from_unnamed_fields_impl(&specs[0], true).unwrap();
    assert_eq!(
        parts(&full),
        (
            "CappedRecord0",
            "(u32, u32)",
            "(integer, not_copy_integer)",
            vec!["Self::new_unnamed(integer, not_copy_integer)"]
        )
    );
    let uninit = from_unnamed_fields_impl(&specs[0], false).unwrap();
    assert_eq!(
        parts(&uninit),
        (
            "CappedRecord0",
            "u32",
            "not_copy_integer",
            vec!["Self::new_uninit_unnamed(not_copy_integer)"]
        )
    );
}

#[test]
fn record_unnamed_impl_should_generate_record_impl_with_data() {
    let definition = one_variant_native();
    let specs = record_specs(&definition);
    let full = record_unnamed_constructor(&specs[0], true);
    assert_eq!(full.name, "new_unnamed");
    assert_eq!(
        full.args,
        vec![
            ("integer".to_owned(), "u32".to_owned()),
            ("not_copy_integer".to_owned(), "u32".to_owned())
        ]
    );
    assert_eq!(full.lines[0], "let from = UnpackedRecord0 { integer, not_copy_integer };");
    let uninit = record_unnamed_constructor(&specs[0], false);
    assert_eq!(uninit.name, "new_uninit_unnamed");
    assert_eq!(
        uninit.args,
        vec![("not_copy_integer".to_owned(), "u32".to_owned())]
    );
    assert_eq!(
        uninit.lines[0],
        "let from = UnpackedUninitSafeRecord0::<u32>::from(UnpackedUninitRecord0 { not_copy_integer });"
    );
}

#[test]
fn from_previous_record_unnamed_fields_impls_should_generate_next_impls_with_data() {
    let type_resolver = HostTypeResolver;
    let mut builder = NativeRecordDefinitionBuilder::new(&type_resolver);
    let i0 = builder.add_datum_allow_uninit("integer0", info::<u32>("u32")).unwrap();
    let nci0 = builder.add_datum("not_copy_integer0", info::<u32>("u32")).unwrap();
    builder.add_datum_allow_uninit("boolean1", info::<bool>("bool")).unwrap();
    builder.close_record_variant();
    builder.remove_datum(i0).unwrap();
    builder.remove_datum(nci0).unwrap();
    builder.add_datum_allow_uninit("integer1", info::<u32>("u32")).unwrap();
    builder.add_datum("not_copy_integer1", info::<u32>("u32")).unwrap();
    builder.close_record_variant();
    let definition = builder.build();
    let specs = record_specs(&definition);

    let full = from_previous_record_unnamed_fields_impl(
        &specs[1],
        &specs[0],
        FromKind::FromFull,
        IntoKind::IntoSimple,
    )
    .unwrap();
    assert_eq!(
        parts(&full),
        (
            "CappedRecord1",
            "(CappedRecord0<CAP>, (u32, u32))",
            "(from, (integer1, not_copy_integer1))",
            vec![
                "let _integer0: u32 = unsafe { from.data.read(0) };",
                "let _not_copy_integer0: u32 = unsafe { from.data.read(4) };",
                "let plus = UnpackedRecordIn1 { integer1, not_copy_integer1 };",
                "let manually_drop = std::mem::ManuallyDrop::new(from);",
                "let mut data = unsafe { std::ptr::read(&manually_drop.data) };",
                "unsafe { data.write(0, plus.integer1); }",
                "unsafe { data.write(4, plus.not_copy_integer1); }",
                "Self { data }",
            ]
        )
    );

    let uninit = from_previous_record_unnamed_fields_impl(
        &specs[1],
        &specs[0],
        FromKind::FromUninit,
        IntoKind::IntoSimple,
    )
    .unwrap();
    assert_eq!(
        parts(&uninit),
        (
            "CappedRecord1",
            "(CappedRecord0<CAP>, u32)",
            "(from, not_copy_integer1)",
            vec![
                "let _integer0: u32 = unsafe { from.data.read(0) };",
                "let _not_copy_integer0: u32 = unsafe { from.data.read(4) };",
                "let plus = UnpackedUninitSafeRecordIn1::<u32>::from(UnpackedUninitRecordIn1 { not_copy_integer1 });",
                "let manually_drop = std::mem::ManuallyDrop::new(from);",
                "let mut data = unsafe { std::ptr::read(&manually_drop.data) };",
                "unsafe { data.write(4, plus.not_copy_integer1); }",
                "Self { data }",
            ]
        )
    );

    let full_out = from_previous_record_unnamed_fields_impl(
        &specs[1],
        &specs[0],
        FromKind::FromFull,
        IntoKind::IntoAndOut,
    )
    .unwrap();
    assert_eq!(
        parts(&full_out),
        (
            "Record1AndUnpackedOut",
            "(CappedRecord0<CAP>, (u32, u32))",
            "(from, (integer1, not_copy_integer1))",
            vec![
                "let integer0: u32 = unsafe { from.data.read(0) };",
                "let not_copy_integer0: u32 = unsafe { from.data.read(4) };",
                "let plus = UnpackedRecordIn1 { integer1, not_copy_integer1 };",
                "let manually_drop = std::mem::ManuallyDrop::new(from);",
                "let mut data = unsafe { std::ptr::read(&manually_drop.data) };",
                "unsafe { data.write(0, plus.integer1); }",
                "unsafe { data.write(4, plus.not_copy_integer1); }",
                "let record = CappedRecord1 { data };",
                "Record1AndUnpackedOut { record, integer0, not_copy_integer0 }",
            ]
        )
    );

    let uninit_out = from_previous_record_unnamed_fields_impl(
        &specs[1],
        &specs[0],
        FromKind::FromUninit,
        IntoKind::IntoAndOut,
    )
    .unwrap();
    assert_eq!(
        parts(&uninit_out),
        (
            "Record1AndUnpackedOut",
            "(CappedRecord0<CAP>, u32)",
            "(from, not_copy_integer1)",
            vec![
                "let integer0: u32 = unsafe { from.data.read(0) };",
                "let not_copy_integer0: u32 = unsafe { from.data.read(4) };",
                "let plus = UnpackedUninitSafeRecordIn1::<u32>::from(UnpackedUninitRecordIn1 { not_copy_integer1 });",
                "let manually_drop = std::mem::ManuallyDrop::new(from);",
                "let mut data = unsafe { std::ptr::read(&manually_drop.data) };",
                "unsafe { data.write(4, plus.not_copy_integer1); }",
                "let record = CappedRecord1 { data };",
                "Record1AndUnpackedOut { record, integer0, not_copy_integer0 }",
            ]
        )
    );
}
