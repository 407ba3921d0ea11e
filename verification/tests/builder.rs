use truc::record::definition::builder::generic::GenericRecordDefinitionBuilder;
use truc::record::definition::builder::native::variant::{AppendData, AppendDataReverse, Basic, Simple};
use truc::record::definition::builder::native::NativeRecordDefinitionBuilder;
use truc::record::definition::builder::{DatumDefinitionOverride, RecordDefinitionBuilder};
use truc::record::definition::{
    valid_datum_ids, DatumDefinition, DatumDefinitionCollection, DatumId, NativeDatumDetails,
    RecordVariantId,
};
use truc::record::type_resolver::{HostTypeResolver, TypeInfo};

fn info<T>(name: &str) -> TypeInfo {
    TypeInfo {
        name: name.to_owned(),
        size: std::mem::size_of::<T>(),
        align: std::mem::align_of::<T>(),
    }
}

#[test]
fn it_works() {
    let type_resolver = HostTypeResolver;

    let mut definition = RecordDefinitionBuilder::new(&type_resolver);

    let a = definition.add_datum("a", info::<u32>("u32"));
    let b = definition.add_datum("b", info::<u32>("u32"));
    let rv1 = definition.close_record_variant();

    let c = definition.add_datum("c", info::<u32>("u32"));
    let rv2 = definition.close_record_variant();

    definition.remove_datum(a);
    let rv3 = definition.close_record_variant();

    let d = definition.add_datum("d", info::<u8>("u8"));
    let e = definition.add_datum("e", info::<u16>("u16"));
    let f = definition.add_datum("f", info::<u32>("u32"));
    let rv4 = definition.close_record_variant();

    let definition = definition.build();
    let def = definition.to_string();
    assert_eq!(
        def,
        format!(
            "{} [{}: a (u32, align 4, offset 0, size 4), {}: b (u32, align 4, offset 4, size 4)]\n\
             {} [{}: a (u32, align 4, offset 0, size 4), {}: b (u32, align 4, offset 4, size 4), \
             {}: c (u32, align 4, offset 8, size 4)]\n\
             {} [(void, 4), {}: b (u32, align 4, offset 4, size 4), \
             {}: c (u32, align 4, offset 8, size 4)]\n\
             {} [{}: d (u8, align 1, offset 0, size 1), (void, 3), \
             {}: b (u32, align 4, offset 4, size 4), {}: c (u32, align 4, offset 8, size 4), \
             {}: e (u16, align 2, offset 12, size 2), (void, 2), \
             {}: f (u32, align 4, offset 16, size 4)]\n",
            rv1.0, a.0, b.0, rv2.0, a.0, b.0, c.0, rv3.0, b.0, c.0, rv4.0, d.0, b.0, c.0, e.0, f.0,
        )
    );
}

#[test]
fn mod_should_index_data_and_variants() {
    let type_resolver = HostTypeResolver;
    let mut definition = RecordDefinitionBuilder::new(&type_resolver);
    let uint_32_id = definition.add_datum_allow_uninit("uint_32", info::<u32>("u32"));
    definition.add_datum("uint_16", info::<u16>("u16"));
    definition.close_record_variant();
    definition.remove_datum(uint_32_id);

    for datum in definition.datum_definitions() {
        assert_eq!(definition.get_datum_definition(datum.id).unwrap().id, datum.id);
    }

    for variant in definition.variants() {
        assert_eq!(definition.get_variant(variant.id).unwrap().id, variant.id);
    }

    let def = definition.build();

    for datum in def.datum_definitions() {
        assert_eq!(def.get_datum_definition(datum.id).unwrap().id, datum.id);
    }

    for variant in def.variants() {
        assert_eq!(def.get_variant(variant.id).unwrap().id, variant.id);
    }
}

#[test]
fn mod_should_copy_data() {
    let type_resolver = HostTypeResolver;
    let mut definition = RecordDefinitionBuilder::new(&type_resolver);
    let copy_id = definition.copy_datum(&DatumDefinition {
        id: DatumId(0),
        name: "copy".to_owned(),
        details: NativeDatumDetails {
            offset: 1,
            type_info: TypeInfo {
                name: "foo".to_owned(),
                size: 3,
                align: 5,
            },
            allow_uninit: true,
        },
    });
    let not_copy_id = definition.copy_datum(&DatumDefinition {
        id: DatumId(0),
        name: "not_copy".to_owned(),
        details: NativeDatumDetails {
            offset: 7,
            type_info: TypeInfo {
                name: "foo".to_owned(),
                size: 11,
                align: 13,
            },
            allow_uninit: false,
        },
    });
    definition.close_record_variant();

    assert_eq!(
        &DatumDefinition {
            // ID is recomputed
            id: DatumId(0),
            name: "copy".to_owned(),
            details: NativeDatumDetails {
                // Offset is recomputed
                offset: 0,
                type_info: TypeInfo {
                    name: "foo".to_owned(),
                    size: 3,
                    align: 5,
                },
                allow_uninit: true,
            },
        },
        definition.get_datum_definition(copy_id).unwrap()
    );

    assert_eq!(
        &DatumDefinition {
            // ID is recomputed
            id: DatumId(1),
            name: "not_copy".to_owned(),
            details: NativeDatumDetails {
                // Offset is recomputed
                offset: 13,
                type_info: TypeInfo {
                    name: "foo".to_owned(),
                    size: 11,
                    align: 13,
                },
                allow_uninit: false,
            },
        },
        definition.get_datum_definition(not_copy_id).unwrap()
    );
}

#[test]
fn mod_should_remove_datum_added_in_first_variant() {
    let type_resolver = HostTypeResolver;
    let mut definition = RecordDefinitionBuilder::new(&type_resolver);
    let uint_32_id = definition.add_datum_allow_uninit("uint_32", info::<u32>("u32"));
    definition.remove_datum(uint_32_id);
    definition.close_record_variant();
    let def = definition.build();
    assert!(def.variants().first().is_some());
    assert_eq!(0, def.variants().first().unwrap().data_len());
}

#[test]
fn mod_should_remove_datum_added_in_second_variant() {
    let type_resolver = HostTypeResolver;
    let mut definition = RecordDefinitionBuilder::new(&type_resolver);
    definition.close_record_variant();
    let uint_32_id = definition.add_datum_allow_uninit("uint_32", info::<u32>("u32"));
    definition.remove_datum(uint_32_id);
    definition.close_record_variant();
    let def = definition.build();
    assert!(def.variants().first().is_some());
    assert_eq!(0, def.variants().first().unwrap().data_len());
}

#[test]
fn should_display_definition() {
    let type_resolver = HostTypeResolver;
    let mut definition = NativeRecordDefinitionBuilder::new(&type_resolver);
    let uint_32_id = definition.add_datum("uint_32", info::<u32>("u32")).unwrap();
    definition.add_datum("uint_16", info::<u16>("u16")).unwrap();
    definition.close_record_variant();
    definition.remove_datum(uint_32_id).unwrap();
    definition.close_record_variant();
    let def = definition.build();
    assert_eq!(
        def.to_string(),
        "0 [0: uint_32 (u32, align 4, offset 0, size 4), 1: uint_16 (u16, align 2, offset 4, size 2)]\n\
         1 [(void, 4), 1: uint_16 (u16, align 2, offset 4, size 2)]\n"
        .to_string()
    );
    assert_eq!(def.variants[0].to_string(), "0 [0, 1]");
    assert_eq!(def.variants[1].to_string(), "1 [1]");
}

#[test]
fn build_closes_the_pending_variant() {
    let type_resolver = HostTypeResolver;
    let mut definition = RecordDefinitionBuilder::new(&type_resolver);
    definition.add_datum("a", info::<u64>("u64"));
    definition.close_record_variant();
    definition.add_datum("b", info::<u8>("u8"));
    let def = definition.build();
    assert_eq!(def.variants().len(), 2);
    assert_eq!(def.variants()[1].data(), &[DatumId(0), DatumId(1)]);
    assert_eq!(def.get_datum_definition(DatumId(1)).unwrap().offset(), 8);
    assert_eq!(def.max_size(), 9);
    assert_eq!(def.max_type_align(), 8);
}

#[test]
fn closing_without_changes_gives_the_last_variant() {
    let type_resolver = HostTypeResolver;
    let mut definition = RecordDefinitionBuilder::new(&type_resolver);
    definition.add_datum("a", info::<u32>("u32"));
    let first = definition.close_record_variant();
    let second = definition.close_record_variant();
    assert_eq!(first, RecordVariantId(0));
    assert_eq!(second, RecordVariantId(0));
    assert_eq!(definition.variants().len(), 1);
}

#[test]
fn override_replaces_the_type_information() {
    let type_resolver = HostTypeResolver;
    let mut definition = RecordDefinitionBuilder::new(&type_resolver);
    let id = definition.add_datum_override(
        "my_vec",
        info::<Vec<()>>("Vec < () >"),
        DatumDefinitionOverride {
            type_name_override: Some("Vec<MyStruct>".to_owned()),
            size: None,
            align: Some(16),
            allow_uninit: Some(true),
        },
    );
    let datum = definition.get_datum_definition(id).unwrap();
    assert_eq!(datum.details.name_of_type(), "Vec<MyStruct>");
    assert_eq!(datum.details.size(), std::mem::size_of::<Vec<()>>());
    assert_eq!(datum.details.type_align(), 16);
    assert!(datum.details.allow_uninit());
    assert_eq!(datum.details.offset(), usize::MAX);
}

#[test]
fn native_builder_refuses_a_name_taken_in_the_current_variant() {
    let type_resolver = HostTypeResolver;
    let mut definition = NativeRecordDefinitionBuilder::new(&type_resolver);
    definition.add_datum("a", info::<u32>("u32")).unwrap();
    assert_eq!(
        definition.add_datum("a", info::<u8>("u8")),
        Err("Field with name a already exists in current variant".to_owned())
    );
    assert_eq!(definition.datum_definitions().len(), 1);
}

#[test]
fn native_builder_reports_removal_errors() {
    let type_resolver = HostTypeResolver;
    let mut definition = NativeRecordDefinitionBuilder::new(&type_resolver);
    assert_eq!(
        definition.remove_datum(DatumId(7)),
        Err("Could not find datum to remove in variant being built, id = 7".to_owned())
    );
    let a = definition.add_datum("a", info::<u32>("u32")).unwrap();
    definition.close_record_variant();
    definition.remove_datum(a).unwrap();
    assert_eq!(
        definition.remove_datum(a),
        Err("Datum with id = 0 is already removed".to_owned())
    );
    assert_eq!(
        definition.remove_datum(DatumId(12)),
        Err("Could not find datum to remove in previous variant, id = 12".to_owned())
    );
}

#[test]
fn current_data_follows_additions_and_removals() {
    let type_resolver = HostTypeResolver;
    let mut definition = NativeRecordDefinitionBuilder::new(&type_resolver);
    let a = definition.add_datum("a", info::<u32>("u32")).unwrap();
    let b = definition.add_datum("b", info::<u32>("u32")).unwrap();
    definition.close_record_variant();
    definition.remove_datum(a).unwrap();
    let c = definition.add_datum("c", info::<u8>("u8")).unwrap();
    assert_eq!(definition.get_current_data(), vec![b, c]);
    assert_eq!(definition.get_current_datum_definition_by_name("c").unwrap().id, c);
    assert!(definition.get_current_datum_definition_by_name("a").is_none());
    let v0 = RecordVariantId(0);
    assert_eq!(definition.get_variant_datum_definition_by_name(v0, "a").unwrap().id, a);
    assert!(definition.get_variant_datum_definition_by_name(v0, "c").is_none());
    assert!(definition.get_variant_datum_definition_by_name(RecordVariantId(1), "a").is_none());
}

#[test]
fn generic_builder_keeps_details() {
    let mut definition = GenericRecordDefinitionBuilder::<u8>::new();
    let a = definition.add_datum("a", 42).unwrap();
    let v = definition.close_record_variant_with(
        truc::record::definition::builder::generic::variant::AppendData,
    );
    assert_eq!(v, RecordVariantId(0));
    let def = definition.build();
    assert_eq!(def.get_datum_definition(a).unwrap().details, 42);
    assert_eq!(def.variants()[0].data(), &[a]);
}

#[test]
fn removed_datum_never_comes_back() {
    let type_resolver = HostTypeResolver;
    let mut definition = RecordDefinitionBuilder::new(&type_resolver);
    let a = definition.add_datum("a", info::<u32>("u32"));
    definition.close_record_variant();
    definition.remove_datum(a);
    definition.add_datum("a", info::<u32>("u32"));
    definition.close_record_variant();
    definition.add_datum("b", info::<u8>("u8"));
    definition.close_record_variant();
    let def = definition.build();
    assert!(def.variants()[0].data().contains(&a));
    assert!(!def.variants()[1].data().contains(&a));
    assert!(!def.variants()[2].data().contains(&a));
}

#[test]
fn closed_variant_holds_the_current_data() {
    let type_resolver = HostTypeResolver;
    let mut definition = NativeRecordDefinitionBuilder::new(&type_resolver);
    let a = definition.add_datum("a", info::<u64>("u64")).unwrap();
    definition.add_datum("b", info::<u8>("u8")).unwrap();
    definition.close_record_variant();
    definition.remove_datum(a).unwrap();
    definition.add_datum("c", info::<u16>("u16")).unwrap();
    let mut current = definition.get_current_data();
    let v = definition.close_record_variant();
    let mut closed = definition.get_variant(v).unwrap().data().to_vec();
    current.sort();
    closed.sort();
    assert_eq!(current, closed);
    assert_eq!(definition.get_current_data().len(), 2);
}

#[test]
fn variant_data_are_aligned_and_fit_in_max_size() {
    let type_resolver = HostTypeResolver;
    let mut definition = NativeRecordDefinitionBuilder::new(&type_resolver);
    let a = definition.add_datum("a", info::<u8>("u8")).unwrap();
    definition.add_datum("b", info::<u64>("u64")).unwrap();
    definition.add_datum("c", info::<u16>("u16")).unwrap();
    definition.close_record_variant();
    definition.remove_datum(a).unwrap();
    definition.add_datum("d", info::<u32>("u32")).unwrap();
    definition.add_datum("e", info::<[u8; 3]>("[u8 ; 3]")).unwrap();
    definition.close_record_variant();
    let def = definition.build();
    let max_size = def.max_size();
    for variant in def.variants() {
        let mut end = 0;
        for &id in variant.data() {
            let datum = def.get_datum_definition(id).unwrap();
            assert_eq!(datum.offset() % datum.details.type_align(), 0);
            assert!(datum.offset() + datum.size() <= max_size);
            if datum.size() > 0 {
                assert!(end <= datum.offset());
                end = datum.offset() + datum.size();
            }
        }
    }
}

/// A small deterministic generator standing for a random one.
struct XorShift(u64);

impl XorShift {
    fn next(&mut self) -> u64 {
        let mut x = self.0;
        x ^= x << 13;
        x ^= x >> 7;
        x ^= x << 17;
        self.0 = x;
        x
    }

    /// A number in `0..n`.
    fn below(&mut self, n: usize) -> usize {
        (self.next() % n as u64) as usize
    }
}

fn random_info(rng: &mut XorShift) -> TypeInfo {
    match rng.below(4) {
        0 => info::<u8>("u8"),
        1 => info::<u16>("u16"),
        2 => info::<u32>("u32"),
        3 => info::<u64>("u64"),
        i => unreachable!("Unhandled value {}", i),
    }
}

fn add_one(
    definition: &mut RecordDefinitionBuilder<&HostTypeResolver>,
    rng: &mut XorShift,
    i: usize,
) -> DatumId {
    let type_info = random_info(rng);
    definition.add_datum_allow_uninit(&format!("field_{}", i), type_info)
}

fn add_one_native(
    definition: &mut NativeRecordDefinitionBuilder<&HostTypeResolver>,
    rng: &mut XorShift,
    i: usize,
) -> Result<DatumId, String> {
    let type_info = random_info(rng);
    definition.add_datum(&format!("field_{}", i), type_info)
}

fn check_layout(def: &truc::record::definition::RecordDefinition<NativeDatumDetails>) {
    let max_size = def.max_size();
    for datum in def.datum_definitions() {
        assert!(datum.details.offset + datum.details.size() <= max_size);
        assert_eq!(
            datum.details.offset() % datum.details.type_align(),
            0,
            "def {} is unaligned at field {}",
            def.to_string(),
            datum.name()
        );
    }
    for v in def.variants() {
        for w in v.data().windows(2) {
            let datum1 = def.get_datum_definition(w[0]).unwrap();
            let datum2 = def.get_datum_definition(w[1]).unwrap();
            assert!(datum1.details.offset + datum1.details.size() <= datum2.details.offset);
        }
    }
}

#[test]
fn should_align_offsets_according_to_rust_alignment_rules() {
    let mut rng = XorShift(0x9e37_79b9_7f4a_7c15);
    println!("Seed: {:#04x?}", rng.0);

    let type_resolver = HostTypeResolver;

    const MAX_DATA: usize = 32;
    for _ in 0..256 {
        let mut definition = RecordDefinitionBuilder::new(&type_resolver);
        let num_data = rng.below(MAX_DATA + 1);
        let data = (0..num_data)
            .map(|i| add_one(&mut definition, &mut rng, i))
            .collect::<Vec<DatumId>>();
        definition.close_record_variant();
        let mut removed = std::collections::BTreeSet::new();
        for _ in 0..(num_data / 5) {
            let index = rng.below(data.len());
            if !removed.contains(&index) {
                removed.insert(index);
                definition.remove_datum(data[index]);
            }
        }
        for i in 0..(num_data / 5) {
            add_one(&mut definition, &mut rng, num_data + i);
        }
        let def = definition.build();
        check_layout(&def);
    }
}

fn native_alignment_with<B, F>(make: F)
where
    B: truc::record::definition::builder::generic::variant::RecordVariantBuilder<NativeDatumDetails>,
    F: Fn() -> B,
{
    let mut rng = XorShift(0x2545_f491_4f6c_dd1d);
    println!("Seed: {:#04x?}", rng.0);

    let type_resolver = HostTypeResolver;

    const MAX_DATA: usize = 32;
    for _ in 0..256 {
        let mut definition = NativeRecordDefinitionBuilder::new(&type_resolver);
        let num_data = rng.below(MAX_DATA + 1);
        let data = (0..num_data)
            .map(|i| add_one_native(&mut definition, &mut rng, i).unwrap())
            .collect::<Vec<DatumId>>();
        definition.close_record_variant_with(make());
        let mut removed = std::collections::BTreeSet::new();
        for _ in 0..(num_data / 5) {
            let index = rng.below(data.len());
            if !removed.contains(&index) {
                removed.insert(index);
                definition.remove_datum(data[index]).unwrap();
            }
        }
        for i in 0..(num_data / 5) {
            add_one_native(&mut definition, &mut rng, num_data + i).unwrap();
        }
        // Explicitely close the variant with the variant builder under test
        definition.close_record_variant_with(make());
        let def = definition.build();
        check_layout(&def);
    }
}

#[test]
fn native_should_align_offsets_according_to_rust_alignment_rules() {
    native_alignment_with(|| Simple);
    native_alignment_with(|| Basic);
    native_alignment_with(|| AppendData);
    native_alignment_with(|| AppendDataReverse);
}

#[test]
fn mod_should_access_data_definition_by_name() {
    let mut rng = XorShift(0x1234_5678_9abc_def1);
    println!("Seed: {:#04x?}", rng.0);

    let type_resolver = HostTypeResolver;

    const MAX_DATA: usize = 32;
    for _ in 0..256 {
        let mut definition = RecordDefinitionBuilder::new(&type_resolver);
        let first_variant_field_name = "first_variant_field";
        let first_datum_id =
            definition.add_datum_allow_uninit(first_variant_field_name, info::<usize>("usize"));
        definition.close_record_variant();
        definition.remove_datum(first_datum_id);
        let num_data = rng.below(MAX_DATA + 1);
        for i in 0..num_data {
            add_one(&mut definition, &mut rng, i);
        }
        {
            assert_eq!(definition.variants().len(), 1);
            let variant_id = definition.variants()[0].id;
            for i in 0..num_data {
                let datum = definition
                    .get_variant_datum_definition_by_name(variant_id, &format!("field_{}", i));
                assert!(datum.is_none());
            }
        }
        {
            for i in 0..num_data {
                let datum = definition
                    .get_current_datum_definition_by_name(&format!("field_{}", i))
                    .unwrap();
                assert_eq!(datum.name(), format!("field_{}", i));
            }
        }
        definition.close_record_variant();
        if num_data > 0 {
            let variant_id = definition.variants()[1].id;
            let datum = definition
                .get_variant_datum_definition_by_name(variant_id, first_variant_field_name);
            assert!(datum.is_none());
            let datum = definition.get_current_datum_definition_by_name(first_variant_field_name);
            assert!(datum.is_none());
            for i in 0..num_data {
                let datum = definition
                    .get_variant_datum_definition_by_name(variant_id, &format!("field_{}", i))
                    .unwrap();
                assert_eq!(datum.name(), format!("field_{}", i));
                let datum = definition
                    .get_current_datum_definition_by_name(&format!("field_{}", i))
                    .unwrap();
                assert_eq!(datum.name(), format!("field_{}", i));
            }
        }
    }
}

#[test]
fn native_should_access_data_definition_by_name() {
    let mut rng = XorShift(0x0fed_cba9_8765_4321);
    println!("Seed: {:#04x?}", rng.0);

    let type_resolver = HostTypeResolver;

    const MAX_DATA: usize = 32;
    for _ in 0..256 {
        let mut definition = NativeRecordDefinitionBuilder::new(&type_resolver);
        let first_variant_field_name = "first_variant_field";
        let first_datum_id = definition
            .add_datum(first_variant_field_name, info::<usize>("usize"))
            .unwrap();
        definition.close_record_variant();
        definition.remove_datum(first_datum_id).unwrap();
        let num_data = rng.below(MAX_DATA + 1);
        for i in 0..num_data {
            add_one_native(&mut definition, &mut rng, i).unwrap();
        }
        {
            assert_eq!(definition.inner().variants().len(), 1);
            let variant_id = definition.inner().variants()[0].id;
            for i in 0..num_data {
                let datum = definition
                    .get_variant_datum_definition_by_name(variant_id, &format!("field_{}", i));
                assert!(datum.is_none());
            }
        }
        {
            for i in 0..num_data {
                let datum = definition
                    .get_current_datum_definition_by_name(&format!("field_{}", i))
                    .unwrap();
                assert_eq!(datum.name(), format!("field_{}", i));
            }
        }
        definition.close_record_variant();
        if num_data > 0 {
            let variant_id = definition.inner().variants()[1].id;
            let datum = definition
                .get_variant_datum_definition_by_name(variant_id, first_variant_field_name);
            assert!(datum.is_none());
            let datum = definition.get_current_datum_definition_by_name(first_variant_field_name);
            assert!(datum.is_none());
            for i in 0..num_data {
                let datum = definition
                    .get_variant_datum_definition_by_name(variant_id, &format!("field_{}", i))
                    .unwrap();
                assert_eq!(datum.name(), format!("field_{}", i));
                let datum = definition
                    .get_current_datum_definition_by_name(&format!("field_{}", i))
                    .unwrap();
                assert_eq!(datum.name(), format!("field_{}", i));
            }
        }
    }
}

#[test]
fn datum_definitions_can_be_changed_in_place() {
    let mut definitions = DatumDefinitionCollection {
        data: vec![DatumDefinition {
            id: DatumId(0),
            name: "a".to_owned(),
            details: 7u32,
        }],
    };
    let datum = definitions.get_mut(DatumId(0)).unwrap();
    datum.name = "b".to_owned();
    datum.details = 9;
    let datum = definitions.get(DatumId(0)).unwrap();
    assert_eq!(datum.name, "b");
    assert_eq!(datum.details, 9);
    assert_eq!(datum.id, DatumId(0));
    assert!(definitions.get_mut(DatumId(1)).is_none());
}

#[test]
fn definitions_can_be_checked_before_generation() {
    let type_resolver = HostTypeResolver;
    let mut builder = NativeRecordDefinitionBuilder::new(&type_resolver);
    builder.add_datum("a", info::<u32>("u32")).unwrap();
    builder.add_datum("b", info::<u8>("u8")).unwrap();
    builder.close_record_variant();
    let mut definition = builder.build();
    assert!(definition.is_wf());
    assert!(definition.fits_in_address_space());

    assert!(valid_datum_ids(2, &[DatumId(1), DatumId(0)]));
    assert!(!valid_datum_ids(2, &[DatumId(0), DatumId(0)]));
    assert!(!valid_datum_ids(2, &[DatumId(2)]));
    assert!(valid_datum_ids(0, &[]));

    definition.variants[0].data.push(DatumId(7));
    assert!(!definition.is_wf());
    definition.variants[0].data.pop();
    definition.datum_definitions.get_mut(DatumId(1)).unwrap().details.offset = usize::MAX;
    assert!(definition.is_wf());
    assert!(!definition.fits_in_address_space());
}
