use truc::record::definition::builder::generic::variant as generic_variant;
use truc::record::definition::builder::native::variant::{
    align_bytes, append_data, append_data_reverse, basic,
};
use truc::record::definition::builder::variant::simple;
use truc::record::definition::{DatumDefinitionCollection, DatumId, NativeDatumDetails};
use truc::record::type_resolver::TypeInfo;

fn add<T: Copy>(
    name: &str,
    offset: usize,
    datum_definitions: &mut DatumDefinitionCollection<NativeDatumDetails>,
) -> DatumId {
    if offset != usize::MAX {
        assert_eq!(align_bytes(offset, std::mem::align_of::<T>()), offset);
    }
    datum_definitions.push(
        name.to_owned(),
        NativeDatumDetails::new(
            offset,
            TypeInfo {
                name: format!("size{}", std::mem::size_of::<T>()),
                size: std::mem::size_of::<T>(),
                align: std::mem::align_of::<T>(),
            },
            true,
        ),
    )
}

fn data_to_text<'a>(
    data: &[DatumId],
    datum_definitions: &'a DatumDefinitionCollection<NativeDatumDetails>,
) -> Vec<&'a str> {
    data.iter()
        .map(|&d| datum_definitions.get(d).unwrap().name())
        .collect()
}

fn offset_of(
    datum_definitions: &DatumDefinitionCollection<NativeDatumDetails>,
    id: DatumId,
) -> (&str, usize) {
    let datum = datum_definitions.get(id).unwrap();
    (datum.name(), datum.details().offset())
}

#[test]
fn dummy_should_append_data() {
    let mut datum_definitions = DatumDefinitionCollection::default();
    // 64 bits
    // xxxx ____ ____ xxxx ____ xxxx ____ xxxx 1111 ____ 2222 2222
    // 32 bits
    // xxxx ____ ____ xxxx ____ xxxx ____ xxxx 1111 2222 2222
    let data = [
        add::<u32>("f1", 0, &mut datum_definitions),
        add::<u32>("f2", 12, &mut datum_definitions),
        add::<u32>("f3", 20, &mut datum_definitions),
        add::<u32>("f4", 28, &mut datum_definitions),
    ]
    .to_vec();

    let new_id1 = add::<u32>("g1", usize::MAX, &mut datum_definitions);
    let new_id2 = add::<u64>("g2", usize::MAX, &mut datum_definitions);

    let actual_data = append_data(data, vec![new_id1, new_id2], vec![], &mut datum_definitions);

    assert_eq!(
        data_to_text(&actual_data, &datum_definitions),
        vec!["f1", "f2", "f3", "f4", "g1", "g2"]
    );

    assert_eq!(offset_of(&datum_definitions, new_id1), ("g1", 32));

    let expected = if usize::BITS == 64 {
        ("g2", 40)
    } else {
        ("g2", 36)
    };
    assert_eq!(offset_of(&datum_definitions, new_id2), expected);
}

#[test]
fn dummy_should_append_data_reverse() {
    let mut datum_definitions = DatumDefinitionCollection::default();
    // xxxx ____ ____ xxxx ____ xxxx ____ xxxx 2222 2222 1111
    let data = [
        add::<u32>("f1", 0, &mut datum_definitions),
        add::<u32>("f2", 12, &mut datum_definitions),
        add::<u32>("f3", 20, &mut datum_definitions),
        add::<u32>("f4", 28, &mut datum_definitions),
    ]
    .to_vec();

    let new_id1 = add::<u32>("g1", usize::MAX, &mut datum_definitions);
    let new_id2 = add::<u64>("g2", usize::MAX, &mut datum_definitions);

    let actual_data =
        append_data_reverse(data, vec![new_id1, new_id2], vec![], &mut datum_definitions);

    assert_eq!(
        data_to_text(&actual_data, &datum_definitions),
        vec!["f1", "f2", "f3", "f4", "g2", "g1"]
    );

    assert_eq!(offset_of(&datum_definitions, new_id1), ("g1", 40));

    assert_eq!(offset_of(&datum_definitions, new_id2), ("g2", 32));
}

fn add_generic(name: &str, datum_definitions: &mut DatumDefinitionCollection<()>) -> DatumId {
    datum_definitions.push(name.to_owned(), ())
}

fn generic_data_to_text<'a>(
    data: &[DatumId],
    datum_definitions: &'a DatumDefinitionCollection<()>,
) -> Vec<&'a str> {
    data.iter()
        .map(|&d| datum_definitions.get(d).unwrap().name())
        .collect()
}

#[test]
fn generic_dummy_should_append_data() {
    let mut datum_definitions = DatumDefinitionCollection::default();
    let data = [
        add_generic("f1", &mut datum_definitions),
        add_generic("f2", &mut datum_definitions),
        add_generic("f3", &mut datum_definitions),
        add_generic("f4", &mut datum_definitions),
    ]
    .to_vec();

    let new_id1 = add_generic("g1", &mut datum_definitions);
    let new_id2 = add_generic("g2", &mut datum_definitions);

    let actual_data =
        generic_variant::append_data(data, vec![new_id1, new_id2], vec![], &mut datum_definitions);

    assert_eq!(
        generic_data_to_text(&actual_data, &datum_definitions),
        vec!["f1", "f2", "f3", "f4", "g1", "g2"]
    );
    assert_eq!(datum_definitions.get(new_id1).unwrap().name(), "g1");
    assert_eq!(datum_definitions.get(new_id2).unwrap().name(), "g2");
}

#[test]
fn generic_dummy_should_append_data_reverse() {
    let mut datum_definitions = DatumDefinitionCollection::default();
    let data = [
        add_generic("f1", &mut datum_definitions),
        add_generic("f2", &mut datum_definitions),
        add_generic("f3", &mut datum_definitions),
        add_generic("f4", &mut datum_definitions),
    ]
    .to_vec();

    let new_id1 = add_generic("g1", &mut datum_definitions);
    let new_id2 = add_generic("g2", &mut datum_definitions);

    let actual_data = generic_variant::append_data_reverse(
        data,
        vec![new_id1, new_id2],
        vec![],
        &mut datum_definitions,
    );

    assert_eq!(
        generic_data_to_text(&actual_data, &datum_definitions),
        vec!["f1", "f2", "f3", "f4", "g2", "g1"]
    );
    assert_eq!(datum_definitions.get(new_id1).unwrap().name(), "g1");
    assert_eq!(datum_definitions.get(new_id2).unwrap().name(), "g2");
}

#[test]
fn generic_dummy_should_remove_data() {
    let mut datum_definitions = DatumDefinitionCollection::default();
    let f1 = add_generic("f1", &mut datum_definitions);
    let f2 = add_generic("f2", &mut datum_definitions);
    let f3 = add_generic("f3", &mut datum_definitions);
    let g1 = add_generic("g1", &mut datum_definitions);
    let actual_data =
        generic_variant::append_data(vec![f1, f2, f3], vec![g1], vec![f2], &mut datum_definitions);
    assert_eq!(actual_data, vec![f1, f3, g1]);
}

#[test]
fn should_fill_exact_gap() {
    let mut datum_definitions = DatumDefinitionCollection::default();
    // 64 bits
    // xxxx ____ ____ xxxx 1111 xxxx 2222 2222 xxxx
    // 32 bits
    // xxxx 2222 2222 xxxx 1111 xxxx ____ ____ xxxx
    let data = [
        add::<u32>("f1", 0, &mut datum_definitions),
        add::<u32>("f2", 12, &mut datum_definitions),
        add::<u32>("f3", 20, &mut datum_definitions),
        add::<u32>("f4", 32, &mut datum_definitions),
    ]
    .to_vec();

    let new_id1 = add::<u32>("g1", usize::MAX, &mut datum_definitions);
    let new_id2 = add::<u64>("g2", usize::MAX, &mut datum_definitions);

    let actual_data = simple(data, vec![new_id1, new_id2], vec![], &mut datum_definitions);

    let sixty_four = usize::BITS == 64;
    let expected_data_text = if sixty_four {
        vec!["f1", "f2", "g1", "f3", "g2", "f4"]
    } else {
        vec!["f1", "g2", "f2", "g1", "f3", "f4"]
    };
    assert_eq!(
        data_to_text(&actual_data, &datum_definitions),
        expected_data_text
    );

    assert_eq!(offset_of(&datum_definitions, new_id1), ("g1", 16));

    let expected = if sixty_four { ("g2", 24) } else { ("g2", 4) };
    assert_eq!(offset_of(&datum_definitions, new_id2), expected);
}

#[test]
fn should_fill_ambiguous_gap_1() {
    let mut datum_definitions = DatumDefinitionCollection::default();
    // xxxx 1111 ____ xx__ ____ __xx
    // It better realigns
    //      ^^^^ here
    //                than ^^^^ here
    let data = [
        add::<u32>("f1", 0, &mut datum_definitions),
        add::<u16>("f2", 12, &mut datum_definitions),
        add::<u16>("f3", 22, &mut datum_definitions),
    ]
    .to_vec();

    let new_id1 = add::<u32>("g1", usize::MAX, &mut datum_definitions);

    let actual_data = simple(data, vec![new_id1], vec![], &mut datum_definitions);

    assert_eq!(
        data_to_text(&actual_data, &datum_definitions),
        vec!["f1", "g1", "f2", "f3"]
    );

    assert_eq!(offset_of(&datum_definitions, new_id1), ("g1", 4));
}

#[test]
fn should_fill_ambiguous_gap_2() {
    let mut datum_definitions = DatumDefinitionCollection::default();
    // xxxx 2222 ____ ____ 1111 xxxx
    let data = [
        add::<u32>("f1", 0, &mut datum_definitions),
        add::<u32>("f2", 20, &mut datum_definitions),
    ]
    .to_vec();

    let new_id1 = add::<u32>("g1", usize::MAX, &mut datum_definitions);
    let new_id2 = add::<u32>("g2", usize::MAX, &mut datum_definitions);

    let actual_data = simple(data, vec![new_id1, new_id2], vec![], &mut datum_definitions);

    assert_eq!(
        data_to_text(&actual_data, &datum_definitions),
        vec!["f1", "g2", "g1", "f2"]
    );

    assert_eq!(offset_of(&datum_definitions, new_id1), ("g1", 16));
    assert_eq!(offset_of(&datum_definitions, new_id2), ("g2", 4));
}

#[test]
fn basic_fills_the_first_room() {
    let mut datum_definitions = DatumDefinitionCollection::default();
    // xxxx ____ ____ xxxx
    let data = [
        add::<u32>("f1", 0, &mut datum_definitions),
        add::<u32>("f2", 12, &mut datum_definitions),
    ]
    .to_vec();
    let g1 = add::<u32>("g1", usize::MAX, &mut datum_definitions);
    let g2 = add::<u32>("g2", usize::MAX, &mut datum_definitions);
    let actual_data = basic(data, vec![g1, g2], vec![], &mut datum_definitions);
    assert_eq!(
        data_to_text(&actual_data, &datum_definitions),
        vec!["f1", "g1", "g2", "f2"]
    );
    assert_eq!(offset_of(&datum_definitions, g1), ("g1", 4));
    assert_eq!(offset_of(&datum_definitions, g2), ("g2", 8));
}

#[test]
fn strict_basic_leaves_a_byte_after_each_placed_datum() {
    let mut datum_definitions = DatumDefinitionCollection::default();
    // xxxx ____ ____ xxxx
    let data = [
        add::<u32>("f1", 0, &mut datum_definitions),
        add::<u32>("f2", 12, &mut datum_definitions),
    ]
    .to_vec();
    let g1 = add::<u32>("g1", usize::MAX, &mut datum_definitions);
    let g2 = add::<u32>("g2", usize::MAX, &mut datum_definitions);
    let actual_data = truc::record::definition::builder::variant::basic(
        data,
        vec![g1, g2],
        vec![],
        &mut datum_definitions,
    );
    assert_eq!(
        data_to_text(&actual_data, &datum_definitions),
        vec!["f1", "g1", "f2", "g2"]
    );
    assert_eq!(offset_of(&datum_definitions, g1), ("g1", 4));
    assert_eq!(offset_of(&datum_definitions, g2), ("g2", 16));
}

#[test]
fn align_bytes_rounds_up() {
    assert_eq!(align_bytes(0, 4), 0);
    assert_eq!(align_bytes(1, 4), 4);
    assert_eq!(align_bytes(4, 4), 4);
    assert_eq!(align_bytes(13, 8), 16);
}
