use truc::record::definition::builder::native::NativeRecordDefinitionBuilder;
use truc::record::definition::builder::RecordDefinitionBuilder;
use truc::record::naming::{shorten_type_tokens, truc_dynamic_type_name, within_parse_bounds};
use truc::record::type_resolver::{DynamicTypeInfo, StaticTypeResolver, TypeInfo, TypeResolver};

#[test]
fn usize_type_name() {
    assert_eq!(&*truc_dynamic_type_name("usize").unwrap(), "usize");
}

#[test]
fn string_type_name() {
    assert_eq!(&*truc_dynamic_type_name("alloc::string::String").unwrap(), "String");
}

#[test]
fn box_type_name() {
    assert_eq!(
        &*truc_dynamic_type_name("alloc::boxed::Box<alloc::string::String>").unwrap(),
        "Box < String >"
    );
}

#[test]
fn tuple_type_name() {
    assert_eq!(
        &*truc_dynamic_type_name("(usize, alloc::string::String)").unwrap(),
        "(usize , String)"
    );
}

#[test]
fn option_type_name() {
    assert_eq!(
        &*truc_dynamic_type_name("core::option::Option<u32>").unwrap(),
        "Option < u32 >"
    );
    assert_eq!(
        &*truc_dynamic_type_name("core::option::Option<alloc::string::String>").unwrap(),
        "Option < String >"
    );
}

#[test]
fn vev_type_name() {
    assert_eq!(&*truc_dynamic_type_name("alloc::vec::Vec<u32>").unwrap(), "Vec < u32 >");
    assert_eq!(
        &*truc_dynamic_type_name("alloc::vec::Vec<alloc::string::String>").unwrap(),
        "Vec < String >"
    );
}

#[test]
fn result_type_name() {
    assert_eq!(
        &*truc_dynamic_type_name("core::result::Result<u32, alloc::string::String>").unwrap(),
        "Result < u32 , String >"
    );
}

#[test]
fn array_type_name() {
    assert_eq!(
        &*truc_dynamic_type_name("[alloc::string::String; 42]").unwrap(),
        "[String ; 42]"
    );
}

#[test]
fn slice_type_name() {
    assert_eq!(
        &*truc_dynamic_type_name("[alloc::string::String]").unwrap(),
        "[String]"
    );
}

#[test]
fn nested_paths_are_shortened() {
    assert_eq!(
        &*truc_dynamic_type_name(
            "alloc::vec::Vec<core::option::Option<alloc::boxed::Box<[u8]>>>"
        ).unwrap(),
        "Vec < Option < Box < [u8] > > >"
    );
}

#[test]
fn other_paths_are_kept() {
    assert_eq!(
        &*truc_dynamic_type_name("std::collections::BTreeMap<u8, alloc::string::String>").unwrap(),
        "std :: collections :: BTreeMap < u8 , String >"
    );
    assert_eq!(&*truc_dynamic_type_name("Box<str>").unwrap(), "Box < str >");
}

#[test]
fn shortening_needs_the_whole_path() {
    assert_eq!(
        shorten_type_tokens(":: alloc :: string :: String"),
        ":: alloc :: string :: String"
    );
    assert_eq!(
        shorten_type_tokens("my :: alloc :: string :: String"),
        "my :: alloc :: string :: String"
    );
    assert_eq!(
        shorten_type_tokens("alloc :: string :: Strings"),
        "alloc :: string :: Strings"
    );
    assert_eq!(
        shorten_type_tokens("alloc :: vec :: Vec < u8 > :: Item"),
        "alloc :: vec :: Vec < u8 > :: Item"
    );
    assert_eq!(
        shorten_type_tokens("alloc :: vec :: Vec :: < u8 >"),
        "Vec :: < u8 >"
    );
    assert_eq!(
        shorten_type_tokens("alloc :: boxed :: Box < fn () -> u8 >"),
        "Box < fn () -> u8 >"
    );
}

#[test]
fn trait_paths_are_not_shortened() {
    assert_eq!(
        shorten_type_tokens("< T as alloc :: string :: String > :: X"),
        "< T as alloc :: string :: String > :: X"
    );
    assert_eq!(
        shorten_type_tokens("alloc :: boxed :: Box < dyn core :: option :: Option < u8 > >"),
        "Box < dyn core :: option :: Option < u8 > >"
    );
    assert_eq!(
        shorten_type_tokens("impl core :: convert :: From < alloc :: string :: String > + core :: result :: Result"),
        "impl core :: convert :: From < String > + core :: result :: Result"
    );
    assert_eq!(
        shorten_type_tokens("& mut alloc :: string :: String"),
        "& mut String"
    );
    assert_eq!(
        &*truc_dynamic_type_name("Box<dyn core::option::Option<alloc::string::String>>").unwrap(),
        "Box < dyn core :: option :: Option < String > >"
    );
    assert_eq!(
        &*truc_dynamic_type_name("<alloc::vec::Vec<u8> as alloc::string::String>::X").unwrap(),
        "< Vec < u8 > as alloc :: string :: String > :: X"
    );
}

#[test]
fn only_types_have_a_name() {
    assert_eq!(truc_dynamic_type_name("u8 u8"), None);
    assert_eq!(
        truc_dynamic_type_name("alloc::string::String"),
        Some("String".to_owned())
    );
}

#[test]
fn type_names_nest_up_to_the_bound() {
    let nested = |depth: usize| format!("{}u8{}", "(".repeat(depth), ")".repeat(depth));
    assert!(within_parse_bounds(&nested(16)));
    assert!(!within_parse_bounds(&nested(17)));
    assert!(truc_dynamic_type_name(&nested(16)).is_some());
    assert_eq!(truc_dynamic_type_name(&nested(17)), None);
    let generics = |depth: usize| format!("{}u8{}", "alloc::vec::Vec<".repeat(depth), ">".repeat(depth));
    assert_eq!(
        truc_dynamic_type_name(&generics(2)).unwrap(),
        "Vec < Vec < u8 > >"
    );
    assert!(truc_dynamic_type_name(&generics(16)).is_some());
    assert_eq!(truc_dynamic_type_name(&generics(17)), None);
    assert!(within_parse_bounds("&[*const Option<Vec<u8>>; 3]"));
    assert!(within_parse_bounds("fn(u8) -> u8"));
    let references = format!("{}u8", "&".repeat(17));
    assert_eq!(truc_dynamic_type_name(&references), None);
    let long = format!("({})", "u8, ".repeat(128));
    assert!(long.len() > 512);
    assert_eq!(truc_dynamic_type_name(&long), None);
    let deep_expression = format!("[u8; {}0]", "return ".repeat(60));
    assert!(within_parse_bounds(&deep_expression));
    assert!(truc_dynamic_type_name(&deep_expression).is_some());
}

fn resolver() -> StaticTypeResolver {
    let mut resolver = StaticTypeResolver::new();
    resolver.add_type_allow_uninit(TypeInfo {
        name: "isize".to_owned(),
        size: std::mem::size_of::<isize>(),
        align: std::mem::align_of::<isize>(),
    });
    resolver.add_type(TypeInfo {
        name: "String".to_owned(),
        size: std::mem::size_of::<String>(),
        align: std::mem::align_of::<String>(),
    });
    resolver.add_type(TypeInfo {
        name: "Option < String >".to_owned(),
        size: std::mem::size_of::<Option<String>>(),
        align: std::mem::align_of::<Option<String>>(),
    });
    resolver
}

#[test]
fn static_type_resolver_resolves_by_name() {
    let type_infos = resolver();

    let DynamicTypeInfo { info, allow_uninit } = type_infos.dynamic_type_info("isize").unwrap();
    assert_eq!(info.name, "isize");
    assert!(allow_uninit);

    let DynamicTypeInfo { info, allow_uninit } = type_infos.dynamic_type_info("String").unwrap();
    assert_eq!(info.name, "String");
    assert!(!allow_uninit);

    let DynamicTypeInfo { info, .. } =
        type_infos.dynamic_type_info("core::option::Option<alloc::string::String>").unwrap();
    assert_eq!(info.name, "Option < String >");
    assert_eq!(info.size, std::mem::size_of::<Option<String>>());

    assert!(type_infos.dynamic_type_info("u8").is_none());
    assert!(type_infos.dynamic_type_info("u8 u8").is_none());
    assert!(type_infos.lookup("u8").is_none());
    assert_eq!(type_infos.types().len(), 3);
}

#[test]
fn builders_add_dynamic_data() {
    let type_infos = resolver();
    let mut definition = NativeRecordDefinitionBuilder::new(&type_infos);
    let id = definition.add_dynamic_datum("s", "String").unwrap();
    assert!(definition.add_dynamic_datum("s", "isize").is_err());
    assert_eq!(
        definition.add_dynamic_datum("u", "u8"),
        Err("Could not resolve type u8".to_owned())
    );
    let datum = definition.get_datum_definition(id).unwrap();
    assert_eq!(datum.details.name_of_type(), "String");
    assert!(!datum.details.allow_uninit());

    let mut definition = RecordDefinitionBuilder::new(&type_infos);
    assert_eq!(definition.add_dynamic_datum("u", "u8"), None);
    let id = definition.add_dynamic_datum("i", "isize").unwrap();
    let datum = definition.get_datum_definition(id).unwrap();
    assert_eq!(datum.details.name_of_type(), "isize");
    assert!(datum.details.allow_uninit());
}
