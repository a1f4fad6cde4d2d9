use proto_gen::builder::{load_fields, load_proto, type_ref};
use proto_gen::error::ProtoError;
use proto_gen::ir::{Container, Fields, TypeRef};
use proto_gen::lower::translate;
use proto_gen::syntax::{
    Field, GenericArgument, Item, ItemEnum, ItemStruct, PathArguments, PathSegment, TypeExpr, TypePath,
    Variant,
};

fn path(name: &str, arguments: PathArguments) -> TypeExpr {
    TypeExpr::Path(TypePath {
        qself: false,
        segments: vec![PathSegment { ident: name.to_string(), arguments }],
    })
}

fn bare(name: &str) -> TypeExpr {
    path(name, PathArguments::NoArgs)
}

fn applied(name: &str, args: Vec<TypeExpr>) -> TypeExpr {
    path(name, PathArguments::Angle(args.into_iter().map(GenericArgument::Type).collect()))
}

fn field(name: &str, ty: TypeExpr) -> Field {
    Field { ident: Some(name.to_string()), ty }
}

fn unnamed(ty: TypeExpr) -> Field {
    Field { ident: None, ty }
}

fn record(name: &str, fields: Vec<Field>) -> Item {
    Item::Struct(ItemStruct { ident: name.to_string(), generic_params: 0, fields })
}

#[test]
fn builds_and_translates_a_module() {
    let items = vec![
        record("Point", vec![field("x", bare("i32")), field("tags", applied("Vec", vec![bare("String")]))]),
        Item::Enum(ItemEnum {
            ident: "Event".to_string(),
            generic_params: 0,
            variants: vec![
                Variant { ident: "Moved".to_string(), fields: vec![unnamed(bare("Point"))] },
                Variant { ident: "Quit".to_string(), fields: vec![] },
            ],
        }),
    ];
    let ir = load_proto(&items).unwrap();
    assert_eq!(ir.types().len(), 2);
    assert_eq!(
        translate(&ir).unwrap(),
        "message Point {\n  int32 x = 1;\n  repeated String tags = 2;\n}\n\
         message Event {\n  oneof event {\n    Point Moved = 1 [(gogoproto.nullable)=false];\n    EventQuit Quit = 2;\n  }\n}\n\
         message EventQuit {\n}\n"
    );
}

#[test]
fn other_declarations_are_rejected() {
    let items = vec![record("A", vec![]), Item::Other];
    assert_eq!(load_proto(&items).err(), Some(ProtoError::UnsupportedDeclarationKind));
}

#[test]
fn generic_declarations_are_rejected() {
    let items = vec![Item::Struct(ItemStruct { ident: "G".to_string(), generic_params: 1, fields: vec![] })];
    assert_eq!(load_proto(&items).err(), Some(ProtoError::UnsupportedGenericDeclaration));
    let items = vec![Item::Enum(ItemEnum { ident: "E".to_string(), generic_params: 2, variants: vec![] })];
    assert_eq!(load_proto(&items).err(), Some(ProtoError::UnsupportedGenericDeclaration));
}

#[test]
fn unsupported_type_shapes_are_rejected() {
    let qualified = TypeExpr::Path(TypePath { qself: true, segments: vec![] });
    assert_eq!(type_ref(&qualified).err(), Some(ProtoError::UnsupportedFieldTypeShape));
    let two_segments = TypeExpr::Path(TypePath {
        qself: false,
        segments: vec![
            PathSegment { ident: "std".to_string(), arguments: PathArguments::NoArgs },
            PathSegment { ident: "String".to_string(), arguments: PathArguments::NoArgs },
        ],
    });
    assert_eq!(type_ref(&two_segments).err(), Some(ProtoError::UnsupportedFieldTypeShape));
    assert_eq!(
        type_ref(&path("Fn", PathArguments::Paren)).err(),
        Some(ProtoError::UnsupportedFieldTypeShape)
    );
    assert_eq!(type_ref(&TypeExpr::Other).err(), Some(ProtoError::UnsupportedFieldTypeShape));
    let lifetime_arg = path("Cow", PathArguments::Angle(vec![GenericArgument::Other]));
    assert_eq!(type_ref(&lifetime_arg).err(), Some(ProtoError::UnsupportedFieldTypeShape));
    let items = vec![record("R", vec![field("a", bare("u8")), field("b", TypeExpr::Other)])];
    assert_eq!(load_proto(&items).err(), Some(ProtoError::UnsupportedFieldTypeShape));
}

#[test]
fn type_references_keep_their_arguments() {
    match type_ref(&applied("HashMap", vec![bare("K"), applied("Vec", vec![bare("u8")])])).unwrap() {
        TypeRef::Generic(name, kind, args) => {
            assert_eq!(name, "HashMap");
            assert_eq!(kind, Container::Mapping);
            assert_eq!(args.len(), 2);
            assert!(matches!(&args[0], TypeRef::Normal(k) if k == "K"));
            assert!(matches!(&args[1], TypeRef::Generic(v, Container::Sequence, inner) if v == "Vec" && inner.len() == 1));
        },
        TypeRef::Normal(_) => panic!("expected a parameterized type"),
    }
}

#[test]
fn fields_are_named_only_when_all_have_names() {
    match load_fields(&vec![field("a", bare("u8")), field("b", bare("u16"))]).unwrap() {
        Fields::Struct(v) => {
            assert_eq!(v.len(), 2);
            assert_eq!(v[1].0, "b");
        },
        Fields::Tuple(_) => panic!("expected named fields"),
    }
    match load_fields(&vec![field("a", bare("u8")), unnamed(bare("u16"))]).unwrap() {
        Fields::Tuple(v) => assert_eq!(v.len(), 2),
        Fields::Struct(_) => panic!("expected positional fields"),
    }
    assert!(matches!(load_fields(&vec![]).unwrap(), Fields::Struct(v) if v.is_empty()));
}

#[test]
fn nested_sequence_field_fails_translation() {
    let items = vec![record("N", vec![field("rows", applied("Vec", vec![applied("Vec", vec![bare("u8")])]))])];
    let ir = load_proto(&items).unwrap();
    assert_eq!(translate(&ir), Err(ProtoError::UnsupportedNestedContainer));
}

#[test]
fn a_repeated_name_keeps_its_place_and_takes_the_last_declaration() {
    let items = vec![
        record("A", vec![field("x", bare("u8"))]),
        record("B", vec![]),
        record("A", vec![field("y", bare("u64"))]),
    ];
    let ir = load_proto(&items).unwrap();
    assert_eq!(ir.types().len(), 2);
    assert!(ir.is_numbered());
    assert_eq!(translate(&ir).unwrap(), "message A {\n  uint64 y = 1;\n}\nmessage B {\n}\n");
}
