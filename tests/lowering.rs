use proto_gen::emitter::Emitter;
use proto_gen::error::ProtoError;
use proto_gen::ir::{container_kind, double, singular, Container, EnumTy, Fields, IrModule, StructTy, Ty, TypeRef};
use proto_gen::lower::{emit_field, emit_proto, simple_type, translate, translate_simple_type_name};
use proto_gen::text::{push_decimal, push_snake_char, to_underscore_case};

fn scalar(name: &str) -> TypeRef {
    TypeRef::Normal(name.to_string())
}

fn generic(name: &str, args: Vec<TypeRef>) -> TypeRef {
    TypeRef::Generic(name.to_string(), container_kind(name), args)
}

fn named(fields: Vec<(&str, TypeRef)>) -> Fields {
    Fields::Struct(fields.into_iter().map(|(n, t)| (n.to_string(), t)).collect())
}

fn record(name: &str, fields: Vec<(&str, TypeRef)>) -> IrModule {
    let mut ir = IrModule::new();
    ir.add_type(name.to_string(), Ty::Struct(StructTy { fields: named(fields) }));
    ir
}

fn one_field(name: &str, ty: TypeRef) -> Result<String, ProtoError> {
    let mut e = Emitter::new();
    let mut id: usize = 1;
    emit_field(name, &ty, &mut id, &mut e).map(|_| e.output().to_string())
}

#[test]
fn record_with_primitive_and_named_fields() {
    let ir = record("Record", vec![("id", scalar("u32")), ("name", scalar("string"))]);
    assert_eq!(
        translate(&ir).unwrap(),
        "message Record {\n  uint32 id = 1;\n  string name = 2 [(gogoproto.nullable)=false];\n}\n"
    );
}

#[test]
fn union_with_empty_and_single_variants() {
    let mut ir = IrModule::new();
    let variants = vec![
        ("Empty".to_string(), named(vec![])),
        ("Value".to_string(), Fields::Tuple(vec![scalar("i32")])),
    ];
    ir.add_type("Union".to_string(), Ty::Enum(EnumTy { variants }));
    assert_eq!(
        translate(&ir).unwrap(),
        "message Union {\n  oneof union {\n    UnionEmpty Empty = 1;\n    int32 Value = 2;\n  }\n}\n\
         message UnionEmpty {\n}\n"
    );
}

#[test]
fn byte_sequence_is_one_bytes_field() {
    assert_eq!(
        one_field("data", generic("Vec", vec![scalar("u8")])).unwrap(),
        "bytes data = 1 [(gogoproto.nullable)=false];\n"
    );
}

#[test]
fn optional_primitive_is_wrapped_in_oneof() {
    assert_eq!(
        one_field("count", generic("Option", vec![scalar("u32")])).unwrap(),
        "oneof count_value {\n  uint32 count = 1 [(gogoproto.nullable)=false];\n}\n"
    );
}

#[test]
fn optional_message_is_a_plain_field() {
    assert_eq!(
        one_field("inner", generic("Option", vec![scalar("Inner")])).unwrap(),
        "Inner inner = 1;\n"
    );
}

#[test]
fn mapping_is_a_map_field_without_annotation() {
    assert_eq!(
        one_field("names", generic("HashMap", vec![scalar("string"), scalar("u32")])).unwrap(),
        "map<string, uint32> names = 1;\n"
    );
}

#[test]
fn sequence_of_other_type_is_repeated() {
    assert_eq!(
        one_field("items", generic("Vec", vec![scalar("Item")])).unwrap(),
        "repeated Item items = 1;\n"
    );
    assert_eq!(
        one_field("ids", generic("Vec", vec![scalar("u64")])).unwrap(),
        "repeated uint64 ids = 1;\n"
    );
}

#[test]
fn nested_container_aborts_without_output() {
    let ir = record(
        "Nested",
        vec![("ok", scalar("u32")), ("bad", generic("Vec", vec![generic("Vec", vec![scalar("u8")])]))],
    );
    assert_eq!(translate(&ir), Err(ProtoError::UnsupportedNestedContainer));
    let mut before = IrModule::new();
    before.add_type("First".to_string(), Ty::Struct(StructTy { fields: named(vec![("a", scalar("u8"))]) }));
    before.add_type(
        "Nested".to_string(),
        Ty::Struct(StructTy {
            fields: named(vec![("bad", generic("Vec", vec![generic("Vec", vec![scalar("u8")])]))]),
        }),
    );
    let mut e = Emitter::new();
    e.text("prefix");
    e.line();
    assert_eq!(emit_proto(&before, &mut e), Err(ProtoError::UnsupportedNestedContainer));
    assert_eq!(e.output(), "prefix\n");
}

#[test]
fn failing_field_writes_nothing_and_keeps_the_number() {
    let mut e = Emitter::new();
    let mut id: usize = 4;
    let bad = generic("Vec", vec![generic("Vec", vec![scalar("u8")])]);
    assert_eq!(emit_field("x", &bad, &mut id, &mut e), Err(ProtoError::UnsupportedNestedContainer));
    assert_eq!(id, 4);
    assert_eq!(e.output(), "");
}

#[test]
fn union_reports_the_first_error_in_variant_order() {
    let mut ir = IrModule::new();
    let variants = vec![
        ("Multi".to_string(), named(vec![("a", generic("Box", vec![scalar("u8")])), ("b", scalar("u8"))])),
        ("Single".to_string(), Fields::Tuple(vec![generic("Vec", vec![])])),
    ];
    ir.add_type("U".to_string(), Ty::Enum(EnumTy { variants }));
    assert_eq!(translate(&ir), Err(ProtoError::UnsupportedGenericType));
}

#[test]
fn container_errors() {
    assert_eq!(
        one_field("a", generic("Vec", vec![])),
        Err(ProtoError::UnsupportedGenericArity)
    );
    assert_eq!(
        one_field("a", generic("HashMap", vec![scalar("u32")])),
        Err(ProtoError::UnsupportedGenericArity)
    );
    assert_eq!(
        one_field("a", generic("HashMap", vec![scalar("u32"), generic("Vec", vec![scalar("u8")])])),
        Err(ProtoError::UnsupportedNestedContainer)
    );
    assert_eq!(
        one_field("a", generic("Option", vec![generic("Option", vec![scalar("u8")])])),
        Err(ProtoError::UnsupportedNestedContainer)
    );
    assert_eq!(
        one_field("a", generic("Box", vec![scalar("u8")])),
        Err(ProtoError::UnsupportedGenericType)
    );
}

#[test]
fn positional_fields_are_named_by_index() {
    let mut ir = IrModule::new();
    ir.add_type(
        "Pair".to_string(),
        Ty::Struct(StructTy { fields: Fields::Tuple(vec![scalar("u32"), scalar("Point")]) }),
    );
    let variants = vec![("Both".to_string(), Fields::Tuple(vec![scalar("i8"), scalar("bool")]))];
    ir.add_type("Choice".to_string(), Ty::Enum(EnumTy { variants }));
    assert_eq!(
        translate(&ir).unwrap(),
        "message Pair {\n  uint32 _0 = 1;\n  Point _1 = 2 [(gogoproto.nullable)=false];\n}\n\
         message Choice {\n  oneof choice {\n    ChoiceBoth Both = 1;\n  }\n}\n\
         message ChoiceBoth {\n  int32 _0 = 1;\n  bool _1 = 2;\n}\n"
    );
}

#[test]
fn emitter_continues_a_begun_line() {
    let mut e = Emitter::new();
    let mut id: usize = 1;
    e.begin_message("M");
    e.text("// x ");
    e.plain_field("f", "T", &mut id);
    e.text("  ");
    e.end();
    assert_eq!(e.output(), "message M {\n  // x T f = 1;\n    }\n");
}

#[test]
fn translation_is_deterministic() {
    let ir = record("R", vec![("a", scalar("bool")), ("b", generic("Option", vec![scalar("f64")]))]);
    assert_eq!(translate(&ir), translate(&ir));
}

#[test]
fn numbers_run_from_one_in_each_message() {
    let mut ir = IrModule::new();
    let variants = vec![
        ("A".to_string(), named(vec![("x", scalar("u8")), ("y", scalar("i64"))])),
        ("B".to_string(), Fields::Tuple(vec![generic("Option", vec![scalar("i16")])])),
    ];
    ir.add_type("Shape".to_string(), Ty::Enum(EnumTy { variants }));
    assert_eq!(
        translate(&ir).unwrap(),
        "message Shape {\n  oneof shape {\n    ShapeA A = 1;\n    oneof b_value {\n      int32 B = 2 [(gogoproto.nullable)=false];\n    }\n  }\n}\n\
         message ShapeA {\n  uint32 x = 1;\n  int64 y = 2;\n}\n"
    );
}

#[test]
fn declaration_order_is_kept() {
    let mut ir = IrModule::new();
    ir.add_type("Zeta".to_string(), Ty::Struct(StructTy { fields: named(vec![]) }));
    let variants = vec![
        ("One".to_string(), named(vec![])),
        ("Two".to_string(), named(vec![("a", scalar("u8")), ("b", scalar("u8"))])),
    ];
    ir.add_type("Alpha".to_string(), Ty::Enum(EnumTy { variants }));
    ir.add_type("Mid".to_string(), Ty::Struct(StructTy { fields: named(vec![]) }));
    let out = translate(&ir).unwrap();
    let heads: Vec<&str> = out.lines().filter(|l| l.starts_with("message ")).collect();
    assert_eq!(
        heads,
        vec!["message Zeta {", "message Alpha {", "message AlphaOne {", "message AlphaTwo {", "message Mid {"]
    );
}

#[test]
fn re_adding_a_name_replaces_in_place() {
    let mut ir = IrModule::new();
    ir.add_type("A".to_string(), Ty::Struct(StructTy { fields: named(vec![("x", scalar("u8"))]) }));
    ir.add_type("B".to_string(), Ty::Struct(StructTy { fields: named(vec![]) }));
    ir.add_type("A".to_string(), Ty::Struct(StructTy { fields: named(vec![("y", scalar("u64"))]) }));
    assert_eq!(ir.types().len(), 2);
    assert_eq!(
        translate(&ir).unwrap(),
        "message A {\n  uint64 y = 1;\n}\nmessage B {\n}\n"
    );
}

#[test]
fn primitive_table() {
    let table = [
        ("u8", "uint32"),
        ("u16", "uint32"),
        ("u32", "uint32"),
        ("u64", "uint64"),
        ("i8", "int32"),
        ("i16", "int32"),
        ("i32", "int32"),
        ("i64", "int64"),
        ("f32", "float"),
        ("f64", "double"),
        ("bool", "bool"),
    ];
    for (from, to) in table {
        assert_eq!(translate_simple_type_name(from), Some(to));
    }
    assert_eq!(translate_simple_type_name("String"), None);
    assert_eq!(translate_simple_type_name("u128"), None);
}

#[test]
fn snake_case_names() {
    assert_eq!(to_underscore_case("HelloWorld"), "hello_world");
    assert_eq!(to_underscore_case("Union"), "union");
    assert_eq!(to_underscore_case("already_snake"), "already_snake");
    assert_eq!(to_underscore_case("ABC"), "abc");
    assert_eq!(to_underscore_case("MyHTTP"), "my_http");
    assert_eq!(to_underscore_case("MyHTTPServer"), "my_httpserver");
    assert_eq!(to_underscore_case(""), "");
}

#[test]
fn decimal_numbers() {
    let mut s = String::from("n=");
    push_decimal(&mut s, 0);
    push_decimal(&mut s, 1207);
    assert_eq!(s, "n=01207");
}

#[test]
fn emitter_indents_blocks() {
    let mut e = Emitter::new();
    let mut id: usize = 7;
    e.begin_message("M");
    e.begin_oneof("o");
    e.plain_field("f", "T", &mut id);
    e.end();
    e.repeated_field("g", "U", &mut id);
    e.defaulted_field("h", "V", &mut id);
    e.end();
    assert_eq!(id, 10);
    assert_eq!(
        e.output(),
        "message M {\n  oneof o {\n    T f = 7;\n  }\n  repeated U g = 8;\n  V h = 9 [(gogoproto.nullable)=false];\n}\n"
    );
}

#[test]
fn helpers_pick_arguments() {
    assert_eq!(singular(&[1, 2]), None);
    assert_eq!(singular(&[5]), Some(&5));
    assert_eq!(double(&[1, 2]), Some((&1, &2)));
    assert_eq!(double(&[1]), None);
    assert_eq!(simple_type(&scalar("x")), Ok("x"));
    assert!(simple_type(&generic("Vec", vec![])).is_err());
    let f = Fields::Tuple(vec![scalar("u8")]);
    assert!(f.singleton().is_some());
    assert!(named(vec![]).singleton().is_none());
}

#[test]
fn snake_case_steps() {
    let mut s = String::new();
    push_snake_char(&mut s, 'F', true, "f", false);
    assert_eq!(s, "f");
    push_snake_char(&mut s, 'o', false, "", true);
    push_snake_char(&mut s, 'B', true, "b", false);
    assert_eq!(s, "fo_b");
    push_snake_char(&mut s, 'C', true, "c", true);
    assert_eq!(s, "fo_bc");
    push_snake_char(&mut s, '\u{130}', true, "i\u{307}", false);
    assert_eq!(s, "fo_bc_i\u{307}");
    assert_eq!(to_underscore_case("\u{130}x"), "i\u{307}x");
}

#[test]
fn container_kinds_are_resolved_by_name() {
    assert_eq!(container_kind("Vec"), Container::Sequence);
    assert_eq!(container_kind("HashMap"), Container::Mapping);
    assert_eq!(container_kind("Option"), Container::Optional);
    assert_eq!(container_kind("Box"), Container::Unknown);
    assert_eq!(container_kind("vec"), Container::Unknown);
}
