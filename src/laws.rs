//! Properties of the translation as a whole.
use vstd::prelude::*;
use crate::error::ProtoError;
use crate::ir::{Fields, Ty, TypeRef};
use crate::lower::{emission_of, translation_of};
use crate::schema::{
    lower_field, lower_module, lower_named, lower_positional, lower_record, lower_type, lower_union,
    positional_name, primitive_target, scalar_target, variant_field, FieldDecl, Message,
};

verus! {

/// Translating the same module twice gives the same outcome: byte-identical
/// text, or the same error.
pub proof fn lemma_translation_deterministic(
    types: Seq<(String, Ty)>,
    r1: Result<String, ProtoError>,
    r2: Result<String, ProtoError>,
)
    requires
        translation_of(types, r1),
        translation_of(types, r2),
    ensures
        r1 is Ok <==> r2 is Ok,
        r1 is Ok ==> r1->Ok_0@ == r2->Ok_0@,
        r1 is Err ==> r1 == r2,
{
}

/// Writing the same module twice after the same text leaves the same text
/// and the same outcome.
pub proof fn lemma_emission_deterministic(
    types: Seq<(String, Ty)>,
    before: Seq<char>,
    r1: Result<(), ProtoError>,
    after1: Seq<char>,
    r2: Result<(), ProtoError>,
    after2: Seq<char>,
)
    requires
        emission_of(types, before, r1, after1),
        emission_of(types, before, r2, after2),
    ensures
        r1 is Ok <==> r2 is Ok,
        r1 is Err ==> r1 == r2,
        after1 == after2,
{
}

/// Whether the k-th field (from 0) carries the number k + 1.
pub open spec fn numbered_from_one(fs: Seq<FieldDecl>) -> bool {
    forall|i: int| 0 <= i < fs.len() ==> (#[trigger] fs[i]).number == i + 1
}

/// Whether every message numbers its fields 1, 2, ..., k without gaps.
pub open spec fn all_numbered_from_one(ms: Seq<Message>) -> bool {
    forall|j: int| 0 <= j < ms.len() ==> numbered_from_one((#[trigger] ms[j]).fields)
}

proof fn lemma_field_number(name: Seq<char>, ty: TypeRef, number: nat)
    requires
        lower_field(name, ty, number) is Ok,
    ensures
        lower_field(name, ty, number)->Ok_0.number == number,
{
}

proof fn lemma_named_numbering(fs: Seq<(String, TypeRef)>)
    requires
        lower_named(fs) is Ok,
    ensures
        lower_named(fs)->Ok_0.len() == fs.len(),
        numbered_from_one(lower_named(fs)->Ok_0),
    decreases fs.len(),
{
    if fs.len() > 0 {
        lemma_named_numbering(fs.drop_last());
        lemma_field_number(fs.last().0@, fs.last().1, fs.len());
        let out = lower_named(fs)->Ok_0;
        assert(out.drop_last() == lower_named(fs.drop_last())->Ok_0);
        assert forall|i: int| 0 <= i < out.len() implies (#[trigger] out[i]).number == i + 1 by {
            if i < out.len() - 1 {
                assert(out[i] == out.drop_last()[i]);
            }
        }
    }
}

proof fn lemma_positional_numbering(ts: Seq<TypeRef>)
    requires
        lower_positional(ts) is Ok,
    ensures
        lower_positional(ts)->Ok_0.len() == ts.len(),
        numbered_from_one(lower_positional(ts)->Ok_0),
    decreases ts.len(),
{
    if ts.len() > 0 {
        lemma_positional_numbering(ts.drop_last());
        lemma_field_number(positional_name((ts.len() - 1) as nat), ts.last(), ts.len());
        let out = lower_positional(ts)->Ok_0;
        assert(out.drop_last() == lower_positional(ts.drop_last())->Ok_0);
        assert forall|i: int| 0 <= i < out.len() implies (#[trigger] out[i]).number == i + 1 by {
            if i < out.len() - 1 {
                assert(out[i] == out.drop_last()[i]);
            }
        }
    }
}

proof fn lemma_record_numbering(name: Seq<char>, fields: Fields)
    requires
        lower_record(name, fields) is Ok,
    ensures
        numbered_from_one(lower_record(name, fields)->Ok_0.fields),
{
    match fields {
        Fields::Struct(v) => lemma_named_numbering(v@),
        Fields::Tuple(v) => lemma_positional_numbering(v@),
    }
}

proof fn lemma_union_numbering(u: Seq<char>, vs: Seq<(String, Fields)>)
    requires
        lower_union(u, vs) is Ok,
    ensures
        lower_union(u, vs)->Ok_0.0.len() == vs.len(),
        numbered_from_one(lower_union(u, vs)->Ok_0.0),
        all_numbered_from_one(lower_union(u, vs)->Ok_0.1),
    decreases vs.len(),
{
    if vs.len() > 0 {
        lemma_union_numbering(u, vs.drop_last());
        if let Some(t) = vs.last().1.single() {
            lemma_field_number(vs.last().0@, t, vs.len());
        } else {
            lemma_record_numbering(u + vs.last().0@, vs.last().1);
        }
        assert(variant_field(u, vs.last(), vs.len())->Ok_0.number == vs.len());
        let out = lower_union(u, vs)->Ok_0;
        let prev = lower_union(u, vs.drop_last())->Ok_0;
        assert(out.0.drop_last() == prev.0);
        assert forall|i: int| 0 <= i < out.0.len() implies (#[trigger] out.0[i]).number == i + 1 by {
            if i < out.0.len() - 1 {
                assert(out.0[i] == prev.0[i]);
            }
        }
        assert forall|j: int| 0 <= j < out.1.len() implies numbered_from_one((#[trigger] out.1[j]).fields) by {
            if j < prev.1.len() {
                assert(out.1[j] == prev.1[j]);
            }
        }
    }
}

proof fn lemma_type_numbering(name: Seq<char>, ty: Ty)
    requires
        lower_type(name, ty) is Ok,
    ensures
        all_numbered_from_one(lower_type(name, ty)->Ok_0),
{
    match ty {
        Ty::Struct(s) => {
            lemma_record_numbering(name, s.fields);
        },
        Ty::Enum(en) => {
            lemma_union_numbering(name, en.variants@);
            let out = lower_type(name, ty)->Ok_0;
            let rest = lower_union(name, en.variants@)->Ok_0.1;
            assert forall|j: int| 0 <= j < out.len() implies numbered_from_one((#[trigger] out[j]).fields) by {
                if j > 0 {
                    assert(out[j] == rest[j - 1]);
                }
            }
        },
    }
}

/// Within every emitted message, oneof fields included, the field numbers
/// are 1, 2, ..., k for its k fields, without gaps or repeats.
pub proof fn lemma_field_numbering(types: Seq<(String, Ty)>)
    requires
        lower_module(types) is Ok,
    ensures
        all_numbered_from_one(lower_module(types)->Ok_0),
    decreases types.len(),
{
    if types.len() > 0 {
        lemma_field_numbering(types.drop_last());
        lemma_type_numbering(types.last().0@, types.last().1);
        let prev = lower_module(types.drop_last())->Ok_0;
        let added = lower_type(types.last().0@, types.last().1)->Ok_0;
        let out = lower_module(types)->Ok_0;
        assert forall|j: int| 0 <= j < out.len() implies numbered_from_one((#[trigger] out[j]).fields) by {
            if j < prev.len() {
                assert(out[j] == prev[j]);
            } else {
                assert(out[j] == added[j - prev.len()]);
            }
        }
    }
}

/// The names of a sequence of messages, in order.
pub open spec fn message_names(ms: Seq<Message>) -> Seq<Seq<char>> {
    ms.map_values(|m: Message| m.name)
}

/// The names of the messages synthesized for a union's variants that do not
/// have exactly one field, in variant order.
pub open spec fn synthesized_names(u: Seq<char>, vs: Seq<(String, Fields)>) -> Seq<Seq<char>>
    decreases vs.len(),
{
    if vs.len() == 0 {
        Seq::empty()
    } else {
        synthesized_names(u, vs.drop_last()) + if vs.last().1.single() is Some {
            Seq::empty()
        } else {
            seq![u + vs.last().0@]
        }
    }
}

/// The names of the messages one declaration yields: its own name, then for
/// a union the synthesized ones.
pub open spec fn type_names(name: Seq<char>, ty: Ty) -> Seq<Seq<char>> {
    match ty {
        Ty::Struct(_) => seq![name],
        Ty::Enum(en) => seq![name] + synthesized_names(name, en.variants@),
    }
}

/// The message names in declaration order.
pub open spec fn declared_order(types: Seq<(String, Ty)>) -> Seq<Seq<char>>
    decreases types.len(),
{
    if types.len() == 0 {
        Seq::empty()
    } else {
        declared_order(types.drop_last()) + type_names(types.last().0@, types.last().1)
    }
}

proof fn lemma_union_names(u: Seq<char>, vs: Seq<(String, Fields)>)
    requires
        lower_union(u, vs) is Ok,
    ensures
        message_names(lower_union(u, vs)->Ok_0.1) == synthesized_names(u, vs),
    decreases vs.len(),
{
    if vs.len() > 0 {
        lemma_union_names(u, vs.drop_last());
        let prev = lower_union(u, vs.drop_last())->Ok_0.1;
        let out = lower_union(u, vs)->Ok_0.1;
        if vs.last().1.single() is Some {
            assert(message_names(out) =~= synthesized_names(u, vs));
        } else {
            assert(out == prev.push(lower_record(u + vs.last().0@, vs.last().1)->Ok_0));
            assert(message_names(out) =~= synthesized_names(u, vs));
        }
    }
}

/// The top-level messages come out in declaration order, each union's
/// synthesized messages right after the union's own message.
pub proof fn lemma_declaration_order(types: Seq<(String, Ty)>)
    requires
        lower_module(types) is Ok,
    ensures
        message_names(lower_module(types)->Ok_0) == declared_order(types),
    decreases types.len(),
{
    if types.len() > 0 {
        lemma_declaration_order(types.drop_last());
        let name = types.last().0@;
        let ty = types.last().1;
        let prev = lower_module(types.drop_last())->Ok_0;
        let added = lower_type(name, ty)->Ok_0;
        match ty {
            Ty::Struct(s) => {
                assert(message_names(added) =~= type_names(name, ty));
            },
            Ty::Enum(en) => {
                lemma_union_names(name, en.variants@);
                assert(message_names(added) =~= type_names(name, ty));
            },
        }
        assert(message_names(prev + added) =~= message_names(prev) + message_names(added));
    }
}

/// Each primitive name maps to one fixed schema scalar; every other name
/// is kept as it is.
pub proof fn lemma_primitive_table(name: Seq<char>)
    ensures
        primitive_target("u8"@) == Some("uint32"@),
        primitive_target("u16"@) == Some("uint32"@),
        primitive_target("u32"@) == Some("uint32"@),
        primitive_target("u64"@) == Some("uint64"@),
        primitive_target("i8"@) == Some("int32"@),
        primitive_target("i16"@) == Some("int32"@),
        primitive_target("i32"@) == Some("int32"@),
        primitive_target("i64"@) == Some("int64"@),
        primitive_target("f32"@) == Some("float"@),
        primitive_target("f64"@) == Some("double"@),
        primitive_target("bool"@) == Some("bool"@),
        primitive_target(name) is None ==> scalar_target(name) == name,
        primitive_target(name) is Some ==> scalar_target(name) == primitive_target(name)->Some_0,
{
    reveal_strlit("u8");
    reveal_strlit("u16");
    reveal_strlit("u32");
    reveal_strlit("u64");
    reveal_strlit("i8");
    reveal_strlit("i16");
    reveal_strlit("i32");
    reveal_strlit("i64");
    reveal_strlit("f32");
    reveal_strlit("f64");
    reveal_strlit("bool");
    assert("u32"@[1] != "u16"@[1]);
    assert("u64"@[1] != "u16"@[1]);
    assert("u64"@[1] != "u32"@[1]);
    assert("i8"@[0] != "u8"@[0]);
    assert("i16"@[0] != "u16"@[0]);
    assert("i16"@[0] != "u32"@[0]);
    assert("i16"@[0] != "u64"@[0]);
    assert("i32"@[0] != "u16"@[0]);
    assert("i32"@[0] != "u32"@[0]);
    assert("i32"@[0] != "u64"@[0]);
    assert("i32"@[1] != "i16"@[1]);
    assert("i64"@[0] != "u16"@[0]);
    assert("i64"@[0] != "u32"@[0]);
    assert("i64"@[0] != "u64"@[0]);
    assert("i64"@[1] != "i16"@[1]);
    assert("i64"@[1] != "i32"@[1]);
    assert("f32"@[0] != "u16"@[0]);
    assert("f32"@[0] != "u32"@[0]);
    assert("f32"@[0] != "u64"@[0]);
    assert("f32"@[0] != "i16"@[0]);
    assert("f32"@[0] != "i32"@[0]);
    assert("f32"@[0] != "i64"@[0]);
    assert("f64"@[0] != "u16"@[0]);
    assert("f64"@[0] != "u32"@[0]);
    assert("f64"@[0] != "u64"@[0]);
    assert("f64"@[0] != "i16"@[0]);
    assert("f64"@[0] != "i32"@[0]);
    assert("f64"@[0] != "i64"@[0]);
    assert("f64"@[1] != "f32"@[1]);
}

} // verus!
