//! The meaning of a translation: the schema messages a module lowers to, and
//! the text that renders them.
use vstd::prelude::*;
use crate::emitter::{block_header, field_content, line_text, non_nullable};
use crate::error::ProtoError;
use crate::ir::{Container, Fields, Ty, TypeRef};
use crate::text::{decimal, snake_case};

verus! {

/// A field statement of the schema.
pub struct FieldDecl {
    pub repeated: bool,
    pub ty: Seq<char>,
    pub name: Seq<char>,
    pub number: nat,
    pub annotated: bool,
    /// The `oneof` block that wraps this one field, if any.
    pub wrapper: Option<Seq<char>>,
}

/// A top-level message; a union's fields all stand in its `oneof` block.
pub struct Message {
    pub name: Seq<char>,
    pub oneof: Option<Seq<char>>,
    pub fields: Seq<FieldDecl>,
}

pub open spec fn field_decl(
    repeated: bool,
    ty: Seq<char>,
    name: Seq<char>,
    number: nat,
    annotated: bool,
    wrapper: Option<Seq<char>>,
) -> FieldDecl {
    FieldDecl { repeated, ty, name, number, annotated, wrapper }
}

/// The schema scalar that a primitive type name stands for.
pub open spec fn primitive_target(name: Seq<char>) -> Option<Seq<char>> {
    if name == "u8"@ || name == "u16"@ || name == "u32"@ {
        Some("uint32"@)
    } else if name == "u64"@ {
        Some("uint64"@)
    } else if name == "i8"@ || name == "i16"@ || name == "i32"@ {
        Some("int32"@)
    } else if name == "i64"@ {
        Some("int64"@)
    } else if name == "f32"@ {
        Some("float"@)
    } else if name == "f64"@ {
        Some("double"@)
    } else if name == "bool"@ {
        Some("bool"@)
    } else {
        None
    }
}

/// A primitive name translated, any other name unchanged.
pub open spec fn scalar_target(name: Seq<char>) -> Seq<char> {
    match primitive_target(name) {
        Some(t) => t,
        None => name,
    }
}

pub open spec fn map_type(k: Seq<char>, v: Seq<char>) -> Seq<char> {
    "map<"@ + k + ", "@ + v + ">"@
}

/// The name of the `oneof` block that makes an optional primitive field nullable.
pub open spec fn optional_wrapper(field_name: Seq<char>) -> Seq<char> {
    snake_case(field_name) + "_value"@
}

/// The field statement for a field of type `ty`, numbered `number`.
pub open spec fn lower_field(name: Seq<char>, ty: TypeRef, number: nat) -> Result<FieldDecl, ProtoError> {
    match ty {
        TypeRef::Normal(t) => match primitive_target(t@) {
            Some(p) => Ok(field_decl(false, p, name, number, false, None)),
            None => Ok(field_decl(false, t@, name, number, true, None)),
        },
        TypeRef::Generic(_, kind, args) => match kind {
            Container::Sequence => {
                if args@.len() != 1 {
                    Err(ProtoError::UnsupportedGenericArity)
                } else {
                    match args@[0] {
                        TypeRef::Normal(t) => if t@ == "u8"@ {
                            Ok(field_decl(false, "bytes"@, name, number, true, None))
                        } else {
                            Ok(field_decl(true, scalar_target(t@), name, number, false, None))
                        },
                        TypeRef::Generic(_, _, _) => Err(ProtoError::UnsupportedNestedContainer),
                    }
                }
            },
            Container::Mapping => {
                if args@.len() != 2 {
                    Err(ProtoError::UnsupportedGenericArity)
                } else {
                    match (args@[0], args@[1]) {
                        (TypeRef::Normal(k), TypeRef::Normal(v)) => Ok(
                            field_decl(false, map_type(scalar_target(k@), scalar_target(v@)), name, number, false, None),
                        ),
                        _ => Err(ProtoError::UnsupportedNestedContainer),
                    }
                }
            },
            Container::Optional => {
                if args@.len() != 1 {
                    Err(ProtoError::UnsupportedGenericArity)
                } else {
                    match args@[0] {
                        TypeRef::Normal(t) => match primitive_target(t@) {
                            Some(p) => Ok(field_decl(false, p, name, number, true, Some(optional_wrapper(name)))),
                            None => Ok(field_decl(false, t@, name, number, false, None)),
                        },
                        TypeRef::Generic(_, _, _) => Err(ProtoError::UnsupportedNestedContainer),
                    }
                }
            },
            Container::Unknown => Err(ProtoError::UnsupportedGenericType),
        },
    }
}

/// Named fields lowered in order, the k-th numbered k (from 1).
pub open spec fn lower_named(fs: Seq<(String, TypeRef)>) -> Result<Seq<FieldDecl>, ProtoError>
    decreases fs.len(),
{
    if fs.len() == 0 {
        Ok(Seq::empty())
    } else {
        match lower_named(fs.drop_last()) {
            Err(x) => Err(x),
            Ok(prev) => match lower_field(fs.last().0@, fs.last().1, fs.len()) {
                Err(x) => Err(x),
                Ok(f) => Ok(prev.push(f)),
            },
        }
    }
}

/// The name given to the positional field at index `k` (from 0).
pub open spec fn positional_name(k: nat) -> Seq<char> {
    "_"@ + decimal(k)
}

/// Positional fields lowered in order: the k-th (from 0) is named `_k` and
/// numbered k + 1.
pub open spec fn lower_positional(ts: Seq<TypeRef>) -> Result<Seq<FieldDecl>, ProtoError>
    decreases ts.len(),
{
    if ts.len() == 0 {
        Ok(Seq::empty())
    } else {
        match lower_positional(ts.drop_last()) {
            Err(x) => Err(x),
            Ok(prev) => match lower_field(positional_name((ts.len() - 1) as nat), ts.last(), ts.len()) {
                Err(x) => Err(x),
                Ok(f) => Ok(prev.push(f)),
            },
        }
    }
}

/// The message for a record, or for a variant that does not lower to a single field.
pub open spec fn lower_record(name: Seq<char>, fields: Fields) -> Result<Message, ProtoError> {
    match fields {
        Fields::Tuple(v) => match lower_positional(v@) {
            Err(x) => Err(x),
            Ok(fs) => Ok(Message { name, oneof: None, fields: fs }),
        },
        Fields::Struct(v) => match lower_named(v@) {
            Err(x) => Err(x),
            Ok(fs) => Ok(Message { name, oneof: None, fields: fs }),
        },
    }
}

/// The `oneof` field for a union variant, numbered `number`.
pub open spec fn variant_field(union_name: Seq<char>, v: (String, Fields), number: nat) -> Result<FieldDecl, ProtoError> {
    match v.1.single() {
        Some(t) => lower_field(v.0@, t, number),
        None => Ok(field_decl(false, union_name + v.0@, v.0@, number, false, None)),
    }
}

/// The `oneof` fields of a union, the k-th variant numbered k (from 1),
/// and the messages synthesized for the variants that do not have exactly
/// one field; or the first error in variant order.
pub open spec fn lower_union(union_name: Seq<char>, vs: Seq<(String, Fields)>) -> Result<
    (Seq<FieldDecl>, Seq<Message>),
    ProtoError,
>
    decreases vs.len(),
{
    if vs.len() == 0 {
        Ok((Seq::empty(), Seq::empty()))
    } else {
        match lower_union(union_name, vs.drop_last()) {
            Err(x) => Err(x),
            Ok((fs, ms)) => match variant_field(union_name, vs.last(), vs.len()) {
                Err(x) => Err(x),
                Ok(f) => if vs.last().1.single() is Some {
                    Ok((fs.push(f), ms))
                } else {
                    match lower_record(union_name + vs.last().0@, vs.last().1) {
                        Err(x) => Err(x),
                        Ok(m) => Ok((fs.push(f), ms.push(m))),
                    }
                },
            },
        }
    }
}

/// The messages for one declared type, in the order they are written.
pub open spec fn lower_type(name: Seq<char>, ty: Ty) -> Result<Seq<Message>, ProtoError> {
    match ty {
        Ty::Struct(s) => match lower_record(name, s.fields) {
            Err(x) => Err(x),
            Ok(m) => Ok(seq![m]),
        },
        Ty::Enum(en) => match lower_union(name, en.variants@) {
            Err(x) => Err(x),
            Ok((fs, ms)) => Ok(seq![Message { name, oneof: Some(snake_case(name)), fields: fs }] + ms),
        },
    }
}

/// The messages for a module: each declared type in order, or the first error.
pub open spec fn lower_module(types: Seq<(String, Ty)>) -> Result<Seq<Message>, ProtoError>
    decreases types.len(),
{
    if types.len() == 0 {
        Ok(Seq::empty())
    } else {
        match lower_module(types.drop_last()) {
            Err(x) => Err(x),
            Ok(prev) => match lower_type(types.last().0@, types.last().1) {
                Err(x) => Err(x),
                Ok(ms) => Ok(prev + ms),
            },
        }
    }
}

/// A field statement's text, without indentation or line break.
pub open spec fn field_text(f: FieldDecl) -> Seq<char> {
    let body = field_content(f.ty, f.name, f.number, if f.annotated { non_nullable() } else { Seq::empty() });
    if f.repeated { "repeated "@ + body } else { body }
}

pub open spec fn render_field(f: FieldDecl, depth: nat) -> Seq<char> {
    match f.wrapper {
        None => line_text(depth, field_text(f)),
        Some(w) => line_text(depth, block_header("oneof "@, w)) + line_text(depth + 1, field_text(f))
            + line_text(depth, "}"@),
    }
}

pub open spec fn render_fields(fs: Seq<FieldDecl>, depth: nat) -> Seq<char>
    decreases fs.len(),
{
    if fs.len() == 0 {
        Seq::empty()
    } else {
        render_fields(fs.drop_last(), depth) + render_field(fs.last(), depth)
    }
}

pub open spec fn render_message(m: Message) -> Seq<char> {
    match m.oneof {
        None => line_text(0, block_header("message "@, m.name)) + render_fields(m.fields, 1)
            + line_text(0, "}"@),
        Some(o) => line_text(0, block_header("message "@, m.name)) + line_text(1, block_header("oneof "@, o))
            + render_fields(m.fields, 2) + line_text(1, "}"@) + line_text(0, "}"@),
    }
}

/// The schema text of a sequence of messages.
pub open spec fn render_messages(ms: Seq<Message>) -> Seq<char>
    decreases ms.len(),
{
    if ms.len() == 0 {
        Seq::empty()
    } else {
        render_messages(ms.drop_last()) + render_message(ms.last())
    }
}

pub proof fn lemma_named_prefix(fs: Seq<(String, TypeRef)>, i: int)
    requires
        0 <= i <= fs.len(),
        lower_named(fs.take(i)) is Err,
    ensures
        lower_named(fs) == lower_named(fs.take(i)),
    decreases fs.len() - i,
{
    if i < fs.len() {
        assert(fs.take(i + 1).drop_last() =~= fs.take(i));
        lemma_named_prefix(fs, i + 1);
    } else {
        assert(fs.take(i) =~= fs);
    }
}

pub proof fn lemma_positional_prefix(ts: Seq<TypeRef>, i: int)
    requires
        0 <= i <= ts.len(),
        lower_positional(ts.take(i)) is Err,
    ensures
        lower_positional(ts) == lower_positional(ts.take(i)),
    decreases ts.len() - i,
{
    if i < ts.len() {
        assert(ts.take(i + 1).drop_last() =~= ts.take(i));
        lemma_positional_prefix(ts, i + 1);
    } else {
        assert(ts.take(i) =~= ts);
    }
}

pub proof fn lemma_union_prefix(u: Seq<char>, vs: Seq<(String, Fields)>, i: int)
    requires
        0 <= i <= vs.len(),
        lower_union(u, vs.take(i)) is Err,
    ensures
        lower_union(u, vs) == lower_union(u, vs.take(i)),
    decreases vs.len() - i,
{
    if i < vs.len() {
        assert(vs.take(i + 1).drop_last() =~= vs.take(i));
        lemma_union_prefix(u, vs, i + 1);
    } else {
        assert(vs.take(i) =~= vs);
    }
}

pub proof fn lemma_module_prefix(types: Seq<(String, Ty)>, i: int)
    requires
        0 <= i <= types.len(),
        lower_module(types.take(i)) is Err,
    ensures
        lower_module(types) == lower_module(types.take(i)),
    decreases types.len() - i,
{
    if i < types.len() {
        assert(types.take(i + 1).drop_last() =~= types.take(i));
        lemma_module_prefix(types, i + 1);
    } else {
        assert(types.take(i) =~= types);
    }
}

pub proof fn lemma_render_single(m: Message)
    ensures
        render_messages(seq![m]) == render_message(m),
{
    let s = seq![m];
    assert(s.drop_last() =~= Seq::<Message>::empty());
    assert(render_messages(s.drop_last()) == Seq::<char>::empty());
    assert(render_messages(s) =~= render_message(m));
}

pub proof fn lemma_render_messages_append(a: Seq<Message>, b: Seq<Message>)
    ensures
        render_messages(a + b) == render_messages(a) + render_messages(b),
    decreases b.len(),
{
    if b.len() == 0 {
        assert(a + b =~= a);
        assert(render_messages(a) + render_messages(b) =~= render_messages(a));
    } else {
        lemma_render_messages_append(a, b.drop_last());
        assert((a + b).drop_last() =~= a + b.drop_last());
        assert((a + b).last() == b.last());
        assert(render_messages(a + b) =~= render_messages(a) + render_messages(b));
    }
}

} // verus!
