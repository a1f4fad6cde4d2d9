//! Lowering of an IR module to schema text through an `Emitter`.
use vstd::prelude::*;
use crate::emitter::{block_header, line_text, Emitter};
use crate::error::ProtoError;
use crate::ir::{double, same_text, singular, Container, EnumTy, Fields, IrModule, StructTy, Ty, TypeRef};
use crate::schema::{
    lemma_module_prefix, lemma_named_prefix, lemma_positional_prefix, lemma_render_messages_append,
    lemma_render_single, lemma_union_prefix, lower_field, lower_module, lower_named, lower_positional,
    lower_record, lower_type, lower_union, positional_name, primitive_target, render_field,
    render_fields, render_message, render_messages, scalar_target, variant_field, FieldDecl, Message,
};
use crate::text::{push_decimal, push_text, snake_case, to_underscore_case};

verus! {


/// The schema scalar for a primitive type name, if it is one.
pub fn translate_simple_type_name(name: &str) -> (r: Option<&'static str>)
    ensures
        r is Some <==> primitive_target(name@) is Some,
        r is Some ==> r->0@ == primitive_target(name@)->0,
{
    if same_text(name, "u8") || same_text(name, "u16") || same_text(name, "u32") {
        Some("uint32")
    } else if same_text(name, "u64") {
        Some("uint64")
    } else if same_text(name, "i8") || same_text(name, "i16") || same_text(name, "i32") {
        Some("int32")
    } else if same_text(name, "i64") {
        Some("int64")
    } else if same_text(name, "f32") {
        Some("float")
    } else if same_text(name, "f64") {
        Some("double")
    } else if same_text(name, "bool") {
        Some("bool")
    } else {
        None
    }
}

/// The name of a type that must not be a container.
pub fn simple_type(ty: &TypeRef) -> (r: Result<&str, ProtoError>)
    ensures
        match ty {
            TypeRef::Normal(n) => r is Ok && r->Ok_0@ == n@,
            TypeRef::Generic(_, _, _) => r == Err::<&str, ProtoError>(ProtoError::UnsupportedNestedContainer),
        },
{
    match ty {
        TypeRef::Normal(n) => Ok(n.as_str()),
        TypeRef::Generic(_, _, _) => Err(ProtoError::UnsupportedNestedContainer),
    }
}

fn scalar_name(name: &str) -> (r: &str)
    ensures
        r@ == scalar_target(name@),
{
    match translate_simple_type_name(name) {
        Some(t) => t,
        None => name,
    }
}

/// Writes the field statement for a field `field_name` of type `ty`,
/// numbered `*id`, and advances `*id`.
pub fn emit_field(field_name: &str, ty: &TypeRef, id: &mut usize, e: &mut Emitter) -> (r: Result<(), ProtoError>)
    requires
        old(e).at_line_start,
        old(e).indent < usize::MAX,
        *old(id) < usize::MAX,
    ensures
        match lower_field(field_name@, *ty, *old(id) as nat) {
            Ok(f) => {
                &&& r is Ok
                &&& final(e).buf@ == old(e).buf@ + render_field(f, old(e).indent as nat)
                &&& final(e).at_line_start
                &&& final(e).indent == old(e).indent
                &&& *final(id) == *old(id) + 1
            },
            Err(x) => {
                &&& r == Err::<(), ProtoError>(x)
                &&& *final(e) == *old(e)
                &&& *final(id) == *old(id)
            },
        },
{
    proof {
        reveal_strlit("");
    }
    match ty {
        TypeRef::Normal(t) => {
            match translate_simple_type_name(t.as_str()) {
                Some(simple) => e.plain_field(field_name, simple, id),
                None => e.defaulted_field(field_name, t.as_str(), id),
            }
            Ok(())
        },
        TypeRef::Generic(_, kind, args) => match kind {
            Container::Sequence => {
                match singular(args.as_slice()) {
                    None => Err(ProtoError::UnsupportedGenericArity),
                    Some(TypeRef::Normal(t)) => {
                        if same_text(t.as_str(), "u8") {
                            e.defaulted_field(field_name, "bytes", id);
                        } else {
                            e.repeated_field(field_name, scalar_name(t.as_str()), id);
                        }
                        Ok(())
                    },
                    Some(TypeRef::Generic(_, _, _)) => Err(ProtoError::UnsupportedNestedContainer),
                }
            },
            Container::Mapping => {
                match double(args.as_slice()) {
                    None => Err(ProtoError::UnsupportedGenericArity),
                    Some((k, v)) => {
                        let k = simple_type(k)?;
                        let v = simple_type(v)?;
                        let mut map = String::new();
                        push_text(&mut map, "map<");
                        push_text(&mut map, scalar_name(k));
                        push_text(&mut map, ", ");
                        push_text(&mut map, scalar_name(v));
                        push_text(&mut map, ">");
                        e.plain_field(field_name, map.as_str(), id);
                        Ok(())
                    },
                }
            },
            Container::Optional => {
                match singular(args.as_slice()) {
                    None => Err(ProtoError::UnsupportedGenericArity),
                    Some(TypeRef::Normal(t)) => {
                        match translate_simple_type_name(t.as_str()) {
                            Some(simple) => {
                                let mut wrapper = to_underscore_case(field_name);
                                push_text(&mut wrapper, "_value");
                                e.begin_oneof(wrapper.as_str());
                                e.defaulted_field(field_name, simple, id);
                                e.end();
                            },
                            None => e.plain_field(field_name, t.as_str(), id),
                        }
                        Ok(())
                    },
                    Some(TypeRef::Generic(_, _, _)) => Err(ProtoError::UnsupportedNestedContainer),
                }
            },
            Container::Unknown => Err(ProtoError::UnsupportedGenericType),
        },
    }
}

/// Writes the message for a record, or for a union variant that does not
/// lower to a single field. On an error nothing is written.
pub fn emit_fields(ir: &IrModule, name: &str, fields: &Fields, e: &mut Emitter) -> (r: Result<(), ProtoError>)
    requires
        old(e).at_line_start,
        old(e).indent == 0,
        fields.numbered(),
    ensures
        match lower_record(name@, *fields) {
            Ok(m) => {
                &&& r is Ok
                &&& final(e).buf@ == old(e).buf@ + render_message(m)
                &&& final(e).at_line_start
                &&& final(e).indent == 0
            },
            Err(x) => r == Err::<(), ProtoError>(x) && *final(e) == *old(e),
        },
{
    let mut out = Emitter::new();
    out.begin_message(name);
    let ghost head = line_text(0, block_header("message "@, name@));
    let mut id: usize = 1;
    let mut i: usize = 0;
    let ghost mut done: Seq<FieldDecl> = Seq::empty();
    match fields {
        Fields::Struct(v) => {
            proof {
                assert(v@.take(0) =~= Seq::<(String, TypeRef)>::empty());
                assert(out.buf@ =~= head + render_fields(done, 1));
            }
            while i < v.len()
                invariant
                    i <= v@.len(),
                    v@.len() < usize::MAX,
                    id == i + 1,
                    *fields == Fields::Struct(*v),
                    out.at_line_start,
                    out.indent == 1,
                    lower_named(v@.take(i as int)) == Ok::<Seq<FieldDecl>, ProtoError>(done),
                    out.buf@ == head + render_fields(done, 1),
                decreases v@.len() - i,
            {
                proof {
                    assert(v@.take(i + 1).drop_last() =~= v@.take(i as int));
                    assert(v@.take(i + 1).last() == v@[i as int]);
                }
                match emit_field(v[i].0.as_str(), &v[i].1, &mut id, &mut out) {
                    Err(x) => {
                        proof {
                            assert(lower_named(v@.take(i + 1)) == Err::<Seq<FieldDecl>, ProtoError>(x));
                            lemma_named_prefix(v@, i + 1);
                        }
                        return Err(x);
                    },
                    Ok(()) => {},
                }
                proof {
                    let f = lower_field(v@[i as int].0@, v@[i as int].1, (i + 1) as nat)->Ok_0;
                    let next = done.push(f);
                    assert(next.drop_last() =~= done);
                    assert(out.buf@ =~= head + render_fields(next, 1));
                    done = next;
                }
                i += 1;
            }
            proof {
                assert(v@.take(i as int) =~= v@);
            }
        },
        Fields::Tuple(v) => {
            proof {
                assert(v@.take(0) =~= Seq::<TypeRef>::empty());
                assert(out.buf@ =~= head + render_fields(done, 1));
            }
            while i < v.len()
                invariant
                    i <= v@.len(),
                    v@.len() < usize::MAX,
                    id == i + 1,
                    *fields == Fields::Tuple(*v),
                    out.at_line_start,
                    out.indent == 1,
                    lower_positional(v@.take(i as int)) == Ok::<Seq<FieldDecl>, ProtoError>(done),
                    out.buf@ == head + render_fields(done, 1),
                decreases v@.len() - i,
            {
                proof {
                    assert(v@.take(i + 1).drop_last() =~= v@.take(i as int));
                    assert(v@.take(i + 1).last() == v@[i as int]);
                    reveal_strlit("_");
                }
                let mut field_name = String::new();
                push_text(&mut field_name, "_");
                push_decimal(&mut field_name, i);
                assert(field_name@ == positional_name(i as nat));
                match emit_field(field_name.as_str(), &v[i], &mut id, &mut out) {
                    Err(x) => {
                        proof {
                            assert(lower_positional(v@.take(i + 1)) == Err::<Seq<FieldDecl>, ProtoError>(x));
                            lemma_positional_prefix(v@, i + 1);
                        }
                        return Err(x);
                    },
                    Ok(()) => {},
                }
                proof {
                    let f = lower_field(positional_name(i as nat), v@[i as int], (i + 1) as nat)->Ok_0;
                    let next = done.push(f);
                    assert(next.drop_last() =~= done);
                    assert(out.buf@ =~= head + render_fields(next, 1));
                    done = next;
                }
                i += 1;
            }
            proof {
                assert(v@.take(i as int) =~= v@);
            }
        },
    }
    out.end();
    proof {
        assert(out.buf@ =~= render_message(Message { name: name@, oneof: None, fields: done }));
    }
    push_text(&mut e.buf, out.output());
    Ok(())
}

/// Writes the message for a record. On an error nothing is written.
pub fn emit_struct(ir: &IrModule, name: &str, item: &StructTy, e: &mut Emitter) -> (r: Result<(), ProtoError>)
    requires
        old(e).at_line_start,
        old(e).indent == 0,
        item.fields.numbered(),
    ensures
        match lower_record(name@, item.fields) {
            Ok(m) => {
                &&& r is Ok
                &&& final(e).buf@ == old(e).buf@ + render_message(m)
                &&& final(e).at_line_start
                &&& final(e).indent == 0
            },
            Err(x) => r == Err::<(), ProtoError>(x) && *final(e) == *old(e),
        },
{
    emit_fields(ir, name, &item.fields, e)
}

/// Writes the message for a union, with its variants in one `oneof` block,
/// followed by the messages synthesized for variants that do not have
/// exactly one field. On an error, the first in variant order, nothing is
/// written.
pub fn emit_enum(ir: &IrModule, name: &str, item: &EnumTy, e: &mut Emitter) -> (r: Result<(), ProtoError>)
    requires
        old(e).at_line_start,
        old(e).indent == 0,
        Ty::Enum(*item).numbered(),
    ensures
        match lower_type(name@, Ty::Enum(*item)) {
            Ok(ms) => {
                &&& r is Ok
                &&& final(e).buf@ == old(e).buf@ + render_messages(ms)
                &&& final(e).at_line_start
                &&& final(e).indent == 0
            },
            Err(x) => r == Err::<(), ProtoError>(x) && *final(e) == *old(e),
        },
{
    let vs = &item.variants;
    let mut u = Emitter::new();
    let mut rest = Emitter::new();
    u.begin_message(name);
    let snake = to_underscore_case(name);
    u.begin_oneof(snake.as_str());
    let ghost head = line_text(0, block_header("message "@, name@))
        + line_text(1, block_header("oneof "@, snake_case(name@)));
    let mut id: usize = 1;
    let mut i: usize = 0;
    let ghost mut done: Seq<FieldDecl> = Seq::empty();
    let ghost mut ms: Seq<Message> = Seq::empty();
    proof {
        assert(vs@.take(0) =~= Seq::<(String, Fields)>::empty());
        assert(u.buf@ =~= head + render_fields(done, 2));
    }
    while i < vs.len()
        invariant
            i <= vs@.len(),
            vs@.len() < usize::MAX,
            vs@ == item.variants@,
            forall|k: int| 0 <= k < vs@.len() ==> (#[trigger] vs@[k]).1.numbered(),
            id == i + 1,
            u.at_line_start,
            u.indent == 2,
            rest.at_line_start,
            rest.indent == 0,
            lower_union(name@, vs@.take(i as int)) == Ok::<(Seq<FieldDecl>, Seq<Message>), ProtoError>(
                (done, ms),
            ),
            u.buf@ == head + render_fields(done, 2),
            rest.buf@ == render_messages(ms),
        decreases vs@.len() - i,
    {
        proof {
            assert(vs@.take(i + 1).drop_last() =~= vs@.take(i as int));
            assert(vs@.take(i + 1).last() == vs@[i as int]);
        }
        let variant = &vs[i];
        match variant.1.singleton() {
            Some(ty) => {
                match emit_field(variant.0.as_str(), ty, &mut id, &mut u) {
                    Err(x) => {
                        proof {
                            assert(lower_union(name@, vs@.take(i + 1)) == Err::<
                                (Seq<FieldDecl>, Seq<Message>),
                                ProtoError,
                            >(x));
                            lemma_union_prefix(name@, vs@, i + 1);
                        }
                        return Err(x);
                    },
                    Ok(()) => {},
                }
            },
            None => {
                let mut full = String::new();
                push_text(&mut full, name);
                push_text(&mut full, variant.0.as_str());
                u.plain_field(variant.0.as_str(), full.as_str(), &mut id);
                assert(vs@[i as int].1.numbered());
                match emit_fields(ir, full.as_str(), &variant.1, &mut rest) {
                    Err(x) => {
                        proof {
                            assert(lower_union(name@, vs@.take(i + 1)) == Err::<
                                (Seq<FieldDecl>, Seq<Message>),
                                ProtoError,
                            >(x));
                            lemma_union_prefix(name@, vs@, i + 1);
                        }
                        return Err(x);
                    },
                    Ok(()) => {},
                }
                proof {
                    let m = lower_record(full@, variant.1)->Ok_0;
                    let next = ms.push(m);
                    assert(next.drop_last() =~= ms);
                    assert(rest.buf@ =~= render_messages(next));
                    ms = next;
                }
            },
        }
        proof {
            let f = variant_field(name@, vs@[i as int], (i + 1) as nat)->Ok_0;
            let next = done.push(f);
            assert(next.drop_last() =~= done);
            assert(u.buf@ =~= head + render_fields(next, 2));
            done = next;
        }
        i += 1;
    }
    proof {
        assert(vs@.take(i as int) =~= vs@);
    }
    u.end();
    u.end();
    let ghost umsg = Message { name: name@, oneof: Some(snake_case(name@)), fields: done };
    proof {
        assert(u.buf@ =~= render_message(umsg));
        lemma_render_messages_append(seq![umsg], ms);
        lemma_render_single(umsg);
    }
    push_text(&mut e.buf, u.output());
    push_text(&mut e.buf, rest.output());
    proof {
        assert(e.buf@ =~= old(e).buf@ + render_messages(seq![umsg] + ms));
    }
    Ok(())
}

/// What writing the messages of a module after `before` leaves: the
/// schema text appended, or the first error and the text unchanged.
pub open spec fn emission_of(
    types: Seq<(String, Ty)>,
    before: Seq<char>,
    r: Result<(), ProtoError>,
    after: Seq<char>,
) -> bool {
    match lower_module(types) {
        Ok(ms) => r is Ok && after == before + render_messages(ms),
        Err(x) => r == Err::<(), ProtoError>(x) && after == before,
    }
}

/// Writes the messages of every type of the module, in declaration order.
/// On an error nothing is written and the first error is returned.
pub fn emit_proto(ir: &IrModule, e: &mut Emitter) -> (r: Result<(), ProtoError>)
    requires
        old(e).at_line_start,
        old(e).indent == 0,
        ir.numbered(),
    ensures
        emission_of(ir@, old(e).buf@, r, final(e).buf@),
        final(e).at_line_start,
        final(e).indent == 0,
        r is Err ==> *final(e) == *old(e),
{
    let mut out = Emitter::new();
    let types = ir.types();
    let mut i: usize = 0;
    let ghost mut ms: Seq<Message> = Seq::empty();
    proof {
        assert(types@.take(0) =~= Seq::<(String, Ty)>::empty());
    }
    while i < types.len()
        invariant
            i <= types@.len(),
            types@ == ir@,
            ir.numbered(),
            *e == *old(e),
            e.at_line_start,
            e.indent == 0,
            out.at_line_start,
            out.indent == 0,
            lower_module(types@.take(i as int)) == Ok::<Seq<Message>, ProtoError>(ms),
            out.buf@ == render_messages(ms),
        decreases types@.len() - i,
    {
        proof {
            assert(types@.take(i + 1).drop_last() =~= types@.take(i as int));
            assert(types@.take(i + 1).last() == types@[i as int]);
            assert(types@[i as int].1.numbered());
        }
        let entry = &types[i];
        let res = match &entry.1 {
            Ty::Struct(item) => emit_struct(ir, entry.0.as_str(), item, &mut out),
            Ty::Enum(item) => emit_enum(ir, entry.0.as_str(), item, &mut out),
        };
        match res {
            Err(x) => {
                proof {
                    assert(lower_module(types@.take(i + 1)) == Err::<Seq<Message>, ProtoError>(x));
                    lemma_module_prefix(ir@, i + 1);
                }
                return Err(x);
            },
            Ok(()) => {},
        }
        proof {
            let added = lower_type(entry.0@, entry.1)->Ok_0;
            lemma_render_messages_append(ms, added);
            if let Ty::Struct(_) = entry.1 {
                assert(added =~= seq![added[0]]);
                lemma_render_single(added[0]);
            }
            assert(out.buf@ =~= render_messages(ms + added));
            ms = ms + added;
        }
        i += 1;
    }
    proof {
        assert(types@.take(i as int) =~= types@);
    }
    push_text(&mut e.buf, out.output());
    Ok(())
}

/// What translating a module yields: its schema text, or the first error.
pub open spec fn translation_of(types: Seq<(String, Ty)>, r: Result<String, ProtoError>) -> bool {
    match lower_module(types) {
        Ok(ms) => r is Ok && r->Ok_0@ == render_messages(ms),
        Err(x) => r == Err::<String, ProtoError>(x),
    }
}

/// Translates a module into schema text; all or nothing.
pub fn translate(ir: &IrModule) -> (r: Result<String, ProtoError>)
    requires
        ir.numbered(),
    ensures
        translation_of(ir@, r),
{
    let mut e = Emitter::new();
    match emit_proto(ir, &mut e) {
        Ok(()) => {
            proof {
                assert(e.buf@ =~= render_messages(lower_module(ir@)->Ok_0));
            }
            Ok(e.buf)
        },
        Err(x) => Err(x),
    }
}

} // verus!
