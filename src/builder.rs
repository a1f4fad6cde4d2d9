//! Builds an IR module from parsed declarations, rejecting anything outside
//! the supported grammar.
use vstd::prelude::*;
use crate::error::ProtoError;
use crate::ir::{container_kind, names_unique, EnumTy, Fields, IrModule, StructTy, Ty, TypeRef};
use crate::syntax::{
    all_named, fields_error, fields_resolve, item_error, item_name, item_resolves, items_error,
    last_of_name, names_distinct, registry_of, variants_error, variants_resolve, Field, Item, ItemEnum, ItemStruct, Variant,
};
use crate::syntax::{arg_resolves, args_error, args_resolve, resolves, type_error, GenericArgument, PathArguments, TypeExpr};

verus! {

pub proof fn lemma_args_prefix(args: Seq<GenericArgument>, i: int)
    requires
        0 <= i <= args.len(),
        args_error(args.take(i)) is Some,
    ensures
        args_error(args) == args_error(args.take(i)),
    decreases args.len() - i,
{
    if i < args.len() {
        assert(args.take(i + 1).drop_last() =~= args.take(i));
        lemma_args_prefix(args, i + 1);
    } else {
        assert(args.take(i) =~= args);
    }
}

pub proof fn lemma_args_resolve_len(args: Seq<GenericArgument>, rs: Seq<TypeRef>)
    requires
        args_resolve(args, rs),
    ensures
        rs.len() == args.len(),
{
}

/// The IR form of a field type.
pub fn type_ref(ty: &TypeExpr) -> (r: Result<TypeRef, ProtoError>)
    ensures
        match type_error(*ty) {
            None => r is Ok && resolves(*ty, r->Ok_0),
            Some(x) => r == Err::<TypeRef, ProtoError>(x),
        },
    decreases ty,
{
    match ty {
        TypeExpr::Other => Err(ProtoError::UnsupportedFieldTypeShape),
        TypeExpr::Path(p) => {
            if p.qself || p.segments.len() != 1 {
                return Err(ProtoError::UnsupportedFieldTypeShape);
            }
            let seg = &p.segments[0];
            match &seg.arguments {
                PathArguments::NoArgs => Ok(TypeRef::Normal(seg.ident.clone())),
                PathArguments::Paren => Err(ProtoError::UnsupportedFieldTypeShape),
                PathArguments::Angle(args) => {
                    let mut out: Vec<TypeRef> = Vec::new();
                    let mut i: usize = 0;
                    proof {
                        assert(args@.take(0) =~= Seq::<GenericArgument>::empty());
                    }
                    while i < args.len()
                        invariant
                            i <= args@.len(),
                            p.segments@.len() == 1,
                            *ty == TypeExpr::Path(*p),
                            !p.qself,
                            p.segments@[0] == *seg,
                            seg.arguments == PathArguments::Angle(*args),
                            args_error(args@.take(i as int)) is None,
                            args_resolve(args@.take(i as int), out@),
                        decreases args@.len() - i,
                    {
                        proof {
                            assert(args@.take(i + 1).drop_last() =~= args@.take(i as int));
                            assert(args@.take(i + 1).last() == args@[i as int]);
                        }
                        let inner = match &args[i] {
                            GenericArgument::Other => {
                                proof {
                                    lemma_args_prefix(args@, i + 1);
                                }
                                return Err(ProtoError::UnsupportedFieldTypeShape);
                            },
                            GenericArgument::Type(inner) => inner,
                        };
                        proof {
                            assert(decreases_to!(*ty => *inner));
                        }
                        let r = match type_ref(inner) {
                            Err(x) => {
                                proof {
                                    assert(args_error(args@.take(i + 1)) == Some(x));
                                    lemma_args_prefix(args@, i + 1);
                                }
                                return Err(x);
                            },
                            Ok(r) => r,
                        };
                        let ghost before = out@;
                        let ghost rv = r;
                        out.push(r);
                        proof {
                            assert(out@.drop_last() =~= before);
                            lemma_args_resolve_len(args@.take(i as int), before);
                            assert(out@.last() == rv);
                            assert(args@[i as int] == GenericArgument::Type(*inner));
                            assert(arg_resolves(args@[i as int], rv));
                            assert(args_resolve(args@.take(i + 1), out@));
                        }
                        i += 1;
                    }
                    proof {
                        assert(args@.take(i as int) =~= args@);
                    }
                    let kind = container_kind(seg.ident.as_str());
                    Ok(TypeRef::Generic(seg.ident.clone(), kind, out))
                },
            }
        },
    }
}

pub proof fn lemma_fields_prefix(fs: Seq<Field>, i: int)
    requires
        0 <= i <= fs.len(),
        fields_error(fs.take(i)) is Some,
    ensures
        fields_error(fs) == fields_error(fs.take(i)),
    decreases fs.len() - i,
{
    if i < fs.len() {
        assert(fs.take(i + 1).drop_last() =~= fs.take(i));
        lemma_fields_prefix(fs, i + 1);
    } else {
        assert(fs.take(i) =~= fs);
    }
}

pub proof fn lemma_variants_error_prefix(vs: Seq<Variant>, i: int)
    requires
        0 <= i <= vs.len(),
        variants_error(vs.take(i)) is Some,
    ensures
        variants_error(vs) == variants_error(vs.take(i)),
    decreases vs.len() - i,
{
    if i < vs.len() {
        assert(vs.take(i + 1).drop_last() =~= vs.take(i));
        lemma_variants_error_prefix(vs, i + 1);
    } else {
        assert(vs.take(i) =~= vs);
    }
}

pub proof fn lemma_items_prefix(items: Seq<Item>, i: int)
    requires
        0 <= i <= items.len(),
        items_error(items.take(i)) is Some,
    ensures
        items_error(items) == items_error(items.take(i)),
    decreases items.len() - i,
{
    if i < items.len() {
        assert(items.take(i + 1).drop_last() =~= items.take(i));
        lemma_items_prefix(items, i + 1);
    } else {
        assert(items.take(i) =~= items);
    }
}

proof fn lemma_registry_step(
    items: Seq<Item>,
    i: int,
    before: Seq<(String, Ty)>,
    after: Seq<(String, Ty)>,
    name_s: String,
    ty: Ty,
)
    requires
        0 <= i < items.len(),
        registry_of(items.take(i), before),
        names_unique(before),
        name_s@ == item_name(items[i]),
        item_resolves(items[i], ty),
        forall|j: int|
            0 <= j < before.len() && before[j].0@ == name_s@ ==> after == before.update(j, (name_s, ty)),
        (forall|j: int| 0 <= j < before.len() ==> before[j].0@ != name_s@) ==> after == before.push(
            (name_s, ty),
        ),
    ensures
        registry_of(items.take(i + 1), after),
{
    let pre = items.take(i);
    let post = items.take(i + 1);
    let name = item_name(items[i]);
    assert(post.drop_last() =~= pre);
    assert forall|k: int| 0 <= k < i implies #[trigger] post[k] == pre[k] by {}
    if exists|j: int| 0 <= j < before.len() && before[j].0@ == name {
        let j0 = choose|j: int| 0 <= j < before.len() && before[j].0@ == name;
        assert(after == before.update(j0, (name_s, ty)));
        assert forall|j: int| 0 <= j < after.len() implies exists|w: int| {
            &&& 0 <= w < post.len()
            &&& last_of_name(post, w)
            &&& item_name(post[w]) == (#[trigger] after[j]).0@
            &&& item_resolves(post[w], after[j].1)
        } by {
            if j == j0 {
                assert(post[i] == items[i]);
                assert(last_of_name(post, i));
                assert(after[j].0@ == name && after[j].1 == ty);
                assert(item_name(post[i]) == after[j].0@ && item_resolves(post[i], after[j].1));
            } else {
                assert(after[j] == before[j]);
                let w = choose|w: int| {
                    &&& 0 <= w < pre.len()
                    &&& last_of_name(pre, w)
                    &&& item_name(pre[w]) == (#[trigger] before[j]).0@
                    &&& item_resolves(pre[w], before[j].1)
                };
                assert(before[j].0@ != before[j0].0@);
                assert(post[w] == pre[w]);
                assert forall|k: int| w < k < post.len() implies item_name(#[trigger] post[k]) != item_name(post[w]) by {
                    if k < i {
                        assert(post[k] == pre[k]);
                    } else {
                        assert(post[k] == items[i]);
                    }
                }
                assert(last_of_name(post, w));
                assert(item_name(post[w]) == after[j].0@ && item_resolves(post[w], after[j].1));
            }
        }
        assert forall|k: int| 0 <= k < post.len() implies exists|j: int| {
            &&& 0 <= j < after.len()
            &&& (#[trigger] after[j]).0@ == item_name(#[trigger] post[k])
        } by {
            if k < i {
                assert(post[k] == pre[k]);
                let j = choose|j: int| 0 <= j < before.len() && (#[trigger] before[j]).0@ == item_name(#[trigger] pre[k]);
                if j == j0 {
                    assert(after[j0].0@ == before[j0].0@);
                } else {
                    assert(after[j] == before[j]);
                }
            } else {
                assert(post[k] == items[i]);
                assert(after[j0].0@ == name);
            }
        }
    } else {
        let e = (name_s, ty);
        assert(after == before.push(e));
        assert forall|j: int| 0 <= j < after.len() implies exists|w: int| {
            &&& 0 <= w < post.len()
            &&& last_of_name(post, w)
            &&& item_name(post[w]) == (#[trigger] after[j]).0@
            &&& item_resolves(post[w], after[j].1)
        } by {
            if j == before.len() {
                assert(post[i] == items[i]);
                assert(last_of_name(post, i));
                assert(after[j].0@ == name && after[j].1 == ty);
                assert(item_name(post[i]) == after[j].0@ && item_resolves(post[i], after[j].1));
            } else {
                assert(after[j] == before[j]);
                let w = choose|w: int| {
                    &&& 0 <= w < pre.len()
                    &&& last_of_name(pre, w)
                    &&& item_name(pre[w]) == (#[trigger] before[j]).0@
                    &&& item_resolves(pre[w], before[j].1)
                };
                assert(post[w] == pre[w]);
                assert forall|k: int| w < k < post.len() implies item_name(#[trigger] post[k]) != item_name(post[w]) by {
                    if k < i {
                        assert(post[k] == pre[k]);
                    } else {
                        assert(post[k] == items[i]);
                    }
                }
                assert(last_of_name(post, w));
                assert(item_name(post[w]) == after[j].0@ && item_resolves(post[w], after[j].1));
            }
        }
        assert forall|k: int| 0 <= k < post.len() implies exists|j: int| {
            &&& 0 <= j < after.len()
            &&& (#[trigger] after[j]).0@ == item_name(#[trigger] post[k])
        } by {
            if k < i {
                assert(post[k] == pre[k]);
                let j = choose|j: int| 0 <= j < before.len() && (#[trigger] before[j]).0@ == item_name(#[trigger] pre[k]);
                assert(after[j] == before[j]);
            } else {
                assert(post[k] == items[i]);
                assert(after[before.len() as int] == e);
            }
        }
    }
}

/// The IR form of a list of fields: named if every field has a name, else
/// positional.
pub fn load_fields(fields: &Vec<Field>) -> (r: Result<Fields, ProtoError>)
    ensures
        match fields_error(fields@) {
            None => r is Ok && fields_resolve(fields@, r->Ok_0),
            Some(x) => r == Err::<Fields, ProtoError>(x),
        },
{
    let mut named = true;
    let mut i: usize = 0;
    while i < fields.len()
        invariant
            i <= fields@.len(),
            named == (forall|k: int| 0 <= k < i ==> (#[trigger] fields@[k]).ident is Some),
        decreases fields@.len() - i,
    {
        if fields[i].ident.is_none() {
            named = false;
        }
        i += 1;
    }
    assert(named == all_named(fields@));
    proof {
        assert(fields@.take(0) =~= Seq::<Field>::empty());
    }
    if named {
        let mut out: Vec<(String, TypeRef)> = Vec::new();
        let mut i: usize = 0;
        while i < fields.len()
            invariant
                i <= fields@.len(),
                all_named(fields@),
                out@.len() == i,
                fields_error(fields@.take(i as int)) is None,
                forall|k: int| 0 <= k < i ==> {
                    &&& (#[trigger] out@[k]).0@ == fields@[k].ident->Some_0@
                    &&& resolves(fields@[k].ty, out@[k].1)
                },
            decreases fields@.len() - i,
        {
            proof {
                assert(fields@.take(i + 1).drop_last() =~= fields@.take(i as int));
                assert(fields@.take(i + 1).last() == fields@[i as int]);
            }
            let field = &fields[i];
            let ty = match type_ref(&field.ty) {
                Err(x) => {
                    proof {
                        lemma_fields_prefix(fields@, i + 1);
                    }
                    return Err(x);
                },
                Ok(ty) => ty,
            };
            let name = match &field.ident {
                Some(n) => n.clone(),
                None => {
                    proof {
                        assert(fields@[i as int].ident is Some);
                    }
                    String::new()
                },
            };
            let ghost before = out@;
            out.push((name, ty));
            proof {
                assert forall|k: int| 0 <= k < i + 1 implies {
                    &&& (#[trigger] out@[k]).0@ == fields@[k].ident->Some_0@
                    &&& resolves(fields@[k].ty, out@[k].1)
                } by {
                    if k < i {
                        assert(out@[k] == before[k]);
                    }
                }
            }
            i += 1;
        }
        proof {
            assert(fields@.take(i as int) =~= fields@);
        }
        Ok(Fields::Struct(out))
    } else {
        let mut out: Vec<TypeRef> = Vec::new();
        let mut i: usize = 0;
        while i < fields.len()
            invariant
                i <= fields@.len(),
                out@.len() == i,
                fields_error(fields@.take(i as int)) is None,
                forall|k: int| 0 <= k < i ==> resolves(fields@[k].ty, #[trigger] out@[k]),
            decreases fields@.len() - i,
        {
            proof {
                assert(fields@.take(i + 1).drop_last() =~= fields@.take(i as int));
                assert(fields@.take(i + 1).last() == fields@[i as int]);
            }
            let ty = match type_ref(&fields[i].ty) {
                Err(x) => {
                    proof {
                        lemma_fields_prefix(fields@, i + 1);
                    }
                    return Err(x);
                },
                Ok(ty) => ty,
            };
            let ghost before = out@;
            out.push(ty);
            proof {
                assert forall|k: int| 0 <= k < i + 1 implies resolves(fields@[k].ty, #[trigger] out@[k]) by {
                    if k < i {
                        assert(out@[k] == before[k]);
                    }
                }
            }
            i += 1;
        }
        proof {
            assert(fields@.take(i as int) =~= fields@);
        }
        Ok(Fields::Tuple(out))
    }
}

/// The IR form of a record declaration.
pub fn load_struct(item: &ItemStruct) -> (r: Result<StructTy, ProtoError>)
    ensures
        match item_error(Item::Struct(*item)) {
            None => r is Ok && fields_resolve(item.fields@, r->Ok_0.fields),
            Some(x) => r == Err::<StructTy, ProtoError>(x),
        },
{
    if item.generic_params > 0 {
        return Err(ProtoError::UnsupportedGenericDeclaration);
    }
    let fields = load_fields(&item.fields)?;
    Ok(StructTy { fields })
}

/// The IR form of a union declaration.
pub fn load_enum(item: &ItemEnum) -> (r: Result<EnumTy, ProtoError>)
    ensures
        match item_error(Item::Enum(*item)) {
            None => r is Ok && variants_resolve(item.variants@, r->Ok_0),
            Some(x) => r == Err::<EnumTy, ProtoError>(x),
        },
{
    if item.generic_params > 0 {
        return Err(ProtoError::UnsupportedGenericDeclaration);
    }
    let vs = &item.variants;
    let mut out: Vec<(String, Fields)> = Vec::new();
    let mut i: usize = 0;
    proof {
        assert(vs@.take(0) =~= Seq::<Variant>::empty());
    }
    while i < vs.len()
        invariant
            i <= vs@.len(),
            vs@ == item.variants@,
            item.generic_params == 0,
            out@.len() == i,
            variants_error(vs@.take(i as int)) is None,
            forall|k: int| 0 <= k < i ==> {
                &&& (#[trigger] out@[k]).0@ == vs@[k].ident@
                &&& fields_resolve(vs@[k].fields@, out@[k].1)
            },
        decreases vs@.len() - i,
    {
        proof {
            assert(vs@.take(i + 1).drop_last() =~= vs@.take(i as int));
            assert(vs@.take(i + 1).last() == vs@[i as int]);
        }
        let fields = match load_fields(&vs[i].fields) {
            Err(x) => {
                proof {
                    lemma_variants_error_prefix(vs@, i + 1);
                }
                return Err(x);
            },
            Ok(f) => f,
        };
        let ghost before = out@;
        out.push((vs[i].ident.clone(), fields));
        proof {
            assert forall|k: int| 0 <= k < i + 1 implies {
                &&& (#[trigger] out@[k]).0@ == vs@[k].ident@
                &&& fields_resolve(vs@[k].fields@, out@[k].1)
            } by {
                if k < i {
                    assert(out@[k] == before[k]);
                }
            }
        }
        i += 1;
    }
    proof {
        assert(vs@.take(i as int) =~= vs@);
    }
    Ok(EnumTy { variants: out })
}

/// Builds the IR module of a list of declarations, in order; the first
/// declaration that is not supported aborts the whole build.
pub fn load_proto(items: &Vec<Item>) -> (r: Result<IrModule, ProtoError>)
    ensures
        match items_error(items@) {
            None => {
                &&& r is Ok
                &&& r->Ok_0.wf()
                &&& registry_of(items@, r->Ok_0@)
                &&& names_distinct(items@) ==> {
                    &&& r->Ok_0@.len() == items@.len()
                    &&& forall|i: int| 0 <= i < items@.len() ==> {
                        &&& (#[trigger] r->Ok_0@[i]).0@ == item_name(items@[i])
                        &&& item_resolves(items@[i], r->Ok_0@[i].1)
                    }
                }
            },
            Some(x) => r == Err::<IrModule, ProtoError>(x),
        },
{
    let mut ir = IrModule::new();
    let mut i: usize = 0;
    proof {
        assert(items@.take(0) =~= Seq::<Item>::empty());
    }
    while i < items.len()
        invariant
            i <= items@.len(),
            ir.wf(),
            items_error(items@.take(i as int)) is None,
            registry_of(items@.take(i as int), ir@),
            names_distinct(items@) ==> {
                &&& ir@.len() == i
                &&& forall|k: int| 0 <= k < i ==> {
                    &&& (#[trigger] ir@[k]).0@ == item_name(items@[k])
                    &&& item_resolves(items@[k], ir@[k].1)
                }
            },
        decreases items@.len() - i,
    {
        proof {
            assert(items@.take(i + 1).drop_last() =~= items@.take(i as int));
            assert(items@.take(i + 1).last() == items@[i as int]);
        }
        let ghost before = ir@;
        let (name, t) = match &items[i] {
            Item::Struct(item) => {
                match load_struct(item) {
                    Err(x) => {
                        proof {
                            lemma_items_prefix(items@, i + 1);
                        }
                        return Err(x);
                    },
                    Ok(st) => (item.ident.clone(), Ty::Struct(st)),
                }
            },
            Item::Enum(item) => {
                match load_enum(item) {
                    Err(x) => {
                        proof {
                            lemma_items_prefix(items@, i + 1);
                        }
                        return Err(x);
                    },
                    Ok(et) => (item.ident.clone(), Ty::Enum(et)),
                }
            },
            Item::Other => {
                proof {
                    lemma_items_prefix(items@, i + 1);
                }
                return Err(ProtoError::UnsupportedDeclarationKind);
            },
        };
        let ghost name_v = name;
        let ghost t_v = t;
        ir.add_type(name, t);
        proof {
            lemma_registry_step(items@, i as int, before, ir@, name_v, t_v);
            if names_distinct(items@) {
                assert forall|k: int| 0 <= k < before.len() implies before[k].0@ != item_name(
                    items@[i as int],
                ) by {
                    assert(item_name(items@[k]) != item_name(items@[i as int]));
                }
                assert(ir@ == before.push(ir@.last()));
                assert forall|k: int| 0 <= k < i + 1 implies {
                    &&& (#[trigger] ir@[k]).0@ == item_name(items@[k])
                    &&& item_resolves(items@[k], ir@[k].1)
                } by {
                    if k < i {
                        assert(ir@[k] == before[k]);
                    }
                }
            }
        }
        i += 1;
    }
    proof {
        assert(items@.take(i as int) =~= items@);
    }
    Ok(ir)
}

} // verus!
