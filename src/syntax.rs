//! The declarations a front-end parser hands over, as plain values, and the
//! builder that turns them into an IR module.
use vstd::prelude::*;
use crate::error::ProtoError;
use crate::ir::{container_of, EnumTy, Fields, Ty, TypeRef};

verus! {

/// A top-level declaration.
pub enum Item {
    Struct(ItemStruct),
    Enum(ItemEnum),
    /// Any other kind of declaration.
    Other,
}

/// A record declaration.
pub struct ItemStruct {
    pub ident: String,
    /// The number of type, lifetime and const parameters it declares.
    pub generic_params: usize,
    pub fields: Vec<Field>,
}

/// A union declaration.
pub struct ItemEnum {
    pub ident: String,
    /// The number of type, lifetime and const parameters it declares.
    pub generic_params: usize,
    pub variants: Vec<Variant>,
}

pub struct Variant {
    pub ident: String,
    pub fields: Vec<Field>,
}

/// A field, named or positional, with its declared type.
pub struct Field {
    pub ident: Option<String>,
    pub ty: TypeExpr,
}

/// A type as written.
pub enum TypeExpr {
    Path(TypePath),
    /// A reference, tuple, array, or any type that is not a path.
    Other,
}

pub struct TypePath {
    /// Whether the path has a qualified self type (`<T as Trait>::Name`).
    pub qself: bool,
    pub segments: Vec<PathSegment>,
}

pub struct PathSegment {
    pub ident: String,
    pub arguments: PathArguments,
}

pub enum PathArguments {
    /// `Name`
    NoArgs,
    /// `Name<A, B>`
    Angle(Vec<GenericArgument>),
    /// `Name(A) -> B`
    Paren,
}

pub enum GenericArgument {
    Type(TypeExpr),
    /// A lifetime, a constant, or a binding.
    Other,
}

/// The first problem in a type as written, in reading order, if any.
pub open spec fn type_error(t: TypeExpr) -> Option<ProtoError>
    decreases t,
{
    match t {
        TypeExpr::Path(p) => if p.qself || p.segments@.len() != 1 {
            Some(ProtoError::UnsupportedFieldTypeShape)
        } else {
            match p.segments@[0].arguments {
                PathArguments::NoArgs => None,
                PathArguments::Angle(args) => args_error(args@),
                PathArguments::Paren => Some(ProtoError::UnsupportedFieldTypeShape),
            }
        },
        TypeExpr::Other => Some(ProtoError::UnsupportedFieldTypeShape),
    }
}

/// The first problem among type arguments, if any.
pub open spec fn args_error(args: Seq<GenericArgument>) -> Option<ProtoError>
    decreases args,
{
    if args.len() == 0 {
        None
    } else {
        match args_error(args.drop_last()) {
            Some(x) => Some(x),
            None => match args.last() {
                GenericArgument::Type(t) => type_error(t),
                GenericArgument::Other => Some(ProtoError::UnsupportedFieldTypeShape),
            },
        }
    }
}

/// `rs` are the IR forms of the type arguments `args`, in order.
pub open spec fn args_resolve(args: Seq<GenericArgument>, rs: Seq<TypeRef>) -> bool
    decreases args,
{
    if args.len() == 0 {
        rs.len() == 0
    } else {
        rs.len() == args.len() && args_resolve(args.drop_last(), rs.drop_last()) && arg_resolves(
            args.last(),
            rs.last(),
        )
    }
}

/// `r` is the IR form of the type argument `a`.
pub open spec fn arg_resolves(a: GenericArgument, r: TypeRef) -> bool
    decreases a,
{
    match a {
        GenericArgument::Type(t) => resolves(t, r),
        GenericArgument::Other => false,
    }
}

/// `r` is the IR form of the type `t`: the name of its one segment, with
/// the container that name stands for and the IR forms of its type
/// arguments in order.
pub open spec fn resolves(t: TypeExpr, r: TypeRef) -> bool
    decreases t,
{
    match t {
        TypeExpr::Path(p) => p.segments@.len() == 1 && match p.segments@[0].arguments {
            PathArguments::NoArgs => r is Normal && r->Normal_0@ == p.segments@[0].ident@,
            PathArguments::Angle(args) => {
                &&& r is Generic
                &&& r->Generic_0@ == p.segments@[0].ident@
                &&& r->Generic_1 == container_of(p.segments@[0].ident@)
                &&& args_resolve(args@, r->Generic_2@)
            },
            PathArguments::Paren => false,
        },
        TypeExpr::Other => false,
    }
}

/// The first problem among the types of a list of fields, if any.
pub open spec fn fields_error(fs: Seq<Field>) -> Option<ProtoError>
    decreases fs.len(),
{
    if fs.len() == 0 {
        None
    } else {
        match fields_error(fs.drop_last()) {
            Some(x) => Some(x),
            None => type_error(fs.last().ty),
        }
    }
}

/// Whether every field carries a name.
pub open spec fn all_named(fs: Seq<Field>) -> bool {
    forall|i: int| 0 <= i < fs.len() ==> (#[trigger] fs[i]).ident is Some
}

/// `r` holds the fields `fs`: named where every field has a name, else
/// positional; each field's type in IR form, in order.
pub open spec fn fields_resolve(fs: Seq<Field>, r: Fields) -> bool {
    if all_named(fs) {
        &&& r is Struct
        &&& r->Struct_0@.len() == fs.len()
        &&& forall|i: int| 0 <= i < fs.len() ==> {
            &&& (#[trigger] r->Struct_0@[i]).0@ == fs[i].ident->Some_0@
            &&& resolves(fs[i].ty, r->Struct_0@[i].1)
        }
    } else {
        &&& r is Tuple
        &&& r->Tuple_0@.len() == fs.len()
        &&& forall|i: int| 0 <= i < fs.len() ==> resolves(fs[i].ty, #[trigger] r->Tuple_0@[i])
    }
}

/// The first problem among the variants of a union, if any.
pub open spec fn variants_error(vs: Seq<Variant>) -> Option<ProtoError>
    decreases vs.len(),
{
    if vs.len() == 0 {
        None
    } else {
        match variants_error(vs.drop_last()) {
            Some(x) => Some(x),
            None => fields_error(vs.last().fields@),
        }
    }
}

/// `r` holds the variants `vs`: each variant's name and fields, in order.
pub open spec fn variants_resolve(vs: Seq<Variant>, r: EnumTy) -> bool {
    &&& r.variants@.len() == vs.len()
    &&& forall|i: int| 0 <= i < vs.len() ==> {
        &&& (#[trigger] r.variants@[i]).0@ == vs[i].ident@
        &&& fields_resolve(vs[i].fields@, r.variants@[i].1)
    }
}

/// Why a declaration cannot be taken in, if it cannot.
pub open spec fn item_error(item: Item) -> Option<ProtoError> {
    match item {
        Item::Struct(s) => if s.generic_params > 0 {
            Some(ProtoError::UnsupportedGenericDeclaration)
        } else {
            fields_error(s.fields@)
        },
        Item::Enum(en) => if en.generic_params > 0 {
            Some(ProtoError::UnsupportedGenericDeclaration)
        } else {
            variants_error(en.variants@)
        },
        Item::Other => Some(ProtoError::UnsupportedDeclarationKind),
    }
}

/// The first problem among the declarations, in order, if any.
pub open spec fn items_error(items: Seq<Item>) -> Option<ProtoError>
    decreases items.len(),
{
    if items.len() == 0 {
        None
    } else {
        match items_error(items.drop_last()) {
            Some(x) => Some(x),
            None => item_error(items.last()),
        }
    }
}

/// The name a declaration introduces.
pub open spec fn item_name(item: Item) -> Seq<char> {
    match item {
        Item::Struct(s) => s.ident@,
        Item::Enum(en) => en.ident@,
        Item::Other => Seq::empty(),
    }
}

/// `ty` is the IR form of the declaration `item`.
pub open spec fn item_resolves(item: Item, ty: Ty) -> bool {
    match (item, ty) {
        (Item::Struct(s), Ty::Struct(st)) => fields_resolve(s.fields@, st.fields),
        (Item::Enum(en), Ty::Enum(et)) => variants_resolve(en.variants@, et),
        _ => false,
    }
}

/// Whether no declaration after the `i`-th introduces the same name.
pub open spec fn last_of_name(items: Seq<Item>, i: int) -> bool {
    forall|k: int| i < k < items.len() ==> item_name(#[trigger] items[k]) != item_name(items[i])
}

/// Each entry of `types` is the IR form of the last declaration of its name
/// in `items`, and each declared name has an entry.
pub open spec fn registry_of(items: Seq<Item>, types: Seq<(String, Ty)>) -> bool {
    &&& forall|j: int| 0 <= j < types.len() ==> exists|i: int| {
        &&& 0 <= i < items.len()
        &&& last_of_name(items, i)
        &&& item_name(items[i]) == (#[trigger] types[j]).0@
        &&& item_resolves(items[i], types[j].1)
    }
    &&& forall|i: int| 0 <= i < items.len() ==> exists|j: int| {
        &&& 0 <= j < types.len()
        &&& (#[trigger] types[j]).0@ == item_name(#[trigger] items[i])
    }
}

/// Whether no two declarations introduce the same name.
pub open spec fn names_distinct(items: Seq<Item>) -> bool {
    forall|i: int, j: int|
        0 <= i < items.len() && 0 <= j < items.len() && i != j ==> item_name(items[i]) != item_name(
            items[j],
        )
}

} // verus!
