//! The intermediate representation: an ordered registry of named records
//! and tagged unions.
use vstd::prelude::*;

verus! {

/// The containers a parameterized field type can name.
#[derive(PartialEq, Eq, Structural, Debug, Clone, Copy)]
pub enum Container {
    /// `Vec<T>`
    Sequence,
    /// `HashMap<K, V>`
    Mapping,
    /// `Option<T>`
    Optional,
    /// Any other parameterized name.
    Unknown,
}

/// The container a type name stands for.
pub open spec fn container_of(name: Seq<char>) -> Container {
    if name == "Vec"@ {
        Container::Sequence
    } else if name == "HashMap"@ {
        Container::Mapping
    } else if name == "Option"@ {
        Container::Optional
    } else {
        Container::Unknown
    }
}

/// Relies on `==` of `str`: true exactly when the two texts are equal.
#[verifier::external_body]
pub(crate) fn same_text(a: &str, b: &str) -> (r: bool)
    ensures
        r == (a@ == b@),
{
    a == b
}

/// The container a type name stands for, resolved once when the IR is built.
pub fn container_kind(name: &str) -> (r: Container)
    ensures
        r == container_of(name@),
{
    if same_text(name, "Vec") {
        Container::Sequence
    } else if same_text(name, "HashMap") {
        Container::Mapping
    } else if same_text(name, "Option") {
        Container::Optional
    } else {
        Container::Unknown
    }
}

/// A field type: a bare name, or a name, with the container it stands for,
/// applied to type arguments.
pub enum TypeRef {
    Normal(String),
    Generic(String, Container, Vec<TypeRef>),
}

/// The fields of a record or of a union variant, positional or named.
pub enum Fields {
    Tuple(Vec<TypeRef>),
    Struct(Vec<(String, TypeRef)>),
}

pub struct StructTy {
    pub fields: Fields,
}

pub struct EnumTy {
    pub variants: Vec<(String, Fields)>,
}

/// A declared type: a record or a tagged union.
pub enum Ty {
    Struct(StructTy),
    Enum(EnumTy),
}

impl Ty {
    /// Whether every field and variant can be given a `usize` field number.
    pub open spec fn numbered(&self) -> bool {
        match self {
            Ty::Struct(s) => s.fields.numbered(),
            Ty::Enum(en) => en.variants@.len() < usize::MAX && forall|i: int|
                0 <= i < en.variants@.len() ==> (#[trigger] en.variants@[i]).1.numbered(),
        }
    }
}

impl Fields {
    /// The number of fields.
    pub open spec fn count(&self) -> nat {
        match self {
            Fields::Tuple(v) => v@.len(),
            Fields::Struct(v) => v@.len(),
        }
    }

    /// Whether every field can be given a `usize` field number.
    pub open spec fn numbered(&self) -> bool {
        self.count() < usize::MAX
    }

    /// The type of the only field, where there is exactly one.
    pub open spec fn single(&self) -> Option<TypeRef> {
        match self {
            Fields::Tuple(v) => if v@.len() == 1 { Some(v@[0]) } else { None },
            Fields::Struct(v) => if v@.len() == 1 { Some(v@[0].1) } else { None },
        }
    }

    /// The type of the only field, where there is exactly one.
    pub fn singleton(&self) -> (r: Option<&TypeRef>)
        ensures
            r is Some <==> self.single() is Some,
            r is Some ==> *r->0 == self.single()->0,
            r is Some <==> self.count() == 1,
    {
        match self {
            Fields::Tuple(fields) => {
                if fields.len() == 1 {
                    Some(&fields[0])
                } else {
                    None
                }
            },
            Fields::Struct(fields) => {
                if fields.len() == 1 {
                    Some(&fields[0].1)
                } else {
                    None
                }
            },
        }
    }
}

fn fields_len(f: &Fields) -> (r: usize)
    ensures
        r == f.count(),
{
    match f {
        Fields::Tuple(v) => v.len(),
        Fields::Struct(v) => v.len(),
    }
}

/// The only element of `args`, where there is exactly one.
pub fn singular<T>(args: &[T]) -> (r: Option<&T>)
    ensures
        r is Some <==> args@.len() == 1,
        r is Some ==> *r->0 == args@[0],
{
    if args.len() == 1 {
        Some(&args[0])
    } else {
        None
    }
}

/// The two elements of `args`, where there are exactly two.
pub fn double<T>(args: &[T]) -> (r: Option<(&T, &T)>)
    ensures
        r is Some <==> args@.len() == 2,
        r is Some ==> *(r->0).0 == args@[0] && *(r->0).1 == args@[1],
{
    if args.len() == 2 {
        Some((&args[0], &args[1]))
    } else {
        None
    }
}

/// Whether no two entries carry the same name.
pub open spec fn names_unique(types: Seq<(String, Ty)>) -> bool {
    forall|i: int, j: int|
        0 <= i < types.len() && 0 <= j < types.len() && i != j ==> types[i].0@ != types[j].0@
}

/// Named types in declaration order; each name occurs once.
pub struct IrModule {
    types: Vec<(String, Ty)>,
}

impl View for IrModule {
    type V = Seq<(String, Ty)>;

    closed spec fn view(&self) -> Seq<(String, Ty)> {
        self.types@
    }
}

impl IrModule {
    pub open spec fn wf(&self) -> bool {
        names_unique(self@)
    }

    /// Whether every field of every type can be given a `usize` field number.
    pub open spec fn numbered(&self) -> bool {
        forall|i: int| 0 <= i < self@.len() ==> (#[trigger] self@[i]).1.numbered()
    }

    /// An empty module.
    pub fn new() -> (ir: IrModule)
        ensures
            ir@ == Seq::<(String, Ty)>::empty(),
            ir.wf(),
    {
        IrModule { types: Vec::new() }
    }

    /// The declared types, in declaration order.
    pub fn types(&self) -> (r: &Vec<(String, Ty)>)
        ensures
            r@ == self@,
    {
        &self.types
    }

    /// Whether every field of every type can be given a `usize` field number.
    pub fn is_numbered(&self) -> (r: bool)
        ensures
            r == self.numbered(),
    {
        let mut i: usize = 0;
        while i < self.types.len()
            invariant
                i <= self@.len(),
                forall|k: int| 0 <= k < i ==> (#[trigger] self@[k]).1.numbered(),
            decreases self@.len() - i,
        {
            let ok = match &self.types[i].1 {
                Ty::Struct(s) => fields_len(&s.fields) < usize::MAX,
                Ty::Enum(en) => {
                    let vs = &en.variants;
                    let mut all = vs.len() < usize::MAX;
                    let mut j: usize = 0;
                    while j < vs.len()
                        invariant
                            j <= vs@.len(),
                            all == (vs@.len() < usize::MAX && forall|k: int|
                                0 <= k < j ==> (#[trigger] vs@[k]).1.numbered()),
                        decreases vs@.len() - j,
                    {
                        if fields_len(&vs[j].1) == usize::MAX {
                            all = false;
                        }
                        j += 1;
                    }
                    all
                },
            };
            if !ok {
                return false;
            }
            i += 1;
        }
        true
    }

    /// Registers `ty` under `name`. A new name goes to the end; a name that
    /// is already present keeps its place and takes the new type.
    pub fn add_type(&mut self, name: String, ty: Ty)
        requires
            old(self).wf(),
        ensures
            final(self).wf(),
            forall|i: int|
                0 <= i < old(self)@.len() && old(self)@[i].0@ == name@ ==> final(self)@
                    == old(self)@.update(i, (name, ty)),
            (forall|i: int| 0 <= i < old(self)@.len() ==> old(self)@[i].0@ != name@)
                ==> final(self)@ == old(self)@.push((name, ty)),
    {
        let mut i: usize = 0;
        while i < self.types.len()
            invariant
                i <= self.types@.len(),
                self.types@ == old(self)@,
                names_unique(self.types@),
                forall|k: int| 0 <= k < i ==> self.types@[k].0@ != name@,
            decreases self.types@.len() - i,
        {
            if self.types[i].0 == name {
                let ghost before = self.types@;
                self.types.remove(i);
                self.types.insert(i, (name, ty));
                proof {
                    assert(self.types@ =~= before.update(i as int, (name, ty)));
                    assert forall|k: int| 0 <= k < before.len() && before[k].0@ == name@
                        implies k == i by {}
                    assert(names_unique(self.types@));
                }
                return;
            }
            i += 1;
        }
        self.types.push((name, ty));
    }
}

} // verus!
