//! The portable type registry: a runtime table mapping opaque type
//! identifiers to structural type definitions, which lets the decoder work
//! with no compile-time knowledge of the shapes it meets.

use vstd::prelude::*;

verus! {

/// An opaque handle into a [`TypeRegistry`].
pub type TypeId = u32;

/// The primitive kinds a type definition can name.  Integer kinds carry
/// their width in bits.
pub enum PrimType {
    Bool,
    UInt(u32),
    Int(u32),
    Str,
    Char,
    Bytes,
}

/// One field of a composite or variant case: an optional declared name and
/// the type it decodes with.
pub struct FieldDef {
    pub name: Option<String>,
    pub ty: TypeId,
}

/// One case of a tagged union: the discriminant byte that selects it, its
/// name, and its fields.
pub struct CaseDef {
    pub disc: u8,
    pub name: String,
    pub fields: Vec<FieldDef>,
}

/// A structural type definition, resolved through the registry.
pub enum TypeDef {
    Primitive(PrimType),
    Compact(TypeId),
    Sequence(TypeId),
    Tuple(Vec<TypeId>),
    Composite(Vec<FieldDef>),
    Variant(Vec<CaseDef>),
}

/// An integer width the decoder accepts: whole bytes, at most 128 bits.
pub open spec fn width_ok(w: u32) -> bool {
    w == 8 || w == 16 || w == 32 || w == 64 || w == 128
}

/// Whether a primitive kind is well formed.
pub open spec fn prim_wf(p: PrimType) -> bool {
    match p {
        PrimType::UInt(w) => width_ok(w),
        PrimType::Int(w) => width_ok(w),
        _ => true,
    }
}

/// Whether every type reference of `td` points strictly below `bound`.
///
/// A registry whose entry `i` only references entries below `i` cannot
/// admit infinite type recursion, so every decode terminates.
pub open spec fn td_refs_below(td: TypeDef, bound: int) -> bool {
    match td {
        TypeDef::Primitive(p) => prim_wf(p),
        TypeDef::Compact(inner) => inner < bound,
        TypeDef::Sequence(elem) => elem < bound,
        TypeDef::Tuple(ids) => forall|j: int| 0 <= j < ids@.len() ==> ids@[j] < bound,
        TypeDef::Composite(fs) => forall|j: int| 0 <= j < fs@.len() ==> #[trigger] fs@[j].ty < bound,
        TypeDef::Variant(cs) => forall|j: int, k: int|
            0 <= j < cs@.len() && 0 <= k < cs@[j].fields@.len() ==> #[trigger] cs@[j].fields@[k].ty
                < bound,
    }
}

/// Whether a whole registry is well formed: each entry references only
/// earlier entries.
pub open spec fn registry_wf(reg: Seq<TypeDef>) -> bool {
    forall|i: int| 0 <= i < reg.len() ==> td_refs_below(#[trigger] reg[i], i)
}

/// The registry of portable type definitions, indexed by [`TypeId`].
///
/// Construction enforces that every definition only references definitions
/// registered before it, which rules out recursive type cycles.
pub struct TypeRegistry {
    types: Vec<TypeDef>,
}

impl View for TypeRegistry {
    type V = Seq<TypeDef>;

    closed spec fn view(&self) -> Seq<TypeDef> {
        self.types@
    }
}

impl TypeRegistry {
    /// A registry is well formed by construction.
    pub open spec fn wf(&self) -> bool {
        registry_wf(self@)
    }

    /// An empty registry.
    pub fn new() -> (r: TypeRegistry)
        ensures
            r.wf(),
            r@ == Seq::<TypeDef>::empty(),
    {
        let r = TypeRegistry { types: Vec::new() };
        proof {
            assert(r@ =~= Seq::<TypeDef>::empty());
        }
        r
    }

    /// How many definitions the registry holds; also the next free id.
    pub fn len(&self) -> (n: usize)
        ensures
            n == self@.len(),
    {
        self.types.len()
    }

    /// Adds a definition under the next free id and reports that id, or
    /// refuses it when it references an id not registered yet (or a bad
    /// integer width), leaving the registry unchanged.
    pub fn register(&mut self, td: TypeDef) -> (r: Option<TypeId>)
        requires
            old(self).wf(),
            old(self)@.len() < 0xffff_ffff,
        ensures
            final(self).wf(),
            td_refs_below(td, old(self)@.len() as int) ==> r == Some(
                old(self)@.len() as TypeId,
            ) && final(self)@ == old(self)@.push(td),
            !td_refs_below(td, old(self)@.len() as int) ==> r is None && final(self)@ == old(
                self,
            )@,
    {
        let bound = self.types.len();
        if td_refs_ok(&td, bound) {
            let id = bound as u32;
            self.types.push(td);
            Some(id)
        } else {
            None
        }
    }

    /// Resolves an id to its definition; `None` for an id the registry does
    /// not hold.
    pub fn get(&self, id: TypeId) -> (r: Option<&TypeDef>)
        ensures
            id < self@.len() ==> r == Some(&self@[id as int]),
            id >= self@.len() ==> r is None,
    {
        if (id as usize) < self.types.len() {
            Some(&self.types[id as usize])
        } else {
            None
        }
    }
}

/// Runtime check matching [`td_refs_below`].
#[verifier::loop_isolation(false)]
fn td_refs_ok(td: &TypeDef, bound: usize) -> (r: bool)
    ensures
        r == td_refs_below(*td, bound as int),
{
    match td {
        TypeDef::Primitive(p) => {
            match p {
                PrimType::UInt(w) => *w == 8 || *w == 16 || *w == 32 || *w == 64 || *w == 128,
                PrimType::Int(w) => *w == 8 || *w == 16 || *w == 32 || *w == 64 || *w == 128,
                _ => true,
            }
        },
        TypeDef::Compact(inner) => (*inner as usize) < bound,
        TypeDef::Sequence(elem) => (*elem as usize) < bound,
        TypeDef::Tuple(ids) => {
            let mut j: usize = 0;
            while j < ids.len()
                invariant
                    j <= ids@.len(),
                    forall|t: int| 0 <= t < j ==> ids@[t] < bound,
                decreases ids@.len() - j,
            {
                if (ids[j] as usize) >= bound {
                    proof {
                        assert(ids@[j as int] >= bound);
                    }
                    return false;
                }
                j = j + 1;
            }
            true
        },
        TypeDef::Composite(fs) => {
            let mut j: usize = 0;
            while j < fs.len()
                invariant
                    j <= fs@.len(),
                    forall|t: int| 0 <= t < j ==> #[trigger] fs@[t].ty < bound,
                decreases fs@.len() - j,
            {
                if (fs[j].ty as usize) >= bound {
                    proof {
                        assert(fs@[j as int].ty >= bound);
                    }
                    return false;
                }
                j = j + 1;
            }
            true
        },
        TypeDef::Variant(cs) => {
            let mut j: usize = 0;
            while j < cs.len()
                invariant
                    j <= cs@.len(),
                    forall|t: int, k: int|
                        0 <= t < j && 0 <= k < cs@[t].fields@.len() ==> #[trigger] cs@[t].fields@[k].ty
                            < bound,
                decreases cs@.len() - j,
            {
                let case = &cs[j];
                let mut k: usize = 0;
                while k < case.fields.len()
                    invariant
                        k <= case.fields@.len(),
                        case == cs@[j as int],
                        j < cs@.len(),
                        forall|t: int| 0 <= t < k ==> #[trigger] case.fields@[t].ty < bound,
                    decreases case.fields@.len() - k,
                {
                    if (case.fields[k].ty as usize) >= bound {
                        proof {
                            assert(cs@[j as int].fields@[k as int].ty >= bound);
                        }
                        return false;
                    }
                    k = k + 1;
                }
                j = j + 1;
            }
            true
        },
    }
}

} // verus!
