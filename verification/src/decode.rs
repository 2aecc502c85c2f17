//! The value decoder: consumes bytes from a cursor according to a type
//! identifier resolved through the registry, and produces a [`Value`] tree.
//!
//! The spec functions here are the reference semantics of the format; the
//! executable decoder is proved to follow them byte-exactly.

use vstd::prelude::*;
use vstd::utf8::*;
use crate::compact::{compact_decode, decode_compact};
use crate::cursor::ByteCursor;
use crate::error::DecodeError;
use crate::num::{dec_str, le_to_nat, pow256};
use crate::registry::{CaseDef, FieldDef, PrimType, TypeDef, TypeRegistry, td_refs_below,
    registry_wf};
use crate::value::{Value, ValueModel, view_value, view_values, view_named_values};

verus! {

/// What decoding one primitive at `pos` yields.
pub open spec fn spec_decode_prim(p: PrimType, bytes: Seq<u8>, pos: int) -> Result<
    (ValueModel, int),
    DecodeError,
> {
    match p {
        PrimType::Bool => {
            if 0 <= pos < bytes.len() {
                if bytes[pos] == 0 {
                    Ok((ValueModel::Bool(false), pos + 1))
                } else if bytes[pos] == 1 {
                    Ok((ValueModel::Bool(true), pos + 1))
                } else {
                    Err(DecodeError::InvalidBool)
                }
            } else {
                Err(DecodeError::UnexpectedEndOfInput)
            }
        },
        PrimType::UInt(w) => {
            let n = w as int / 8;
            if 0 <= pos && pos + n <= bytes.len() {
                Ok((ValueModel::UInt(le_to_nat(bytes.subrange(pos, pos + n))), pos + n))
            } else {
                Err(DecodeError::UnexpectedEndOfInput)
            }
        },
        PrimType::Int(w) => {
            let n = w as int / 8;
            if 0 <= pos && pos + n <= bytes.len() {
                let v = le_to_nat(bytes.subrange(pos, pos + n));
                let signed: int = if v >= pow256(n as nat) / 2 {
                    v - pow256(n as nat)
                } else {
                    v as int
                };
                Ok((ValueModel::Int(signed), pos + n))
            } else {
                Err(DecodeError::UnexpectedEndOfInput)
            }
        },
        PrimType::Str => {
            match compact_decode(bytes, pos) {
                Ok((n, p2)) => {
                    if p2 + n <= bytes.len() {
                        let sl = bytes.subrange(p2, p2 + n);
                        if valid_utf8(sl) {
                            Ok((ValueModel::Str(decode_utf8(sl)), p2 + n))
                        } else {
                            Err(DecodeError::InvalidString)
                        }
                    } else {
                        Err(DecodeError::UnexpectedEndOfInput)
                    }
                },
                Err(e) => Err(e),
            }
        },
        PrimType::Char => {
            if 0 <= pos && pos + 4 <= bytes.len() {
                let v = le_to_nat(bytes.subrange(pos, pos + 4));
                if is_scalar(v as u32) {
                    Ok((ValueModel::Char((v as u32) as char), pos + 4))
                } else {
                    Err(DecodeError::InvalidString)
                }
            } else {
                Err(DecodeError::UnexpectedEndOfInput)
            }
        },
        PrimType::Bytes => {
            match compact_decode(bytes, pos) {
                Ok((n, p2)) => {
                    if p2 + n <= bytes.len() {
                        Ok((ValueModel::Bytes(bytes.subrange(p2, p2 + n)), p2 + n))
                    } else {
                        Err(DecodeError::UnexpectedEndOfInput)
                    }
                },
                Err(e) => Err(e),
            }
        },
    }
}

/// Fixed-width primitive round trip: decoding an unsigned integer of any
/// accepted width from exactly its bytes and re-encoding the value at the
/// same length yields the original bytes; a signed decode differs from
/// the unsigned reading only by a multiple of `256^n`, so it re-encodes
/// to the same bytes as well.
pub proof fn lemma_primitive_round_trip(w: u32, bytes: Seq<u8>)
    requires
        crate::registry::width_ok(w),
        bytes.len() == w as int / 8,
    ensures
        spec_decode_prim(PrimType::UInt(w), bytes, 0) == Ok::<(ValueModel, int), DecodeError>(
            (ValueModel::UInt(le_to_nat(bytes)), bytes.len() as int),
        ),
        crate::num::le_bytes_of(le_to_nat(bytes), bytes.len() as nat) == bytes,
        ({
            &&& spec_decode_prim(PrimType::Int(w), bytes, 0) matches Ok(vp)
            &&& vp.1 == bytes.len()
            &&& vp.0 matches ValueModel::Int(s)
            &&& (s % (pow256(bytes.len() as nat) as int)) == le_to_nat(bytes)
        }),
{
    assert(bytes.subrange(0, bytes.len() as int) =~= bytes);
    crate::num::lemma_le_round_trip(bytes);
    crate::num::lemma_le_to_nat_bound(bytes);
    let n = bytes.len() as nat;
    let p = pow256(n) as int;
    let v = le_to_nat(bytes) as int;
    crate::num::lemma_pow256_pos(n);
    if v >= p / 2 {
        assert((v - p) % p == v % p) by (nonlinear_arith)
            requires
                p >= 1,
        ;
    }
    assert(v % p == v) by (nonlinear_arith)
        requires
            0 <= v < p,
    ;
}

/// How many of the first `j` fields are unnamed.
pub open spec fn unnamed_before(fs: Seq<FieldDef>, j: int) -> int
    decreases j,
{
    if j <= 0 {
        0
    } else {
        unnamed_before(fs, j - 1) + (if fs[j - 1].name is None {
            1int
        } else {
            0int
        })
    }
}

proof fn lemma_unnamed_before_shift(fs: Seq<FieldDef>, j: int)
    requires
        1 <= j <= fs.len(),
    ensures
        unnamed_before(fs, j) == (if fs[0].name is None {
            1int
        } else {
            0int
        }) + unnamed_before(fs.subrange(1, fs.len() as int), j - 1),
    decreases j,
{
    let tail = fs.subrange(1, fs.len() as int);
    if j > 1 {
        lemma_unnamed_before_shift(fs, j - 1);
        assert(tail[j - 2] == fs[j - 1]);
        assert(unnamed_before(tail, j - 1) == unnamed_before(tail, j - 2) + (
        if tail[j - 2].name is None {
            1int
        } else {
            0int
        }));
    } else {
        assert(unnamed_before(fs, 0) == 0);
        assert(unnamed_before(tail, 0) == 0);
        assert(unnamed_before(fs, 1) == unnamed_before(fs, 0) + (if fs[0].name is None {
            1int
        } else {
            0int
        }));
    }
}

/// Positional naming of composite fields: when a field list decodes, each
/// named field keeps its declared name, and each unnamed field is named
/// by the decimal count of unnamed fields before it (offset by the
/// starting counter), regardless of how named and unnamed fields
/// interleave.  With a zero counter the unnamed fields read "0", "1", ...
/// in declaration order.
pub proof fn lemma_composite_field_names(
    reg: Seq<TypeDef>,
    fs: Seq<FieldDef>,
    bound: int,
    bytes: Seq<u8>,
    pos: int,
    ctr: nat,
)
    ensures
        spec_decode_fields(reg, fs, bound, bytes, pos, ctr) matches Ok(vp) ==> vp.0.len()
            == fs.len() && (forall|j: int|
            0 <= j < fs.len() ==> (#[trigger] vp.0[j]).0 == (if fs[j].name is Some {
                fs[j].name->Some_0@
            } else {
                dec_str((ctr + unnamed_before(fs, j)) as nat)
            })),
    decreases fs.len(),
{
    if fs.len() > 0 && fs[0].ty < bound {
        let d0 = spec_decode(reg, fs[0].ty as int, bytes, pos);
        if d0 is Ok {
            let vp0 = d0->Ok_0;
            let tail = fs.subrange(1, fs.len() as int);
            let ctr2: nat = if fs[0].name is Some {
                ctr
            } else {
                ctr + 1
            };
            lemma_composite_field_names(reg, tail, bound, bytes, vp0.1, ctr2);
            let dt = spec_decode_fields(reg, tail, bound, bytes, vp0.1, ctr2);
            if dt is Ok {
                let vpt = dt->Ok_0;
                let vp = spec_decode_fields(reg, fs, bound, bytes, pos, ctr)->Ok_0;
                assert forall|j: int| 0 <= j < fs.len() implies (#[trigger] vp.0[j]).0 == (
                if fs[j].name is Some {
                    fs[j].name->Some_0@
                } else {
                    dec_str((ctr + unnamed_before(fs, j)) as nat)
                }) by {
                    if j > 0 {
                        assert(vp.0[j] == vpt.0[j - 1]);
                        assert(tail[j - 1] == fs[j]);
                        lemma_unnamed_before_shift(fs, j);
                    }
                }
            }
        }
    }
}

/// Tagged-union decoding is closed: a discriminant byte that no case of
/// the table claims always yields `UnknownVariant`, never a
/// silently-wrong case.
pub proof fn lemma_unknown_variant(reg: Seq<TypeDef>, id: int, bytes: Seq<u8>, pos: int)
    requires
        0 <= id < reg.len(),
        reg[id] is Variant,
        0 <= pos < bytes.len(),
        forall|j: int|
            0 <= j < reg[id]->Variant_0@.len() ==> (#[trigger] reg[id]->Variant_0@[j]).disc
                != bytes[pos],
    ensures
        spec_decode(reg, id, bytes, pos) == Err::<(ValueModel, int), DecodeError>(
            DecodeError::UnknownVariant,
        ),
{
    let cs = reg[id]->Variant_0@;
    lemma_find_case_prefix(cs, bytes[pos], cs.len() as int);
    assert(cs.subrange(cs.len() as int, cs.len() as int).len() == 0);
}

/// The first case whose discriminant byte is `d`, if any.
pub open spec fn spec_find_case(cs: Seq<CaseDef>, d: u8) -> Option<CaseDef>
    decreases cs.len(),
{
    if cs.len() == 0 {
        None
    } else if cs[0].disc == d {
        Some(cs[0])
    } else {
        spec_find_case(cs.subrange(1, cs.len() as int), d)
    }
}

/// Prepends already-decoded values to the rest of a sequence decode.
pub open spec fn prepend_values(vs: Seq<ValueModel>, r: Result<(Seq<ValueModel>, int), DecodeError>) -> Result<
    (Seq<ValueModel>, int),
    DecodeError,
> {
    match r {
        Ok(rest) => Ok((vs + rest.0, rest.1)),
        Err(e) => Err(e),
    }
}

/// Prepends already-decoded named values to the rest of a field-list
/// decode.
pub open spec fn prepend_named(
    vs: Seq<(Seq<char>, ValueModel)>,
    r: Result<(Seq<(Seq<char>, ValueModel)>, int), DecodeError>,
) -> Result<(Seq<(Seq<char>, ValueModel)>, int), DecodeError> {
    match r {
        Ok(rest) => Ok((vs + rest.0, rest.1)),
        Err(e) => Err(e),
    }
}

/// What decoding the type `id` at `pos` yields: the value and the position
/// after it, or the first error met.
///
/// Recursion is guarded by the registry's construction invariant that a
/// definition only references earlier ids; a forward or out-of-range
/// reference reads as an unknown type.
pub open spec fn spec_decode(reg: Seq<TypeDef>, id: int, bytes: Seq<u8>, pos: int) -> Result<
    (ValueModel, int),
    DecodeError,
>
    decreases id, 2int, 0int,
{
    if !(0 <= id < reg.len()) {
        Err(DecodeError::UnknownType)
    } else {
        match reg[id] {
            TypeDef::Primitive(p) => spec_decode_prim(p, bytes, pos),
            TypeDef::Compact(_) => {
                match compact_decode(bytes, pos) {
                    Ok(vp) => Ok((ValueModel::UInt(vp.0), vp.1)),
                    Err(e) => Err(e),
                }
            },
            TypeDef::Sequence(elem) => {
                if elem < id {
                    match compact_decode(bytes, pos) {
                        Ok(np) => {
                            match spec_decode_many(reg, elem as int, np.0, bytes, np.1) {
                                Ok(vs) => Ok((ValueModel::List(vs.0), vs.1)),
                                Err(e) => Err(e),
                            }
                        },
                        Err(e) => Err(e),
                    }
                } else {
                    Err(DecodeError::UnknownType)
                }
            },
            TypeDef::Tuple(ids) => {
                if ids@.len() == 0 {
                    Ok((ValueModel::Unit, pos))
                } else {
                    match spec_decode_tuple(reg, ids@, id, bytes, pos) {
                        Ok(vs) => Ok((ValueModel::Tuple(vs.0), vs.1)),
                        Err(e) => Err(e),
                    }
                }
            },
            TypeDef::Composite(fs) => {
                match spec_decode_fields(reg, fs@, id, bytes, pos, 0) {
                    Ok(nvs) => Ok((ValueModel::Composite(nvs.0), nvs.1)),
                    Err(e) => Err(e),
                }
            },
            TypeDef::Variant(cs) => {
                if 0 <= pos < bytes.len() {
                    match spec_find_case(cs@, bytes[pos]) {
                        Some(case) => {
                            match spec_decode_fields(reg, case.fields@, id, bytes, pos + 1, 0) {
                                Ok(nvs) => Ok((ValueModel::Variant(case.name@, nvs.0), nvs.1)),
                                Err(e) => Err(e),
                            }
                        },
                        None => Err(DecodeError::UnknownVariant),
                    }
                } else {
                    Err(DecodeError::UnexpectedEndOfInput)
                }
            },
        }
    }
}

/// What decoding `n` values of the element type `elem` in order yields.
pub open spec fn spec_decode_many(reg: Seq<TypeDef>, elem: int, n: nat, bytes: Seq<u8>, pos: int) -> Result<
    (Seq<ValueModel>, int),
    DecodeError,
>
    decreases elem + 1, 0int, n,
{
    if n == 0 {
        Ok((Seq::empty(), pos))
    } else if !(0 <= elem < reg.len()) {
        Err(DecodeError::UnknownType)
    } else {
        match spec_decode(reg, elem, bytes, pos) {
            Ok(vp) => prepend_values(
                seq![vp.0],
                spec_decode_many(reg, elem, (n - 1) as nat, bytes, vp.1),
            ),
            Err(e) => Err(e),
        }
    }
}

/// What decoding the listed type ids in order yields.
pub open spec fn spec_decode_tuple(
    reg: Seq<TypeDef>,
    ids: Seq<u32>,
    bound: int,
    bytes: Seq<u8>,
    pos: int,
) -> Result<(Seq<ValueModel>, int), DecodeError>
    decreases bound, 0int, ids.len(),
{
    if ids.len() == 0 {
        Ok((Seq::empty(), pos))
    } else if !(ids[0] < bound) {
        Err(DecodeError::UnknownType)
    } else {
        match spec_decode(reg, ids[0] as int, bytes, pos) {
            Ok(vp) => prepend_values(
                seq![vp.0],
                spec_decode_tuple(reg, ids.subrange(1, ids.len() as int), bound, bytes, vp.1),
            ),
            Err(e) => Err(e),
        }
    }
}

/// What decoding a field list in declared order yields, naming each field
/// by its declared name or, when it has none, by the running count `ctr`
/// of unnamed fields seen so far, in decimal.
pub open spec fn spec_decode_fields(
    reg: Seq<TypeDef>,
    fs: Seq<FieldDef>,
    bound: int,
    bytes: Seq<u8>,
    pos: int,
    ctr: nat,
) -> Result<(Seq<(Seq<char>, ValueModel)>, int), DecodeError>
    decreases bound, 0int, fs.len(),
{
    if fs.len() == 0 {
        Ok((Seq::empty(), pos))
    } else if !(fs[0].ty < bound) {
        Err(DecodeError::UnknownType)
    } else {
        match spec_decode(reg, fs[0].ty as int, bytes, pos) {
            Ok(vp) => {
                let name: Seq<char> = match fs[0].name {
                    Some(n) => n@,
                    None => dec_str(ctr),
                };
                let ctr2: nat = if fs[0].name is Some {
                    ctr
                } else {
                    ctr + 1
                };
                prepend_named(
                    seq![(name, vp.0)],
                    spec_decode_fields(
                        reg,
                        fs.subrange(1, fs.len() as int),
                        bound,
                        bytes,
                        vp.1,
                        ctr2,
                    ),
                )
            },
            Err(e) => Err(e),
        }
    }
}

pub proof fn lemma_find_case_prefix(cs: Seq<CaseDef>, d: u8, j: int)
    requires
        0 <= j <= cs.len(),
        forall|t: int| 0 <= t < j ==> #[trigger] cs[t].disc != d,
    ensures
        spec_find_case(cs, d) == spec_find_case(cs.subrange(j, cs.len() as int), d),
    decreases j,
{
    if j > 0 {
        assert(cs[0].disc != d);
        let tail = cs.subrange(1, cs.len() as int);
        assert(forall|t: int| 0 <= t < j - 1 ==> #[trigger] tail[t].disc != d);
        lemma_find_case_prefix(tail, d, j - 1);
        assert(tail.subrange(j - 1, tail.len() as int) =~= cs.subrange(j, cs.len() as int));
    } else {
        assert(cs.subrange(0, cs.len() as int) =~= cs);
    }
}

/// A found case is one of the table's cases.
pub proof fn lemma_find_case_mem(cs: Seq<CaseDef>, d: u8)
    ensures
        spec_find_case(cs, d) matches Some(case) ==> exists|j: int|
            0 <= j < cs.len() && cs[j] == case,
    decreases cs.len(),
{
    if cs.len() > 0 && cs[0].disc != d {
        let tail = cs.subrange(1, cs.len() as int);
        lemma_find_case_mem(tail, d);
        if spec_find_case(tail, d) is Some {
            let case = spec_find_case(tail, d)->Some_0;
            let j = choose|j: int| 0 <= j < tail.len() && tail[j] == case;
            assert(cs[j + 1] == case);
        }
    }
}

/// Looks the discriminant byte up in the case table.
fn find_case<'a>(cs: &'a Vec<CaseDef>, d: u8) -> (r: Option<&'a CaseDef>)
    ensures
        spec_find_case(cs@, d) matches Some(case) ==> r matches Some(found) && *found == case,
        spec_find_case(cs@, d) is None ==> r is None,
{
    let mut j: usize = 0;
    while j < cs.len()
        invariant
            j <= cs@.len(),
            forall|t: int| 0 <= t < j ==> #[trigger] cs@[t].disc != d,
        decreases cs@.len() - j,
    {
        if cs[j].disc == d {
            proof {
                lemma_find_case_prefix(cs@, d, j as int);
                assert(cs@.subrange(j as int, cs@.len() as int)[0] == cs@[j as int]);
            }
            return Some(&cs[j]);
        }
        j = j + 1;
    }
    proof {
        lemma_find_case_prefix(cs@, d, cs@.len() as int);
        assert(cs@.subrange(cs@.len() as int, cs@.len() as int).len() == 0);
    }
    None
}

/// Decodes one primitive value off the cursor.
#[verifier::rlimit(60)]
pub fn decode_prim(c: &mut ByteCursor, p: &PrimType) -> (r: Result<Value, DecodeError>)
    requires
        old(c).wf(),
        crate::registry::prim_wf(*p),
    ensures
        final(c).wf(),
        final(c).bytes@ == old(c).bytes@,
        spec_decode_prim(*p, old(c).bytes@, old(c).pos as int) matches Ok(vp) ==> (
        r matches Ok(v) && v@ == vp.0 && final(c).pos == vp.1),
        spec_decode_prim(*p, old(c).bytes@, old(c).pos as int) matches Err(e) ==> r == Err::<
            Value,
            DecodeError,
        >(e),
{
    match p {
        PrimType::Bool => {
            match c.read_byte() {
                None => Err(DecodeError::UnexpectedEndOfInput),
                Some(0) => Ok(Value::Bool(false)),
                Some(1) => Ok(Value::Bool(true)),
                Some(_) => Err(DecodeError::InvalidBool),
            }
        },
        PrimType::UInt(w) => {
            let n = (*w as usize) / 8;
            proof {
                crate::num::lemma_le_to_nat_bound(
                    old(c).bytes@.subrange(old(c).pos as int, old(c).pos + n as int),
                );
                crate::num::lemma_pow256_mono(n as nat, 16);
                assert(pow256(16) == 0x100000000000000000000000000000000) by {
                    reveal_with_fuel(pow256, 17);
                }
            }
            match c.read_le(n) {
                Some(v) => Ok(Value::UInt(v)),
                None => Err(DecodeError::UnexpectedEndOfInput),
            }
        },
        PrimType::Int(w) => {
            let n = (*w as usize) / 8;
            let ghost window = old(c).bytes@.subrange(old(c).pos as int, old(c).pos + n as int);
            proof {
                crate::num::lemma_le_to_nat_bound(window);
                crate::num::lemma_pow256_mono(n as nat, 16);
                assert(pow256(16) == 0x100000000000000000000000000000000) by {
                    reveal_with_fuel(pow256, 17);
                }
            }
            match c.read_le(n) {
                None => Err(DecodeError::UnexpectedEndOfInput),
                Some(v) => {
                    if n < 16 {
                        let pw = crate::num::pow256_u128(n);
                        if v >= pw / 2 {
                            let d = pw - v;
                            Ok(Value::Int(-(d as i128)))
                        } else {
                            Ok(Value::Int(v as i128))
                        }
                    } else {
                        if v >= 0x80000000000000000000000000000000u128 {
                            let d = (u128::MAX - v) as i128;
                            Ok(Value::Int(-1 - d))
                        } else {
                            Ok(Value::Int(v as i128))
                        }
                    }
                },
            }
        },
        PrimType::Str => {
            let n128 = match decode_compact(c) {
                Ok(n) => n,
                Err(e) => { return Err(e) },
            };
            proof {
                crate::compact::lemma_compact_value_fits(old(c).bytes@, old(c).pos as int);
            }
            let rem = c.remaining();
            if n128 > rem as u128 {
                return Err(DecodeError::UnexpectedEndOfInput);
            }
            let n = n128 as usize;
            match c.read_bytes(n) {
                None => Err(DecodeError::UnexpectedEndOfInput),
                Some(bv) => {
                    match crate::strconv::utf8_to_string(bv) {
                        Some(s) => Ok(Value::Str(s)),
                        None => Err(DecodeError::InvalidString),
                    }
                },
            }
        },
        PrimType::Char => {
            let ghost window = old(c).bytes@.subrange(old(c).pos as int, old(c).pos + 4);
            proof {
                crate::num::lemma_le_to_nat_bound(window);
                assert(pow256(4) == 0x100000000) by {
                    reveal_with_fuel(pow256, 5);
                }
            }
            match c.read_le(4) {
                None => Err(DecodeError::UnexpectedEndOfInput),
                Some(v) => {
                    let v32 = v as u32;
                    match crate::strconv::char_of_u32(v32) {
                        Some(ch) => Ok(Value::Char(ch)),
                        None => Err(DecodeError::InvalidString),
                    }
                },
            }
        },
        PrimType::Bytes => {
            let n128 = match decode_compact(c) {
                Ok(n) => n,
                Err(e) => { return Err(e) },
            };
            proof {
                crate::compact::lemma_compact_value_fits(old(c).bytes@, old(c).pos as int);
            }
            let rem = c.remaining();
            if n128 > rem as u128 {
                return Err(DecodeError::UnexpectedEndOfInput);
            }
            let n = n128 as usize;
            match c.read_bytes(n) {
                None => Err(DecodeError::UnexpectedEndOfInput),
                Some(bv) => Ok(Value::Bytes(bv)),
            }
        },
    }
}

/// Decodes each field of a field list in declared order, naming unnamed
/// fields by a running decimal counter.
#[verifier::rlimit(100)]
#[verifier::loop_isolation(false)]
fn decode_fields(c: &mut ByteCursor, fs: &Vec<FieldDef>, bound: u32, reg: &TypeRegistry) -> (r:
    Result<Vec<(String, Value)>, DecodeError>)
    requires
        old(c).wf(),
        reg.wf(),
        bound as int <= reg@.len(),
        forall|t: int| 0 <= t < fs@.len() ==> #[trigger] fs@[t].ty < bound,
    ensures
        final(c).wf(),
        final(c).bytes@ == old(c).bytes@,
        spec_decode_fields(reg@, fs@, bound as int, old(c).bytes@, old(c).pos as int, 0) matches Ok(
            vp,
        ) ==> (r matches Ok(v) && view_named_values(v@) == vp.0 && final(c).pos == vp.1),
        spec_decode_fields(reg@, fs@, bound as int, old(c).bytes@, old(c).pos as int, 0)
            matches Err(e) ==> r == Err::<Vec<(String, Value)>, DecodeError>(e),
    decreases bound, 0int, 0int,
{
    let ghost full = spec_decode_fields(
        reg@,
        fs@,
        bound as int,
        old(c).bytes@,
        old(c).pos as int,
        0,
    );
    let mut out: Vec<(String, Value)> = Vec::new();
    let mut j: usize = 0;
    let mut ctr: u64 = 0;
    proof {
        assert(fs@.subrange(0, fs@.len() as int) =~= fs@);
        if full is Ok {
            assert(Seq::<(Seq<char>, ValueModel)>::empty() + full->Ok_0.0 =~= full->Ok_0.0);
        }
    }
    while j < fs.len()
        invariant
            c.wf(),
            c.bytes@ == old(c).bytes@,
            j <= fs@.len(),
            ctr <= j,
            full == prepend_named(
                view_named_values(out@),
                spec_decode_fields(
                    reg@,
                    fs@.subrange(j as int, fs@.len() as int),
                    bound as int,
                    old(c).bytes@,
                    c.pos as int,
                    ctr as nat,
                ),
            ),
        decreases fs@.len() - j,
    {
        let ghost sub = fs@.subrange(j as int, fs@.len() as int);
        let ghost rest = spec_decode_fields(
            reg@,
            sub,
            bound as int,
            old(c).bytes@,
            c.pos as int,
            ctr as nat,
        );
        proof {
            assert(sub[0] == fs@[j as int]);
            assert(fs@[j as int].ty < bound);
        }
        let f = &fs[j];
        let v = match decode_value(c, f.ty, reg) {
            Ok(v) => v,
            Err(e) => {
                proof {
                    assert(rest == Err::<(Seq<(Seq<char>, ValueModel)>, int), DecodeError>(e));
                }
                return Err(e);
            },
        };
        let name: String = match &f.name {
            Some(n) => n.clone(),
            None => {
                let s = crate::num::u128_to_dec(ctr as u128);
                ctr = ctr + 1;
                s
            },
        };
        let ghost pre_out = out@;
        let ghost nv = (name, v);
        out.push((name, v));
        j = j + 1;
        proof {
            crate::value::lemma_view_named_values_push(pre_out, nv);
            assert(sub.subrange(1, sub.len() as int) =~= fs@.subrange(j as int, fs@.len() as int));
            let rest2 = spec_decode_fields(
                reg@,
                fs@.subrange(j as int, fs@.len() as int),
                bound as int,
                old(c).bytes@,
                c.pos as int,
                ctr as nat,
            );
            assert(rest == prepend_named(seq![(nv.0@, view_value(nv.1))], rest2));
            if rest2 is Ok {
                assert(view_named_values(pre_out) + (seq![(nv.0@, view_value(nv.1))]
                    + rest2->Ok_0.0) =~= view_named_values(out@) + rest2->Ok_0.0);
            }
        }
    }
    proof {
        let rest0 = spec_decode_fields(
            reg@,
            fs@.subrange(j as int, fs@.len() as int),
            bound as int,
            old(c).bytes@,
            c.pos as int,
            ctr as nat,
        );
        assert(fs@.subrange(fs@.len() as int, fs@.len() as int).len() == 0);
        assert(rest0 == Ok::<(Seq<(Seq<char>, ValueModel)>, int), DecodeError>(
            (Seq::empty(), c.pos as int),
        ));
        assert(view_named_values(out@) + Seq::<(Seq<char>, ValueModel)>::empty()
            =~= view_named_values(out@));
    }
    Ok(out)
}

/// Decodes one value of the type `id` off the cursor.
///
/// The decode is deterministic: it yields exactly what the format's
/// reference semantics [`spec_decode`] says, value and consumed bytes
/// alike, or the same error.
#[verifier::rlimit(100)]
#[verifier::loop_isolation(false)]
pub fn decode_value(c: &mut ByteCursor, id: crate::registry::TypeId, reg: &TypeRegistry) -> (r:
    Result<Value, DecodeError>)
    requires
        old(c).wf(),
        reg.wf(),
    ensures
        final(c).wf(),
        final(c).bytes@ == old(c).bytes@,
        spec_decode(reg@, id as int, old(c).bytes@, old(c).pos as int) matches Ok(vp) ==> (
        r matches Ok(v) && v@ == vp.0 && final(c).pos == vp.1),
        spec_decode(reg@, id as int, old(c).bytes@, old(c).pos as int) matches Err(e) ==> r
            == Err::<Value, DecodeError>(e),
    decreases id, 2int, 0int,
{
    let td = match reg.get(id) {
        Some(td) => td,
        None => { return Err(DecodeError::UnknownType) },
    };
    proof {
        assert(td_refs_below(reg@[id as int], id as int));
    }
    match td {
        TypeDef::Primitive(p) => decode_prim(c, p),
        TypeDef::Compact(_) => {
            proof {
                crate::compact::lemma_compact_value_fits(old(c).bytes@, old(c).pos as int);
            }
            match decode_compact(c) {
                Ok(v) => Ok(Value::UInt(v)),
                Err(e) => Err(e),
            }
        },
        TypeDef::Sequence(elem) => {
            let elem = *elem;
            proof {
                crate::compact::lemma_compact_value_fits(old(c).bytes@, old(c).pos as int);
            }
            let n = match decode_compact(c) {
                Ok(n) => n,
                Err(e) => { return Err(e) },
            };
            let ghost p1 = c.pos as int;
            proof {
                let cd = compact_decode(old(c).bytes@, old(c).pos as int);
                assert(cd is Ok);
                assert(n as nat == cd->Ok_0.0);
                assert(p1 == cd->Ok_0.1);
                assert(elem < id);
            }
            let mut out: Vec<Value> = Vec::new();
            let mut i: u128 = 0;
            proof {
                let rest0 = spec_decode_many(reg@, elem as int, n as nat, old(c).bytes@, p1);
                if rest0 is Ok {
                    assert(Seq::<ValueModel>::empty() + rest0->Ok_0.0 =~= rest0->Ok_0.0);
                }
            }
            while i < n
                invariant
                    c.wf(),
                    c.bytes@ == old(c).bytes@,
                    i <= n,
                    spec_decode_many(reg@, elem as int, n as nat, old(c).bytes@, p1)
                        == prepend_values(
                        view_values(out@),
                        spec_decode_many(
                            reg@,
                            elem as int,
                            (n - i) as nat,
                            old(c).bytes@,
                            c.pos as int,
                        ),
                    ),
                decreases n - i,
            {
                let ghost rest = spec_decode_many(
                    reg@,
                    elem as int,
                    (n - i) as nat,
                    old(c).bytes@,
                    c.pos as int,
                );
                let v = match decode_value(c, elem, reg) {
                    Ok(v) => v,
                    Err(e) => {
                        proof {
                            assert(rest == Err::<(Seq<ValueModel>, int), DecodeError>(e));
                        }
                        return Err(e);
                    },
                };
                let ghost pre_out = out@;
                out.push(v);
                i = i + 1;
                proof {
                    crate::value::lemma_view_values_push(pre_out, v);
                    let rest2 = spec_decode_many(
                        reg@,
                        elem as int,
                        (n - i) as nat,
                        old(c).bytes@,
                        c.pos as int,
                    );
                    assert(rest == prepend_values(seq![view_value(v)], rest2));
                    if rest2 is Ok {
                        assert(view_values(pre_out) + (seq![view_value(v)] + rest2->Ok_0.0)
                            =~= view_values(out@) + rest2->Ok_0.0);
                    }
                }
            }
            proof {
                let many0 = spec_decode_many(
                    reg@,
                    elem as int,
                    (n - i) as nat,
                    old(c).bytes@,
                    c.pos as int,
                );
                assert(many0 == Ok::<(Seq<ValueModel>, int), DecodeError>(
                    (Seq::empty(), c.pos as int),
                ));
                assert(view_values(out@) + Seq::<ValueModel>::empty() =~= view_values(out@));
            }
            Ok(Value::List(out))
        },
        TypeDef::Tuple(ids) => {
            if ids.len() == 0 {
                return Ok(Value::Unit);
            }
            let ghost p0 = c.pos as int;
            let mut out: Vec<Value> = Vec::new();
            let mut j: usize = 0;
            proof {
                assert(ids@.subrange(0, ids@.len() as int) =~= ids@);
                let rest0 = spec_decode_tuple(reg@, ids@, id as int, old(c).bytes@, p0);
                if rest0 is Ok {
                    assert(Seq::<ValueModel>::empty() + rest0->Ok_0.0 =~= rest0->Ok_0.0);
                }
            }
            while j < ids.len()
                invariant
                    c.wf(),
                    c.bytes@ == old(c).bytes@,
                    j <= ids@.len(),
                    spec_decode_tuple(reg@, ids@, id as int, old(c).bytes@, p0) == prepend_values(
                        view_values(out@),
                        spec_decode_tuple(
                            reg@,
                            ids@.subrange(j as int, ids@.len() as int),
                            id as int,
                            old(c).bytes@,
                            c.pos as int,
                        ),
                    ),
                decreases ids@.len() - j,
            {
                let ghost sub = ids@.subrange(j as int, ids@.len() as int);
                let ghost rest = spec_decode_tuple(
                    reg@,
                    sub,
                    id as int,
                    old(c).bytes@,
                    c.pos as int,
                );
                proof {
                    assert(sub[0] == ids@[j as int]);
                    assert(ids@[j as int] < id);
                }
                let v = match decode_value(c, ids[j], reg) {
                    Ok(v) => v,
                    Err(e) => {
                        proof {
                            assert(rest == Err::<(Seq<ValueModel>, int), DecodeError>(e));
                        }
                        return Err(e);
                    },
                };
                let ghost pre_out = out@;
                out.push(v);
                j = j + 1;
                proof {
                    crate::value::lemma_view_values_push(pre_out, v);
                    assert(sub.subrange(1, sub.len() as int) =~= ids@.subrange(
                        j as int,
                        ids@.len() as int,
                    ));
                    let rest2 = spec_decode_tuple(
                        reg@,
                        ids@.subrange(j as int, ids@.len() as int),
                        id as int,
                        old(c).bytes@,
                        c.pos as int,
                    );
                    assert(rest == prepend_values(seq![view_value(v)], rest2));
                    if rest2 is Ok {
                        assert(view_values(pre_out) + (seq![view_value(v)] + rest2->Ok_0.0)
                            =~= view_values(out@) + rest2->Ok_0.0);
                    }
                }
            }
            proof {
                let rest0 = spec_decode_tuple(
                    reg@,
                    ids@.subrange(j as int, ids@.len() as int),
                    id as int,
                    old(c).bytes@,
                    c.pos as int,
                );
                assert(ids@.subrange(ids@.len() as int, ids@.len() as int).len() == 0);
                assert(rest0 == Ok::<(Seq<ValueModel>, int), DecodeError>(
                    (Seq::empty(), c.pos as int),
                ));
                assert(view_values(out@) + Seq::<ValueModel>::empty() =~= view_values(out@));
            }
            Ok(Value::Tuple(out))
        },
        TypeDef::Composite(fs) => {
            match decode_fields(c, fs, id, reg) {
                Ok(nvs) => Ok(Value::Composite(nvs)),
                Err(e) => Err(e),
            }
        },
        TypeDef::Variant(cs) => {
            let d = match c.read_byte() {
                Some(d) => d,
                None => { return Err(DecodeError::UnexpectedEndOfInput) },
            };
            match find_case(cs, d) {
                Some(case) => {
                    proof {
                        lemma_find_case_mem(cs@, d);
                        let jj = choose|jj: int|
                            0 <= jj < cs@.len() && cs@[jj] == spec_find_case(cs@, d)->Some_0;
                        assert(cs@[jj] == *case);
                        assert forall|k: int|
                            0 <= k < case.fields@.len() implies #[trigger] case.fields@[k].ty
                            < id by {
                            assert(cs@[jj].fields@[k].ty < id);
                        };
                    }
                    match decode_fields(c, &case.fields, id, reg) {
                        Ok(nvs) => Ok(Value::Variant(case.name.clone(), nvs)),
                        Err(e) => Err(e),
                    }
                },
                None => Err(DecodeError::UnknownVariant),
            }
        },
    }
}

} // verus!
