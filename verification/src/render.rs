//! Rendering of decoded values to display text: composites as
//! `{name: value, ...}`, sequences as `[v, v, ...]`, tuples as
//! `(v, v, ...)`, bytes as `0x`-prefixed lowercase hex.

use vstd::prelude::*;
use crate::hexstr::{hex_encode, hex_of};
use crate::num::{dec_str, int_dec_str};
use crate::strconv::char_to_string;
use crate::value::{Value, ValueModel, view_value, view_values, view_named_values,
    lemma_view_values_len, lemma_view_named_values_len};

verus! {

/// The display text of a value.
pub open spec fn render_model(v: ValueModel) -> Seq<char>
    decreases v,
{
    match v {
        ValueModel::Unit => "()"@,
        ValueModel::Bool(b) => if b {
            "true"@
        } else {
            "false"@
        },
        ValueModel::UInt(u) => dec_str(u),
        ValueModel::Int(i) => int_dec_str(i),
        ValueModel::Char(c) => seq![c],
        ValueModel::Str(s) => s,
        ValueModel::Bytes(b) => "0x"@ + hex_of(b),
        ValueModel::List(vs) => "["@ + render_joined(vs) + "]"@,
        ValueModel::Tuple(vs) => "("@ + render_joined(vs) + ")"@,
        ValueModel::Composite(nvs) => "{"@ + render_named_joined(nvs) + "}"@,
        ValueModel::Variant(n, nvs) => n + "{"@ + render_named_joined(nvs) + "}"@,
    }
}

/// The display text of a list of values, comma separated.
pub open spec fn render_joined(vs: Seq<ValueModel>) -> Seq<char>
    decreases vs,
{
    if vs.len() == 0 {
        Seq::empty()
    } else {
        render_model(vs[0]) + render_items(vs.subrange(1, vs.len() as int))
    }
}

/// The display text of trailing list items, each preceded by a comma.
pub open spec fn render_items(vs: Seq<ValueModel>) -> Seq<char>
    decreases vs,
{
    if vs.len() == 0 {
        Seq::empty()
    } else {
        ", "@ + render_model(vs[0]) + render_items(vs.subrange(1, vs.len() as int))
    }
}

/// The display text of one named value.
pub open spec fn render_named_one(nv: (Seq<char>, ValueModel)) -> Seq<char>
    decreases nv,
{
    nv.0 + ": "@ + render_model(nv.1)
}

/// The display text of a list of named values, comma separated.
pub open spec fn render_named_joined(nvs: Seq<(Seq<char>, ValueModel)>) -> Seq<char>
    decreases nvs,
{
    if nvs.len() == 0 {
        Seq::empty()
    } else {
        render_named_one(nvs[0]) + render_named_items(nvs.subrange(1, nvs.len() as int))
    }
}

/// The display text of trailing named items, each preceded by a comma.
pub open spec fn render_named_items(nvs: Seq<(Seq<char>, ValueModel)>) -> Seq<char>
    decreases nvs,
{
    if nvs.len() == 0 {
        Seq::empty()
    } else {
        ", "@ + render_named_one(nvs[0]) + render_named_items(nvs.subrange(1, nvs.len() as int))
    }
}

/// Renders a value to its display text.
#[verifier::rlimit(100)]
#[verifier::loop_isolation(false)]
pub fn render_value(v: &Value) -> (r: String)
    ensures
        r@ == render_model(v@),
    decreases *v,
{
    match v {
        Value::Unit => String::from_str("()"),
        Value::Bool(b) => {
            if *b {
                String::from_str("true")
            } else {
                String::from_str("false")
            }
        },
        Value::UInt(u) => crate::num::u128_to_dec(*u),
        Value::Int(i) => crate::num::i128_to_dec(*i),
        Value::Char(c) => char_to_string(*c),
        Value::Str(s) => s.clone(),
        Value::Bytes(b) => {
            let mut out = String::from_str("0x");
            let h = hex_encode(b);
            out.append(h.as_str());
            out
        },
        Value::List(vs) => {
            let mut out = String::from_str("[");
            let inner = render_values(vs);
            out.append(inner.as_str());
            out.append("]");
            proof {
                assert(out@ =~= render_model(v@));
            }
            out
        },
        Value::Tuple(vs) => {
            let mut out = String::from_str("(");
            let inner = render_values(vs);
            out.append(inner.as_str());
            out.append(")");
            proof {
                assert(out@ =~= render_model(v@));
            }
            out
        },
        Value::Composite(nvs) => {
            let mut out = String::from_str("{");
            let inner = render_named(nvs);
            out.append(inner.as_str());
            out.append("}");
            proof {
                assert(out@ =~= render_model(v@));
            }
            out
        },
        Value::Variant(n, nvs) => {
            let mut out = n.clone();
            out.append("{");
            let inner = render_named(nvs);
            out.append(inner.as_str());
            out.append("}");
            proof {
                assert(out@ =~= render_model(v@));
            }
            out
        },
    }
}

/// Renders a list of values, comma separated.
#[verifier::rlimit(100)]
#[verifier::loop_isolation(false)]
fn render_values(vs: &Vec<Value>) -> (r: String)
    ensures
        r@ == render_joined(view_values(vs@)),
    decreases *vs,
{
    proof {
        lemma_view_values_len(vs@);
    }
    let ghost vm = view_values(vs@);
    if vs.len() == 0 {
        return String::new();
    }
    proof {
        assert(decreases_to!(*vs => vs@[0]));
    }
    let mut out = render_value(&vs[0]);
    let mut j: usize = 1;
    while j < vs.len()
        invariant
            1 <= j <= vs@.len(),
            render_joined(vm) == out@ + render_items(vm.subrange(j as int, vm.len() as int)),
        decreases vs@.len() - j,
    {
        let ghost sub = vm.subrange(j as int, vm.len() as int);
        proof {
            assert(sub[0] == vm[j as int]);
            assert(sub.subrange(1, sub.len() as int) =~= vm.subrange(
                j as int + 1,
                vm.len() as int,
            ));
            assert(decreases_to!(*vs => vs@[j as int]));
        }
        out.append(", ");
        let piece = render_value(&vs[j]);
        out.append(piece.as_str());
        j = j + 1;
    }
    proof {
        assert(vm.subrange(vm.len() as int, vm.len() as int).len() == 0);
    }
    out
}

/// Renders a list of named values, comma separated.
#[verifier::rlimit(100)]
#[verifier::loop_isolation(false)]
fn render_named(nvs: &Vec<(String, Value)>) -> (r: String)
    ensures
        r@ == render_named_joined(view_named_values(nvs@)),
    decreases *nvs,
{
    proof {
        lemma_view_named_values_len(nvs@);
    }
    let ghost vm = view_named_values(nvs@);
    if nvs.len() == 0 {
        return String::new();
    }
    proof {
        assert(decreases_to!(*nvs => nvs@[0]));
        assert(decreases_to!(nvs@[0] => nvs@[0].1));
    }
    let mut out = nvs[0].0.clone();
    out.append(": ");
    let piece0 = render_value(&nvs[0].1);
    out.append(piece0.as_str());
    let mut j: usize = 1;
    proof {
        assert(out@ =~= render_named_one(vm[0]));
    }
    while j < nvs.len()
        invariant
            1 <= j <= nvs@.len(),
            render_named_joined(vm) == out@ + render_named_items(
                vm.subrange(j as int, vm.len() as int),
            ),
        decreases nvs@.len() - j,
    {
        let ghost sub = vm.subrange(j as int, vm.len() as int);
        proof {
            assert(sub[0] == vm[j as int]);
            assert(sub.subrange(1, sub.len() as int) =~= vm.subrange(
                j as int + 1,
                vm.len() as int,
            ));
            assert(decreases_to!(*nvs => nvs@[j as int]));
            assert(decreases_to!(nvs@[j as int] => nvs@[j as int].1));
        }
        out.append(", ");
        out.append(nvs[j].0.as_str());
        out.append(": ");
        let piece = render_value(&nvs[j].1);
        out.append(piece.as_str());
        j = j + 1;
        proof {
            assert(render_named_one(vm[j - 1]) == vm[j - 1].0 + ": "@ + render_model(
                vm[j - 1].1,
            ));
        }
    }
    proof {
        assert(vm.subrange(vm.len() as int, vm.len() as int).len() == 0);
    }
    out
}

} // verus!
