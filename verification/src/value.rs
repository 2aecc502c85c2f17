//! The decode output shape: a recursive tagged union of plain values,
//! together with its mathematical model.

use vstd::prelude::*;

verus! {

/// The mathematical model of a decoded value tree.
pub enum ValueModel {
    Unit,
    Bool(bool),
    UInt(nat),
    Int(int),
    Char(char),
    Str(Seq<char>),
    Bytes(Seq<u8>),
    List(Seq<ValueModel>),
    Tuple(Seq<ValueModel>),
    Composite(Seq<(Seq<char>, ValueModel)>),
    Variant(Seq<char>, Seq<(Seq<char>, ValueModel)>),
}

/// A decoded value: the output of the decoder, inspectable field by field.
///
/// `List` holds a decoded sequence, `Tuple` an ordered unnamed grouping,
/// `Composite` named fields, and `Variant` the chosen case's name with that
/// case's fields.  `Bytes` holds raw bytes that render as hex.
#[derive(Debug, PartialEq, Eq)]
pub enum Value {
    Unit,
    Bool(bool),
    UInt(u128),
    Int(i128),
    Char(char),
    Str(String),
    Bytes(Vec<u8>),
    List(Vec<Value>),
    Tuple(Vec<Value>),
    Composite(Vec<(String, Value)>),
    Variant(String, Vec<(String, Value)>),
}

/// The model of a single value.
pub open spec fn view_value(v: Value) -> ValueModel
    decreases v,
{
    match v {
        Value::Unit => ValueModel::Unit,
        Value::Bool(b) => ValueModel::Bool(b),
        Value::UInt(u) => ValueModel::UInt(u as nat),
        Value::Int(i) => ValueModel::Int(i as int),
        Value::Char(c) => ValueModel::Char(c),
        Value::Str(s) => ValueModel::Str(s@),
        Value::Bytes(b) => ValueModel::Bytes(b@),
        Value::List(vs) => ValueModel::List(view_values(vs@)),
        Value::Tuple(vs) => ValueModel::Tuple(view_values(vs@)),
        Value::Composite(fs) => ValueModel::Composite(view_named_values(fs@)),
        Value::Variant(n, fs) => ValueModel::Variant(n@, view_named_values(fs@)),
    }
}

/// The models of a sequence of values, in order.
pub open spec fn view_values(s: Seq<Value>) -> Seq<ValueModel>
    decreases s,
{
    if s.len() == 0 {
        Seq::empty()
    } else {
        seq![view_value(s[0])] + view_values(s.subrange(1, s.len() as int))
    }
}

/// The models of a sequence of named values, in order.
pub open spec fn view_named_values(s: Seq<(String, Value)>) -> Seq<(Seq<char>, ValueModel)>
    decreases s,
{
    if s.len() == 0 {
        Seq::empty()
    } else {
        seq![(s[0].0@, view_value(s[0].1))] + view_named_values(s.subrange(1, s.len() as int))
    }
}

impl View for Value {
    type V = ValueModel;

    open spec fn view(&self) -> ValueModel {
        view_value(*self)
    }
}

pub proof fn lemma_view_values_len(s: Seq<Value>)
    ensures
        view_values(s).len() == s.len(),
        forall|i: int| 0 <= i < s.len() ==> #[trigger] view_values(s)[i] == view_value(s[i]),
    decreases s,
{
    if s.len() > 0 {
        lemma_view_values_len(s.subrange(1, s.len() as int));
    }
}

pub proof fn lemma_view_named_values_len(s: Seq<(String, Value)>)
    ensures
        view_named_values(s).len() == s.len(),
        forall|i: int|
            0 <= i < s.len() ==> #[trigger] view_named_values(s)[i] == (
            s[i].0@,
            view_value(s[i].1),
            ),
    decreases s,
{
    if s.len() > 0 {
        lemma_view_named_values_len(s.subrange(1, s.len() as int));
    }
}

/// Pushing one value on the right extends the viewed sequence by its model.
pub proof fn lemma_view_values_push(s: Seq<Value>, v: Value)
    ensures
        view_values(s.push(v)) =~= view_values(s).push(view_value(v)),
{
    lemma_view_values_len(s.push(v));
    lemma_view_values_len(s);
}

/// Pushing one named value on the right extends the viewed sequence by its
/// model.
pub proof fn lemma_view_named_values_push(s: Seq<(String, Value)>, v: (String, Value))
    ensures
        view_named_values(s.push(v)) =~= view_named_values(s).push((v.0@, view_value(v.1))),
{
    lemma_view_named_values_len(s.push(v));
    lemma_view_named_values_len(s);
}

} // verus!
