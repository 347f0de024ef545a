//! The type tree a signature denotes, and its mathematical model.

use vstd::prelude::*;

verus! {

/// A parsed parameter type.
///
/// Leaves are `Address`, `Bool`, `String` and `Bytes` (dynamic-sized at the
/// encoding layer) and `FixedBytes`, `Int` and `Uint` (carrying a width:
/// a byte count for `FixedBytes`, a bit count for the other two).
/// `Array` is a dynamic-length sequence of one element type,
/// `FixedArray` a fixed-length one.  A tuple of heterogeneous members is
/// `Tuple` when at least one member is dynamic and `FixedTuple` when every
/// member is static; the reader alone decides which variant to build.
#[derive(Debug, PartialEq, Eq)]
pub enum ParamType {
    Address,
    Bytes,
    Int(usize),
    Uint(usize),
    Bool,
    String,
    FixedBytes(usize),
    Array(Box<ParamType>),
    FixedArray(Box<ParamType>, usize),
    Tuple(Vec<ParamType>),
    FixedTuple(Vec<ParamType>),
}

/// The mathematical shape of a [`ParamType`]: the same tree over `nat`
/// widths and `Seq` members, so that contracts can speak of it directly.
pub enum TypeModel {
    Address,
    Bytes,
    Int(nat),
    Uint(nat),
    Bool,
    String,
    FixedBytes(nat),
    Array(Box<TypeModel>),
    FixedArray(Box<TypeModel>, nat),
    Tuple(Seq<TypeModel>),
    FixedTuple(Seq<TypeModel>),
}

impl ParamType {
    /// The model of this tree.
    pub open spec fn model(self) -> TypeModel
        decreases self, 0int,
    {
        match self {
            ParamType::Address => TypeModel::Address,
            ParamType::Bytes => TypeModel::Bytes,
            ParamType::Int(w) => TypeModel::Int(w as nat),
            ParamType::Uint(w) => TypeModel::Uint(w as nat),
            ParamType::Bool => TypeModel::Bool,
            ParamType::String => TypeModel::String,
            ParamType::FixedBytes(w) => TypeModel::FixedBytes(w as nat),
            ParamType::Array(t) => TypeModel::Array(Box::new((*t).model())),
            ParamType::FixedArray(t, n) => TypeModel::FixedArray(
                Box::new((*t).model()),
                n as nat,
            ),
            ParamType::Tuple(ms) => TypeModel::Tuple(prefix_models(ms@, ms@.len() as int)),
            ParamType::FixedTuple(ms) => TypeModel::FixedTuple(
                prefix_models(ms@, ms@.len() as int),
            ),
        }
    }
}

impl View for ParamType {
    type V = TypeModel;

    open spec fn view(&self) -> TypeModel {
        self.model()
    }
}

/// The models of the first `n` trees of `ts`, in order.
pub open spec fn prefix_models(ts: Seq<ParamType>, n: int) -> Seq<TypeModel>
    decreases ts, n,
{
    if n <= 0 || n > ts.len() {
        Seq::empty()
    } else {
        prefix_models(ts, n - 1).push(ts[n - 1].model())
    }
}

/// The models of all trees of `ts`, in order.
pub open spec fn models_of(ts: Seq<ParamType>) -> Seq<TypeModel> {
    prefix_models(ts, ts.len() as int)
}

/// `prefix_models` is the pointwise model of the prefix.
pub proof fn lemma_prefix_models(ts: Seq<ParamType>, n: int)
    requires
        0 <= n <= ts.len(),
    ensures
        prefix_models(ts, n).len() == n,
        forall|i: int| 0 <= i < n ==> prefix_models(ts, n)[i] == ts[i].model(),
    decreases n,
{
    if n > 0 {
        lemma_prefix_models(ts, n - 1);
    }
}

/// Appending a tree appends its model.
pub proof fn lemma_models_of_push(ts: Seq<ParamType>, t: ParamType)
    ensures
        models_of(ts.push(t)) == models_of(ts).push(t.model()),
{
    lemma_prefix_models(ts, ts.len() as int);
    lemma_prefix_models(ts.push(t), ts.len() as int + 1);
    assert forall|i: int| 0 <= i < ts.len() implies models_of(ts.push(t))[i] == models_of(
        ts,
    ).push(t.model())[i] by {
        assert(ts.push(t)[i] == ts[i]);
    }
    assert(models_of(ts.push(t)) =~= models_of(ts).push(t.model()));
}

/// Whether a member of this shape forces the tuple that holds it to be
/// dynamic: `Bytes`, `String`, any `Array` and any `Tuple` do; every other
/// shape is static and does not.
pub open spec fn forces_dynamic(t: TypeModel) -> bool {
    match t {
        TypeModel::Bytes => true,
        TypeModel::String => true,
        TypeModel::Array(_) => true,
        TypeModel::Tuple(_) => true,
        _ => false,
    }
}

/// The variant a tuple with members `ms` takes: `Tuple` as soon as one
/// member is dynamic, `FixedTuple` when none is.
pub open spec fn classify_tuple(ms: Seq<TypeModel>) -> TypeModel {
    if exists|i: int| 0 <= i < ms.len() && forces_dynamic(ms[i]) {
        TypeModel::Tuple(ms)
    } else {
        TypeModel::FixedTuple(ms)
    }
}

/// Whether this tree, as a tuple member, forces the tuple dynamic.
pub fn is_dynamic_member(t: &ParamType) -> (b: bool)
    ensures
        b == forces_dynamic(t@),
{
    match t {
        ParamType::Bytes => true,
        ParamType::String => true,
        ParamType::Array(_) => true,
        ParamType::Tuple(_) => true,
        _ => false,
    }
}

} // verus!
