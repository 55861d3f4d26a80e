use vstd::prelude::*;

verus! {

/// One of the fourteen binary operators. Each operator is bound to exactly
/// one reduction pass; the pass order and each pass's associativity
/// direction are fixed (see `crate::reduce`).
#[derive(Clone, Copy, Debug, Hash, PartialEq, Eq, Structural)]
pub enum BinaryOp {
    EPlus,
    EMinus,
    EMul,
    EDiv,
    EMod,
    EExp,
    ELT,
    ELTE,
    EEQ,
    ENE,
    EGTE,
    EGT,
    EOR,
    EAND,
}

/// A numeric constant. Values are opaque 64-bit scalars: the engine never
/// interprets them, it only hands them to the caller-supplied operator
/// function.
#[derive(Clone, Copy, Debug, PartialEq, Eq, Structural)]
pub struct Constant(pub u64);

/// An operand leaf. In this core every operand is a numeric constant;
/// richer leaves are resolved by the namespace collaborator.
#[derive(Clone, Copy, Debug, PartialEq, Eq, Structural)]
pub enum Value {
    EConstant(Constant),
}

/// One token of a flattened expression: an operand or a binary operator.
#[derive(Clone, Copy, Debug, PartialEq, Eq, Structural)]
pub enum ExpressionTok {
    EValue(Value),
    EBinaryOp(BinaryOp),
}

/// A flattened expression: an ordered token sequence whose invariant is an
/// odd length with operands at even positions and operators at odd
/// positions. The upstream builder is responsible for the invariant; the
/// engine rejects any sequence that breaks it.
#[derive(Clone, Debug)]
pub struct Expression(pub Vec<ExpressionTok>);

impl View for Expression {
    type V = Seq<ExpressionTok>;

    open spec fn view(&self) -> Seq<ExpressionTok> {
        self.0@
    }
}

/// The scalar a constant operand resolves to.
pub open spec fn constant_of(v: Value) -> u64 {
    match v {
        Value::EConstant(c) => c.0,
    }
}

/// Token parity: operands sit at even positions, operators at odd ones.
pub open spec fn parity_ok_at(toks: Seq<ExpressionTok>, i: int) -> bool {
    if i % 2 == 0 {
        toks[i] is EValue
    } else {
        toks[i] is EBinaryOp
    }
}

/// The shape invariant of a valid flattened expression: odd length and
/// correct parity at every position.
pub open spec fn shape_ok(toks: Seq<ExpressionTok>) -> bool {
    &&& toks.len() % 2 == 1
    &&& forall|i: int| 0 <= i < toks.len() ==> parity_ok_at(toks, i)
}

/// The operand scalar at operand position `k` (token position `2 * k`).
pub open spec fn operand_at(toks: Seq<ExpressionTok>, k: int) -> u64 {
    match toks[2 * k] {
        ExpressionTok::EValue(val) => constant_of(val),
        ExpressionTok::EBinaryOp(_) => 0,
    }
}

/// The operator at operator position `k` (token position `2 * k + 1`).
pub open spec fn operator_at(toks: Seq<ExpressionTok>, k: int) -> BinaryOp {
    match toks[2 * k + 1] {
        ExpressionTok::EBinaryOp(bop) => bop,
        ExpressionTok::EValue(_) => BinaryOp::EPlus,
    }
}

/// The first position at or after `k` whose token breaks parity, or the
/// length when none does.
pub open spec fn first_violation_from(toks: Seq<ExpressionTok>, k: int) -> int
    decreases toks.len() - k,
{
    if k < 0 || k >= toks.len() {
        toks.len() as int
    } else if !parity_ok_at(toks, k) {
        k
    } else {
        first_violation_from(toks, k + 1)
    }
}

/// The first position whose token breaks parity, or the length when none
/// does.
pub open spec fn first_violation(toks: Seq<ExpressionTok>) -> int {
    first_violation_from(toks, 0)
}

/// A position that breaks parity after an all-correct prefix is the first
/// violation.
pub proof fn lemma_first_violation_at(toks: Seq<ExpressionTok>, i: int)
    requires
        0 <= i < toks.len(),
        !parity_ok_at(toks, i),
        forall|j: int| 0 <= j < i ==> parity_ok_at(toks, j),
    ensures
        first_violation(toks) == i,
{
    lemma_first_violation_from_at(toks, 0, i);
}

proof fn lemma_first_violation_from_at(toks: Seq<ExpressionTok>, k: int, i: int)
    requires
        0 <= k <= i < toks.len(),
        !parity_ok_at(toks, i),
        forall|j: int| k <= j < i ==> parity_ok_at(toks, j),
    ensures
        first_violation_from(toks, k) == i,
    decreases i - k,
{
    if k < i {
        lemma_first_violation_from_at(toks, k + 1, i);
    }
}

/// The operand scalars of a flattened expression, in order.
pub open spec fn vals_of(toks: Seq<ExpressionTok>) -> Seq<u64> {
    Seq::new(((toks.len() + 1) / 2) as nat, |k: int| operand_at(toks, k))
}

/// The operators of a flattened expression, in order.
pub open spec fn ops_of(toks: Seq<ExpressionTok>) -> Seq<BinaryOp> {
    Seq::new((toks.len() / 2) as nat, |k: int| operator_at(toks, k))
}

} // verus!
