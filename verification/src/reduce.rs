use vstd::prelude::*;

use crate::grammar::BinaryOp;

verus! {

/// The position of an operator's pass in the fixed reduction order:
/// power, then modulo, division, multiplication, subtraction, addition,
/// the six comparisons, and finally the value-returning AND and OR.
pub open spec fn pass_rank(op: BinaryOp) -> int {
    match op {
        BinaryOp::EExp => 0,
        BinaryOp::EMod => 1,
        BinaryOp::EDiv => 2,
        BinaryOp::EMul => 3,
        BinaryOp::EMinus => 4,
        BinaryOp::EPlus => 5,
        BinaryOp::ELT => 6,
        BinaryOp::EGT => 7,
        BinaryOp::ELTE => 8,
        BinaryOp::EGTE => 9,
        BinaryOp::EEQ => 10,
        BinaryOp::ENE => 11,
        BinaryOp::EAND => 12,
        BinaryOp::EOR => 13,
    }
}

/// Whether an operator's pass collapses right-to-left. Exponentiation is
/// right-associative; addition and multiplication are collapsed
/// right-to-left as well, which for them is semantically immaterial but is
/// part of the engine's exact collapse order.
pub open spec fn right_to_left(op: BinaryOp) -> bool {
    op == BinaryOp::EExp || op == BinaryOp::EMul || op == BinaryOp::EPlus
}

/// Whether the operator occurs in the sequence.
pub open spec fn has_op(ops: Seq<BinaryOp>, op: BinaryOp) -> bool {
    exists|i: int| 0 <= i < ops.len() && ops[i] == op
}

/// The operator the engine collapses next: the one present with the
/// smallest pass rank.
pub open spec fn next_pass_op(ops: Seq<BinaryOp>) -> BinaryOp {
    if has_op(ops, BinaryOp::EExp) {
        BinaryOp::EExp
    } else if has_op(ops, BinaryOp::EMod) {
        BinaryOp::EMod
    } else if has_op(ops, BinaryOp::EDiv) {
        BinaryOp::EDiv
    } else if has_op(ops, BinaryOp::EMul) {
        BinaryOp::EMul
    } else if has_op(ops, BinaryOp::EMinus) {
        BinaryOp::EMinus
    } else if has_op(ops, BinaryOp::EPlus) {
        BinaryOp::EPlus
    } else if has_op(ops, BinaryOp::ELT) {
        BinaryOp::ELT
    } else if has_op(ops, BinaryOp::EGT) {
        BinaryOp::EGT
    } else if has_op(ops, BinaryOp::ELTE) {
        BinaryOp::ELTE
    } else if has_op(ops, BinaryOp::EGTE) {
        BinaryOp::EGTE
    } else if has_op(ops, BinaryOp::EEQ) {
        BinaryOp::EEQ
    } else if has_op(ops, BinaryOp::ENE) {
        BinaryOp::ENE
    } else if has_op(ops, BinaryOp::EAND) {
        BinaryOp::EAND
    } else {
        BinaryOp::EOR
    }
}

/// Whether `i` is the position the engine collapses next: the next pass's
/// operator stands there, and it is the last such position for a
/// right-to-left pass, the first for a left-to-right pass.
pub open spec fn is_next_index(ops: Seq<BinaryOp>, i: int) -> bool {
    let op = next_pass_op(ops);
    &&& 0 <= i < ops.len()
    &&& ops[i] == op
    &&& if right_to_left(op) {
        forall|j: int| i < j < ops.len() ==> ops[j] != op
    } else {
        forall|j: int| 0 <= j < i ==> ops[j] != op
    }
}

/// The position the engine collapses next.
pub open spec fn next_index(ops: Seq<BinaryOp>) -> int {
    choose|i: int| is_next_index(ops, i)
}

/// One collapse of the value sequence: the result replaces the left
/// operand and the right operand is removed.
pub open spec fn collapse_vals(vals: Seq<u64>, i: int, m: u64) -> Seq<u64> {
    vals.update(i, m).remove(i + 1)
}

/// Whether `v` is an outcome of reducing `(vals, ops)` in the engine's
/// canonical collapse order, each collapse result being a possible output
/// of `apply` on that operator and those two operands. For a deterministic
/// `apply` this pins the outcome completely (see
/// `lemma_fold_deterministic`).
pub open spec fn folds_to<F: Fn(BinaryOp, u64, u64) -> u64>(
    apply: F,
    vals: Seq<u64>,
    ops: Seq<BinaryOp>,
    v: u64,
) -> bool
    decreases ops.len(),
{
    if ops.len() == 0 {
        vals.len() == 1 && vals[0] == v
    } else {
        let i = next_index(ops);
        if 0 <= i < ops.len() {
            vals.len() == ops.len() + 1 && exists|m: u64|
                #[trigger] call_ensures(apply, (ops[i], vals[i], vals[i + 1]), m) && folds_to(
                    apply,
                    collapse_vals(vals, i, m),
                    ops.remove(i),
                    v,
                )
        } else {
            false
        }
    }
}

/// At most one position can be the next collapse position.
pub proof fn lemma_next_index_unique(ops: Seq<BinaryOp>, i: int)
    requires
        is_next_index(ops, i),
    ensures
        next_index(ops) == i,
{
    let op = next_pass_op(ops);
    let i2 = next_index(ops);
    assert(is_next_index(ops, i2));
    if i < i2 {
        if right_to_left(op) {
            assert(ops[i2] != op);
        } else {
            assert(ops[i] != op);
        }
    } else if i2 < i {
        if right_to_left(op) {
            assert(ops[i] != op);
        } else {
            assert(ops[i2] != op);
        }
    }
}

/// If an operator is present and nothing present outranks it, it is the
/// next pass's operator.
pub proof fn lemma_min_rank_next(ops: Seq<BinaryOp>, op: BinaryOp)
    requires
        has_op(ops, op),
        forall|j: int| 0 <= j < ops.len() ==> pass_rank(#[trigger] ops[j]) >= pass_rank(op),
    ensures
        next_pass_op(ops) == op,
{
    assert forall|q: BinaryOp| pass_rank(q) < pass_rank(op) implies !has_op(ops, q) by {
        if has_op(ops, q) {
            let j = choose|j: int| 0 <= j < ops.len() && ops[j] == q;
            assert(pass_rank(ops[j]) >= pass_rank(op));
        }
    }
}

/// Two distinct operators never share a pass rank.
pub proof fn lemma_rank_injective(a: BinaryOp, b: BinaryOp)
    requires
        pass_rank(a) == pass_rank(b),
    ensures
        a == b,
{
}

/// A single canonical collapse, with an `apply`-consistent result, carries
/// an outcome of the collapsed state back to an outcome of the state
/// before.
pub proof fn lemma_fold_step<F: Fn(BinaryOp, u64, u64) -> u64>(
    apply: F,
    vals: Seq<u64>,
    ops: Seq<BinaryOp>,
    i: int,
    m: u64,
    v: u64,
)
    requires
        is_next_index(ops, i),
        vals.len() == ops.len() + 1,
        call_ensures(apply, (ops[i], vals[i], vals[i + 1]), m),
        folds_to(apply, collapse_vals(vals, i, m), ops.remove(i), v),
    ensures
        folds_to(apply, vals, ops, v),
{
    lemma_next_index_unique(ops, i);
}

/// Collapses the operator at position `i`: its result replaces the left
/// operand, and the right operand and the operator are removed, shrinking
/// both sequences by one.
fn eval_op<F: Fn(BinaryOp, u64, u64) -> u64>(
    vals: &mut Vec<u64>,
    ops: &mut Vec<BinaryOp>,
    i: usize,
    apply: &F,
)
    requires
        old(vals).len() == old(ops).len() + 1,
        i < old(ops).len(),
        forall|op: BinaryOp, a: u64, b: u64| #[trigger] call_requires(*apply, (op, a, b)),
    ensures
        final(ops)@ == old(ops)@.remove(i as int),
        final(vals).len() == final(ops).len() + 1,
        exists|m: u64|
            #[trigger] call_ensures(
                *apply,
                (old(ops)@[i as int], old(vals)@[i as int], old(vals)@[i as int + 1]),
                m,
            ) && final(vals)@ == collapse_vals(old(vals)@, i as int, m),
{
    let result = apply(ops[i], vals[i], vals[i + 1]);
    vals[i] = result;
    vals.remove(i + 1);
    ops.remove(i);
}

/// One right-to-left pass: scans the operator positions from the last down
/// to the first and collapses every occurrence of `op` as it is met. Every
/// collapse it performs is the engine's canonical next collapse, so any
/// outcome of the state it leaves is an outcome of the state it was given.
fn rtol<F: Fn(BinaryOp, u64, u64) -> u64>(
    vals: &mut Vec<u64>,
    ops: &mut Vec<BinaryOp>,
    op: BinaryOp,
    apply: &F,
)
    requires
        right_to_left(op),
        old(vals).len() == old(ops).len() + 1,
        forall|j: int|
            0 <= j < old(ops)@.len() ==> pass_rank(#[trigger] old(ops)@[j]) >= pass_rank(op),
        forall|o: BinaryOp, a: u64, b: u64| #[trigger] call_requires(*apply, (o, a, b)),
    ensures
        final(vals).len() == final(ops).len() + 1,
        forall|j: int|
            0 <= j < final(ops)@.len() ==> pass_rank(#[trigger] final(ops)@[j]) > pass_rank(op),
        forall|v: u64|
            #[trigger] folds_to(*apply, final(vals)@, final(ops)@, v) ==> folds_to(
                *apply,
                old(vals)@,
                old(ops)@,
                v,
            ),
{
    let ghost vals0 = vals@;
    let ghost ops0 = ops@;
    let mut i: usize = ops.len();
    while i > 0
        invariant
            i <= ops@.len(),
            vals@.len() == ops@.len() + 1,
            right_to_left(op),
            forall|j: int| 0 <= j < ops@.len() ==> pass_rank(#[trigger] ops@[j]) >= pass_rank(op),
            forall|j: int| i <= j < ops@.len() ==> ops@[j] != op,
            forall|v: u64|
                #[trigger] folds_to(*apply, vals@, ops@, v) ==> folds_to(*apply, vals0, ops0, v),
            forall|o: BinaryOp, a: u64, b: u64| #[trigger] call_requires(*apply, (o, a, b)),
        decreases i,
    {
        i = i - 1;
        if ops[i] == op {
            proof {
                lemma_min_rank_next(ops@, op);
                assert(is_next_index(ops@, i as int));
            }
            let ghost pre_vals = vals@;
            let ghost pre_ops = ops@;
            eval_op(vals, ops, i, apply);
            proof {
                let m = choose|m: u64|
                    #[trigger] call_ensures(
                        *apply,
                        (pre_ops[i as int], pre_vals[i as int], pre_vals[i as int + 1]),
                        m,
                    ) && vals@ == collapse_vals(pre_vals, i as int, m);
                assert forall|v: u64| #[trigger] folds_to(*apply, vals@, ops@, v) implies folds_to(
                    *apply,
                    vals0,
                    ops0,
                    v,
                ) by {
                    lemma_fold_step(*apply, pre_vals, pre_ops, i as int, m, v);
                }
            }
        }
    }
    proof {
        assert forall|j: int| 0 <= j < ops@.len() implies pass_rank(#[trigger] ops@[j]) > pass_rank(
            op,
        ) by {
            if pass_rank(ops@[j]) == pass_rank(op) {
                lemma_rank_injective(ops@[j], op);
            }
        }
    }
}

/// The first position of the operator, if it occurs at all.
fn find_first(ops: &Vec<BinaryOp>, op: BinaryOp) -> (r: Option<usize>)
    ensures
        match r {
            Some(i) => i < ops@.len() && ops@[i as int] == op && forall|j: int|
                0 <= j < i ==> ops@[j] != op,
            None => forall|j: int| 0 <= j < ops@.len() ==> ops@[j] != op,
        },
{
    let mut k: usize = 0;
    while k < ops.len()
        invariant
            k <= ops@.len(),
            forall|j: int| 0 <= j < k ==> ops@[j] != op,
        decreases ops@.len() - k,
    {
        if ops[k] == op {
            return Some(k);
        }
        k += 1;
    }
    None
}

/// One left-to-right pass: collapses the first occurrence of `op` and
/// rescans from the beginning, because a leftward collapse shifts every
/// later position down by one; it stops when no occurrence is left. Every
/// collapse it performs is the engine's canonical next collapse.
fn ltor<F: Fn(BinaryOp, u64, u64) -> u64>(
    vals: &mut Vec<u64>,
    ops: &mut Vec<BinaryOp>,
    op: BinaryOp,
    apply: &F,
)
    requires
        !right_to_left(op),
        old(vals).len() == old(ops).len() + 1,
        forall|j: int|
            0 <= j < old(ops)@.len() ==> pass_rank(#[trigger] old(ops)@[j]) >= pass_rank(op),
        forall|o: BinaryOp, a: u64, b: u64| #[trigger] call_requires(*apply, (o, a, b)),
    ensures
        final(vals).len() == final(ops).len() + 1,
        forall|j: int|
            0 <= j < final(ops)@.len() ==> pass_rank(#[trigger] final(ops)@[j]) > pass_rank(op),
        forall|v: u64|
            #[trigger] folds_to(*apply, final(vals)@, final(ops)@, v) ==> folds_to(
                *apply,
                old(vals)@,
                old(ops)@,
                v,
            ),
{
    let ghost vals0 = vals@;
    let ghost ops0 = ops@;
    let mut done = false;
    while !done
        invariant
            vals@.len() == ops@.len() + 1,
            !right_to_left(op),
            forall|j: int| 0 <= j < ops@.len() ==> pass_rank(#[trigger] ops@[j]) >= pass_rank(op),
            forall|v: u64|
                #[trigger] folds_to(*apply, vals@, ops@, v) ==> folds_to(*apply, vals0, ops0, v),
            forall|o: BinaryOp, a: u64, b: u64| #[trigger] call_requires(*apply, (o, a, b)),
            done ==> forall|j: int| 0 <= j < ops@.len() ==> ops@[j] != op,
        decreases ops@.len(), (if done { 0int } else { 1int }),
    {
        match find_first(ops, op) {
            None => {
                done = true;
            },
            Some(i) => {
                proof {
                    lemma_min_rank_next(ops@, op);
                    assert(is_next_index(ops@, i as int));
                }
                let ghost pre_vals = vals@;
                let ghost pre_ops = ops@;
                eval_op(vals, ops, i, apply);
                proof {
                    let m = choose|m: u64|
                        #[trigger] call_ensures(
                            *apply,
                            (pre_ops[i as int], pre_vals[i as int], pre_vals[i as int + 1]),
                            m,
                        ) && vals@ == collapse_vals(pre_vals, i as int, m);
                    assert forall|v: u64| #[trigger] folds_to(
                        *apply,
                        vals@,
                        ops@,
                        v,
                    ) implies folds_to(*apply, vals0, ops0, v) by {
                        lemma_fold_step(*apply, pre_vals, pre_ops, i as int, m, v);
                    }
                }
            },
        }
    }
    proof {
        assert forall|j: int| 0 <= j < ops@.len() implies pass_rank(#[trigger] ops@[j]) > pass_rank(
            op,
        ) by {
            if pass_rank(ops@[j]) == pass_rank(op) {
                lemma_rank_injective(ops@[j], op);
            }
        }
    }
}

/// Runs the fourteen reduction passes in their fixed order, collapsing the
/// state to a single value and no operators. The single value left is an
/// outcome of reducing the given state in the engine's canonical collapse
/// order.
pub fn reduce<F: Fn(BinaryOp, u64, u64) -> u64>(
    vals: &mut Vec<u64>,
    ops: &mut Vec<BinaryOp>,
    apply: &F,
)
    requires
        old(vals).len() == old(ops).len() + 1,
        forall|o: BinaryOp, a: u64, b: u64| #[trigger] call_requires(*apply, (o, a, b)),
    ensures
        final(ops).len() == 0,
        final(vals).len() == 1,
        folds_to(*apply, old(vals)@, old(ops)@, final(vals)@[0]),
{
    rtol(vals, ops, BinaryOp::EExp, apply);
    ltor(vals, ops, BinaryOp::EMod, apply);
    ltor(vals, ops, BinaryOp::EDiv, apply);
    rtol(vals, ops, BinaryOp::EMul, apply);
    ltor(vals, ops, BinaryOp::EMinus, apply);
    rtol(vals, ops, BinaryOp::EPlus, apply);
    ltor(vals, ops, BinaryOp::ELT, apply);
    ltor(vals, ops, BinaryOp::EGT, apply);
    ltor(vals, ops, BinaryOp::ELTE, apply);
    ltor(vals, ops, BinaryOp::EGTE, apply);
    ltor(vals, ops, BinaryOp::EEQ, apply);
    ltor(vals, ops, BinaryOp::ENE, apply);
    ltor(vals, ops, BinaryOp::EAND, apply);
    ltor(vals, ops, BinaryOp::EOR, apply);
    proof {
        if ops@.len() > 0 {
            assert(pass_rank(ops@[0]) > 13);
            assert(pass_rank(ops@[0]) <= 13);
        }
        assert(folds_to(*apply, vals@, ops@, vals@[0]));
    }
}

/// Reduction is deterministic: whenever `apply` relates each input to at
/// most one output, one state folds to at most one outcome. Evaluating the
/// same immutable expression twice therefore yields identical results.
pub proof fn lemma_fold_deterministic<F: Fn(BinaryOp, u64, u64) -> u64>(
    apply: F,
    vals: Seq<u64>,
    ops: Seq<BinaryOp>,
    v1: u64,
    v2: u64,
)
    requires
        forall|op: BinaryOp, a: u64, b: u64, r1: u64, r2: u64|
            #![trigger call_ensures(apply, (op, a, b), r1), call_ensures(apply, (op, a, b), r2)]
            call_ensures(apply, (op, a, b), r1) && call_ensures(apply, (op, a, b), r2) ==> r1
                == r2,
        folds_to(apply, vals, ops, v1),
        folds_to(apply, vals, ops, v2),
    ensures
        v1 == v2,
    decreases ops.len(),
{
    if ops.len() == 0 {
    } else {
        let i = next_index(ops);
        let m1 = choose|m: u64|
            #[trigger] call_ensures(apply, (ops[i], vals[i], vals[i + 1]), m) && folds_to(
                apply,
                collapse_vals(vals, i, m),
                ops.remove(i),
                v1,
            );
        let m2 = choose|m: u64|
            #[trigger] call_ensures(apply, (ops[i], vals[i], vals[i + 1]), m) && folds_to(
                apply,
                collapse_vals(vals, i, m),
                ops.remove(i),
                v2,
            );
        assert(m1 == m2);
        lemma_fold_deterministic(apply, collapse_vals(vals, i, m1), ops.remove(i), v1, v2);
    }
}

/// A single operator folds by one application: the outcome of reducing
/// two operands over one operator is an output of `apply` on them.
pub proof fn lemma_single_fold<F: Fn(BinaryOp, u64, u64) -> u64>(
    apply: F,
    a: u64,
    b: u64,
    op: BinaryOp,
    v: u64,
)
    requires
        folds_to(apply, seq![a, b], seq![op], v),
    ensures
        call_ensures(apply, (op, a, b), v),
{
    let vals = seq![a, b];
    let ops = seq![op];
    assert(ops[0] == op);
    assert(has_op(ops, op));
    lemma_min_rank_next(ops, op);
    assert(is_next_index(ops, 0));
    lemma_next_index_unique(ops, 0);
    let m = choose|m: u64|
        #[trigger] call_ensures(apply, (ops[0], vals[0], vals[1]), m) && folds_to(
            apply,
            collapse_vals(vals, 0, m),
            ops.remove(0),
            v,
        );
    assert(collapse_vals(vals, 0, m) =~= seq![m]);
    assert(ops.remove(0).len() == 0);
    assert(m == v);
}

/// A chain of one right-to-left operator nests to the right: reducing the
/// operands `a, b, c` over two occurrences combines `b` with `c` first,
/// and `a` with that result second. For exponentiation this is
/// right-associativity.
pub proof fn lemma_right_to_left_chain<F: Fn(BinaryOp, u64, u64) -> u64>(
    apply: F,
    op: BinaryOp,
    a: u64,
    b: u64,
    c: u64,
    v: u64,
)
    requires
        right_to_left(op),
        folds_to(apply, seq![a, b, c], seq![op, op], v),
    ensures
        exists|m: u64|
            #[trigger] call_ensures(apply, (op, b, c), m) && call_ensures(apply, (op, a, m), v),
{
    let vals = seq![a, b, c];
    let ops = seq![op, op];
    assert(ops[1] == op);
    assert(has_op(ops, op));
    lemma_min_rank_next(ops, op);
    assert(is_next_index(ops, 1));
    lemma_next_index_unique(ops, 1);
    assert(folds_to(apply, vals, ops, v));
    let m = choose|m: u64|
        #[trigger] call_ensures(apply, (ops[1], vals[1], vals[2]), m) && folds_to(
            apply,
            collapse_vals(vals, 1, m),
            ops.remove(1),
            v,
        );
    let vals2 = collapse_vals(vals, 1, m);
    let ops2 = ops.remove(1);
    assert(vals2 =~= seq![a, m]);
    assert(ops2 =~= seq![op]);
    assert(ops2[0] == op);
    assert(has_op(ops2, op));
    lemma_min_rank_next(ops2, op);
    assert(is_next_index(ops2, 0));
    lemma_next_index_unique(ops2, 0);
    assert(folds_to(apply, vals2, ops2, v));
    let m2 = choose|m2: u64|
        #[trigger] call_ensures(apply, (ops2[0], vals2[0], vals2[1]), m2) && folds_to(
            apply,
            collapse_vals(vals2, 0, m2),
            ops2.remove(0),
            v,
        );
    assert(collapse_vals(vals2, 0, m2) =~= seq![m2]);
    assert(ops2.remove(0).len() == 0);
    assert(m2 == v);
    assert(call_ensures(apply, (op, b, c), m) && call_ensures(apply, (op, a, m), v));
}

/// A chain of one left-to-right operator nests to the left: reducing the
/// operands `a, b, c, d` over three occurrences combines `a` with `b`
/// first, then each result with the next operand. For subtraction and
/// division this is left-associativity.
pub proof fn lemma_left_to_right_chain<F: Fn(BinaryOp, u64, u64) -> u64>(
    apply: F,
    op: BinaryOp,
    a: u64,
    b: u64,
    c: u64,
    d: u64,
    v: u64,
)
    requires
        !right_to_left(op),
        folds_to(apply, seq![a, b, c, d], seq![op, op, op], v),
    ensures
        exists|m1: u64, m2: u64|
            #[trigger] call_ensures(apply, (op, a, b), m1) && #[trigger] call_ensures(
                apply,
                (op, m1, c),
                m2,
            ) && call_ensures(apply, (op, m2, d), v),
{
    let vals = seq![a, b, c, d];
    let ops = seq![op, op, op];
    assert(ops[0] == op);
    assert(has_op(ops, op));
    lemma_min_rank_next(ops, op);
    assert(is_next_index(ops, 0));
    lemma_next_index_unique(ops, 0);
    assert(folds_to(apply, vals, ops, v));
    let m1 = choose|m: u64|
        #[trigger] call_ensures(apply, (ops[0], vals[0], vals[1]), m) && folds_to(
            apply,
            collapse_vals(vals, 0, m),
            ops.remove(0),
            v,
        );
    let vals2 = collapse_vals(vals, 0, m1);
    let ops2 = ops.remove(0);
    assert(vals2 =~= seq![m1, c, d]);
    assert(ops2 =~= seq![op, op]);
    assert(ops2[0] == op);
    assert(has_op(ops2, op));
    lemma_min_rank_next(ops2, op);
    assert(is_next_index(ops2, 0));
    lemma_next_index_unique(ops2, 0);
    assert(folds_to(apply, vals2, ops2, v));
    let m2 = choose|m: u64|
        #[trigger] call_ensures(apply, (ops2[0], vals2[0], vals2[1]), m) && folds_to(
            apply,
            collapse_vals(vals2, 0, m),
            ops2.remove(0),
            v,
        );
    let vals3 = collapse_vals(vals2, 0, m2);
    let ops3 = ops2.remove(0);
    assert(vals3 =~= seq![m2, d]);
    assert(ops3 =~= seq![op]);
    assert(ops3[0] == op);
    assert(has_op(ops3, op));
    lemma_min_rank_next(ops3, op);
    assert(is_next_index(ops3, 0));
    lemma_next_index_unique(ops3, 0);
    assert(folds_to(apply, vals3, ops3, v));
    let m3 = choose|m: u64|
        #[trigger] call_ensures(apply, (ops3[0], vals3[0], vals3[1]), m) && folds_to(
            apply,
            collapse_vals(vals3, 0, m),
            ops3.remove(0),
            v,
        );
    assert(collapse_vals(vals3, 0, m3) =~= seq![m3]);
    assert(ops3.remove(0).len() == 0);
    assert(m3 == v);
    assert(call_ensures(apply, (op, a, b), m1) && call_ensures(apply, (op, m1, c), m2)
        && call_ensures(apply, (op, m2, d), v));
}

} // verus!
