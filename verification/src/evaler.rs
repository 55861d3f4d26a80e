use vstd::prelude::*;

use crate::error::Error;
use crate::evalns::EvalNS;
use crate::grammar::BinaryOp;
use crate::grammar::Constant;
use crate::grammar::Expression;
use crate::grammar::ExpressionTok;
use crate::grammar::Value;
use crate::grammar::constant_of;
use crate::grammar::first_violation;
use crate::grammar::lemma_first_violation_at;
use crate::grammar::ops_of;
use crate::grammar::parity_ok_at;
use crate::grammar::shape_ok;
use crate::grammar::vals_of;
use crate::grammar::operand_at;
use crate::grammar::operator_at;
use crate::reduce::folds_to;
use crate::reduce::reduce;

verus! {

/// The message chain of the structural error a malformed token sequence is
/// rejected with: an even length is reported first; otherwise the first
/// parity violation decides the message.
pub open spec fn structural_err_msgs(toks: Seq<ExpressionTok>) -> Seq<Seq<char>> {
    if toks.len() % 2 == 0 {
        seq!["Expression len should always be odd"@]
    } else if toks[first_violation(toks)] is EValue {
        seq!["Found value at odd index"@]
    } else {
        seq!["Found binaryop at even index"@]
    }
}

/// Anything that can evaluate itself to a scalar against a namespace.
///
/// `apply` supplies the numeric meaning of each binary operator: it takes
/// an operator and the two operand scalars and returns the combined
/// scalar. The engine itself never interprets scalars.
pub trait Evaler {
    /// Evaluates against the namespace, combining operands through
    /// `apply`.
    fn eval<F: Fn(BinaryOp, u64, u64) -> u64>(&self, ns: &mut EvalNS, apply: &F) -> (r: Result<
        u64,
        Error,
    >)
        requires
            forall|op: BinaryOp, a: u64, b: u64| #[trigger] call_requires(*apply, (op, a, b)),
    ;

    /// Collects every variable name the evaluation resolves, by running it
    /// against a recording stub that never supplies a value. The collector
    /// never looks at numeric results, so every operator is given the
    /// constant zero meaning.
    fn var_names(&self) -> (r: Result<Vec<String>, Error>) {
        let mut ns = EvalNS::recorder();
        let apply = |_op: BinaryOp, _a: u64, _b: u64| -> u64 { 0 };
        match self.eval(&mut ns, &apply) {
            Ok(_) => Ok(ns.into_recorded()),
            Err(e) => Err(e),
        }
    }
}

impl Expression {
    /// Splits the token sequence into its operand scalars and its
    /// operators, resolving each operand through the namespace, and
    /// rejects any sequence that breaks the shape invariant. On success
    /// the two sequences satisfy: operator count + 1 == operand count.
    pub fn resolve(&self, ns: &mut EvalNS) -> (r: Result<(Vec<u64>, Vec<BinaryOp>), Error>)
        ensures
            *final(ns) == *old(ns),
            shape_ok(self@) <==> r is Ok,
            (r matches Ok(p) ==> {
                &&& p.0@ == vals_of(self@)
                &&& p.1@ == ops_of(self@)
                &&& p.0@.len() == p.1@.len() + 1
            }),
            (r matches Err(e) ==> e@ =~= structural_err_msgs(self@)),
    {
        if self.0.len() % 2 != 1 {
            return Err(Error::new("Expression len should always be odd"));
        }
        let mut vals: Vec<u64> = Vec::new();
        let mut ops: Vec<BinaryOp> = Vec::new();
        let mut i: usize = 0;
        while i < self.0.len()
            invariant
                i <= self.0@.len(),
                self.0@.len() % 2 == 1,
                *ns == *old(ns),
                forall|j: int| 0 <= j < i ==> parity_ok_at(self.0@, j),
                vals@.len() == (i + 1) as int / 2,
                ops@.len() == i as int / 2,
                forall|k: int| 0 <= k < vals@.len() ==> vals@[k] == operand_at(self.0@, k),
                forall|k: int| 0 <= k < ops@.len() ==> ops@[k] == operator_at(self.0@, k),
            decreases self.0@.len() - i,
        {
            match &self.0[i] {
                ExpressionTok::EValue(val) => {
                    if i % 2 == 1 {
                        proof {
                            lemma_first_violation_at(self.0@, i as int);
                            assert(!parity_ok_at(self@, i as int));
                            assert(!shape_ok(self@));
                        }
                        return Err(Error::new("Found value at odd index"));
                    }
                    match ns.eval_bubble(val) {
                        Ok(f) => { vals.push(f) },
                        Err(e) => {
                            return Err(e.pre("eval_bubble"));
                        },
                    }
                },
                ExpressionTok::EBinaryOp(bop) => {
                    if i % 2 == 0 {
                        proof {
                            lemma_first_violation_at(self.0@, i as int);
                            assert(!parity_ok_at(self@, i as int));
                            assert(!shape_ok(self@));
                        }
                        return Err(Error::new("Found binaryop at even index"));
                    }
                    ops.push(*bop);
                },
            }
            i += 1;
        }
        proof {
            assert(shape_ok(self@));
            assert(vals@ =~= vals_of(self@));
            assert(ops@ =~= ops_of(self@));
        }
        Ok((vals, ops))
    }
}

impl Evaler for Expression {
    /// Rejects a malformed token sequence with a structural error;
    /// otherwise resolves every operand and reduces the state in the
    /// engine's canonical collapse order, returning the single value left.
    /// The namespace is handed back unchanged: constants never consult it.
    fn eval<F: Fn(BinaryOp, u64, u64) -> u64>(&self, ns: &mut EvalNS, apply: &F) -> (r: Result<
        u64,
        Error,
    >)
        ensures
            *final(ns) == *old(ns),
            shape_ok(self@) <==> r is Ok,
            (r matches Ok(v) ==> folds_to(*apply, vals_of(self@), ops_of(self@), v)),
            (r matches Err(e) ==> e@ =~= structural_err_msgs(self@)),
    {
        let (mut vals, mut ops) = match self.resolve(ns) {
            Ok(p) => p,
            Err(e) => {
                return Err(e);
            },
        };
        reduce(&mut vals, &mut ops, apply);
        if ops.len() != 0 {
            return Err(Error::new("Unhandled Expression ops"));
        }
        if vals.len() != 1 {
            return Err(Error::new("More than one final Expression value"));
        }
        Ok(vals[0])
    }

    /// An expression of this core holds only constant operands, so no name
    /// is ever resolved: collection succeeds exactly on a well-shaped
    /// expression, and the collected set is empty.
    fn var_names(&self) -> (r: Result<Vec<String>, Error>)
        ensures
            shape_ok(self@) <==> r is Ok,
            (r matches Ok(names) ==> names@.len() == 0),
            (r matches Err(e) ==> e@ =~= structural_err_msgs(self@)),
    {
        let mut ns = EvalNS::recorder();
        let apply = |_op: BinaryOp, _a: u64, _b: u64| -> u64 { 0 };
        match self.eval(&mut ns, &apply) {
            Ok(_) => {
                let names = ns.into_recorded();
                proof {
                    assert(names.deep_view().len() == names@.len());
                }
                Ok(names)
            },
            Err(e) => Err(e),
        }
    }
}

impl Evaler for Value {
    /// An operand evaluates to whatever it resolves to; a constant leaf
    /// resolves to its own scalar and leaves the namespace unchanged.
    #[allow(unused_variables)]
    fn eval<F: Fn(BinaryOp, u64, u64) -> u64>(&self, ns: &mut EvalNS, apply: &F) -> (r: Result<
        u64,
        Error,
    >)
        ensures
            *final(ns) == *old(ns),
            r == Ok::<u64, Error>(constant_of(*self)),
    {
        match self {
            Value::EConstant(c) => c.eval(ns, apply),
        }
    }
}

impl Evaler for Constant {
    /// A constant evaluates to its own scalar and leaves the namespace
    /// unchanged.
    #[allow(unused_variables)]
    fn eval<F: Fn(BinaryOp, u64, u64) -> u64>(&self, ns: &mut EvalNS, apply: &F) -> (r: Result<
        u64,
        Error,
    >)
        ensures
            *final(ns) == *old(ns),
            r == Ok::<u64, Error>(self.0),
    {
        Ok(self.0)
    }
}

/// Evaluation is idempotent: two evaluations of one immutable expression
/// yield the same value whenever `apply` relates each input to at most one
/// output. Together with `eval` handing the namespace back unchanged, the
/// outcome depends on nothing but the expression, the namespace and
/// `apply`.
pub proof fn lemma_eval_deterministic<F: Fn(BinaryOp, u64, u64) -> u64>(
    apply: F,
    toks: Seq<ExpressionTok>,
    v1: u64,
    v2: u64,
)
    requires
        forall|op: BinaryOp, a: u64, b: u64, r1: u64, r2: u64|
            #![trigger call_ensures(apply, (op, a, b), r1), call_ensures(apply, (op, a, b), r2)]
            call_ensures(apply, (op, a, b), r1) && call_ensures(apply, (op, a, b), r2) ==> r1
                == r2,
        folds_to(apply, vals_of(toks), ops_of(toks), v1),
        folds_to(apply, vals_of(toks), ops_of(toks), v2),
    ensures
        v1 == v2,
{
    crate::reduce::lemma_fold_deterministic(apply, vals_of(toks), ops_of(toks), v1, v2);
}

} // verus!
