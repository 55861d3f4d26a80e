use expr_eval::error::Error;
use expr_eval::evaler::Evaler;
use expr_eval::evalns::EvalNS;
use expr_eval::grammar::BinaryOp;
use expr_eval::grammar::Constant;
use expr_eval::grammar::Expression;
use expr_eval::grammar::ExpressionTok;
use expr_eval::grammar::Value;
use expr_eval::reduce::reduce;

fn bool_to_f64(b: bool) -> f64 {
    if b {
        1.0
    } else {
        0.0
    }
}

/// The standard floating-point meaning of each operator, over bit patterns.
fn apply_f64(op: BinaryOp, a: u64, b: u64) -> u64 {
    let left = f64::from_bits(a);
    let right = f64::from_bits(b);
    let res = match op {
        BinaryOp::EPlus => left + right,
        BinaryOp::EMinus => left - right,
        BinaryOp::EMul => left * right,
        BinaryOp::EDiv => left / right,
        BinaryOp::EMod => left % right,
        BinaryOp::EExp => left.powf(right),
        BinaryOp::ELT => bool_to_f64(left < right),
        BinaryOp::ELTE => bool_to_f64(left <= right),
        BinaryOp::EEQ => bool_to_f64(left == right),
        BinaryOp::ENE => bool_to_f64(left != right),
        BinaryOp::EGTE => bool_to_f64(left >= right),
        BinaryOp::EGT => bool_to_f64(left > right),
        BinaryOp::EOR => {
            if left != 0.0 {
                left
            } else {
                right
            }
        }
        BinaryOp::EAND => {
            if left == 0.0 {
                left
            } else {
                right
            }
        }
    };
    res.to_bits()
}

/// Builds the flattened expression `vals[0] ops[0] vals[1] ops[1] ...`.
fn expr(vals: &[f64], ops: &[BinaryOp]) -> Expression {
    assert_eq!(vals.len(), ops.len() + 1);
    let mut toks: Vec<ExpressionTok> = Vec::new();
    for (i, v) in vals.iter().enumerate() {
        toks.push(ExpressionTok::EValue(Value::EConstant(Constant(v.to_bits()))));
        if i < ops.len() {
            toks.push(ExpressionTok::EBinaryOp(ops[i]));
        }
    }
    Expression(toks)
}

fn eval_f64(e: &Expression) -> Result<f64, Error> {
    let mut ns = EvalNS::new(Vec::new());
    match e.eval(&mut ns, &apply_f64) {
        Ok(bits) => Ok(f64::from_bits(bits)),
        Err(err) => Err(err),
    }
}

#[test]
fn var_names() {
    let e = expr(&[12.34, 43.21, 11.11], &[BinaryOp::EPlus, BinaryOp::EPlus]);
    let names = e.var_names().unwrap();
    assert_eq!(names, Vec::<String>::new());

    let got = eval_f64(&e).unwrap();
    assert_eq!(got, 66.66);
}

#[test]
fn sum_within_tolerance() {
    let e = expr(&[12.34, 43.21, 11.11], &[BinaryOp::EPlus, BinaryOp::EPlus]);
    let got = eval_f64(&e).unwrap();
    assert!((got - 66.66).abs() < 1e-9);
}

#[test]
fn exp_is_right_associative() {
    // 2^3^4 == 2^(3^4) == 2^81, not (2^3)^4 == 4096.
    let e = expr(&[2.0, 3.0, 4.0], &[BinaryOp::EExp, BinaryOp::EExp]);
    let got = eval_f64(&e).unwrap();
    assert_eq!(got, 2f64.powf(3f64.powf(4.0)));
    assert_eq!(got, 2f64.powf(81.0));
    assert_ne!(got, 4096.0);
}

#[test]
fn minus_is_left_associative() {
    // 6-5-4-3 == ((6-5)-4)-3 == -6, not 6-(5-(4-3)) == 0.
    let e = expr(
        &[6.0, 5.0, 4.0, 3.0],
        &[BinaryOp::EMinus, BinaryOp::EMinus, BinaryOp::EMinus],
    );
    let got = eval_f64(&e).unwrap();
    assert_eq!(got, -6.0);
    assert_ne!(got, 0.0);
}

#[test]
fn div_is_left_associative() {
    // 6/5/4/3 == ((6/5)/4)/3 == 0.1 (within floating tolerance).
    let e = expr(
        &[6.0, 5.0, 4.0, 3.0],
        &[BinaryOp::EDiv, BinaryOp::EDiv, BinaryOp::EDiv],
    );
    let got = eval_f64(&e).unwrap();
    assert_eq!(got, ((6.0f64 / 5.0) / 4.0) / 3.0);
    assert!((got - 0.1).abs() < 1e-12);
    assert_ne!(got, 6.0 / (5.0 / (4.0 / 3.0)));
}

#[test]
fn or_returns_an_operand() {
    let e = expr(&[0.0, 5.0], &[BinaryOp::EOR]);
    assert_eq!(eval_f64(&e).unwrap(), 5.0);
    let e = expr(&[3.0, 5.0], &[BinaryOp::EOR]);
    assert_eq!(eval_f64(&e).unwrap(), 3.0);
}

#[test]
fn and_returns_an_operand() {
    let e = expr(&[0.0, 5.0], &[BinaryOp::EAND]);
    assert_eq!(eval_f64(&e).unwrap(), 0.0);
    let e = expr(&[3.0, 5.0], &[BinaryOp::EAND]);
    assert_eq!(eval_f64(&e).unwrap(), 5.0);
}

#[test]
fn comparisons_return_exactly_zero_or_one() {
    let comparisons = [
        BinaryOp::ELT,
        BinaryOp::ELTE,
        BinaryOp::EEQ,
        BinaryOp::ENE,
        BinaryOp::EGTE,
        BinaryOp::EGT,
    ];
    for op in comparisons.iter() {
        for pair in [(2.0, 3.0), (3.0, 3.0), (4.0, 3.0)].iter() {
            let e = expr(&[pair.0, pair.1], &[*op]);
            let got = eval_f64(&e).unwrap();
            assert!(got == 0.0 || got == 1.0);
            assert!(got.to_bits() == 0.0f64.to_bits() || got.to_bits() == 1.0f64.to_bits());
        }
    }
    assert_eq!(eval_f64(&expr(&[2.0, 3.0], &[BinaryOp::ELT])).unwrap(), 1.0);
    assert_eq!(eval_f64(&expr(&[3.0, 3.0], &[BinaryOp::ELT])).unwrap(), 0.0);
    assert_eq!(eval_f64(&expr(&[3.0, 3.0], &[BinaryOp::ELTE])).unwrap(), 1.0);
    assert_eq!(eval_f64(&expr(&[3.0, 3.0], &[BinaryOp::EEQ])).unwrap(), 1.0);
    assert_eq!(eval_f64(&expr(&[3.0, 3.0], &[BinaryOp::ENE])).unwrap(), 0.0);
    assert_eq!(eval_f64(&expr(&[2.0, 3.0], &[BinaryOp::EGTE])).unwrap(), 0.0);
    assert_eq!(eval_f64(&expr(&[4.0, 3.0], &[BinaryOp::EGT])).unwrap(), 1.0);
}

#[test]
fn precedence_mixes_tiers() {
    // 1 + 2 * 3 == 7, not 9.
    let e = expr(&[1.0, 2.0, 3.0], &[BinaryOp::EPlus, BinaryOp::EMul]);
    assert_eq!(eval_f64(&e).unwrap(), 7.0);
    // 2 ^ 3 * 4 - 1 == 31.
    let e = expr(
        &[2.0, 3.0, 4.0, 1.0],
        &[BinaryOp::EExp, BinaryOp::EMul, BinaryOp::EMinus],
    );
    assert_eq!(eval_f64(&e).unwrap(), 31.0);
    // 1 < 2 && 9 == 9 (value-returning AND).
    let e = expr(&[1.0, 2.0, 9.0], &[BinaryOp::ELT, BinaryOp::EAND]);
    assert_eq!(eval_f64(&e).unwrap(), 9.0);
}

#[test]
fn modulo_follows_dividend_sign() {
    let e = expr(&[7.5, 2.0], &[BinaryOp::EMod]);
    assert_eq!(eval_f64(&e).unwrap(), 1.5);
    let e = expr(&[-7.5, 2.0], &[BinaryOp::EMod]);
    assert_eq!(eval_f64(&e).unwrap(), -1.5);
}

#[test]
fn numeric_edge_cases_are_not_errors() {
    let e = expr(&[1.0, 0.0], &[BinaryOp::EDiv]);
    assert_eq!(eval_f64(&e).unwrap(), f64::INFINITY);
    let e = expr(&[0.0, 0.0], &[BinaryOp::EDiv]);
    assert!(eval_f64(&e).unwrap().is_nan());
}

#[test]
fn even_length_is_a_structural_error() {
    let mut toks: Vec<ExpressionTok> = Vec::new();
    toks.push(ExpressionTok::EValue(Value::EConstant(Constant(1.0f64.to_bits()))));
    toks.push(ExpressionTok::EBinaryOp(BinaryOp::EPlus));
    let e = Expression(toks);
    let err = eval_f64(&e).unwrap_err();
    assert_eq!(err.messages(), &vec!["Expression len should always be odd".to_string()]);
}

#[test]
fn value_at_odd_index_is_a_structural_error() {
    let one = ExpressionTok::EValue(Value::EConstant(Constant(1.0f64.to_bits())));
    let e = Expression(vec![one, one, one]);
    let err = eval_f64(&e).unwrap_err();
    assert_eq!(err.messages(), &vec!["Found value at odd index".to_string()]);
}

#[test]
fn binaryop_at_even_index_is_a_structural_error() {
    let e = Expression(vec![ExpressionTok::EBinaryOp(BinaryOp::EPlus)]);
    let err = eval_f64(&e).unwrap_err();
    assert_eq!(err.messages(), &vec!["Found binaryop at even index".to_string()]);
}

#[test]
fn reduction_ends_with_one_value_and_no_operators() {
    let e = expr(
        &[9.0, 8.0, 7.0, 6.0, 5.0],
        &[BinaryOp::EPlus, BinaryOp::EMul, BinaryOp::EMinus, BinaryOp::EDiv],
    );
    let mut ns = EvalNS::new(Vec::new());
    let (mut vals, mut ops) = e.resolve(&mut ns).unwrap();
    assert_eq!(vals.len(), ops.len() + 1);
    reduce(&mut vals, &mut ops, &apply_f64);
    assert_eq!(vals.len(), 1);
    assert_eq!(ops.len(), 0);
}

#[test]
fn repeated_same_tier_operators_reduce_to_one_value() {
    let vals: Vec<f64> = (0..33).map(|k| k as f64).collect();
    let ops: Vec<BinaryOp> = (0..32).map(|_| BinaryOp::EMinus).collect();
    let e = expr(&vals, &ops);
    let mut expected = 0.0f64;
    for k in 1..33 {
        expected -= k as f64;
    }
    assert_eq!(eval_f64(&e).unwrap(), expected);
}

#[test]
fn evaluation_is_idempotent() {
    let e = expr(&[12.34, 43.21, 11.11], &[BinaryOp::EPlus, BinaryOp::EMul]);
    let mut ns = EvalNS::new(vec![("x".to_string(), 1.5f64.to_bits())]);
    let first = e.eval(&mut ns, &apply_f64);
    let second = e.eval(&mut ns, &apply_f64);
    assert_eq!(first.unwrap(), second.unwrap());
    assert_eq!(ns.get("x"), Some(1.5f64.to_bits()));
}

#[test]
fn namespace_lookup_answers_from_bindings() {
    let mut ns = EvalNS::new(vec![
        ("x".to_string(), 2.5f64.to_bits()),
        ("y".to_string(), 3.5f64.to_bits()),
        ("x".to_string(), 9.9f64.to_bits()),
    ]);
    assert_eq!(ns.get("x"), Some(2.5f64.to_bits()));
    assert_eq!(ns.get("y"), Some(3.5f64.to_bits()));
    assert_eq!(ns.get("z"), None);
}

struct TestEvaler;

impl Evaler for TestEvaler {
    fn eval<F: Fn(BinaryOp, u64, u64) -> u64>(
        &self,
        ns: &mut EvalNS,
        _apply: &F,
    ) -> Result<u64, Error> {
        match ns.get("x") {
            Some(v) => Ok(v),
            None => Ok(1.23f64.to_bits()),
        }
    }
}

#[test]
fn recorder_collects_names_of_a_custom_evaler() {
    let mut ns = EvalNS::new(Vec::new());
    assert_eq!(TestEvaler.eval(&mut ns, &apply_f64), Ok(1.23f64.to_bits()));

    let names = TestEvaler.var_names().unwrap();
    assert_eq!(names, vec!["x".to_string()]);
}

#[test]
fn error_context_chain_is_outermost_first() {
    let err = Error::new("inner").pre("outer");
    assert_eq!(err.messages(), &vec!["outer".to_string(), "inner".to_string()]);
}
