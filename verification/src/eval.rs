//! The evaluator: a tree-walking interpreter over values with lexically
//! scoped environments. Literals evaluate to themselves, symbols to their
//! innermost binding, collections elementwise; a list applies a special
//! form or a function. Built-in arithmetic wraps at the 64-bit boundary.
//! Recursion through user closures is bounded by a generous fuel; a program
//! that exceeds it fails rather than overrun the stack.

use vstd::prelude::*;
use vstd::string::StringExecFns;

use crate::env::Environment;
use crate::env::Frame;
use crate::env::env_lookup;
use crate::env::frame_find;
use crate::printer::render;
use crate::printer::render_val;
use crate::value::BuiltinOp;
use crate::value::EvalError;
use crate::value::Function;
use crate::value::Macro;
use crate::value::Value;
use crate::value::ValueMap;
use crate::value::ValueSet;
use crate::value::val_eq;
use crate::value::val_sim;
use crate::value::value_clone;
use crate::value::value_eq;

verus! {

/// How deep evaluation may recurse before it gives up; far beyond any
/// program the machine stack could run anyway.
pub const EVAL_FUEL: u64 = 1000000;

/// The number held by a numeric value.
pub open spec fn num_of(v: Value) -> i64 {
    v->Number_0
}

/// The first position at or after `i` holding something other than a
/// number; negative when there is none.
pub open spec fn first_bad(args: Seq<Value>, i: int) -> int
    decreases args.len() - i,
{
    if i < 0 || i >= args.len() {
        -1
    } else if !(args[i] is Number) {
        i
    } else {
        first_bad(args, i + 1)
    }
}

/// The wrapped sum of the first `i` arguments.
pub open spec fn add_fold(args: Seq<Value>, i: int) -> i64
    decreases i,
{
    if i <= 0 || i > args.len() {
        0i64
    } else {
        vstd::wrapping::i64_specs::wrapping_add(add_fold(args, i - 1), num_of(args[i - 1]))
    }
}

/// The wrapped product of the first `i` arguments.
pub open spec fn mul_fold(args: Seq<Value>, i: int) -> i64
    decreases i,
{
    if i <= 0 || i > args.len() {
        1i64
    } else {
        vstd::wrapping::i64_specs::wrapping_mul(mul_fold(args, i - 1), num_of(args[i - 1]))
    }
}

/// The wrapped left fold of subtraction over the first `i` arguments.
pub open spec fn sub_fold(args: Seq<Value>, i: int) -> i64
    decreases i,
{
    if i <= 1 || i > args.len() {
        num_of(args[0])
    } else {
        vstd::wrapping::i64_specs::wrapping_sub(sub_fold(args, i - 1), num_of(args[i - 1]))
    }
}

/// The magnitude of a signed number.
pub open spec fn mag(a: i64) -> int {
    if a < 0 {
        -(a as int)
    } else {
        a as int
    }
}

/// Division truncating toward zero, wrapping at the 64-bit boundary.
pub open spec fn tdiv64(a: i64, b: i64) -> i64 {
    let q = mag(a) / mag(b);
    if (a < 0) == (b < 0) {
        vstd::wrapping::i64_specs::signed_crop(q)
    } else {
        vstd::wrapping::i64_specs::signed_crop(-q)
    }
}

/// The left fold of division over the first `i` arguments.
pub open spec fn div_fold(args: Seq<Value>, i: int) -> i64
    decreases i,
{
    if i <= 1 || i > args.len() {
        num_of(args[0])
    } else {
        tdiv64(div_fold(args, i - 1), num_of(args[i - 1]))
    }
}

/// The first position at or after `i` that stops a division: something
/// other than a number, or a zero divisor; negative when there is none.
pub open spec fn div_stop(args: Seq<Value>, i: int) -> int
    decreases args.len() - i,
{
    if i < 0 || i >= args.len() {
        -1
    } else if !(args[i] is Number) || num_of(args[i]) == 0 {
        i
    } else {
        div_stop(args, i + 1)
    }
}

/// An arity mismatch error carrying the expected and received counts.
pub open spec fn arity_err(r: Result<Value, EvalError>, expected: int, got: int) -> bool {
    r matches Err(er) && (er matches EvalError::ArityMismatch { expected: e, got: g } && e == expected
        && g == got)
}

/// A type error expecting a number, describing the offending value.
pub open spec fn bad_number_err(r: Result<Value, EvalError>, v: Value) -> bool {
    r matches Err(er) && (er matches EvalError::TypeError { expected, got } && expected@
        == "number"@ && got@ == render_val(v))
}

/// A type error expecting two numbers, describing both arguments.
pub open spec fn pair_number_err(r: Result<Value, EvalError>, a: Value, b: Value) -> bool {
    r matches Err(er) && (er matches EvalError::TypeError { expected, got } && expected@
        == "number"@ && got@ == render_val(a) + " and "@ + render_val(b))
}

/// A type error expecting a sequence, describing the offending value.
pub open spec fn seq_expected_err(r: Result<Value, EvalError>, v: Value) -> bool {
    r matches Err(er) && (er matches EvalError::TypeError { expected, got } && expected@
        == "list or vector"@ && got@ == render_val(v))
}

/// The division-by-zero error.
pub open spec fn div_zero_err(r: Result<Value, EvalError>) -> bool {
    r matches Err(er) && (er matches EvalError::Other(m) && m@ == "Division by zero"@)
}

/// What each built-in returns, for every argument sequence: sums and
/// products with their identities, left folds for subtraction and division,
/// structural equality and numeric ordering, logical negation where only
/// nil and false are falsey, and the list operations.
pub open spec fn builtin_ok(op: BuiltinOp, args: Seq<Value>, r: Result<Value, EvalError>) -> bool {
    match op {
        BuiltinOp::Add => if first_bad(args, 0) < 0 {
            r matches Ok(rv) && (rv matches Value::Number(n) && n == add_fold(
                args,
                args.len() as int,
            ))
        } else {
            bad_number_err(r, args[first_bad(args, 0)])
        },
        BuiltinOp::Mul => if first_bad(args, 0) < 0 {
            r matches Ok(rv) && (rv matches Value::Number(n) && n == mul_fold(
                args,
                args.len() as int,
            ))
        } else {
            bad_number_err(r, args[first_bad(args, 0)])
        },
        BuiltinOp::Sub => if args.len() == 0 {
            arity_err(r, 1, 0)
        } else if !(args[0] is Number) {
            bad_number_err(r, args[0])
        } else if args.len() == 1 {
            r matches Ok(rv) && (rv matches Value::Number(n) && n
                == vstd::wrapping::i64_specs::wrapping_sub(0i64, num_of(args[0])))
        } else if first_bad(args, 1) < 0 {
            r matches Ok(rv) && (rv matches Value::Number(n) && n == sub_fold(
                args,
                args.len() as int,
            ))
        } else {
            bad_number_err(r, args[first_bad(args, 1)])
        },
        BuiltinOp::Div => if args.len() == 0 {
            arity_err(r, 1, 0)
        } else if !(args[0] is Number) {
            bad_number_err(r, args[0])
        } else if args.len() == 1 {
            if num_of(args[0]) == 0 {
                div_zero_err(r)
            } else {
                r matches Ok(rv) && (rv matches Value::Number(n) && n == tdiv64(
                    1i64,
                    num_of(args[0]),
                ))
            }
        } else if div_stop(args, 1) < 0 {
            r matches Ok(rv) && (rv matches Value::Number(n) && n == div_fold(
                args,
                args.len() as int,
            ))
        } else if args[div_stop(args, 1)] is Number {
            div_zero_err(r)
        } else {
            bad_number_err(r, args[div_stop(args, 1)])
        },
        BuiltinOp::Equal => if args.len() < 2 {
            arity_err(r, 2, args.len() as int)
        } else {
            r matches Ok(rv) && (rv matches Value::Boolean(b) && b == (forall|k: int|
                1 <= k < args.len() ==> val_eq(args[0], #[trigger] args[k])))
        },
        BuiltinOp::Less => if args.len() != 2 {
            arity_err(r, 2, args.len() as int)
        } else if args[0] is Number && args[1] is Number {
            r matches Ok(rv) && (rv matches Value::Boolean(b) && b == (num_of(args[0]) < num_of(
                args[1],
            )))
        } else {
            pair_number_err(r, args[0], args[1])
        },
        BuiltinOp::Greater => if args.len() != 2 {
            arity_err(r, 2, args.len() as int)
        } else if args[0] is Number && args[1] is Number {
            r matches Ok(rv) && (rv matches Value::Boolean(b) && b == (num_of(args[0]) > num_of(
                args[1],
            )))
        } else {
            pair_number_err(r, args[0], args[1])
        },
        BuiltinOp::Not => if args.len() != 1 {
            arity_err(r, 1, args.len() as int)
        } else {
            r matches Ok(rv) && (rv matches Value::Boolean(b) && b == (if args[0] is Boolean {
                !(args[0]->Boolean_0)
            } else {
                args[0] is Nil
            }))
        },
        BuiltinOp::ListOf => r matches Ok(rv) && (rv matches Value::List(items) && items@ == args),
        BuiltinOp::First => if args.len() != 1 {
            arity_err(r, 1, args.len() as int)
        } else {
            match args[0] {
                Value::List(xs) => if xs@.len() == 0 {
                    r matches Ok(rv) && rv is Nil
                } else {
                    r matches Ok(rv) && val_sim(xs@[0], rv)
                },
                Value::Vector(xs) => if xs@.len() == 0 {
                    r matches Ok(rv) && rv is Nil
                } else {
                    r matches Ok(rv) && val_sim(xs@[0], rv)
                },
                _ => seq_expected_err(r, args[0]),
            }
        },
        BuiltinOp::Rest => if args.len() != 1 {
            arity_err(r, 1, args.len() as int)
        } else {
            match args[0] {
                Value::List(xs) => r matches Ok(rv) && (rv matches Value::List(items) && rest_sim(
                    xs@,
                    items@,
                )),
                Value::Vector(xs) => r matches Ok(rv) && (rv matches Value::Vector(items)
                    && rest_sim(xs@, items@)),
                _ => seq_expected_err(r, args[0]),
            }
        },
    }
}

/// The tail of a sequence, element for element, as a deep copy.
pub open spec fn rest_sim(xs: Seq<Value>, items: Seq<Value>) -> bool {
    &&& items.len() == (if xs.len() == 0 {
        0int
    } else {
        xs.len() - 1
    })
    &&& forall|k: int| 0 <= k < items.len() ==> val_sim(xs[k + 1], #[trigger] items[k])
}

/// If every argument before `i` is a number, the first offender at or
/// after zero is the first offender at or after `i`.
proof fn lemma_first_bad_align(args: Seq<Value>, j: int, i: int)
    requires
        0 <= j <= i <= args.len(),
        forall|k: int| j <= k < i ==> (#[trigger] args[k]) is Number,
    ensures
        first_bad(args, j) == first_bad(args, i),
    decreases i - j,
{
    if j < i {
        lemma_first_bad_align(args, j + 1, i);
    }
}

/// The same alignment for division stops.
proof fn lemma_div_stop_align(args: Seq<Value>, j: int, i: int)
    requires
        0 <= j <= i <= args.len(),
        forall|k: int|
            j <= k < i ==> (#[trigger] args[k]) is Number && num_of(args[k]) != 0,
    ensures
        div_stop(args, j) == div_stop(args, i),
    decreases i - j,
{
    if j < i {
        lemma_div_stop_align(args, j + 1, i);
    }
}

/// Divides two numbers, truncating toward zero and wrapping at the 64-bit
/// boundary.
fn div_trunc(a: i64, b: i64) -> (r: i64)
    requires
        b != 0,
    ensures
        r == tdiv64(a, b),
{
    let ma: u64 = if a < 0 {
        ((-(a + 1)) as u64) + 1
    } else {
        a as u64
    };
    let mb: u64 = if b < 0 {
        ((-(b + 1)) as u64) + 1
    } else {
        b as u64
    };
    let q: u64 = ma / mb;
    proof {
        assert(ma == mag(a));
        assert(mb == mag(b));
        assert(q == mag(a) / mag(b));
        assert(mag(a) <= 0x8000_0000_0000_0000);
        vstd::arithmetic::div_mod::lemma_div_is_ordered(q as int, mag(a), 1);
    }
    if (a < 0) == (b < 0) {
        if q <= 0x7fff_ffff_ffff_ffffu64 {
            q as i64
        } else {
            proof {
                assert(q == 0x8000_0000_0000_0000) by {
                    vstd::arithmetic::div_mod::lemma_div_is_ordered_by_denominator(
                        mag(a),
                        1,
                        mag(b),
                    );
                }
            }
            i64::MIN
        }
    } else {
        if q == 0 {
            0
        } else {
            (-((q - 1) as i64)) - 1
        }
    }
}

/// Applies a built-in operation to its evaluated arguments.
pub fn apply_builtin(op: BuiltinOp, args: Vec<Value>) -> (r: Result<Value, EvalError>)
    ensures
        builtin_ok(op, args@, r),
{
    match op {
        BuiltinOp::Add => {
            let n = args.len();
            let mut acc: i64 = 0;
            let mut i: usize = 0;
            while i < n
                invariant
                    0 <= i <= n,
                    n == args@.len(),
                    op == BuiltinOp::Add,
                    forall|k: int| 0 <= k < i ==> (#[trigger] args@[k]) is Number,
                    acc == add_fold(args@, i as int),
                decreases n - i,
            {
                match &args[i] {
                    Value::Number(x) => {
                        acc = acc.wrapping_add(*x);
                    },
                    _ => {
                        let r = Err(
                            EvalError::TypeError {
                                expected: String::from_str("number"),
                                got: render(&args[i]),
                            },
                        );
                        proof {
                            lemma_first_bad_align(args@, 0, i as int);
                            lemma_bi_fold_err(BuiltinOp::Add, args@, i as int, r);
                        }
                        return r;
                    },
                }
                i = i + 1;
            }
            proof {
                lemma_first_bad_align(args@, 0, n as int);
            }
            Ok(Value::Number(acc))
        },
        BuiltinOp::Mul => {
            let n = args.len();
            let mut acc: i64 = 1;
            let mut i: usize = 0;
            while i < n
                invariant
                    0 <= i <= n,
                    n == args@.len(),
                    op == BuiltinOp::Mul,
                    forall|k: int| 0 <= k < i ==> (#[trigger] args@[k]) is Number,
                    acc == mul_fold(args@, i as int),
                decreases n - i,
            {
                match &args[i] {
                    Value::Number(x) => {
                        acc = acc.wrapping_mul(*x);
                    },
                    _ => {
                        let r = Err(
                            EvalError::TypeError {
                                expected: String::from_str("number"),
                                got: render(&args[i]),
                            },
                        );
                        proof {
                            lemma_first_bad_align(args@, 0, i as int);
                            lemma_bi_fold_err(BuiltinOp::Mul, args@, i as int, r);
                        }
                        return r;
                    },
                }
                i = i + 1;
            }
            proof {
                lemma_first_bad_align(args@, 0, n as int);
            }
            Ok(Value::Number(acc))
        },
        BuiltinOp::Sub => {
            let n = args.len();
            if n == 0 {
                return Err(EvalError::ArityMismatch { expected: 1, got: 0 });
            }
            let first: i64 = match &args[0] {
                Value::Number(x) => *x,
                _ => {
                    return Err(
                        EvalError::TypeError {
                            expected: String::from_str("number"),
                            got: render(&args[0]),
                        },
                    );
                },
            };
            if n == 1 {
                return Ok(Value::Number(0i64.wrapping_sub(first)));
            }
            let mut acc: i64 = first;
            let mut i: usize = 1;
            while i < n
                invariant
                    1 <= i <= n,
                    n == args@.len(),
                    op == BuiltinOp::Sub,
                    args@[0] is Number,
                    forall|k: int| 1 <= k < i ==> (#[trigger] args@[k]) is Number,
                    acc == sub_fold(args@, i as int),
                decreases n - i,
            {
                match &args[i] {
                    Value::Number(x) => {
                        acc = acc.wrapping_sub(*x);
                    },
                    _ => {
                        let r = Err(
                            EvalError::TypeError {
                                expected: String::from_str("number"),
                                got: render(&args[i]),
                            },
                        );
                        proof {
                            lemma_first_bad_align(args@, 1, i as int);
                            lemma_bi_sub_err(args@, i as int, r);
                        }
                        return r;
                    },
                }
                i = i + 1;
            }
            proof {
                lemma_first_bad_align(args@, 1, n as int);
            }
            Ok(Value::Number(acc))
        },
        BuiltinOp::Div => {
            let n = args.len();
            if n == 0 {
                return Err(EvalError::ArityMismatch { expected: 1, got: 0 });
            }
            let first: i64 = match &args[0] {
                Value::Number(x) => *x,
                _ => {
                    return Err(
                        EvalError::TypeError {
                            expected: String::from_str("number"),
                            got: render(&args[0]),
                        },
                    );
                },
            };
            if n == 1 {
                if first == 0 {
                    return Err(EvalError::Other(String::from_str("Division by zero")));
                }
                return Ok(Value::Number(div_trunc(1, first)));
            }
            let mut acc: i64 = first;
            let mut i: usize = 1;
            while i < n
                invariant
                    1 <= i <= n,
                    n == args@.len(),
                    op == BuiltinOp::Div,
                    args@[0] is Number,
                    forall|k: int|
                        1 <= k < i ==> (#[trigger] args@[k]) is Number && num_of(args@[k]) != 0,
                    acc == div_fold(args@, i as int),
                decreases n - i,
            {
                match &args[i] {
                    Value::Number(x) => {
                        if *x == 0 {
                            let r = Err(EvalError::Other(String::from_str("Division by zero")));
                            proof {
                                lemma_div_stop_align(args@, 1, i as int);
                                lemma_bi_div_err(args@, i as int, r);
                            }
                            return r;
                        }
                        acc = div_trunc(acc, *x);
                    },
                    _ => {
                        let r = Err(
                            EvalError::TypeError {
                                expected: String::from_str("number"),
                                got: render(&args[i]),
                            },
                        );
                        proof {
                            lemma_div_stop_align(args@, 1, i as int);
                            lemma_bi_div_err(args@, i as int, r);
                        }
                        return r;
                    },
                }
                i = i + 1;
            }
            proof {
                lemma_div_stop_align(args@, 1, n as int);
            }
            Ok(Value::Number(acc))
        },
        BuiltinOp::Equal => {
            let n = args.len();
            if n < 2 {
                return Err(EvalError::ArityMismatch { expected: 2, got: n });
            }
            let mut all = true;
            let mut k: usize = 1;
            while k < n
                invariant
                    1 <= k <= n,
                    n == args@.len(),
                    all == (forall|t: int| 1 <= t < k ==> val_eq(args@[0], #[trigger] args@[t])),
                decreases n - k,
            {
                if !value_eq(&args[0], &args[k]) {
                    all = false;
                }
                k = k + 1;
            }
            Ok(Value::Boolean(all))
        },
        BuiltinOp::Less => {
            let n = args.len();
            if n != 2 {
                return Err(EvalError::ArityMismatch { expected: 2, got: n });
            }
            match (&args[0], &args[1]) {
                (Value::Number(a), Value::Number(b)) => Ok(Value::Boolean(*a < *b)),
                _ => {
                    let mut got = render(&args[0]);
                    got.append(" and ");
                    let second = render(&args[1]);
                    got.append(second.as_str());
                    proof {
                        reveal_strlit(" and ");
                    }
                    Err(EvalError::TypeError { expected: String::from_str("number"), got })
                },
            }
        },
        BuiltinOp::Greater => {
            let n = args.len();
            if n != 2 {
                return Err(EvalError::ArityMismatch { expected: 2, got: n });
            }
            match (&args[0], &args[1]) {
                (Value::Number(a), Value::Number(b)) => Ok(Value::Boolean(*a > *b)),
                _ => {
                    let mut got = render(&args[0]);
                    got.append(" and ");
                    let second = render(&args[1]);
                    got.append(second.as_str());
                    proof {
                        reveal_strlit(" and ");
                    }
                    Err(EvalError::TypeError { expected: String::from_str("number"), got })
                },
            }
        },
        BuiltinOp::Not => {
            let n = args.len();
            if n != 1 {
                return Err(EvalError::ArityMismatch { expected: 1, got: n });
            }
            match &args[0] {
                Value::Boolean(b) => Ok(Value::Boolean(!*b)),
                Value::Nil => Ok(Value::Boolean(true)),
                _ => Ok(Value::Boolean(false)),
            }
        },
        BuiltinOp::ListOf => Ok(Value::List(args)),
        BuiltinOp::First => {
            let n = args.len();
            if n != 1 {
                return Err(EvalError::ArityMismatch { expected: 1, got: n });
            }
            match &args[0] {
                Value::List(xs) => {
                    if xs.len() == 0 {
                        Ok(Value::Nil)
                    } else {
                        Ok(value_clone(&xs[0]))
                    }
                },
                Value::Vector(xs) => {
                    if xs.len() == 0 {
                        Ok(Value::Nil)
                    } else {
                        Ok(value_clone(&xs[0]))
                    }
                },
                _ => Err(
                    EvalError::TypeError {
                        expected: String::from_str("list or vector"),
                        got: render(&args[0]),
                    },
                ),
            }
        },
        BuiltinOp::Rest => {
            let n = args.len();
            if n != 1 {
                return Err(EvalError::ArityMismatch { expected: 1, got: n });
            }
            match &args[0] {
                Value::List(xs) => Ok(Value::List(clone_rest(xs))),
                Value::Vector(xs) => Ok(Value::Vector(clone_rest(xs))),
                _ => Err(
                    EvalError::TypeError {
                        expected: String::from_str("list or vector"),
                        got: render(&args[0]),
                    },
                ),
            }
        },
    }
}

/// Deep-copies all elements after the first.
fn clone_rest(xs: &Vec<Value>) -> (r: Vec<Value>)
    ensures
        rest_sim(xs@, r@),
{
    let mut r: Vec<Value> = Vec::new();
    let n = xs.len();
    if n == 0 {
        return r;
    }
    let mut i: usize = 1;
    while i < n
        invariant
            1 <= i <= n,
            n == xs@.len(),
            r@.len() == i - 1,
            forall|k: int| 0 <= k < r@.len() ==> val_sim(xs@[k + 1], #[trigger] r@[k]),
        decreases n - i,
    {
        r.push(value_clone(&xs[i]));
        i = i + 1;
    }
    r
}

/// A non-number stops a sum or product with a type error.
proof fn lemma_bi_fold_err(op: BuiltinOp, args: Seq<Value>, j: int, r: Result<Value, EvalError>)
    requires
        op == BuiltinOp::Add || op == BuiltinOp::Mul,
        0 <= j < args.len(),
        first_bad(args, 0) == j,
        bad_number_err(r, args[j]),
    ensures
        builtin_ok(op, args, r),
{
}

/// A non-number stops a subtraction with a type error.
proof fn lemma_bi_sub_err(args: Seq<Value>, j: int, r: Result<Value, EvalError>)
    requires
        args.len() >= 2,
        args[0] is Number,
        1 <= j < args.len(),
        first_bad(args, 1) == j,
        bad_number_err(r, args[j]),
    ensures
        builtin_ok(BuiltinOp::Sub, args, r),
{
}

/// A zero divisor or a non-number stops a division.
proof fn lemma_bi_div_err(args: Seq<Value>, j: int, r: Result<Value, EvalError>)
    requires
        args.len() >= 2,
        args[0] is Number,
        1 <= j < args.len(),
        div_stop(args, 1) == j,
        if args[j] is Number {
            div_zero_err(r)
        } else {
            bad_number_err(r, args[j])
        },
    ensures
        builtin_ok(BuiltinOp::Div, args, r),
{
}

/// Values that evaluate to themselves.
pub open spec fn is_self_eval(v: Value) -> bool {
    ||| v is Nil
    ||| v is Boolean
    ||| v is Number
    ||| v is String
    ||| v is Keyword
    ||| v is Function
    ||| v is Macro
}

/// Marks a candidate frame sequence, so that a quantifier over frame
/// sequences has a stable handle.
pub open spec fn frames_seen(fs: Seq<Frame>) -> bool {
    true
}

/// Marks a candidate entry sequence, so that a quantifier over entry
/// sequences has a stable handle.
pub open spec fn pairs_seen(pvs: Seq<(Value, Value)>) -> bool {
    true
}

/// The error evaluation gives when its recursion fuel runs out.
pub open spec fn fuel_out(r: Result<Value, EvalError>) -> bool {
    r matches Err(er) && (er matches EvalError::Other(m) && m@ == "recursion limit exceeded"@)
}

/// A type error with the given expectation, describing the offending value.
pub open spec fn type_err(r: Result<Value, EvalError>, expected: Seq<char>, got: Seq<char>) -> bool {
    r matches Err(er) && (er matches EvalError::TypeError { expected: e, got: g } && e@ == expected
        && g@ == got)
}

/// An error with the given message.
pub open spec fn other_err(r: Result<Value, EvalError>, m: Seq<char>) -> bool {
    r matches Err(er) && (er matches EvalError::Other(s) && s@ == m)
}

/// The head of a list form names the given special form.
pub open spec fn is_form_name(items: Seq<Value>, name: Seq<char>) -> bool {
    items[0] matches Value::Symbol(s) && s@ == name
}

/// The association sequence built by inserting the first `i` evaluated
/// entries in order, later keys replacing earlier structurally equal ones.
pub open spec fn put_pairs(pvs: Seq<(Value, Value)>, i: int) -> Seq<(Value, Value)>
    decreases i,
{
    if i <= 0 || i > pvs.len() {
        Seq::empty()
    } else {
        crate::reader::map_put(put_pairs(pvs, i - 1), pvs[i - 1].0, pvs[i - 1].1)
    }
}

/// The first position at or after `i` that is not a symbol; negative when
/// there is none.
pub open spec fn first_nonsym(ps: Seq<Value>, i: int) -> int
    decreases ps.len() - i,
{
    if i < 0 || i >= ps.len() {
        -1
    } else if !(ps[i] is Symbol) {
        i
    } else {
        first_nonsym(ps, i + 1)
    }
}

/// The parameter names carry exactly the texts of the given symbols.
pub open spec fn params_match(ps: Seq<Value>, names: Seq<String>) -> bool {
    names.len() == ps.len() && forall|i: int|
        0 <= i < ps.len() ==> (#[trigger] ps[i])->Symbol_0@ == names[i]@
}

/// The binding a fresh call frame gives a name: the value of the last
/// parameter with that name, or nothing.
pub open spec fn params_find(ps: Seq<String>, args: Seq<Value>, nm: Seq<char>) -> Option<Value>
    decreases ps.len(),
{
    if ps.len() == 0 || args.len() != ps.len() {
        None
    } else if ps.last()@ == nm {
        Some(args.last())
    } else {
        params_find(ps.drop_last(), args.drop_last(), nm)
    }
}

/// The store after `setq`: only the written frame changed, and in it only
/// the written name, which is now bound to a copy of the value.
pub open spec fn rebound(fsm: Seq<Frame>, fs2: Seq<Frame>, f: int, name: Seq<char>, v: Value) -> bool {
    &&& fs2.len() == fsm.len()
    &&& forall|i: int| 0 <= i < fsm.len() && i != f ==> fs2[i] == fsm[i]
    &&& fs2[f].outer == fsm[f].outer
    &&& (frame_find(fs2[f].bindings@, name) matches Some(b) && val_sim(v, b))
    &&& forall|nm: Seq<char>|
        nm != name ==> #[trigger] frame_find(fs2[f].bindings@, nm) == frame_find(
            fsm[f].bindings@,
            nm,
        )
}

/// The store after entering a call: one fresh frame appended, extending the
/// closure's captured frame, binding exactly the parameters to the
/// arguments with the last occurrence of a repeated name winning.
pub open spec fn entered(
    fsm: Seq<Frame>,
    fse: Seq<Frame>,
    outer: int,
    ps: Seq<String>,
    args: Seq<Value>,
) -> bool {
    &&& fse.len() == fsm.len() + 1
    &&& forall|i: int| 0 <= i < fsm.len() ==> fse[i] == fsm[i]
    &&& (fse.last().outer matches Some(o) && o == outer)
    &&& forall|nm: Seq<char>|
        #[trigger] frame_find(fse.last().bindings@, nm) == params_find(ps, args, nm)
}

/// What evaluating one value may produce, and how it may change the store:
/// the full dispatch of the evaluator, indexed by the remaining recursion
/// fuel. Literals and abstractions evaluate to structurally identical
/// copies of themselves; a symbol to a copy of its innermost binding or an
/// unbound-symbol error; collections elementwise with map keys coalescing;
/// a non-empty list to a special form's result or an application. Fuel is
/// spent once per non-empty compound value; when it is gone the result is
/// the recursion-limit error.
pub open spec fn eval_rel(
    fs: Seq<Frame>,
    f: int,
    v: Value,
    fuel: int,
    r: Result<Value, EvalError>,
    fs2: Seq<Frame>,
) -> bool
    decreases fuel, 0int, v,
{
    if is_self_eval(v) {
        fs2 == fs && (r matches Ok(rv) && val_sim(v, rv))
    } else if v is Symbol {
        fs2 == fs && (match env_lookup(fs, f, v->Symbol_0@) {
            Some(b) => r matches Ok(rv) && val_sim(b, rv),
            None => r matches Err(er) && (er matches EvalError::UnboundSymbol(s) && s@
                == v->Symbol_0@),
        })
    } else if v is List && v->List_0@.len() == 0 {
        fs2 == fs && (r matches Ok(rv) && (rv matches Value::List(out) && out@.len() == 0))
    } else if fuel <= 0 {
        fs2 == fs && fuel_out(r)
    } else if v is List {
        list_form_rel(fs, f, v->List_0@, fuel - 1, r, fs2)
    } else if v is Vector {
        ||| (exists|vs: Seq<Value>|
            #![trigger crate::reader::forms_seen(vs)]
            {
                &&& crate::reader::forms_seen(vs)
                &&& eval_seq_rel(fs, f, v->Vector_0@, fuel - 1, Ok(vs), fs2)
                &&& r matches Ok(rv) && (rv matches Value::Vector(out) && out@ == vs)
            })
        ||| (r matches Err(er) && eval_seq_rel(fs, f, v->Vector_0@, fuel - 1, Err(er), fs2))
    } else if v is MapVal {
        ||| (exists|pvs: Seq<(Value, Value)>|
            #![trigger pairs_seen(pvs)]
            {
                &&& pairs_seen(pvs)
                &&& eval_pairs_rel(fs, f, v->MapVal_0.entries@, fuel - 1, Ok(pvs), fs2)
                &&& r matches Ok(rv) && (rv matches Value::MapVal(out) && out.entries@ == put_pairs(
                    pvs,
                    pvs.len() as int,
                ))
            })
        ||| (r matches Err(er) && eval_pairs_rel(fs, f, v->MapVal_0.entries@, fuel - 1, Err(er), fs2))
    } else {
        ||| (exists|vs: Seq<Value>|
            #![trigger crate::reader::forms_seen(vs)]
            {
                &&& crate::reader::forms_seen(vs)
                &&& eval_seq_rel(fs, f, v->SetVal_0.items@, fuel - 1, Ok(vs), fs2)
                &&& r matches Ok(rv) && (rv matches Value::SetVal(out) && out.items@
                    == crate::reader::sets_fold(vs, vs.len() as int))
            })
        ||| (r matches Err(er) && eval_seq_rel(fs, f, v->SetVal_0.items@, fuel - 1, Err(er), fs2))
    }
}

/// Evaluating a sequence of values left to right: the results in order, or
/// the first error, with the store threaded through.
pub open spec fn eval_seq_rel(
    fs: Seq<Frame>,
    f: int,
    vs: Seq<Value>,
    fuel: int,
    out: Result<Seq<Value>, EvalError>,
    fs2: Seq<Frame>,
) -> bool
    decreases fuel, 1int, vs,
{
    if vs.len() == 0 {
        fs2 == fs && (out matches Ok(os) && os.len() == 0)
    } else {
        ||| (exists|v0: Value, fsm: Seq<Frame>|
            #![trigger crate::reader::value_seen(v0), frames_seen(fsm)]
            {
                &&& crate::reader::value_seen(v0)
                &&& frames_seen(fsm)
                &&& eval_rel(fs, f, vs[0], fuel, Ok(v0), fsm)
                &&& match out {
                    Ok(os) => os.len() == vs.len() && os[0] == v0 && eval_seq_rel(
                        fsm,
                        f,
                        vs.drop_first(),
                        fuel,
                        Ok(os.drop_first()),
                        fs2,
                    ),
                    Err(er) => eval_seq_rel(fsm, f, vs.drop_first(), fuel, Err(er), fs2),
                }
            })
        ||| (out matches Err(er) && eval_rel(fs, f, vs[0], fuel, Err(er), fs2))
    }
}

/// Evaluating map entries left to right, key before value within each
/// entry: the evaluated pairs in order, or the first error.
pub open spec fn eval_pairs_rel(
    fs: Seq<Frame>,
    f: int,
    es: Seq<(Value, Value)>,
    fuel: int,
    out: Result<Seq<(Value, Value)>, EvalError>,
    fs2: Seq<Frame>,
) -> bool
    decreases fuel, 1int, es,
{
    if es.len() == 0 {
        fs2 == fs && (out matches Ok(os) && os.len() == 0)
    } else {
        ||| (exists|kv: Value, fsk: Seq<Frame>|
            #![trigger crate::reader::value_seen(kv), frames_seen(fsk)]
            {
                &&& crate::reader::value_seen(kv)
                &&& frames_seen(fsk)
                &&& eval_rel(fs, f, es[0].0, fuel, Ok(kv), fsk)
                &&& ({
                    ||| (exists|vv: Value, fsv: Seq<Frame>|
                        #![trigger crate::reader::value_seen(vv), frames_seen(fsv)]
                        {
                            &&& crate::reader::value_seen(vv)
                            &&& frames_seen(fsv)
                            &&& eval_rel(fsk, f, es[0].1, fuel, Ok(vv), fsv)
                            &&& match out {
                                Ok(os) => os.len() == es.len() && os[0] == (kv, vv)
                                    && eval_pairs_rel(
                                    fsv,
                                    f,
                                    es.drop_first(),
                                    fuel,
                                    Ok(os.drop_first()),
                                    fs2,
                                ),
                                Err(er) => eval_pairs_rel(fsv, f, es.drop_first(), fuel, Err(er), fs2),
                            }
                        })
                    ||| (out matches Err(er) && eval_rel(fsk, f, es[0].1, fuel, Err(er), fs2))
                })
            })
        ||| (out matches Err(er) && eval_rel(fs, f, es[0].0, fuel, Err(er), fs2))
    }
}

/// Evaluating a closure body in order: the last form's value, nil for an
/// empty body, or the first error.
pub open spec fn body_rel(
    fs: Seq<Frame>,
    f: int,
    body: Seq<Value>,
    fuel: int,
    r: Result<Value, EvalError>,
    fs2: Seq<Frame>,
) -> bool
    decreases fuel, 1int, body,
{
    if body.len() == 0 {
        fs2 == fs && (r matches Ok(rv) && rv is Nil)
    } else if body.len() == 1 {
        eval_rel(fs, f, body[0], fuel, r, fs2)
    } else {
        ||| (exists|v0: Value, fsm: Seq<Frame>|
            #![trigger crate::reader::value_seen(v0), frames_seen(fsm)]
            {
                &&& crate::reader::value_seen(v0)
                &&& frames_seen(fsm)
                &&& eval_rel(fs, f, body[0], fuel, Ok(v0), fsm)
                &&& body_rel(fsm, f, body.drop_first(), fuel, r, fs2)
            })
        ||| (r matches Err(er) && eval_rel(fs, f, body[0], fuel, Err(er), fs2))
    }
}

/// What applying the evaluated head to the evaluated arguments may produce:
/// a built-in's result, a closure body run in a fresh frame over the frame
/// the closure captured, the macro-application error, or not-callable.
pub open spec fn applied_rel(
    fsm: Seq<Frame>,
    outs: Seq<Value>,
    fuel: int,
    r: Result<Value, EvalError>,
    fs2: Seq<Frame>,
) -> bool
    decreases fuel, 2int, outs,
{
    &&& outs.len() >= 1
    &&& match outs[0] {
        Value::Function(g) => {
            if g.is_builtin {
                match g.builtin_op {
                    Some(op) => fs2 == fsm && builtin_ok(op, outs.drop_first(), r),
                    None => fs2 == fsm && other_err(
                        r,
                        "Built-in function has no implementation"@,
                    ),
                }
            } else if g.params@.len() != outs.len() - 1 {
                fs2 == fsm && arity_err(r, g.params@.len() as int, outs.len() - 1)
            } else if g.env >= fsm.len() {
                fs2 == fsm && other_err(r, "closure environment out of range"@)
            } else {
                exists|fse: Seq<Frame>|
                    {
                        &&& #[trigger] frames_seen(fse)
                        &&& entered(fsm, fse, g.env as int, g.params@, outs.drop_first())
                        &&& body_rel(fse, fsm.len() as int, g.body@, fuel, r, fs2)
                    }
            }
        },
        Value::Macro(_) => fs2 == fsm && other_err(r, "macro application not implemented"@),
        _ => fs2 == fsm && (r matches Err(er) && (er matches EvalError::NotCallable(w) && w
            == outs[0])),
    }
}

/// A function application: every element of the form, head first, is
/// evaluated left to right, then the head is applied.
pub open spec fn apply_rel(
    fs: Seq<Frame>,
    f: int,
    items: Seq<Value>,
    fuel: int,
    r: Result<Value, EvalError>,
    fs2: Seq<Frame>,
) -> bool
    decreases fuel, 3int, items,
{
    ||| (exists|outs: Seq<Value>, fsm: Seq<Frame>|
        #![trigger crate::reader::forms_seen(outs), frames_seen(fsm)]
        {
            &&& crate::reader::forms_seen(outs)
            &&& frames_seen(fsm)
            &&& eval_seq_rel(fs, f, items, fuel, Ok(outs), fsm)
            &&& outs.len() == items.len()
            &&& applied_rel(fsm, outs, fuel, r, fs2)
        })
    ||| (r matches Err(er) && eval_seq_rel(fs, f, items, fuel, Err(er), fs2))
}

/// A `setq` form: the expression's value is bound in the written frame and
/// returned; exactly two operands, the first a symbol.
pub open spec fn setq_rel(
    fs: Seq<Frame>,
    f: int,
    items: Seq<Value>,
    fuel: int,
    r: Result<Value, EvalError>,
    fs2: Seq<Frame>,
) -> bool
    decreases fuel, 2int, items,
{
    if items.len() != 3 {
        fs2 == fs && arity_err(r, 2, items.len() - 1)
    } else if !(items[1] is Symbol) {
        fs2 == fs && type_err(r, "symbol"@, render_val(items[1]))
    } else {
        ||| (exists|v0: Value, fsm: Seq<Frame>|
            #![trigger crate::reader::value_seen(v0), frames_seen(fsm)]
            {
                &&& crate::reader::value_seen(v0)
                &&& frames_seen(fsm)
                &&& eval_rel(fs, f, items[2], fuel, Ok(v0), fsm)
                &&& r matches Ok(rv) && rv == v0
                &&& rebound(fsm, fs2, f, items[1]->Symbol_0@, v0)
            })
        ||| (r matches Err(er) && eval_rel(fs, f, items[2], fuel, Err(er), fs2))
    }
}

/// A `fn` or `macro` form: a closure over the current frame, its parameters
/// the symbols of the vector, its body the remaining forms; errors on a
/// missing body, a non-vector parameter list, or a non-symbol parameter.
pub open spec fn abstraction_rel(
    f: int,
    items: Seq<Value>,
    as_macro: bool,
    r: Result<Value, EvalError>,
) -> bool {
    if items.len() < 3 {
        arity_err(r, 2, items.len() - 1)
    } else if !(items[1] is Vector) {
        type_err(r, "vector"@, render_val(items[1]))
    } else {
        let ps = items[1]->Vector_0@;
        if first_nonsym(ps, 0) >= 0 {
            type_err(r, "symbol"@, render_val(ps[first_nonsym(ps, 0)]))
        } else if as_macro {
            r matches Ok(rv) && (rv matches Value::Macro(g) && params_match(ps, g.params@)
                && crate::value::seq_val_sim(items.subrange(2, items.len() as int), g.body@)
                && g.env == f)
        } else {
            r matches Ok(rv) && (rv matches Value::Function(g) && params_match(ps, g.params@)
                && crate::value::seq_val_sim(items.subrange(2, items.len() as int), g.body@)
                && g.env == f && !g.is_builtin && g.builtin_op is None)
        }
    }
}

/// A non-empty list form: `quote` returns its operand unevaluated, `setq`
/// binds, `fn` and `macro` build closures, and any other head is an
/// application.
pub open spec fn list_form_rel(
    fs: Seq<Frame>,
    f: int,
    items: Seq<Value>,
    fuel: int,
    r: Result<Value, EvalError>,
    fs2: Seq<Frame>,
) -> bool
    decreases fuel, 4int, items,
{
    if is_form_name(items, "quote"@) {
        fs2 == fs && (if items.len() == 2 {
            r matches Ok(rv) && val_sim(items[1], rv)
        } else {
            arity_err(r, 1, items.len() - 1)
        })
    } else if is_form_name(items, "setq"@) {
        setq_rel(fs, f, items, fuel, r, fs2)
    } else if is_form_name(items, "fn"@) {
        fs2 == fs && abstraction_rel(f, items, false, r)
    } else if is_form_name(items, "macro"@) {
        fs2 == fs && abstraction_rel(f, items, true, r)
    } else {
        apply_rel(fs, f, items, fuel, r, fs2)
    }
}

/// A self-evaluating value evaluates to a structurally identical copy.
proof fn lemma_er_self(fs: Seq<Frame>, f: int, v: Value, fuel: int, rv: Value)
    requires
        is_self_eval(v),
        val_sim(v, rv),
    ensures
        eval_rel(fs, f, v, fuel, Ok(rv), fs),
{
}

/// A symbol evaluates to its innermost binding or an unbound-symbol error.
proof fn lemma_er_symbol(fs: Seq<Frame>, f: int, v: Value, fuel: int, r: Result<Value, EvalError>)
    requires
        v is Symbol,
        match env_lookup(fs, f, v->Symbol_0@) {
            Some(b) => r matches Ok(rv) && val_sim(b, rv),
            None => r matches Err(er) && (er matches EvalError::UnboundSymbol(s) && s@
                == v->Symbol_0@),
        },
    ensures
        eval_rel(fs, f, v, fuel, r, fs),
{
}

/// The empty list evaluates to the empty list.
proof fn lemma_er_empty_list(fs: Seq<Frame>, f: int, v: Value, fuel: int, rv: Value)
    requires
        v matches Value::List(items) && items@.len() == 0,
        rv matches Value::List(out) && out@.len() == 0,
    ensures
        eval_rel(fs, f, v, fuel, Ok(rv), fs),
{
}

/// With no fuel left, a compound value evaluates to the recursion-limit
/// error.
proof fn lemma_er_fuel(fs: Seq<Frame>, f: int, v: Value, fuel: int, r: Result<Value, EvalError>)
    requires
        !is_self_eval(v),
        !(v is Symbol),
        !(v matches Value::List(items) && items@.len() == 0),
        fuel <= 0,
        fuel_out(r),
    ensures
        eval_rel(fs, f, v, fuel, r, fs),
{
}

/// A non-empty list evaluates as its list form.
proof fn lemma_er_list(
    fs: Seq<Frame>,
    f: int,
    v: Value,
    fuel: int,
    r: Result<Value, EvalError>,
    fs2: Seq<Frame>,
)
    requires
        v matches Value::List(items) && items@.len() >= 1,
        fuel >= 1,
        list_form_rel(fs, f, v->List_0@, fuel - 1, r, fs2),
    ensures
        eval_rel(fs, f, v, fuel, r, fs2),
{
}

/// A vector evaluates elementwise.
proof fn lemma_er_vector(
    fs: Seq<Frame>,
    f: int,
    v: Value,
    fuel: int,
    out: Result<Seq<Value>, EvalError>,
    r: Result<Value, EvalError>,
    fs2: Seq<Frame>,
)
    requires
        v is Vector,
        fuel >= 1,
        eval_seq_rel(fs, f, v->Vector_0@, fuel - 1, out, fs2),
        match out {
            Ok(vs) => r matches Ok(rv) && (rv matches Value::Vector(o) && o@ == vs),
            Err(er) => r == Result::<Value, EvalError>::Err(er),
        },
    ensures
        eval_rel(fs, f, v, fuel, r, fs2),
{
    match out {
        Ok(vs) => {
            assert(crate::reader::forms_seen(vs));
        },
        Err(er) => {
        },
    }
}

/// A map evaluates its entries pairwise and coalesces equal keys.
proof fn lemma_er_map(
    fs: Seq<Frame>,
    f: int,
    v: Value,
    fuel: int,
    out: Result<Seq<(Value, Value)>, EvalError>,
    r: Result<Value, EvalError>,
    fs2: Seq<Frame>,
)
    requires
        v is MapVal,
        fuel >= 1,
        eval_pairs_rel(fs, f, v->MapVal_0.entries@, fuel - 1, out, fs2),
        match out {
            Ok(pvs) => r matches Ok(rv) && (rv matches Value::MapVal(o) && o.entries@ == put_pairs(
                pvs,
                pvs.len() as int,
            )),
            Err(er) => r == Result::<Value, EvalError>::Err(er),
        },
    ensures
        eval_rel(fs, f, v, fuel, r, fs2),
{
    match out {
        Ok(pvs) => {
            assert(pairs_seen(pvs));
        },
        Err(er) => {
        },
    }
}

/// A set evaluates its members and coalesces duplicates.
proof fn lemma_er_set(
    fs: Seq<Frame>,
    f: int,
    v: Value,
    fuel: int,
    out: Result<Seq<Value>, EvalError>,
    r: Result<Value, EvalError>,
    fs2: Seq<Frame>,
)
    requires
        v is SetVal,
        fuel >= 1,
        eval_seq_rel(fs, f, v->SetVal_0.items@, fuel - 1, out, fs2),
        match out {
            Ok(vs) => r matches Ok(rv) && (rv matches Value::SetVal(o) && o.items@
                == crate::reader::sets_fold(vs, vs.len() as int)),
            Err(er) => r == Result::<Value, EvalError>::Err(er),
        },
    ensures
        eval_rel(fs, f, v, fuel, r, fs2),
{
    match out {
        Ok(vs) => {
            assert(crate::reader::forms_seen(vs));
        },
        Err(er) => {
        },
    }
}

/// An empty sequence evaluates to an empty sequence of results.
proof fn lemma_esr_nil(fs: Seq<Frame>, f: int, vs: Seq<Value>, fuel: int, os: Seq<Value>)
    requires
        vs.len() == 0,
        os.len() == 0,
    ensures
        eval_seq_rel(fs, f, vs, fuel, Ok(os), fs),
{
}

/// A successful head extends a successful tail.
proof fn lemma_esr_cons(
    fs: Seq<Frame>,
    f: int,
    vs: Seq<Value>,
    fuel: int,
    v0: Value,
    fsm: Seq<Frame>,
    os: Seq<Value>,
    fs2: Seq<Frame>,
)
    requires
        vs.len() >= 1,
        eval_rel(fs, f, vs[0], fuel, Ok(v0), fsm),
        os.len() == vs.len(),
        os[0] == v0,
        eval_seq_rel(fsm, f, vs.drop_first(), fuel, Ok(os.drop_first()), fs2),
    ensures
        eval_seq_rel(fs, f, vs, fuel, Ok(os), fs2),
{
    assert(crate::reader::value_seen(v0));
    assert(frames_seen(fsm));
}

/// An erring head stops the sequence.
proof fn lemma_esr_err_head(
    fs: Seq<Frame>,
    f: int,
    vs: Seq<Value>,
    fuel: int,
    er: EvalError,
    fs2: Seq<Frame>,
)
    requires
        vs.len() >= 1,
        eval_rel(fs, f, vs[0], fuel, Err(er), fs2),
    ensures
        eval_seq_rel(fs, f, vs, fuel, Err(er), fs2),
{
}

/// An error later in the sequence passes a successful head.
proof fn lemma_esr_err_rest(
    fs: Seq<Frame>,
    f: int,
    vs: Seq<Value>,
    fuel: int,
    v0: Value,
    fsm: Seq<Frame>,
    er: EvalError,
    fs2: Seq<Frame>,
)
    requires
        vs.len() >= 1,
        eval_rel(fs, f, vs[0], fuel, Ok(v0), fsm),
        eval_seq_rel(fsm, f, vs.drop_first(), fuel, Err(er), fs2),
    ensures
        eval_seq_rel(fs, f, vs, fuel, Err(er), fs2),
{
    assert(crate::reader::value_seen(v0));
    assert(frames_seen(fsm));
}

/// An empty entry sequence evaluates to no pairs.
proof fn lemma_epr_nil(fs: Seq<Frame>, f: int, es: Seq<(Value, Value)>, fuel: int, os: Seq<(Value, Value)>)
    requires
        es.len() == 0,
        os.len() == 0,
    ensures
        eval_pairs_rel(fs, f, es, fuel, Ok(os), fs),
{
}

/// A successfully evaluated entry extends a successful tail.
proof fn lemma_epr_cons(
    fs: Seq<Frame>,
    f: int,
    es: Seq<(Value, Value)>,
    fuel: int,
    kv: Value,
    fsk: Seq<Frame>,
    vv: Value,
    fsv: Seq<Frame>,
    os: Seq<(Value, Value)>,
    fs2: Seq<Frame>,
)
    requires
        es.len() >= 1,
        eval_rel(fs, f, es[0].0, fuel, Ok(kv), fsk),
        eval_rel(fsk, f, es[0].1, fuel, Ok(vv), fsv),
        os.len() == es.len(),
        os[0] == (kv, vv),
        eval_pairs_rel(fsv, f, es.drop_first(), fuel, Ok(os.drop_first()), fs2),
    ensures
        eval_pairs_rel(fs, f, es, fuel, Ok(os), fs2),
{
    assert(crate::reader::value_seen(kv));
    assert(frames_seen(fsk));
    assert(crate::reader::value_seen(vv));
    assert(frames_seen(fsv));
}

/// An erring key stops the entries.
proof fn lemma_epr_err_key(
    fs: Seq<Frame>,
    f: int,
    es: Seq<(Value, Value)>,
    fuel: int,
    er: EvalError,
    fs2: Seq<Frame>,
)
    requires
        es.len() >= 1,
        eval_rel(fs, f, es[0].0, fuel, Err(er), fs2),
    ensures
        eval_pairs_rel(fs, f, es, fuel, Err(er), fs2),
{
}

/// An erring value stops the entries after its key.
proof fn lemma_epr_err_val(
    fs: Seq<Frame>,
    f: int,
    es: Seq<(Value, Value)>,
    fuel: int,
    kv: Value,
    fsk: Seq<Frame>,
    er: EvalError,
    fs2: Seq<Frame>,
)
    requires
        es.len() >= 1,
        eval_rel(fs, f, es[0].0, fuel, Ok(kv), fsk),
        eval_rel(fsk, f, es[0].1, fuel, Err(er), fs2),
    ensures
        eval_pairs_rel(fs, f, es, fuel, Err(er), fs2),
{
    assert(crate::reader::value_seen(kv));
    assert(frames_seen(fsk));
}

/// An error in a later entry passes a successful one.
proof fn lemma_epr_err_rest(
    fs: Seq<Frame>,
    f: int,
    es: Seq<(Value, Value)>,
    fuel: int,
    kv: Value,
    fsk: Seq<Frame>,
    vv: Value,
    fsv: Seq<Frame>,
    er: EvalError,
    fs2: Seq<Frame>,
)
    requires
        es.len() >= 1,
        eval_rel(fs, f, es[0].0, fuel, Ok(kv), fsk),
        eval_rel(fsk, f, es[0].1, fuel, Ok(vv), fsv),
        eval_pairs_rel(fsv, f, es.drop_first(), fuel, Err(er), fs2),
    ensures
        eval_pairs_rel(fs, f, es, fuel, Err(er), fs2),
{
    assert(crate::reader::value_seen(kv));
    assert(frames_seen(fsk));
    assert(crate::reader::value_seen(vv));
    assert(frames_seen(fsv));
}

/// An empty body yields nil.
proof fn lemma_br_nil(fs: Seq<Frame>, f: int, body: Seq<Value>, fuel: int, rv: Value)
    requires
        body.len() == 0,
        rv is Nil,
    ensures
        body_rel(fs, f, body, fuel, Ok(rv), fs),
{
}

/// A single body form decides the body.
proof fn lemma_br_single(
    fs: Seq<Frame>,
    f: int,
    body: Seq<Value>,
    fuel: int,
    r: Result<Value, EvalError>,
    fs2: Seq<Frame>,
)
    requires
        body.len() == 1,
        eval_rel(fs, f, body[0], fuel, r, fs2),
    ensures
        body_rel(fs, f, body, fuel, r, fs2),
{
}

/// A successful earlier form passes control to the rest of the body.
proof fn lemma_br_cons(
    fs: Seq<Frame>,
    f: int,
    body: Seq<Value>,
    fuel: int,
    v0: Value,
    fsm: Seq<Frame>,
    r: Result<Value, EvalError>,
    fs2: Seq<Frame>,
)
    requires
        body.len() >= 2,
        eval_rel(fs, f, body[0], fuel, Ok(v0), fsm),
        body_rel(fsm, f, body.drop_first(), fuel, r, fs2),
    ensures
        body_rel(fs, f, body, fuel, r, fs2),
{
    assert(crate::reader::value_seen(v0));
    assert(frames_seen(fsm));
}

/// An erring earlier form stops the body.
proof fn lemma_br_err(
    fs: Seq<Frame>,
    f: int,
    body: Seq<Value>,
    fuel: int,
    er: EvalError,
    fs2: Seq<Frame>,
)
    requires
        body.len() >= 2,
        eval_rel(fs, f, body[0], fuel, Err(er), fs2),
    ensures
        body_rel(fs, f, body, fuel, Err(er), fs2),
{
}

/// A fully evaluated form followed by its application is an application.
proof fn lemma_apr_ok(
    fs: Seq<Frame>,
    f: int,
    items: Seq<Value>,
    fuel: int,
    outs: Seq<Value>,
    fsm: Seq<Frame>,
    r: Result<Value, EvalError>,
    fs2: Seq<Frame>,
)
    requires
        eval_seq_rel(fs, f, items, fuel, Ok(outs), fsm),
        outs.len() == items.len(),
        applied_rel(fsm, outs, fuel, r, fs2),
    ensures
        apply_rel(fs, f, items, fuel, r, fs2),
{
    assert(crate::reader::forms_seen(outs));
    assert(frames_seen(fsm));
}

/// An error while evaluating the form stops the application.
proof fn lemma_apr_err(
    fs: Seq<Frame>,
    f: int,
    items: Seq<Value>,
    fuel: int,
    er: EvalError,
    fs2: Seq<Frame>,
)
    requires
        eval_seq_rel(fs, f, items, fuel, Err(er), fs2),
    ensures
        apply_rel(fs, f, items, fuel, Err(er), fs2),
{
}

/// Entering a closure and running its body is how a user function applies.
proof fn lemma_applied_closure(
    fsm: Seq<Frame>,
    outs: Seq<Value>,
    fuel: int,
    fse: Seq<Frame>,
    r: Result<Value, EvalError>,
    fs2: Seq<Frame>,
)
    requires
        outs.len() >= 1,
        outs[0] matches Value::Function(g) && !g.is_builtin && g.params@.len() == outs.len() - 1
            && g.env < fsm.len(),
        entered(fsm, fse, outs[0]->Function_0.env as int, outs[0]->Function_0.params@, outs.drop_first()),
        body_rel(fse, fsm.len() as int, outs[0]->Function_0.body@, fuel, r, fs2),
    ensures
        applied_rel(fsm, outs, fuel, r, fs2),
{
    assert(frames_seen(fse));
}

/// The evaluated operand, bound and returned, is how `setq` lands.
proof fn lemma_sr_ok(
    fs: Seq<Frame>,
    f: int,
    items: Seq<Value>,
    fuel: int,
    v0: Value,
    fsm: Seq<Frame>,
    fs2: Seq<Frame>,
)
    requires
        items.len() == 3,
        items[1] is Symbol,
        eval_rel(fs, f, items[2], fuel, Ok(v0), fsm),
        rebound(fsm, fs2, f, items[1]->Symbol_0@, v0),
    ensures
        setq_rel(fs, f, items, fuel, Ok(v0), fs2),
{
    assert(crate::reader::value_seen(v0));
    assert(frames_seen(fsm));
}

/// An erring operand stops `setq`.
proof fn lemma_sr_err(
    fs: Seq<Frame>,
    f: int,
    items: Seq<Value>,
    fuel: int,
    er: EvalError,
    fs2: Seq<Frame>,
)
    requires
        items.len() == 3,
        items[1] is Symbol,
        eval_rel(fs, f, items[2], fuel, Err(er), fs2),
    ensures
        setq_rel(fs, f, items, fuel, Err(er), fs2),
{
}

/// If every parameter before `i` is a symbol, the first offender at or
/// after zero is the first offender at or after `i`.
proof fn lemma_first_nonsym_align(ps: Seq<Value>, j: int, i: int)
    requires
        0 <= j <= i <= ps.len(),
        forall|k: int| j <= k < i ==> (#[trigger] ps[k]) is Symbol,
    ensures
        first_nonsym(ps, j) == first_nonsym(ps, i),
    decreases i - j,
{
    if j < i {
        lemma_first_nonsym_align(ps, j + 1, i);
    }
}

/// Evaluates a value in the chain starting at the given frame.
#[verifier::rlimit(100)]
fn eval_in(value: &Value, env: &mut Environment, frame: usize, fuel: u64) -> (r: Result<
    Value,
    EvalError,
>)
    requires
        old(env).wf(),
        frame < old(env).frames().len(),
    ensures
        final(env).wf(),
        final(env).frames().len() >= old(env).frames().len(),
        eval_rel(old(env).frames(), frame as int, *value, fuel as int, r, final(env).frames()),
    decreases fuel, 0int, 0int,
{
    match value {
        Value::Symbol(name) => {
            let r = match env.get_in(frame, name.as_str()) {
                Some(v) => Ok(v),
                None => Err(EvalError::UnboundSymbol(name.clone())),
            };
            proof {
                lemma_er_symbol(old(env).frames(), frame as int, *value, fuel as int, r);
            }
            r
        },
        Value::List(items) => {
            if items.len() == 0 {
                let rv = Value::List(Vec::new());
                proof {
                    lemma_er_empty_list(old(env).frames(), frame as int, *value, fuel as int, rv);
                }
                return Ok(rv);
            }
            if fuel == 0 {
                let r = Err(EvalError::Other(String::from_str("recursion limit exceeded")));
                proof {
                    lemma_er_fuel(old(env).frames(), frame as int, *value, fuel as int, r);
                }
                return r;
            }
            let r = eval_list_form(items, env, frame, fuel - 1);
            proof {
                lemma_er_list(
                    old(env).frames(),
                    frame as int,
                    *value,
                    fuel as int,
                    r,
                    env.frames(),
                );
            }
            r
        },
        Value::Vector(items) => {
            if fuel == 0 {
                let r = Err(EvalError::Other(String::from_str("recursion limit exceeded")));
                proof {
                    lemma_er_fuel(old(env).frames(), frame as int, *value, fuel as int, r);
                }
                return r;
            }
            match eval_seq(items, 0, env, frame, fuel - 1) {
                Ok(vs) => {
                    let ghost vsg = vs@;
                    let rv = Value::Vector(vs);
                    proof {
                        assert(items@.subrange(0, items@.len() as int) =~= items@);
                        lemma_er_vector(
                            old(env).frames(),
                            frame as int,
                            *value,
                            fuel as int,
                            Result::<Seq<Value>, EvalError>::Ok(vsg),
                            Ok(rv),
                            env.frames(),
                        );
                    }
                    Ok(rv)
                },
                Err(er) => {
                    proof {
                        assert(items@.subrange(0, items@.len() as int) =~= items@);
                        lemma_er_vector(
                            old(env).frames(),
                            frame as int,
                            *value,
                            fuel as int,
                            Result::<Seq<Value>, EvalError>::Err(er),
                            Err(er),
                            env.frames(),
                        );
                    }
                    Err(er)
                },
            }
        },
        Value::MapVal(m) => {
            if fuel == 0 {
                let r = Err(EvalError::Other(String::from_str("recursion limit exceeded")));
                proof {
                    lemma_er_fuel(old(env).frames(), frame as int, *value, fuel as int, r);
                }
                return r;
            }
            match eval_pairs(&m.entries, 0, env, frame, fuel - 1) {
                Ok(pvs) => {
                    let ghost pvsg = pvs@;
                    let entries = fold_pairs(pvs);
                    let rv = Value::MapVal(ValueMap { entries });
                    proof {
                        assert(m.entries@.subrange(0, m.entries@.len() as int) =~= m.entries@);
                        lemma_er_map(
                            old(env).frames(),
                            frame as int,
                            *value,
                            fuel as int,
                            Result::<Seq<(Value, Value)>, EvalError>::Ok(pvsg),
                            Ok(rv),
                            env.frames(),
                        );
                    }
                    Ok(rv)
                },
                Err(er) => {
                    proof {
                        assert(m.entries@.subrange(0, m.entries@.len() as int) =~= m.entries@);
                        lemma_er_map(
                            old(env).frames(),
                            frame as int,
                            *value,
                            fuel as int,
                            Result::<Seq<(Value, Value)>, EvalError>::Err(er),
                            Err(er),
                            env.frames(),
                        );
                    }
                    Err(er)
                },
            }
        },
        Value::SetVal(st) => {
            if fuel == 0 {
                let r = Err(EvalError::Other(String::from_str("recursion limit exceeded")));
                proof {
                    lemma_er_fuel(old(env).frames(), frame as int, *value, fuel as int, r);
                }
                return r;
            }
            match eval_seq(&st.items, 0, env, frame, fuel - 1) {
                Ok(vs) => {
                    let ghost vsg = vs@;
                    let items = fold_set(vs);
                    let rv = Value::SetVal(ValueSet { items });
                    proof {
                        assert(st.items@.subrange(0, st.items@.len() as int) =~= st.items@);
                        lemma_er_set(
                            old(env).frames(),
                            frame as int,
                            *value,
                            fuel as int,
                            Result::<Seq<Value>, EvalError>::Ok(vsg),
                            Ok(rv),
                            env.frames(),
                        );
                    }
                    Ok(rv)
                },
                Err(er) => {
                    proof {
                        assert(st.items@.subrange(0, st.items@.len() as int) =~= st.items@);
                        lemma_er_set(
                            old(env).frames(),
                            frame as int,
                            *value,
                            fuel as int,
                            Result::<Seq<Value>, EvalError>::Err(er),
                            Err(er),
                            env.frames(),
                        );
                    }
                    Err(er)
                },
            }
        },
        _ => {
            let rv = value_clone(value);
            proof {
                lemma_er_self(old(env).frames(), frame as int, *value, fuel as int, rv);
            }
            Ok(rv)
        },
    }
}

/// Evaluates the values from position `k` onward, left to right, stopping
/// at the first error.
fn eval_seq(items: &Vec<Value>, k: usize, env: &mut Environment, frame: usize, fuel: u64) -> (r:
    Result<Vec<Value>, EvalError>)
    requires
        old(env).wf(),
        frame < old(env).frames().len(),
        k <= items@.len(),
    ensures
        final(env).wf(),
        final(env).frames().len() >= old(env).frames().len(),
        match r {
            Ok(vs) => eval_seq_rel(
                old(env).frames(),
                frame as int,
                items@.subrange(k as int, items@.len() as int),
                fuel as int,
                Ok(vs@),
                final(env).frames(),
            ),
            Err(er) => eval_seq_rel(
                old(env).frames(),
                frame as int,
                items@.subrange(k as int, items@.len() as int),
                fuel as int,
                Err(er),
                final(env).frames(),
            ),
        },
    decreases fuel, 1int, items@.len() - k,
{
    let ghost suffix = items@.subrange(k as int, items@.len() as int);
    if k >= items.len() {
        let vs: Vec<Value> = Vec::new();
        proof {
            lemma_esr_nil(env.frames(), frame as int, suffix, fuel as int, vs@);
        }
        return Ok(vs);
    }
    proof {
        assert(suffix[0] == items@[k as int]);
        assert(suffix.drop_first() =~= items@.subrange(k + 1, items@.len() as int));
    }
    match eval_in(&items[k], env, frame, fuel) {
        Ok(v0) => {
            let ghost v0g = v0;
            let ghost fsm = env.frames();
            match eval_seq(items, k + 1, env, frame, fuel) {
                Ok(rest) => {
                    let ghost restg = rest@;
                    let mut vs = rest;
                    vs.insert(0, v0);
                    proof {
                        assert(vs@[0] == v0g);
                        assert(vs@.drop_first() =~= restg);
                        lemma_esr_cons(
                            old(env).frames(),
                            frame as int,
                            suffix,
                            fuel as int,
                            v0g,
                            fsm,
                            vs@,
                            env.frames(),
                        );
                    }
                    Ok(vs)
                },
                Err(er) => {
                    proof {
                        lemma_esr_err_rest(
                            old(env).frames(),
                            frame as int,
                            suffix,
                            fuel as int,
                            v0g,
                            fsm,
                            er,
                            env.frames(),
                        );
                    }
                    Err(er)
                },
            }
        },
        Err(er) => {
            proof {
                lemma_esr_err_head(
                    old(env).frames(),
                    frame as int,
                    suffix,
                    fuel as int,
                    er,
                    env.frames(),
                );
            }
            Err(er)
        },
    }
}

/// Evaluates the map entries from position `k` onward, key before value,
/// stopping at the first error.
fn eval_pairs(es: &Vec<(Value, Value)>, k: usize, env: &mut Environment, frame: usize, fuel: u64) -> (r:
    Result<Vec<(Value, Value)>, EvalError>)
    requires
        old(env).wf(),
        frame < old(env).frames().len(),
        k <= es@.len(),
    ensures
        final(env).wf(),
        final(env).frames().len() >= old(env).frames().len(),
        match r {
            Ok(os) => eval_pairs_rel(
                old(env).frames(),
                frame as int,
                es@.subrange(k as int, es@.len() as int),
                fuel as int,
                Ok(os@),
                final(env).frames(),
            ),
            Err(er) => eval_pairs_rel(
                old(env).frames(),
                frame as int,
                es@.subrange(k as int, es@.len() as int),
                fuel as int,
                Err(er),
                final(env).frames(),
            ),
        },
    decreases fuel, 1int, es@.len() - k,
{
    let ghost suffix = es@.subrange(k as int, es@.len() as int);
    if k >= es.len() {
        let os: Vec<(Value, Value)> = Vec::new();
        proof {
            lemma_epr_nil(env.frames(), frame as int, suffix, fuel as int, os@);
        }
        return Ok(os);
    }
    proof {
        assert(suffix[0] == es@[k as int]);
        assert(suffix.drop_first() =~= es@.subrange(k + 1, es@.len() as int));
    }
    let pair = &es[k];
    match eval_in(&pair.0, env, frame, fuel) {
        Ok(kv) => {
            let ghost kvg = kv;
            let ghost fsk = env.frames();
            match eval_in(&pair.1, env, frame, fuel) {
                Ok(vv) => {
                    let ghost vvg = vv;
                    let ghost fsv = env.frames();
                    match eval_pairs(es, k + 1, env, frame, fuel) {
                        Ok(rest) => {
                            let ghost restg = rest@;
                            let mut os = rest;
                            os.insert(0, (kv, vv));
                            proof {
                                assert(os@[0] == (kvg, vvg));
                                assert(os@.drop_first() =~= restg);
                                lemma_epr_cons(
                                    old(env).frames(),
                                    frame as int,
                                    suffix,
                                    fuel as int,
                                    kvg,
                                    fsk,
                                    vvg,
                                    fsv,
                                    os@,
                                    env.frames(),
                                );
                            }
                            Ok(os)
                        },
                        Err(er) => {
                            proof {
                                lemma_epr_err_rest(
                                    old(env).frames(),
                                    frame as int,
                                    suffix,
                                    fuel as int,
                                    kvg,
                                    fsk,
                                    vvg,
                                    fsv,
                                    er,
                                    env.frames(),
                                );
                            }
                            Err(er)
                        },
                    }
                },
                Err(er) => {
                    proof {
                        lemma_epr_err_val(
                            old(env).frames(),
                            frame as int,
                            suffix,
                            fuel as int,
                            kvg,
                            fsk,
                            er,
                            env.frames(),
                        );
                    }
                    Err(er)
                },
            }
        },
        Err(er) => {
            proof {
                lemma_epr_err_key(
                    old(env).frames(),
                    frame as int,
                    suffix,
                    fuel as int,
                    er,
                    env.frames(),
                );
            }
            Err(er)
        },
    }
}

/// Inserts the evaluated pairs in order, later keys replacing earlier
/// structurally equal ones.
fn fold_pairs(pvs: Vec<(Value, Value)>) -> (entries: Vec<(Value, Value)>)
    ensures
        entries@ == put_pairs(pvs@, pvs@.len() as int),
{
    let ghost pvsg = pvs@;
    let total = pvs.len();
    let mut rest = pvs;
    let mut entries: Vec<(Value, Value)> = Vec::new();
    let mut p: usize = 0;
    proof {
        assert(rest@ =~= pvsg.subrange(0, pvsg.len() as int));
    }
    while rest.len() >= 1
        invariant
            pvsg.len() <= usize::MAX,
            pvsg.len() == total,
            p <= pvsg.len(),
            rest@ =~= pvsg.subrange(p as int, pvsg.len() as int),
            entries@ == put_pairs(pvsg, p as int),
        decreases rest@.len(),
    {
        let pair = rest.remove(0);
        proof {
            assert(pair == pvsg[p as int]);
        }
        let ky = pair.0;
        let vl = pair.1;
        let ghost before = entries@;
        let en = entries.len();
        let mut j: usize = 0;
        let mut found = false;
        while !found && j < en
            invariant
                0 <= j <= en,
                en == entries@.len(),
                entries@ == before,
                !found ==> forall|t: int|
                    0 <= t < j ==> !crate::value::val_eq((#[trigger] before[t]).0, ky),
                found ==> 0 <= j < en && crate::value::val_eq(before[j as int].0, ky)
                    && forall|t: int|
                    0 <= t < j ==> !crate::value::val_eq((#[trigger] before[t]).0, ky),
            decreases en - j + (if found {
                0int
            } else {
                1int
            }),
        {
            if crate::value::value_eq(&entries[j].0, &ky) {
                found = true;
            } else {
                j = j + 1;
            }
        }
        if found {
            entries.set(j, (ky, vl));
            proof {
                crate::reader::lemma_map_put_found(
                    before,
                    pvsg[p as int].0,
                    pvsg[p as int].1,
                    j as int,
                );
            }
        } else {
            entries.push((ky, vl));
            proof {
                crate::reader::lemma_map_put_absent(before, pvsg[p as int].0, pvsg[p as int].1);
            }
        }
        p = p + 1;
        proof {
            assert(rest@ =~= pvsg.subrange(p as int, pvsg.len() as int));
        }
    }
    proof {
        assert(p == pvsg.len());
    }
    entries
}

/// Inserts the evaluated members in order, duplicates coalescing.
fn fold_set(vs: Vec<Value>) -> (items: Vec<Value>)
    ensures
        items@ == crate::reader::sets_fold(vs@, vs@.len() as int),
{
    let ghost vsg = vs@;
    let total = vs.len();
    let mut rest = vs;
    let mut items: Vec<Value> = Vec::new();
    let mut i: usize = 0;
    proof {
        assert(rest@ =~= vsg.subrange(0, vsg.len() as int));
    }
    while rest.len() >= 1
        invariant
            vsg.len() <= usize::MAX,
            vsg.len() == total,
            i <= vsg.len(),
            rest@ =~= vsg.subrange(i as int, vsg.len() as int),
            items@ == crate::reader::sets_fold(vsg, i as int),
        decreases rest@.len(),
    {
        let v = rest.remove(0);
        proof {
            assert(v == vsg[i as int]);
        }
        let ghost before = items@;
        let il = items.len();
        let mut j: usize = 0;
        let mut found = false;
        while !found && j < il
            invariant
                0 <= j <= il,
                il == items@.len(),
                items@ == before,
                !found ==> forall|t: int|
                    0 <= t < j ==> !crate::value::val_eq(#[trigger] before[t], v),
                found ==> crate::value::item_matched(before, v),
            decreases il - j + (if found {
                0int
            } else {
                1int
            }),
        {
            if crate::value::value_eq(&items[j], &v) {
                found = true;
            } else {
                j = j + 1;
            }
        }
        if found {
            proof {
                assert(crate::reader::set_put(before, v) == before);
            }
        } else {
            proof {
                assert(!crate::value::item_matched(before, v));
            }
            items.push(v);
        }
        i = i + 1;
        proof {
            assert(rest@ =~= vsg.subrange(i as int, vsg.len() as int));
        }
    }
    proof {
        assert(i == vsg.len());
    }
    items
}

/// Evaluates a non-empty list form: a special form when its head names
/// one, a function application otherwise.
fn eval_list_form(items: &Vec<Value>, env: &mut Environment, frame: usize, fuel: u64) -> (r: Result<
    Value,
    EvalError,
>)
    requires
        old(env).wf(),
        frame < old(env).frames().len(),
        items@.len() >= 1,
    ensures
        final(env).wf(),
        final(env).frames().len() >= old(env).frames().len(),
        list_form_rel(old(env).frames(), frame as int, items@, fuel as int, r, final(env).frames()),
    decreases fuel, 4int, 0int,
{
    proof {
        reveal_strlit("quote");
        reveal_strlit("setq");
        reveal_strlit("fn");
        reveal_strlit("macro");
        assert("quote"@.len() == 5 && "setq"@.len() == 4 && "fn"@.len() == 2 && "macro"@.len()
            == 5);
        assert("quote"@[0] == 'q' && "setq"@[0] == 's' && "fn"@[0] == 'f' && "macro"@[0] == 'm');
        assert("quote"@ != "setq"@ && "quote"@ != "fn"@ && "quote"@ != "macro"@);
        assert("setq"@ != "fn"@ && "setq"@ != "macro"@ && "fn"@ != "macro"@);
    }
    let is_special: Option<u8> = match &items[0] {
        Value::Symbol(name) => {
            if *name == String::from_str("quote") {
                Some(3u8)
            } else if *name == String::from_str("setq") {
                Some(0u8)
            } else if *name == String::from_str("fn") {
                Some(1u8)
            } else if *name == String::from_str("macro") {
                Some(2u8)
            } else {
                None
            }
        },
        _ => None,
    };
    match is_special {
        Some(tag) => {
            if tag == 3 {
                if items.len() == 2 {
                    Ok(value_clone(&items[1]))
                } else {
                    Err(EvalError::ArityMismatch { expected: 1, got: items.len() - 1 })
                }
            } else if tag == 0 {
                eval_setq(items, env, frame, fuel)
            } else {
                eval_abstraction(items, env, frame, tag == 2)
            }
        },
        None => apply_function(items, env, frame, fuel),
    }
}

/// Evaluates a `setq` form: the expression's value is bound to the symbol
/// in the innermost frame and returned.
fn eval_setq(items: &Vec<Value>, env: &mut Environment, frame: usize, fuel: u64) -> (r: Result<
    Value,
    EvalError,
>)
    requires
        old(env).wf(),
        frame < old(env).frames().len(),
        items@.len() >= 1,
    ensures
        final(env).wf(),
        final(env).frames().len() >= old(env).frames().len(),
        setq_rel(old(env).frames(), frame as int, items@, fuel as int, r, final(env).frames()),
    decreases fuel, 2int, 0int,
{
    if items.len() != 3 {
        return Err(EvalError::ArityMismatch { expected: 2, got: items.len() - 1 });
    }
    let name: String = match &items[1] {
        Value::Symbol(s) => s.clone(),
        _ => {
            return Err(
                EvalError::TypeError {
                    expected: String::from_str("symbol"),
                    got: render(&items[1]),
                },
            );
        },
    };
    match eval_in(&items[2], env, frame, fuel) {
        Ok(v) => {
            let ghost v0g = v;
            let ghost fsm = env.frames();
            let bound = value_clone(&v);
            env.set_in(frame, name, bound);
            proof {
                lemma_sr_ok(
                    old(env).frames(),
                    frame as int,
                    items@,
                    fuel as int,
                    v0g,
                    fsm,
                    env.frames(),
                );
            }
            Ok(v)
        },
        Err(er) => {
            proof {
                lemma_sr_err(
                    old(env).frames(),
                    frame as int,
                    items@,
                    fuel as int,
                    er,
                    env.frames(),
                );
            }
            Err(er)
        },
    }
}

/// Evaluates a `fn` or `macro` form into a closure capturing the current
/// frame.
#[verifier::rlimit(100)]
fn eval_abstraction(items: &Vec<Value>, env: &mut Environment, frame: usize, as_macro: bool) -> (r:
    Result<Value, EvalError>)
    requires
        old(env).wf(),
        frame < old(env).frames().len(),
        items@.len() >= 1,
    ensures
        final(env).wf(),
        *final(env) == *old(env),
        abstraction_rel(frame as int, items@, as_macro, r),
{
    if items.len() < 3 {
        return Err(EvalError::ArityMismatch { expected: 2, got: items.len() - 1 });
    }
    let params: Vec<String> = match &items[1] {
        Value::Vector(ps) => {
            let n = ps.len();
            let mut names: Vec<String> = Vec::new();
            let mut i: usize = 0;
            while i < n
                invariant
                    0 <= i <= n,
                    n == ps@.len(),
                    items@.len() >= 3,
                    items@[1] is Vector && items@[1]->Vector_0 == *ps,
                    env.wf(),
                    *env == *old(env),
                    names@.len() == i,
                    forall|t: int|
                        0 <= t < i ==> (#[trigger] ps@[t]) is Symbol && ps@[t]->Symbol_0@
                            == names@[t]@,
                decreases n - i,
            {
                match &ps[i] {
                    Value::Symbol(s) => {
                        names.push(s.clone());
                    },
                    _ => {
                        proof {
                            lemma_first_nonsym_align(ps@, 0, i as int);
                        }
                        return Err(
                            EvalError::TypeError {
                                expected: String::from_str("symbol"),
                                got: render(&ps[i]),
                            },
                        );
                    },
                }
                i = i + 1;
            }
            proof {
                lemma_first_nonsym_align(ps@, 0, n as int);
            }
            names
        },
        _ => {
            return Err(
                EvalError::TypeError {
                    expected: String::from_str("vector"),
                    got: render(&items[1]),
                },
            );
        },
    };
    let n = items.len();
    let mut body: Vec<Value> = Vec::new();
    let mut i: usize = 2;
    while i < n
        invariant
            2 <= i <= n,
            n == items@.len(),
            env.wf(),
            *env == *old(env),
            body@.len() == i - 2,
            forall|t: int| 0 <= t < i - 2 ==> val_sim(items@[t + 2], #[trigger] body@[t]),
        decreases n - i,
    {
        body.push(value_clone(&items[i]));
        i = i + 1;
    }
    proof {
        assert(crate::value::seq_val_sim(items@.subrange(2, items@.len() as int), body@));
    }
    if as_macro {
        Ok(Value::Macro(Macro::new(params, body, frame)))
    } else {
        Ok(Value::Function(Function::new(params, body, frame)))
    }
}

/// Applies a function: the whole form is evaluated left to right, then a
/// built-in is dispatched or a closure's body runs in a fresh frame
/// extending the frame it captured.
#[verifier::rlimit(100)]
fn apply_function(items: &Vec<Value>, env: &mut Environment, frame: usize, fuel: u64) -> (r: Result<
    Value,
    EvalError,
>)
    requires
        old(env).wf(),
        frame < old(env).frames().len(),
        items@.len() >= 1,
    ensures
        final(env).wf(),
        final(env).frames().len() >= old(env).frames().len(),
        apply_rel(old(env).frames(), frame as int, items@, fuel as int, r, final(env).frames()),
    decreases fuel, 3int, 0int,
{
    let outs = match eval_seq(items, 0, env, frame, fuel) {
        Ok(vs) => vs,
        Err(er) => {
            proof {
                assert(items@.subrange(0, items@.len() as int) =~= items@);
                lemma_apr_err(
                    old(env).frames(),
                    frame as int,
                    items@,
                    fuel as int,
                    er,
                    env.frames(),
                );
            }
            return Err(er);
        },
    };
    let ghost outsg = outs@;
    let ghost fsm = env.frames();
    proof {
        assert(items@.subrange(0, items@.len() as int) =~= items@);
    }
    let mut args = outs;
    let func = args.remove(0);
    proof {
        assert(args@ =~= outsg.drop_first());
    }
    let r = apply_evaluated(func, args, env, Ghost(outsg), Ghost(fsm), fuel);
    proof {
        lemma_apr_ok(
            old(env).frames(),
            frame as int,
            items@,
            fuel as int,
            outsg,
            fsm,
            r,
            env.frames(),
        );
    }
    r
}

/// Applies an already evaluated head to already evaluated arguments.
#[verifier::rlimit(100)]
fn apply_evaluated(
    func: Value,
    args: Vec<Value>,
    env: &mut Environment,
    outs: Ghost<Seq<Value>>,
    fsm: Ghost<Seq<Frame>>,
    fuel: u64,
) -> (r: Result<Value, EvalError>)
    requires
        old(env).wf(),
        fsm@ == old(env).frames(),
        outs@.len() >= 1,
        func == outs@[0],
        args@ == outs@.drop_first(),
    ensures
        final(env).wf(),
        final(env).frames().len() >= old(env).frames().len(),
        applied_rel(fsm@, outs@, fuel as int, r, final(env).frames()),
    decreases fuel, 2int, 0int,
{
    match func {
        Value::Function(f) => {
            if f.is_builtin {
                match f.builtin_op {
                    Some(op) => apply_builtin(op, args),
                    None => Err(
                        EvalError::Other(
                            String::from_str("Built-in function has no implementation"),
                        ),
                    ),
                }
            } else {
                if f.params.len() != args.len() {
                    return Err(
                        EvalError::ArityMismatch { expected: f.params.len(), got: args.len() },
                    );
                }
                if f.env >= env.num_frames() {
                    return Err(
                        EvalError::Other(String::from_str("closure environment out of range")),
                    );
                }
                let ghost g = outs@[0]->Function_0;
                let callee = env.with_outer(f.env);
                let params = f.params;
                let body = f.body;
                let pn = params.len();
                let ghost argsg = args@;
                let mut rest = args;
                let mut i: usize = 0;
                proof {
                    assert(rest@ =~= argsg.subrange(0, argsg.len() as int));
                    assert(params_find(params@.subrange(0, 0), argsg.subrange(0, 0), Seq::empty())
                        is None);
                }
                while i < pn
                    invariant
                        0 <= i <= pn,
                        pn == params@.len(),
                        pn == argsg.len(),
                        rest@ =~= argsg.subrange(i as int, argsg.len() as int),
                        env.wf(),
                        callee < env.frames().len(),
                        callee == fsm@.len(),
                        env.frames().len() == fsm@.len() + 1,
                        forall|t: int| 0 <= t < fsm@.len() ==> env.frames()[t] == fsm@[t],
                        env.frames()[callee as int].outer == Some(
                            outs@[0]->Function_0.env,
                        ),
                        params == outs@[0]->Function_0.params,
                        forall|nm: Seq<char>|
                            #[trigger] frame_find(env.frames()[callee as int].bindings@, nm)
                                == params_find(
                                params@.subrange(0, i as int),
                                argsg.subrange(0, i as int),
                                nm,
                            ),
                    decreases pn - i,
                {
                    let a = rest.remove(0);
                    proof {
                        assert(a == argsg[i as int]);
                    }
                    env.set_in(callee, params[i].clone(), a);
                    proof {
                        assert forall|nm: Seq<char>| true implies #[trigger] frame_find(
                            env.frames()[callee as int].bindings@,
                            nm,
                        ) == params_find(
                            params@.subrange(0, i + 1),
                            argsg.subrange(0, i + 1),
                            nm,
                        ) by {
                            let psc = params@.subrange(0, i + 1);
                            let asc = argsg.subrange(0, i + 1);
                            assert(psc.last() == params@[i as int]);
                            assert(asc.last() == argsg[i as int]);
                            assert(psc.drop_last() =~= params@.subrange(0, i as int));
                            assert(asc.drop_last() =~= argsg.subrange(0, i as int));
                        }
                        assert(rest@ =~= argsg.subrange(i + 1, argsg.len() as int));
                    }
                    i = i + 1;
                }
                proof {
                    assert(params@.subrange(0, pn as int) =~= params@);
                    assert(argsg.subrange(0, pn as int) =~= argsg);
                    assert(entered(fsm@, env.frames(), f.env as int, params@, argsg));
                }
                let ghost fse = env.frames();
                let r = eval_body(&body, 0, env, callee, fuel);
                proof {
                    assert(body@.subrange(0, body@.len() as int) =~= body@);
                    lemma_applied_closure(fsm@, outs@, fuel as int, fse, r, env.frames());
                }
                r
            }
        },
        Value::Macro(_) => Err(
            EvalError::Other(String::from_str("macro application not implemented")),
        ),
        other => Err(EvalError::NotCallable(other)),
    }
}

/// Evaluates the body forms from position `k` onward; the last one's value
/// is the result, nil for an empty body.
fn eval_body(body: &Vec<Value>, k: usize, env: &mut Environment, frame: usize, fuel: u64) -> (r:
    Result<Value, EvalError>)
    requires
        old(env).wf(),
        frame < old(env).frames().len(),
        k <= body@.len(),
    ensures
        final(env).wf(),
        final(env).frames().len() >= old(env).frames().len(),
        body_rel(
            old(env).frames(),
            frame as int,
            body@.subrange(k as int, body@.len() as int),
            fuel as int,
            r,
            final(env).frames(),
        ),
    decreases fuel, 1int, body@.len() - k,
{
    let ghost suffix = body@.subrange(k as int, body@.len() as int);
    if k >= body.len() {
        proof {
            lemma_br_nil(env.frames(), frame as int, suffix, fuel as int, Value::Nil);
        }
        return Ok(Value::Nil);
    }
    proof {
        assert(suffix[0] == body@[k as int]);
        assert(suffix.drop_first() =~= body@.subrange(k + 1, body@.len() as int));
    }
    if k + 1 == body.len() {
        let r = eval_in(&body[k], env, frame, fuel);
        proof {
            lemma_br_single(old(env).frames(), frame as int, suffix, fuel as int, r, env.frames());
        }
        return r;
    }
    match eval_in(&body[k], env, frame, fuel) {
        Ok(v0) => {
            let ghost v0g = v0;
            let ghost fsmg = env.frames();
            let r = eval_body(body, k + 1, env, frame, fuel);
            proof {
                lemma_br_cons(
                    old(env).frames(),
                    frame as int,
                    suffix,
                    fuel as int,
                    v0g,
                    fsmg,
                    r,
                    env.frames(),
                );
            }
            r
        },
        Err(er) => {
            proof {
                lemma_br_err(
                    old(env).frames(),
                    frame as int,
                    suffix,
                    fuel as int,
                    er,
                    env.frames(),
                );
            }
            Err(er)
        },
    }
}

/// Evaluates a value in the root scope of the environment, per the full
/// dispatch relation: literals, functions and macros to copies of
/// themselves; a symbol to its innermost binding or an unbound-symbol
/// error; collections elementwise; a list to a special form's result or an
/// application.
pub fn eval(value: &Value, env: &mut Environment) -> (r: Result<Value, EvalError>)
    requires
        old(env).wf(),
    ensures
        final(env).wf(),
        final(env).frames().len() >= old(env).frames().len(),
        eval_rel(old(env).frames(), 0, *value, EVAL_FUEL as int, r, final(env).frames()),
{
    eval_in(value, env, 0, EVAL_FUEL)
}

} // verus!
