//! Integer arithmetic, comparison and bitwise operations on values, and
//! their variadic forms. Operations on two integers give an integer (or a
//! boolean for comparisons); any other operand gives nil (false for
//! comparisons).

use crate::equality::{deep_eq, equals};
use crate::value::Value;
use vstd::prelude::*;

verus! {

/// A binary integer operation of the variadic forms.
#[derive(Clone, Copy, PartialEq, Eq, Structural)]
pub enum ArithOp {
    Add,
    Sub,
    Mul,
}

/// The exact result of an operation on two integers.
pub open spec fn op_int(op: ArithOp, x: int, y: int) -> int {
    match op {
        ArithOp::Add => x + y,
        ArithOp::Sub => x - y,
        ArithOp::Mul => x * y,
    }
}

/// An operation does not overflow on these operands: two integers whose
/// exact result fits in an `i64`, or operands that are not both integers.
pub open spec fn op_ok(op: ArithOp, a: Value, b: Value) -> bool {
    match (a, b) {
        (Value::Long(x), Value::Long(y)) => i64::MIN <= op_int(op, x as int, y as int) <= i64::MAX,
        _ => true,
    }
}

/// The result of an operation on two values: the integer result for two
/// integers, nil otherwise.
pub open spec fn apply_op(op: ArithOp, a: Value, b: Value) -> Value {
    match (a, b) {
        (Value::Long(x), Value::Long(y)) => Value::Long(op_int(op, x as int, y as int) as i64),
        _ => Value::Nil,
    }
}

/// `(+ a b)`.
pub fn clorus_add(a: &Value, b: &Value) -> (r: Value)
    requires
        op_ok(ArithOp::Add, *a, *b),
    ensures
        r == apply_op(ArithOp::Add, *a, *b),
{
    match (a, b) {
        (Value::Long(x), Value::Long(y)) => Value::Long(*x + *y),
        _ => Value::Nil,
    }
}

/// `(- a b)`.
pub fn clorus_sub(a: &Value, b: &Value) -> (r: Value)
    requires
        op_ok(ArithOp::Sub, *a, *b),
    ensures
        r == apply_op(ArithOp::Sub, *a, *b),
{
    match (a, b) {
        (Value::Long(x), Value::Long(y)) => Value::Long(*x - *y),
        _ => Value::Nil,
    }
}

/// `(* a b)`.
pub fn clorus_mul(a: &Value, b: &Value) -> (r: Value)
    requires
        op_ok(ArithOp::Mul, *a, *b),
    ensures
        r == apply_op(ArithOp::Mul, *a, *b),
{
    match (a, b) {
        (Value::Long(x), Value::Long(y)) => Value::Long(*x * *y),
        _ => Value::Nil,
    }
}

/// One operation on two values.
fn apply(op: ArithOp, a: &Value, b: &Value) -> (r: Value)
    requires
        op_ok(op, *a, *b),
    ensures
        r == apply_op(op, *a, *b),
{
    match op {
        ArithOp::Add => clorus_add(a, b),
        ArithOp::Sub => clorus_sub(a, b),
        ArithOp::Mul => clorus_mul(a, b),
    }
}

/// The magnitude of an integer.
pub open spec fn magnitude(x: int) -> int {
    if x < 0 {
        -x
    } else {
        x
    }
}

/// Rust's `%`: the remainder of the magnitudes, with the dividend's sign.
pub open spec fn trunc_rem(x: int, y: int) -> int {
    let m = magnitude(x) % magnitude(y);
    if x < 0 {
        -m
    } else {
        m
    }
}

/// `(mod a b)` for two integers: nil for a zero divisor.
pub open spec fn spec_mod(a: Value, b: Value) -> Value {
    match (a, b) {
        (Value::Long(x), Value::Long(y)) => if y == 0 {
            Value::Nil
        } else {
            Value::Long(floor_mod_of_rem(trunc_rem(x as int, y as int), y as int) as i64)
        },
        _ => Value::Nil,
    }
}

/// The floored remainder from the truncated one: shift by the divisor when
/// the remainder is non-zero and its sign differs from the divisor's.
pub open spec fn floor_mod_of_rem(r: int, y: int) -> int {
    if r != 0 && ((r < 0) != (y < 0)) {
        r + y
    } else {
        r
    }
}

/// `%` of two integers that does not overflow.
pub open spec fn mod_ok(a: Value, b: Value) -> bool {
    match (a, b) {
        (Value::Long(x), Value::Long(y)) => !(x == i64::MIN && y == -1),
        _ => true,
    }
}

/// `(mod a b)`: the floored remainder of two integers; nil for a zero
/// divisor or for other values.
pub fn clorus_mod(a: &Value, b: &Value) -> (r: Value)
    requires
        mod_ok(*a, *b),
    ensures
        r == spec_mod(*a, *b),
{
    match (a, b) {
        (Value::Long(x), Value::Long(y)) => {
            if *y == 0 {
                return Value::Nil;
            }
            let rem = truncated_rem(*x, *y);
            let result = if rem != 0 && (rem < 0) != (*y < 0) {
                rem + *y
            } else {
                rem
            };
            Value::Long(result)
        },
        _ => Value::Nil,
    }
}

/// `x % y` on `i64`, from the remainder of the magnitudes.
fn truncated_rem(x: i64, y: i64) -> (r: i64)
    requires
        y != 0,
    ensures
        r as int == trunc_rem(x as int, y as int),
{
    let ax: u64 = if x < 0 {
        (-(x as i128)) as u64
    } else {
        x as u64
    };
    let ay: u64 = if y < 0 {
        (-(y as i128)) as u64
    } else {
        y as u64
    };
    let m: u64 = ax % ay;
    proof {
        assert(m < ay);
        assert(ay <= 0x8000_0000_0000_0000u64);
    }
    if x < 0 {
        -(m as i64)
    } else {
        m as i64
    }
}

/// Integer comparisons.
#[derive(Clone, Copy, PartialEq, Eq, Structural)]
pub enum Relation {
    Lt,
    Lte,
    Gt,
    Gte,
}

/// The comparison of two integers.
pub open spec fn relate_ints(op: Relation, x: int, y: int) -> bool {
    match op {
        Relation::Lt => x < y,
        Relation::Lte => x <= y,
        Relation::Gt => x > y,
        Relation::Gte => x >= y,
    }
}

/// A comparison of two values: false unless both are integers.
pub open spec fn spec_compare(op: Relation, a: Value, b: Value) -> bool {
    match (a, b) {
        (Value::Long(x), Value::Long(y)) => relate_ints(op, x as int, y as int),
        _ => false,
    }
}

/// Compares two values.
pub fn compare(op: Relation, a: &Value, b: &Value) -> (r: bool)
    ensures
        r == spec_compare(op, *a, *b),
{
    match (a, b) {
        (Value::Long(x), Value::Long(y)) => match op {
            Relation::Lt => *x < *y,
            Relation::Lte => *x <= *y,
            Relation::Gt => *x > *y,
            Relation::Gte => *x >= *y,
        },
        _ => false,
    }
}

/// `(< a b)`.
pub fn clorus_lt(a: &Value, b: &Value) -> (r: Value)
    ensures
        r == Value::Bool(spec_compare(Relation::Lt, *a, *b)),
{
    Value::Bool(compare(Relation::Lt, a, b))
}

/// `(<= a b)`.
pub fn clorus_lte(a: &Value, b: &Value) -> (r: Value)
    ensures
        r == Value::Bool(spec_compare(Relation::Lte, *a, *b)),
{
    Value::Bool(compare(Relation::Lte, a, b))
}

/// `(> a b)`.
pub fn clorus_gt(a: &Value, b: &Value) -> (r: Value)
    ensures
        r == Value::Bool(spec_compare(Relation::Gt, *a, *b)),
{
    Value::Bool(compare(Relation::Gt, a, b))
}

/// `(>= a b)`.
pub fn clorus_gte(a: &Value, b: &Value) -> (r: Value)
    ensures
        r == Value::Bool(spec_compare(Relation::Gte, *a, *b)),
{
    Value::Bool(compare(Relation::Gte, a, b))
}

/// The left fold of `op` over one or more values.
pub open spec fn fold_op(op: ArithOp, xs: Seq<Value>) -> Value
    decreases xs.len(),
{
    if xs.len() <= 1 {
        xs[0]
    } else {
        apply_op(op, fold_op(op, xs.drop_last()), xs.last())
    }
}

/// No step of the left fold overflows.
pub open spec fn fold_ok(op: ArithOp, xs: Seq<Value>) -> bool
    decreases xs.len(),
{
    if xs.len() <= 1 {
        true
    } else {
        fold_ok(op, xs.drop_last()) && op_ok(op, fold_op(op, xs.drop_last()), xs.last())
    }
}

/// Folds `op` over `args` from the left, starting with the first.
fn fold_from_first(op: ArithOp, args: &Vec<Value>) -> (r: Value)
    requires
        args@.len() >= 1,
        fold_ok(op, args@),
    ensures
        r == fold_op(op, args@),
{
    let mut acc = args[0].copy();
    let mut i: usize = 1;
    proof {
        assert(args@.subrange(0, 1).drop_last() =~= Seq::<Value>::empty());
    }
    while i < args.len()
        invariant
            1 <= i <= args@.len(),
            fold_ok(op, args@),
            acc == fold_op(op, args@.subrange(0, i as int)),
            fold_ok(op, args@.subrange(0, i as int)),
        decreases args.len() - i,
    {
        proof {
            assert(args@.subrange(0, i + 1).drop_last() =~= args@.subrange(0, i as int));
            lemma_fold_ok_prefix(op, args@, i + 1);
        }
        acc = apply(op, &acc, &args[i]);
        i += 1;
    }
    proof {
        assert(args@.subrange(0, args@.len() as int) =~= args@);
    }
    acc
}

/// The fold's no-overflow condition holds of each non-empty prefix.
proof fn lemma_fold_ok_prefix(op: ArithOp, xs: Seq<Value>, n: int)
    requires
        fold_ok(op, xs),
        1 <= n <= xs.len(),
    ensures
        fold_ok(op, xs.subrange(0, n)),
    decreases xs.len() - n,
{
    if n < xs.len() {
        lemma_fold_ok_prefix(op, xs, n + 1);
        assert(xs.subrange(0, n + 1).drop_last() =~= xs.subrange(0, n));
    } else {
        assert(xs.subrange(0, n) =~= xs);
    }
}

/// `(+ ...)`: 0 for no arguments, otherwise the left fold of `+`.
pub fn clorus_add_variadic(args: &Vec<Value>) -> (r: Value)
    requires
        args@.len() >= 1 ==> fold_ok(ArithOp::Add, args@),
    ensures
        r == if args@.len() == 0 {
            Value::Long(0)
        } else {
            fold_op(ArithOp::Add, args@)
        },
{
    if args.len() == 0 {
        Value::Long(0)
    } else {
        fold_from_first(ArithOp::Add, args)
    }
}

/// `(* ...)`: 1 for no arguments, otherwise the left fold of `*`.
pub fn clorus_mul_variadic(args: &Vec<Value>) -> (r: Value)
    requires
        args@.len() >= 1 ==> fold_ok(ArithOp::Mul, args@),
    ensures
        r == if args@.len() == 0 {
            Value::Long(1)
        } else {
            fold_op(ArithOp::Mul, args@)
        },
{
    if args.len() == 0 {
        Value::Long(1)
    } else {
        fold_from_first(ArithOp::Mul, args)
    }
}

/// `(- ...)`: nil for no arguments (an arity error), the negation of a
/// single argument, otherwise the left fold of `-`.
pub fn clorus_sub_variadic(args: &Vec<Value>) -> (r: Value)
    requires
        args@.len() == 1 ==> op_ok(ArithOp::Sub, Value::Long(0), args@[0]),
        args@.len() >= 2 ==> fold_ok(ArithOp::Sub, args@),
    ensures
        r == if args@.len() == 0 {
            Value::Nil
        } else if args@.len() == 1 {
            apply_op(ArithOp::Sub, Value::Long(0), args@[0])
        } else {
            fold_op(ArithOp::Sub, args@)
        },
{
    if args.len() == 0 {
        Value::Nil
    } else if args.len() == 1 {
        clorus_sub(&Value::Long(0), &args[0])
    } else {
        fold_from_first(ArithOp::Sub, args)
    }
}

/// Every consecutive pair of `xs` satisfies the comparison.
pub open spec fn chain_holds(op: Relation, xs: Seq<Value>) -> bool {
    forall|i: int| 0 <= i < xs.len() - 1 ==> spec_compare(op, #[trigger] xs[i], xs[i + 1])
}

/// Checks every consecutive pair with `op`.
fn chain_compare(op: Relation, args: &Vec<Value>) -> (r: bool)
    ensures
        r == chain_holds(op, args@),
{
    if args.len() <= 1 {
        return true;
    }
    let mut i: usize = 1;
    while i < args.len()
        invariant
            1 <= i <= args@.len(),
            forall|j: int| 0 <= j < i - 1 ==> spec_compare(op, #[trigger] args@[j], args@[j + 1]),
        decreases args.len() - i,
    {
        if !compare(op, &args[i - 1], &args[i]) {
            return false;
        }
        i += 1;
    }
    true
}

/// `(< ...)`: true when each argument is less than the next.
pub fn clorus_lt_variadic(args: &Vec<Value>) -> (r: Value)
    ensures
        r == Value::Bool(chain_holds(Relation::Lt, args@)),
{
    Value::Bool(chain_compare(Relation::Lt, args))
}

/// `(<= ...)`.
pub fn clorus_lte_variadic(args: &Vec<Value>) -> (r: Value)
    ensures
        r == Value::Bool(chain_holds(Relation::Lte, args@)),
{
    Value::Bool(chain_compare(Relation::Lte, args))
}

/// `(> ...)`.
pub fn clorus_gt_variadic(args: &Vec<Value>) -> (r: Value)
    ensures
        r == Value::Bool(chain_holds(Relation::Gt, args@)),
{
    Value::Bool(chain_compare(Relation::Gt, args))
}

/// `(>= ...)`.
pub fn clorus_gte_variadic(args: &Vec<Value>) -> (r: Value)
    ensures
        r == Value::Bool(chain_holds(Relation::Gte, args@)),
{
    Value::Bool(chain_compare(Relation::Gte, args))
}

/// Every consecutive pair of `xs` is equal.
pub open spec fn all_equal(xs: Seq<Value>) -> bool {
    forall|i: int| 0 <= i < xs.len() - 1 ==> deep_eq(#[trigger] xs[i], xs[i + 1])
}

/// `(= ...)`: true when each argument equals the next.
pub fn clorus_eq_variadic(args: &Vec<Value>) -> (r: Value)
    ensures
        r == Value::Bool(all_equal(args@)),
{
    if args.len() <= 1 {
        return Value::Bool(true);
    }
    let mut i: usize = 1;
    while i < args.len()
        invariant
            1 <= i <= args@.len(),
            forall|j: int| 0 <= j < i - 1 ==> deep_eq(#[trigger] args@[j], args@[j + 1]),
        decreases args.len() - i,
    {
        if !equals(&args[i - 1], &args[i]) {
            return Value::Bool(false);
        }
        i += 1;
    }
    Value::Bool(true)
}

/// `(bit-and a b)`: nil unless both are integers.
pub fn clorus_bit_and(a: &Value, b: &Value) -> (r: Value)
    ensures
        r == match (*a, *b) {
            (Value::Long(x), Value::Long(y)) => Value::Long(x & y),
            _ => Value::Nil,
        },
{
    match (a, b) {
        (Value::Long(x), Value::Long(y)) => Value::Long(*x & *y),
        _ => Value::Nil,
    }
}

/// `(bit-or a b)`: nil unless both are integers.
pub fn clorus_bit_or(a: &Value, b: &Value) -> (r: Value)
    ensures
        r == match (*a, *b) {
            (Value::Long(x), Value::Long(y)) => Value::Long(x | y),
            _ => Value::Nil,
        },
{
    match (a, b) {
        (Value::Long(x), Value::Long(y)) => Value::Long(*x | *y),
        _ => Value::Nil,
    }
}

/// `(bit-xor a b)`: nil unless both are integers.
pub fn clorus_bit_xor(a: &Value, b: &Value) -> (r: Value)
    ensures
        r == match (*a, *b) {
            (Value::Long(x), Value::Long(y)) => Value::Long(x ^ y),
            _ => Value::Nil,
        },
{
    match (a, b) {
        (Value::Long(x), Value::Long(y)) => Value::Long(*x ^ *y),
        _ => Value::Nil,
    }
}

/// `(bit-not a)`: nil unless it is an integer.
pub fn clorus_bit_not(a: &Value) -> (r: Value)
    ensures
        r == match *a {
            Value::Long(x) => Value::Long(!x),
            _ => Value::Nil,
        },
{
    match a {
        Value::Long(x) => Value::Long(!*x),
        _ => Value::Nil,
    }
}

/// `(bit-shift-left a n)`: nil unless both are integers and `n` is in
/// `0..64`.
pub fn clorus_bit_shift_left(a: &Value, b: &Value) -> (r: Value)
    ensures
        r == match (*a, *b) {
            (Value::Long(x), Value::Long(s)) => if 0 <= s < 64 {
                Value::Long(x << (s as u64))
            } else {
                Value::Nil
            },
            _ => Value::Nil,
        },
{
    match (a, b) {
        (Value::Long(x), Value::Long(s)) => {
            if *s < 0 || *s >= 64 {
                return Value::Nil;
            }
            let k: u64 = *s as u64;
            Value::Long(*x << k)
        },
        _ => Value::Nil,
    }
}

/// `(bit-shift-right a n)`: arithmetic shift; nil unless both are
/// integers and `n` is in `0..64`.
pub fn clorus_bit_shift_right(a: &Value, b: &Value) -> (r: Value)
    ensures
        r == match (*a, *b) {
            (Value::Long(x), Value::Long(s)) => if 0 <= s < 64 {
                Value::Long(x >> (s as u64))
            } else {
                Value::Nil
            },
            _ => Value::Nil,
        },
{
    match (a, b) {
        (Value::Long(x), Value::Long(s)) => {
            if *s < 0 || *s >= 64 {
                return Value::Nil;
            }
            let k: u64 = *s as u64;
            Value::Long(*x >> k)
        },
        _ => Value::Nil,
    }
}

/// `mod` is floored: its result is zero or has the divisor's sign, is
/// smaller than the divisor in magnitude, and differs from the dividend by
/// a multiple of the divisor.
pub proof fn law_mod_floored(x: i64, y: i64)
    requires
        y != 0,
        mod_ok(Value::Long(x), Value::Long(y)),
    ensures
        spec_mod(Value::Long(x), Value::Long(y)) matches Value::Long(r) && (r == 0 || (r < 0) == (y
            < 0)) && magnitude(r as int) < magnitude(y as int) && exists|q: int| #[trigger] (q * y) == x - r,
{
    let ax = magnitude(x as int);
    let ay = magnitude(y as int);
    let m = ax % ay;
    let k = ax / ay;
    assert(0 <= m < ay && ax == k * ay + m) by (nonlinear_arith)
        requires
            ay > 0,
            ax >= 0,
            m == ax % ay,
            k == ax / ay,
    ;
    let t = trunc_rem(x as int, y as int);
    let f = floor_mod_of_rem(t, y as int);
    // q with x == q * y + t
    let qt: int = if (x < 0) == (y < 0) {
        k
    } else {
        -k
    };
    assert(x == qt * y + t) by (nonlinear_arith)
        requires
            ax == k * ay + m,
            ax == (if x < 0 { -x } else { x as int }),
            ay == (if y < 0 { -y } else { y as int }),
            t == (if x < 0 { -m } else { m }),
            qt == (if (x < 0) == (y < 0) { k } else { -k }),
    ;
    if t != 0 && ((t < 0) != (y < 0)) {
        assert(x == (qt - 1) * y + f) by (nonlinear_arith)
            requires
                x == qt * y + t,
                f == t + y,
        ;
        assert((qt - 1) * y == x - f);
    } else {
        assert(x == qt * y + f);
        assert(qt * y == x - f);
    }
}

} // verus!
