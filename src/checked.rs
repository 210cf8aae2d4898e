//! Exact integer values: 64-bit integers whose arithmetic yields an undefined
//! value, rather than wrapping, where the true result does not fit or is not
//! defined (a division by zero). An undefined operand gives an undefined
//! result.
use vstd::prelude::*;
use vstd::string::StringExecFns;

use crate::operation::Scalar;

verus! {

/// A 64-bit integer, or `None` once a computation has left the range or
/// divided by zero.
#[derive(Clone, Copy, Debug, PartialEq, Eq, Structural)]
pub struct CheckedInt {
    pub value: Option<i64>,
}

/// `x` if it is a 64-bit integer.
pub open spec fn fit(x: int) -> CheckedInt {
    if i64::MIN <= x <= i64::MAX {
        CheckedInt { value: Some(x as i64) }
    } else {
        CheckedInt { value: None }
    }
}

/// Applies `f` to two defined operands.
pub open spec fn lift(a: CheckedInt, b: CheckedInt, f: spec_fn(int, int) -> int) -> CheckedInt {
    match (a.value, b.value) {
        (Some(x), Some(y)) => fit(f(x as int, y as int)),
        _ => CheckedInt { value: None },
    }
}

pub open spec fn abs(x: int) -> nat {
    if x < 0 {
        (-x) as nat
    } else {
        x as nat
    }
}

/// Integer division rounding toward zero.
pub open spec fn quotient(x: int, y: int) -> int {
    if (x < 0) == (y < 0) {
        (abs(x) / abs(y)) as int
    } else {
        -((abs(x) / abs(y)) as int)
    }
}

pub open spec fn digit(d: nat) -> char {
    if d == 0 {
        '0'
    } else if d == 1 {
        '1'
    } else if d == 2 {
        '2'
    } else if d == 3 {
        '3'
    } else if d == 4 {
        '4'
    } else if d == 5 {
        '5'
    } else if d == 6 {
        '6'
    } else if d == 7 {
        '7'
    } else if d == 8 {
        '8'
    } else {
        '9'
    }
}

/// The decimal digits of `n`, most significant first.
pub open spec fn decimal(n: nat) -> Seq<char>
    decreases n,
{
    if n < 10 {
        seq![digit(n)]
    } else {
        decimal(n / 10).push(digit(n % 10))
    }
}

fn fit_exec(x: i128) -> (r: CheckedInt)
    ensures
        r == fit(x as int),
{
    if i64::MIN as i128 <= x && x <= i64::MAX as i128 {
        CheckedInt { value: Some(x as i64) }
    } else {
        CheckedInt { value: None }
    }
}

fn digit_str(d: u64) -> (r: &'static str)
    requires
        d < 10,
    ensures
        r@ == seq![digit(d as nat)],
{
    proof {
        reveal_strlit("0");
        reveal_strlit("1");
        reveal_strlit("2");
        reveal_strlit("3");
        reveal_strlit("4");
        reveal_strlit("5");
        reveal_strlit("6");
        reveal_strlit("7");
        reveal_strlit("8");
        reveal_strlit("9");
    }
    if d == 0 {
        "0"
    } else if d == 1 {
        "1"
    } else if d == 2 {
        "2"
    } else if d == 3 {
        "3"
    } else if d == 4 {
        "4"
    } else if d == 5 {
        "5"
    } else if d == 6 {
        "6"
    } else if d == 7 {
        "7"
    } else if d == 8 {
        "8"
    } else {
        assert(d == 9);
        "9"
    }
}

fn append_decimal(s: &mut String, n: u64)
    ensures
        final(s)@ == old(s)@ + decimal(n as nat),
    decreases n,
{
    if n >= 10 {
        append_decimal(s, n / 10);
    }
    s.append(digit_str(n % 10));
    proof {
        if n < 10 {
            assert(n % 10 == n);
        }
        assert(final(s)@ =~= old(s)@ + decimal(n as nat));
    }
}

impl Scalar for CheckedInt {
    open spec fn spec_sum(a: Self, b: Self) -> Self {
        lift(a, b, |x: int, y: int| x + y)
    }

    open spec fn spec_diff(a: Self, b: Self) -> Self {
        lift(a, b, |x: int, y: int| x - y)
    }

    open spec fn spec_product(a: Self, b: Self) -> Self {
        lift(a, b, |x: int, y: int| x * y)
    }

    open spec fn spec_div(a: Self, b: Self) -> Self {
        if b.value == Some(0i64) {
            CheckedInt { value: None }
        } else {
            lift(a, b, |x: int, y: int| quotient(x, y))
        }
    }

    open spec fn spec_label(&self) -> Seq<char> {
        match self.value {
            Some(x) => if x < 0 {
                seq!['-'] + decimal(abs(x as int))
            } else {
                decimal(x as nat)
            },
            None => "undefined"@,
        }
    }

    fn sum(a: Self, b: Self) -> (r: Self) {
        match (a.value, b.value) {
            (Some(x), Some(y)) => fit_exec(x as i128 + y as i128),
            _ => CheckedInt { value: None },
        }
    }

    fn diff(a: Self, b: Self) -> (r: Self) {
        match (a.value, b.value) {
            (Some(x), Some(y)) => fit_exec(x as i128 - y as i128),
            _ => CheckedInt { value: None },
        }
    }

    fn product(a: Self, b: Self) -> (r: Self) {
        match (a.value, b.value) {
            (Some(x), Some(y)) => {
                let (xw, yw) = (x as i128, y as i128);
                proof {
                    assert(-0x8000_0000_0000_0000 <= xw <= 0x7fff_ffff_ffff_ffff);
                    assert(-0x8000_0000_0000_0000 <= yw <= 0x7fff_ffff_ffff_ffff);
                    assert(-0x4000_0000_0000_0000_0000_0000_0000_0000 <= xw * yw
                        <= 0x4000_0000_0000_0000_0000_0000_0000_0000) by (nonlinear_arith)
                        requires
                            -0x8000_0000_0000_0000 <= xw <= 0x7fff_ffff_ffff_ffff,
                            -0x8000_0000_0000_0000 <= yw <= 0x7fff_ffff_ffff_ffff,
                    ;
                }
                fit_exec(xw * yw)
            },
            _ => CheckedInt { value: None },
        }
    }

    fn div(a: Self, b: Self) -> (r: Self) {
        match (a.value, b.value) {
            (Some(x), Some(y)) => {
                if y == 0 {
                    CheckedInt { value: None }
                } else {
                    let ax: i128 = if x < 0 {
                        -(x as i128)
                    } else {
                        x as i128
                    };
                    let ay: i128 = if y < 0 {
                        -(y as i128)
                    } else {
                        y as i128
                    };
                    let q: i128 = ax / ay;
                    proof {
                        assert(0 <= q <= ax) by (nonlinear_arith)
                            requires
                                q == ax / ay,
                                ax >= 0,
                                ay >= 1,
                        ;
                    }
                    if (x < 0) == (y < 0) {
                        fit_exec(q)
                    } else {
                        fit_exec(-q)
                    }
                }
            },
            _ => CheckedInt { value: None },
        }
    }

    fn debug_string(&self) -> (r: String) {
        match self.value {
            Some(x) => {
                let mut s = String::new();
                if x < 0 {
                    proof {
                        reveal_strlit("-");
                    }
                    s.append("-");
                    append_decimal(&mut s, (0 - x as i128) as u64);
                } else {
                    append_decimal(&mut s, x as u64);
                }
                s
            },
            None => String::from_str("undefined"),
        }
    }
}

} // verus!
