//! Numbers of bytes as the status bar shows them.

use vstd::prelude::*;

use crate::chars::{decimal, decimal_text};

pub mod laws;

verus! {

/// A quotient rounded to the nearest whole number, and to the even one of two that are as near.
pub open spec fn rounded_quotient(n: nat, divisor: nat) -> nat {
    let quotient = n / divisor;
    let rest = n % divisor;
    if 2 * rest < divisor || (2 * rest == divisor && quotient % 2 == 0) {
        quotient
    } else {
        quotient + 1
    }
}

/// The distance between numbers of this size that a double can hold.
pub open spec fn double_step(n: nat) -> nat
    decreases n,
{
    if n < 0x20_0000_0000_0000 {
        1
    } else {
        2 * double_step(n / 2)
    }
}

/// The double that is nearest to a whole number.
pub open spec fn nearest_double(n: nat) -> nat {
    rounded_quotient(n, double_step(n)) * double_step(n)
}

/// A number of units with one digit after the point.
pub open spec fn tenths_text(n: nat, unit: nat) -> Seq<char> {
    let tenths = rounded_quotient(10 * n, unit);
    decimal_text(tenths / 10) + "."@ + decimal_text(tenths % 10)
}

/// A number of bytes in the unit that suits it.
pub open spec fn bytes_text(bytes: nat) -> Seq<char> {
    if bytes >= 0x10_0000 {
        tenths_text(nearest_double(bytes), 0x10_0000) + " MiB"@
    } else if bytes >= 1024 {
        tenths_text(bytes, 1024) + " KiB"@
    } else {
        decimal_text(bytes) + " B"@
    }
}

fn step_of(n: u64) -> (step: u64)
    ensures
        step == double_step(n as nat),
        1 <= step,
        n < 0x20_0000_0000_0000 * step,
    decreases n,
{
    if n < 0x20_0000_0000_0000 {
        1
    } else {
        let half: u64 = step_of(n / 2);
        proof {
            step_is_small((n / 2) as nat);
        }
        2 * half
    }
}

proof fn step_is_small(n: nat)
    ensures
        double_step(n) <= 1 || 0x10_0000_0000_0000 * double_step(n) <= n,
    decreases n,
{
    if n >= 0x20_0000_0000_0000 {
        step_is_small(n / 2);
    }
}

fn round_quotient(n: u128, divisor: u128) -> (result: u128)
    requires
        divisor > 0,
        n <= 0x1_0000_0000_0000_0000_0000,
        divisor <= 0x1_0000_0000_0000_0000_0000,
    ensures
        result == rounded_quotient(n as nat, divisor as nat),
        result <= n / divisor + 1,
{
    let quotient: u128 = n / divisor;
    let rest: u128 = n % divisor;
    if 2 * rest < divisor || (2 * rest == divisor && quotient % 2 == 0) {
        quotient
    } else {
        assert(quotient <= n) by (nonlinear_arith)
            requires
                quotient == n / divisor,
                divisor > 0,
        ;
        quotient + 1
    }
}

fn in_tenths(n: u128, unit: u128) -> (text: String)
    requires
        unit == 1024 || unit == 0x10_0000,
        n <= 0x2_0000_0000_0000_0000,
    ensures
        text@ == tenths_text(n as nat, unit as nat),
{
    let tenths: u128 = round_quotient(10 * n, unit);
    assert(tenths < 0x8000_0000_0000_0000);
    let whole: u128 = tenths / 10;
    let mut text = decimal(whole as u64);
    text.append(".");
    text.append(decimal((tenths % 10) as u64).as_str());
    text
}

pub fn human_bytes(bytes: u64) -> (text: String)
    ensures
        text@ == bytes_text(bytes as nat),
{
    if bytes >= 0x10_0000 {
        let step: u128 = step_of(bytes) as u128;
        let steps: u128 = round_quotient(bytes as u128, step);
        proof {
            step_is_small(bytes as nat);
            assert(steps * step <= bytes + step) by (nonlinear_arith)
                requires
                    steps <= bytes as u128 / step + 1,
                    step > 0,
            ;
        }
        let mut text = in_tenths(steps * step, 0x10_0000);
        text.append(" MiB");
        text
    } else if bytes >= 1024 {
        let mut text = in_tenths(bytes as u128, 1024);
        text.append(" KiB");
        text
    } else {
        let mut text = decimal(bytes);
        text.append(" B");
        text
    }
}

} // verus!
