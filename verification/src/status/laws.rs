//! How numbers of bytes are written.

use vstd::prelude::*;

use crate::chars::decimal_text;
use crate::status::{bytes_text, double_step, nearest_double, rounded_quotient, tenths_text};

verus! {

/// A quotient is rounded to the nearest whole number, and halfway to the even one.
pub proof fn quotients_are_rounded(n: nat, divisor: nat)
    requires
        divisor > 0,
    ensures
        ({
            let q = rounded_quotient(n, divisor) as int;
            &&& 2 * (q * divisor - n) <= divisor
            &&& 2 * (n - q * divisor) <= divisor
            &&& 2 * (q * divisor - n) == divisor || 2 * (n - q * divisor) == divisor ==> q % 2 == 0
        }),
{
    let quotient = n / divisor;
    let rest = n % divisor;
    assert(n == quotient * divisor + rest && rest < divisor) by (nonlinear_arith)
        requires
            divisor > 0,
            quotient == n / divisor,
            rest == n % divisor,
    ;
    assert((quotient + 1) * divisor == quotient * divisor + divisor) by (nonlinear_arith);
}

/// Up to a kibibyte the number is written out; up to a mebibyte it is written in kibibytes, and
/// beyond in mebibytes, with one digit behind the point.
pub proof fn bytes_are_written_in_their_unit(bytes: nat)
    requires
        bytes < 0x20_0000_0000_0000,
    ensures
        bytes < 1024 ==> bytes_text(bytes) == decimal_text(bytes) + " B"@,
        1024 <= bytes < 1024 * 1024 ==> bytes_text(bytes) == tenths_text(bytes, 1024) + " KiB"@,
        bytes >= 1024 * 1024 ==> bytes_text(bytes) == tenths_text(bytes, 1024 * 1024) + " MiB"@,
        forall|unit: nat|
            #![trigger tenths_text(bytes, unit)]
            tenths_text(bytes, unit) == decimal_text(rounded_quotient(10 * bytes, unit) / 10)
                + "."@ + decimal_text(rounded_quotient(10 * bytes, unit) % 10),
{
    assert(double_step(bytes) == 1);
    quotients_are_rounded(bytes, 1);
    let q = rounded_quotient(bytes, 1);
    assert(q * 1 == q);
    assert(nearest_double(bytes) == bytes);
}

} // verus!
