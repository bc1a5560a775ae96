//! Byte counts as text, for log lines.

use crate::text::{decimal_digits, digit, push_decimal_digits};
use vstd::prelude::*;

verus! {

/// Bytes in a kilobyte.
pub const KB: u64 = 1024;

/// Bytes in a megabyte.
pub const MB: u64 = 1048576;

/// Bytes in a gigabyte.
pub const GB: u64 = 1073741824;

/// The size of the unit in which `bytes` is shown: the largest of KB, MB and
/// GB that keeps the number shown below 1024, and GB for all that is larger.
pub open spec fn unit_size(bytes: int) -> int {
    if bytes < MB {
        KB as int
    } else if bytes < GB {
        MB as int
    } else {
        GB as int
    }
}

/// The name of the unit in which `bytes` is shown, after a space.
pub open spec fn unit_suffix(bytes: int) -> Seq<char> {
    if bytes < MB {
        seq![' ', 'K', 'B']
    } else if bytes < GB {
        seq![' ', 'M', 'B']
    } else {
        seq![' ', 'G', 'B']
    }
}

/// `numerator / denominator` rounded to the nearest whole number, and to the
/// even one of two that are equally near.
pub open spec fn rounded_quotient(numerator: nat, denominator: int) -> nat {
    let quotient = numerator / (denominator as nat);
    let rest = numerator % (denominator as nat);
    if 2 * rest < denominator || (2 * rest == denominator && quotient % 2 == 0) {
        quotient
    } else {
        quotient + 1
    }
}

/// A count below this many bytes is shown as it is; a larger one keeps its
/// 53 leading bits only.
pub const EXACT_LIMIT: u64 = 0x20_0000_0000_0000;

/// The distance between neighbours among the numbers of 53 significant bits
/// around `magnitude`: the least power of two that, taken `EXACT_LIMIT`
/// times, is above `magnitude`.
pub open spec fn spacing(magnitude: nat) -> nat
    decreases magnitude,
{
    if magnitude < EXACT_LIMIT {
        1
    } else {
        2 * spacing(magnitude / 2)
    }
}

/// `magnitude` with 53 significant bits: the nearest multiple of its spacing,
/// and of two that are equally near the one whose last kept bit is zero. A
/// magnitude below `EXACT_LIMIT` is unchanged.
pub open spec fn kept(magnitude: nat) -> nat {
    rounded_quotient(magnitude, spacing(magnitude) as int) * spacing(magnitude)
}

/// The size of `bytes` in hundredths of its unit, without sign.
pub open spec fn hundredths(bytes: int) -> nat {
    let magnitude = if bytes < 0 {
        -bytes
    } else {
        bytes
    };
    rounded_quotient(kept(magnitude as nat) * 100, unit_size(bytes))
}

/// The text of a size: a minus sign if `bytes` is negative, the whole units,
/// a point, two decimal places, a space and the unit. The size is that of
/// `bytes` with 53 significant bits, rounded to the nearest hundredth of the
/// unit, and on a tie to the even one.
pub open spec fn size_text(bytes: int) -> Seq<char> {
    let shown = hundredths(bytes);
    let sign = if bytes < 0 {
        seq!['-']
    } else {
        Seq::<char>::empty()
    };
    sign + decimal_digits(shown / 100) + seq![
        '.',
        digit((shown / 10 % 10) as int),
        digit((shown % 10) as int),
    ] + unit_suffix(bytes)
}

/// A hundredfold of `whole * unit + rest` divides by `unit` as the hundredfold
/// of `rest` does, with a hundred for each of `whole` on top.
proof fn lemma_hundredfold_division(whole: int, rest: int, unit: int)
    requires
        0 < unit,
        0 <= whole,
        0 <= rest < unit,
    ensures
        ((whole * unit + rest) * 100) / unit == whole * 100 + (rest * 100) / unit,
        ((whole * unit + rest) * 100) % unit == (rest * 100) % unit,
{
    let places = (rest * 100) / unit;
    let left = (rest * 100) % unit;
    vstd::arithmetic::div_mod::lemma_fundamental_div_mod(rest * 100, unit);
    assert((whole * unit + rest) * 100 == (whole * 100 + places) * unit + left)
        by (nonlinear_arith)
        requires
            rest * 100 == unit * places + left,
    ;
    vstd::arithmetic::div_mod::lemma_fundamental_div_mod_converse(
        (whole * unit + rest) * 100,
        unit,
        whole * 100 + places,
        left,
    );
}

/// `magnitude / unit` in hundredths, rounded to the nearest and on a tie to
/// the even one.
fn rounded_hundredths(magnitude: u64, unit: u64) -> (shown: u64)
    requires
        unit == KB || unit == MB || unit == GB,
        magnitude <= 0x8000_0000_0000_0000,
    ensures
        shown == rounded_quotient((magnitude * 100) as nat, unit as int),
{
    let whole: u64 = magnitude / unit;
    let rest: u64 = magnitude % unit;
    let scaled: u64 = rest * 100;
    let mut places: u64 = scaled / unit;
    let left: u64 = scaled % unit;
    proof {
        vstd::arithmetic::div_mod::lemma_fundamental_div_mod(magnitude as int, unit as int);
        assert(magnitude == whole * unit + rest) by (nonlinear_arith)
            requires
                magnitude == unit * whole + rest,
        ;
        lemma_hundredfold_division(whole as int, rest as int, unit as int);
        assert(0 <= places < 100) by (nonlinear_arith)
            requires
                places == (rest * 100) / (unit as int),
                0 <= rest < unit,
        ;
        assert(whole <= 0x20_0000_0000_0000) by (nonlinear_arith)
            requires
                whole == magnitude / unit,
                magnitude <= 0x8000_0000_0000_0000,
                unit >= 1024,
        ;
    }
    if 2 * left > unit || (2 * left == unit && places % 2 == 1) {
        places += 1;
    }
    whole * 100 + places
}

/// Doubling the step halves what is left to space out.
proof fn lemma_spacing_continues(magnitude: nat, step: nat)
    requires
        step >= 1,
        magnitude / step >= EXACT_LIMIT,
    ensures
        spacing(magnitude / step) == 2 * spacing(magnitude / (2 * step)),
{
    vstd::arithmetic::div_mod::lemma_div_denominator(magnitude as int, step as int, 2);
}

/// Whether `step` is a power of two up to 2048, the spacings that occur up
/// to a magnitude of 2^63.
spec fn is_step(step: nat) -> bool {
    step == 1 || step == 2 || step == 4 || step == 8 || step == 16 || step == 32 || step == 64
        || step == 128 || step == 256 || step == 512 || step == 1024 || step == 2048
}

/// Rounding a magnitude up to 2^63 to a multiple of its spacing stays within
/// 2^63, and stays at or above `EXACT_LIMIT` if the magnitude was there.
proof fn lemma_kept_in_range(magnitude: nat, step: nat)
    requires
        is_step(step),
        magnitude <= 0x8000_0000_0000_0000,
        magnitude / step < EXACT_LIMIT,
        step > 1 ==> magnitude / (step / 2) >= EXACT_LIMIT,
    ensures
        (magnitude / step + 1) * step <= 0x8000_0000_0000_0000 + 2048,
        rounded_quotient(magnitude, step as int) * step <= 0x8000_0000_0000_0000,
        step == 1 ==> rounded_quotient(magnitude, step as int) * step == magnitude,
        step > 1 ==> rounded_quotient(magnitude, step as int) * step >= EXACT_LIMIT,
{
    if step == 2048 {
        // only 2^63 itself is spaced this widely, and it is a multiple of its spacing
        assert(magnitude / 2048 == magnitude / step && magnitude % 2048 == magnitude % step);
    }
}

/// `magnitude` with 53 significant bits.
fn keep_leading_bits(magnitude: u64) -> (held: u64)
    requires
        magnitude <= 0x8000_0000_0000_0000,
    ensures
        held == kept(magnitude as nat),
        held <= 0x8000_0000_0000_0000,
        magnitude < EXACT_LIMIT ==> held == magnitude,
        magnitude >= EXACT_LIMIT ==> held >= EXACT_LIMIT,
{
    let mut step: u64 = 1;
    while magnitude / step >= EXACT_LIMIT
        invariant
            is_step(step as nat),
            magnitude <= 0x8000_0000_0000_0000,
            spacing(magnitude as nat) == step * spacing(magnitude as nat / step as nat),
            step > 1 ==> magnitude as nat / (step as nat / 2) >= EXACT_LIMIT,
        decreases 4096 - step,
    {
        proof {
            lemma_spacing_continues(magnitude as nat, step as nat);
            assert(step <= 1024) by (nonlinear_arith)
                requires
                    magnitude / step >= 0x20_0000_0000_0000,
                    magnitude <= 0x8000_0000_0000_0000,
                    step >= 1,
            ;
            assert(step * (2 * spacing(magnitude as nat / (2 * step) as nat)) == (step * 2)
                * spacing(magnitude as nat / (2 * step) as nat)) by (nonlinear_arith);
        }
        step = step * 2;
    }
    let whole: u64 = magnitude / step;
    let rest: u64 = magnitude % step;
    proof {
        assert(spacing(magnitude as nat) == step) by (nonlinear_arith)
            requires
                spacing(magnitude as nat) == step * spacing(magnitude as nat / step as nat),
                spacing(magnitude as nat / step as nat) == 1,
        ;
        lemma_kept_in_range(magnitude as nat, step as nat);
    }
    let rounded: u64 = if 2 * rest > step || (2 * rest == step && whole % 2 == 1) {
        whole + 1
    } else {
        whole
    };
    proof {
        assert(rounded * step <= (whole + 1) * step) by (nonlinear_arith)
            requires
                rounded <= whole + 1,
                step >= 1,
        ;
    }
    rounded * step
}

/// Renders a byte count in the largest unit of KB, MB and GB that keeps the
/// number below 1024, with two decimal places.
pub fn bytes_to_string(bytes: i64) -> (text: String)
    ensures
        text@ == size_text(bytes as int),
{
    proof {
        reveal_strlit("-");
        reveal_strlit(".");
        reveal_strlit(" KB");
        reveal_strlit(" MB");
        reveal_strlit(" GB");
    }
    let mut text = String::new();
    let magnitude: u64 = if bytes < 0 {
        text.append("-");
        ((-(bytes + 1)) as u64) + 1
    } else {
        bytes as u64
    };
    let held = keep_leading_bits(magnitude);
    let shown: u64 = if magnitude < MB || bytes < 0 {
        rounded_hundredths(held, KB)
    } else if magnitude < GB {
        rounded_hundredths(held, MB)
    } else {
        rounded_hundredths(held, GB)
    };
    push_decimal_digits(&mut text, shown / 100);
    text.append(".");
    push_decimal_digits(&mut text, shown / 10 % 10);
    push_decimal_digits(&mut text, shown % 10);
    if magnitude < MB || bytes < 0 {
        text.append(" KB");
    } else if magnitude < GB {
        text.append(" MB");
    } else {
        text.append(" GB");
    }
    text
}

} // verus!
