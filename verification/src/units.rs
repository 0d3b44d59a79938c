//! Rendering of byte counts in binary units.

use vstd::prelude::*;
use vstd::string::*;

verus! {

/// Bytes in one KiB.
pub const KIB: u64 = 1024;

/// Bytes in one MiB.
pub const MIB: u64 = 1_048_576;

/// Bytes in one GiB.
pub const GIB: u64 = 1_073_741_824;

/// Bytes in one TiB.
pub const TIB: u64 = 1_099_511_627_776;

/// The smallest count that double precision no longer holds exactly next to
/// its neighbours: two to the power 53.
pub const DOUBLE_EXACT: u64 = 0x20_0000_0000_0000;

/// The quotient of `n` by `d`, rounded to the nearest integer. A quotient that
/// lies exactly between two integers goes to the even one.
pub open spec fn round_half_even(n: nat, d: nat) -> nat
    recommends
        d > 0,
{
    let q = n / d;
    let r = n % d;
    if 2 * r > d || (2 * r == d && q % 2 == 1) {
        q + 1
    } else {
        q
    }
}

/// The distance between neighbouring double-precision numbers at the size of
/// `n`: 1 below two to the 53, then doubling with each further bit.
pub open spec fn double_spacing(n: nat) -> nat
    decreases n,
{
    if n < DOUBLE_EXACT {
        1
    } else {
        2 * double_spacing(n / 2)
    }
}

/// The double-precision number nearest to `n`, ties to even. Byte counts are
/// rendered as fractions of a unit in double precision, so a count of more
/// than 53 bits is first brought to this value.
pub open spec fn as_double(n: nat) -> nat {
    round_half_even(n, double_spacing(n)) * double_spacing(n)
}

/// The number of bytes in a unit: 0 stands for B, 1 for KiB, 2 for MiB, 3 for
/// GiB and 4 (or more) for TiB.
pub open spec fn unit_size(unit: nat) -> nat {
    if unit == 0 {
        1
    } else if unit == 1 {
        KIB as nat
    } else if unit == 2 {
        MIB as nat
    } else if unit == 3 {
        GIB as nat
    } else {
        TIB as nat
    }
}

/// The suffix that names a unit.
pub open spec fn unit_suffix(unit: nat) -> Seq<char> {
    if unit == 0 {
        "B"@
    } else if unit == 1 {
        "KiB"@
    } else if unit == 2 {
        "MiB"@
    } else if unit == 3 {
        "GiB"@
    } else {
        "TiB"@
    }
}

/// `bytes` counted in hundredths of `unit`, rounded to the nearest hundredth.
pub open spec fn hundredths(bytes: nat, unit: nat) -> nat {
    round_half_even(as_double(bytes) * 100, unit_size(unit))
}

/// The unit in which `bytes` is rendered: the smallest one in which the
/// rendered value stays below 1024, and TiB where there is none. A count so
/// close under a threshold that two decimals would show it as 1024.00 is
/// therefore rendered in the next unit, as 1.00.
pub open spec fn unit_of(bytes: nat) -> nat {
    if bytes < KIB {
        0
    } else if hundredths(bytes, 1) < 102_400 {
        1
    } else if hundredths(bytes, 2) < 102_400 {
        2
    } else if hundredths(bytes, 3) < 102_400 {
        3
    } else {
        4
    }
}

/// The character of a decimal digit.
pub open spec fn digit_char(d: nat) -> char
    recommends
        d < 10,
{
    if d == 0 {
        '0'
    } else if d == 1 {
        '1'
    } else if d == 2 {
        '2'
    } else if d == 3 {
        '3'
    } else if d == 4 {
        '4'
    } else if d == 5 {
        '5'
    } else if d == 6 {
        '6'
    } else if d == 7 {
        '7'
    } else if d == 8 {
        '8'
    } else {
        '9'
    }
}

/// `n` in decimal, without leading zeros.
pub open spec fn decimal(n: nat) -> Seq<char>
    decreases n,
{
    if n < 10 {
        seq![digit_char(n)]
    } else {
        decimal(n / 10).push(digit_char(n % 10))
    }
}

/// A count of hundredths as a number with two decimals.
pub open spec fn two_decimals(h: nat) -> Seq<char> {
    decimal(h / 100) + "."@ + seq![digit_char(h / 10 % 10), digit_char(h % 10)]
}

/// The text that stands for `bytes`: the plain number and `B` below 1 KiB,
/// else the count in its unit with two decimals, a space and the unit.
pub open spec fn format_bytes_text(bytes: nat) -> Seq<char> {
    let unit = unit_of(bytes);
    if unit == 0 {
        decimal(bytes) + " B"@
    } else {
        two_decimals(hundredths(bytes, unit)) + " "@ + unit_suffix(unit)
    }
}

/// One decimal digit as text.
fn digit_str(d: u128) -> (s: &'static str)
    requires
        d < 10,
    ensures
        s@ == seq![digit_char(d as nat)],
{
    proof {
        reveal_strlit("0");
        reveal_strlit("1");
        reveal_strlit("2");
        reveal_strlit("3");
        reveal_strlit("4");
        reveal_strlit("5");
        reveal_strlit("6");
        reveal_strlit("7");
        reveal_strlit("8");
        reveal_strlit("9");
    }
    let s: &'static str = if d == 0 {
        "0"
    } else if d == 1 {
        "1"
    } else if d == 2 {
        "2"
    } else if d == 3 {
        "3"
    } else if d == 4 {
        "4"
    } else if d == 5 {
        "5"
    } else if d == 6 {
        "6"
    } else if d == 7 {
        "7"
    } else if d == 8 {
        "8"
    } else {
        "9"
    };
    assert(s@ =~= seq![digit_char(d as nat)]);
    s
}

/// Writes `n` in decimal at the end of `out`.
pub fn append_decimal(out: &mut String, n: u128)
    ensures
        final(out)@ == old(out)@ + decimal(n as nat),
    decreases n,
{
    if n >= 10 {
        append_decimal(out, n / 10);
    }
    out.append(digit_str(n % 10));
    assert(final(out)@ =~= old(out)@ + decimal(n as nat));
}

/// `n` divided by `d` and rounded, halves to the even side.
fn round_div(n: u128, d: u128) -> (q: u128)
    requires
        0 < d <= TIB,
    ensures
        q == round_half_even(n as nat, d as nat),
{
    let q: u128 = n / d;
    let r: u128 = n % d;
    if 2 * r > d || (2 * r == d && q % 2 == 1) {
        assert(q < u128::MAX) by (nonlinear_arith)
            requires
                q == n / d,
                r == n % d,
                r > 0,
                d > 0,
                n <= u128::MAX,
        {
            assert(n == d * (n / d) + n % d);
        }
        q + 1
    } else {
        q
    }
}

/// The double nearest to `bytes`. The loop finds the spacing of the doubles
/// at that size; the count is then rounded to a multiple of it.
fn nearest_double(bytes: u64) -> (m: u128)
    ensures
        m == as_double(bytes as nat),
        m <= 0x2_0000_0000_0000_0000,
{
    let mut gap: u64 = 1;
    let mut rest: u64 = bytes;
    while rest >= DOUBLE_EXACT
        invariant
            1 <= gap,
            gap == 1 || gap * 0x10_0000_0000_0000 <= bytes,
            gap * rest <= bytes,
            double_spacing(bytes as nat) == gap * double_spacing(rest as nat),
        decreases rest,
    {
        assert(gap * DOUBLE_EXACT <= gap * rest) by (nonlinear_arith)
            requires
                rest >= DOUBLE_EXACT,
                gap >= 1,
        ;
        assert((2 * gap) * (rest / 2) <= gap * rest) by (nonlinear_arith)
            requires
                rest >= 0,
                gap >= 1,
        ;
        assert(gap * (2 * double_spacing(rest as nat / 2)) == (2 * gap) * double_spacing(
            rest as nat / 2,
        )) by (nonlinear_arith);
        gap = 2 * gap;
        rest = rest / 2;
    }
    assert(double_spacing(rest as nat) == 1);
    assert(gap == double_spacing(bytes as nat)) by (nonlinear_arith)
        requires
            double_spacing(bytes as nat) == gap * double_spacing(rest as nat),
            double_spacing(rest as nat) == 1,
    ;
    let q: u128 = (bytes / gap) as u128;
    let r: u64 = bytes % gap;
    let up: bool = 2 * r > gap || (2 * r == gap && q % 2 == 1);
    let steps: u128 = if up {
        q + 1
    } else {
        q
    };
    assert(steps * gap <= bytes + gap) by (nonlinear_arith)
        requires
            steps <= q + 1,
            q == bytes / gap,
            gap >= 1,
    {
        assert(bytes == gap * (bytes / gap) + bytes % gap);
    }
    steps * (gap as u128)
}

/// `bytes` in hundredths of a unit from KiB to TiB.
fn scaled(bytes: u64, unit: u8) -> (h: u128)
    requires
        1 <= unit <= 4,
    ensures
        h == hundredths(bytes as nat, unit as nat),
{
    let size: u128 = if unit == 1 {
        1024
    } else if unit == 2 {
        1_048_576
    } else if unit == 3 {
        1_073_741_824
    } else {
        1_099_511_627_776
    };
    round_div(nearest_double(bytes) * 100, size)
}

/// The name of a unit as text.
fn suffix_str(unit: u8) -> (s: &'static str)
    ensures
        s@ == unit_suffix(unit as nat),
{
    if unit == 0 {
        "B"
    } else if unit == 1 {
        "KiB"
    } else if unit == 2 {
        "MiB"
    } else if unit == 3 {
        "GiB"
    } else {
        "TiB"
    }
}

/// Renders a byte count for a reader: `0 B`, `1023 B`, `1.00 KiB`,
/// `1.50 MiB`. The unit is the smallest of B, KiB, MiB, GiB and TiB in which
/// the rendered value is below 1024; TiB takes everything above.
pub fn format_bytes(bytes: u64) -> (text: String)
    ensures
        text@ == format_bytes_text(bytes as nat),
{
    let mut out = String::new();
    if bytes < KIB {
        append_decimal(&mut out, bytes as u128);
        out.append(" B");
        assert(out@ =~= decimal(bytes as nat) + " B"@);
        return out;
    }
    let mut unit: u8 = 1;
    let mut h: u128 = scaled(bytes, 1);
    while unit < 4 && h >= 102_400
        invariant
            1 <= unit <= 4,
            h == hundredths(bytes as nat, unit as nat),
            forall|u: nat| 1 <= u < unit ==> hundredths(bytes as nat, u) >= 102_400,
        decreases 4 - unit,
    {
        unit = unit + 1;
        h = scaled(bytes, unit);
    }
    assert(unit as nat == unit_of(bytes as nat));
    append_decimal(&mut out, h / 100);
    out.append(".");
    out.append(digit_str(h / 10 % 10));
    out.append(digit_str(h % 10));
    out.append(" ");
    out.append(suffix_str(unit));
    assert(out@ =~= two_decimals(h as nat) + " "@ + unit_suffix(unit as nat));
    out
}

/// A count below two to the 53 is a double-precision number itself.
pub proof fn lemma_small_counts_are_exact(bytes: nat)
    requires
        bytes < DOUBLE_EXACT,
    ensures
        as_double(bytes) == bytes,
{
    assert(double_spacing(bytes) == 1);
}

/// A multiple of `d` divided by `d` needs no rounding.
pub proof fn lemma_whole_quotient(q: nat, d: nat)
    requires
        d > 0,
    ensures
        round_half_even(q * d, d) == q,
{
    assert((q * d) / d == q && (q * d) % d == 0) by (nonlinear_arith)
        requires
            d > 0,
    ;
}

/// One whole unit renders as 1.00 of that unit.
pub proof fn lemma_whole_unit_renders_as_one(unit: nat)
    requires
        1 <= unit <= 4,
    ensures
        format_bytes_text(unit_size(unit)) == "1.00 "@ + unit_suffix(unit),
{
    let bytes = unit_size(unit);
    lemma_small_counts_are_exact(bytes);
    lemma_small_counts_are_exact(1);
    assert(as_double(bytes) * 100 == bytes * 100);
    if unit == 1 {
        lemma_whole_quotient(100, 1024);
    } else if unit == 2 {
        lemma_whole_quotient(102_400, 1024);
        lemma_whole_quotient(100, 1_048_576);
    } else if unit == 3 {
        lemma_whole_quotient(104_857_600, 1024);
        lemma_whole_quotient(102_400, 1_048_576);
        lemma_whole_quotient(100, 1_073_741_824);
    } else {
        lemma_whole_quotient(107_374_182_400, 1024);
        lemma_whole_quotient(104_857_600, 1_048_576);
        lemma_whole_quotient(102_400, 1_073_741_824);
        lemma_whole_quotient(100, 1_099_511_627_776);
    }
    assert(hundredths(bytes, unit) == 100);
    assert(unit_of(bytes) == unit);
    reveal_strlit("1.00 ");
    reveal_strlit(".");
    reveal_strlit(" ");
    assert(decimal(1) =~= seq!['1']);
    assert(two_decimals(100) + " "@ =~= "1.00 "@);
}

/// From two to the 53 on, neighbouring doubles lie apart by no more than the
/// count divided by two to the 52.
pub proof fn lemma_spacing_is_small(n: nat)
    requires
        n >= DOUBLE_EXACT,
    ensures
        double_spacing(n) >= 2,
        double_spacing(n) * 0x10_0000_0000_0000 <= n,
    decreases n,
{
    if n / 2 >= DOUBLE_EXACT {
        lemma_spacing_is_small(n / 2);
    } else {
        assert(double_spacing(n / 2) == 1);
    }
}

/// Rounding to a double leaves a count below two to the 53 as it is, and
/// takes no other count below two to the 52.
pub proof fn lemma_double_is_near(bytes: nat)
    ensures
        bytes < DOUBLE_EXACT ==> as_double(bytes) == bytes,
        bytes >= DOUBLE_EXACT ==> as_double(bytes) >= 0x10_0000_0000_0000,
{
    if bytes < DOUBLE_EXACT {
        lemma_small_counts_are_exact(bytes);
    } else {
        lemma_spacing_is_small(bytes);
        let gap = double_spacing(bytes);
        assert((bytes / gap) * gap > bytes - gap) by (nonlinear_arith)
            requires
                gap > 0,
        {
            assert(bytes == gap * (bytes / gap) + bytes % gap);
            assert(bytes % gap < gap);
        }
        assert(round_half_even(bytes, gap) * gap >= (bytes / gap) * gap) by (nonlinear_arith)
            requires
                round_half_even(bytes, gap) >= bytes / gap,
                gap > 0,
        ;
    }
}

/// The unit by plain comparisons: a count moves up to the next unit where it
/// reaches 1023.995 of the one before, which is where two decimals would
/// show 1024.00.
pub proof fn lemma_unit_by_thresholds(bytes: nat)
    ensures
        unit_of(bytes) == if bytes < KIB {
            0nat
        } else if 200 * bytes < 204_799 * KIB {
            1nat
        } else if 200 * bytes < 204_799 * MIB {
            2nat
        } else if 200 * bytes < 204_799 * GIB {
            3nat
        } else {
            4nat
        },
{
    lemma_double_is_near(bytes);
    let n = as_double(bytes) * 100;
    assert(round_half_even(n, 1024) < 102_400 <==> 2 * n < 204_799 * 1024);
    assert(round_half_even(n, 1_048_576) < 102_400 <==> 2 * n < 204_799 * 1_048_576);
    assert(round_half_even(n, 1_073_741_824) < 102_400 <==> 2 * n < 204_799 * 1_073_741_824);
}

/// From 1 KiB on, the number that is shown is at least 1.00, and in every
/// unit but TiB it is below 1024.00.
pub proof fn lemma_shown_value_range(bytes: nat)
    requires
        bytes >= KIB,
    ensures
        1 <= unit_of(bytes) <= 4,
        hundredths(bytes, unit_of(bytes)) >= 100,
        unit_of(bytes) < 4 ==> hundredths(bytes, unit_of(bytes)) < 102_400,
{
    lemma_double_is_near(bytes);
    let n = as_double(bytes) * 100;
    assert(round_half_even(n, 1024) >= 100);
    assert(round_half_even(n, 1024) >= 102_400 ==> round_half_even(n, 1_048_576) >= 100);
    assert(round_half_even(n, 1_048_576) >= 102_400 ==> round_half_even(n, 1_073_741_824)
        >= 100);
    assert(round_half_even(n, 1_073_741_824) >= 102_400 ==> round_half_even(
        n,
        1_099_511_627_776,
    ) >= 100);
}

} // verus!
