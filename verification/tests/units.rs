use node_sweep::units::{append_decimal, format_bytes, GIB, KIB, MIB, TIB};

#[test]
fn zero_is_plain_bytes() {
    assert_eq!(format_bytes(0), "0 B");
}

#[test]
fn below_one_kib_is_plain_bytes() {
    assert_eq!(format_bytes(1), "1 B");
    assert_eq!(format_bytes(9), "9 B");
    assert_eq!(format_bytes(10), "10 B");
    assert_eq!(format_bytes(512), "512 B");
    assert_eq!(format_bytes(1023), "1023 B");
}

#[test]
fn one_kib_is_the_first_with_decimals() {
    assert_eq!(format_bytes(1024), "1.00 KiB");
    assert_eq!(format_bytes(1025), "1.00 KiB");
    assert_eq!(format_bytes(1536), "1.50 KiB");
    assert_eq!(format_bytes(10 * 1024 + 256), "10.25 KiB");
}

#[test]
fn just_under_one_mib_is_one_mib() {
    assert_eq!(format_bytes(1_048_575), "1.00 MiB");
    assert_eq!(format_bytes(1_048_571), "1.00 MiB");
    assert_eq!(format_bytes(1_048_570), "1023.99 KiB");
}

#[test]
fn just_under_the_higher_thresholds() {
    assert_eq!(format_bytes(GIB - 1), "1.00 GiB");
    assert_eq!(format_bytes(TIB - 1), "1.00 TiB");
    assert_eq!(format_bytes(1023 * MIB), "1023.00 MiB");
    assert_eq!(format_bytes(1023 * GIB), "1023.00 GiB");
}

#[test]
fn exact_powers_render_as_one() {
    assert_eq!(format_bytes(KIB), "1.00 KiB");
    assert_eq!(format_bytes(MIB), "1.00 MiB");
    assert_eq!(format_bytes(GIB), "1.00 GiB");
    assert_eq!(format_bytes(TIB), "1.00 TiB");
}

#[test]
fn unit_constants_are_powers_of_1024() {
    assert_eq!(KIB, 1024);
    assert_eq!(MIB, 1024 * 1024);
    assert_eq!(GIB, 1024 * 1024 * 1024);
    assert_eq!(TIB, 1024u64 * 1024 * 1024 * 1024);
}

#[test]
fn tib_is_the_ceiling() {
    assert_eq!(format_bytes(1024 * TIB), "1024.00 TiB");
    assert_eq!(format_bytes(5000 * TIB), "5000.00 TiB");
    assert_eq!(format_bytes(u64::MAX), "16777216.00 TiB");
}

#[test]
fn halves_go_to_the_even_hundredth() {
    // 1.125 and 1.375 lie exactly between two hundredths.
    assert_eq!(format_bytes(1152), "1.12 KiB");
    assert_eq!(format_bytes(1408), "1.38 KiB");
    assert_eq!(format_bytes(1153), "1.13 KiB");
    assert_eq!(format_bytes(1151), "1.12 KiB");
}

#[test]
fn agrees_with_double_precision_below_two_to_the_53() {
    for &bytes in &[1024u64, 1500, 123_456, 1_048_576, 5_000_000, 987_654_321, 3 * GIB + 7, 42 * TIB + 99] {
        let (size, unit) = if bytes < MIB {
            (KIB, "KiB")
        } else if bytes < GIB {
            (MIB, "MiB")
        } else if bytes < TIB {
            (GIB, "GiB")
        } else {
            (TIB, "TiB")
        };
        let expected = format!("{:.2} {}", bytes as f64 / size as f64, unit);
        assert_eq!(format_bytes(bytes), expected);
    }
}

#[test]
fn counts_beyond_53_bits_round_to_a_double_first() {
    // 65537 * 2^37 is 8192.125 TiB exactly; one byte more is still the same
    // double, so it renders the same.
    let tie: u64 = 65537 * (1u64 << 37);
    assert_eq!(format_bytes(tie), "8192.12 TiB");
    assert_eq!(format_bytes(tie + 1), "8192.12 TiB");
    assert_eq!(format_bytes(tie + 1), format!("{:.2} TiB", (tie + 1) as f64 / TIB as f64));
    assert_eq!(format_bytes(tie + 3), format!("{:.2} TiB", (tie + 3) as f64 / TIB as f64));
    assert_eq!(format_bytes(u64::MAX - 1), format!("{:.2} TiB", (u64::MAX - 1) as f64 / TIB as f64));
}

#[test]
fn append_decimal_writes_after_what_is_there() {
    let mut out = String::from("n=");
    append_decimal(&mut out, 0);
    assert_eq!(out, "n=0");
    append_decimal(&mut out, 907);
    assert_eq!(out, "n=0907");
    let mut big = String::new();
    append_decimal(&mut big, u128::MAX);
    assert_eq!(big, "340282366920938463463374607431768211455");
}

/// The rendering of the quotient in double precision, with the move to the
/// next unit where two decimals would show 1024.00.
fn by_doubles(bytes: u64) -> String {
    let units = [(KIB, "KiB"), (MIB, "MiB"), (GIB, "GiB"), (TIB, "TiB")];
    if bytes < KIB {
        return format!("{} B", bytes);
    }
    for (size, name) in units {
        let shown = format!("{:.2}", bytes as f64 / size as f64);
        if shown != "1024.00" && (bytes as u128) < 1024 * size as u128 || size == TIB {
            return format!("{} {}", shown, name);
        }
    }
    unreachable!()
}

#[test]
fn agrees_with_double_precision_over_many_counts() {
    let mut state: u64 = 0x9E37_79B9_7F4A_7C15;
    for round in 0..40_000u32 {
        state = state.wrapping_mul(6364136223846793005).wrapping_add(1442695040888963407);
        let bytes = state >> (round % 64);
        assert_eq!(format_bytes(bytes), by_doubles(bytes), "for {} bytes", bytes);
    }
}

#[test]
fn agrees_with_double_precision_around_the_thresholds() {
    for size in [KIB, MIB, GIB, TIB, 1024 * TIB, 1u64 << 53, 1u64 << 54, 1u64 << 63] {
        for offset in 0..3000u64 {
            assert_eq!(format_bytes(size - offset), by_doubles(size - offset));
            assert_eq!(format_bytes(size + offset), by_doubles(size + offset));
        }
    }
    for offset in 0..3000u64 {
        assert_eq!(format_bytes(u64::MAX - offset), by_doubles(u64::MAX - offset));
    }
}

#[test]
fn agrees_with_double_precision_at_halves_of_a_hundredth() {
    // Multiples of 2^37 with an odd factor lie exactly between two
    // hundredths of a TiB.
    for factor in (65_001..66_001u64).chain(1..2001) {
        let tie = factor * (1u64 << 37);
        for offset in 0..5u64 {
            assert_eq!(format_bytes(tie + offset), by_doubles(tie + offset));
            assert_eq!(format_bytes(tie - offset), by_doubles(tie - offset));
        }
    }
}
