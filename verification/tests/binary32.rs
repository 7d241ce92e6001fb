use fand::binary32::{from_integer, multiply, nearest_single, to_double};
use fand::rounding::{bit_length_of, shift_rounded};

struct Random(u64);

impl Random {
    fn next(&mut self) -> u64 {
        self.0 = self.0.wrapping_mul(6364136223846793005).wrapping_add(1442695040888963407);
        self.0 >> 16
    }
}

fn same(ours: u32, theirs: f32) -> bool {
    if theirs.is_nan() {
        f32::from_bits(ours).is_nan()
    } else {
        ours == theirs.to_bits()
    }
}

#[test]
fn bit_length_counts_binary_digits() {
    assert_eq!(bit_length_of(0), 0);
    assert_eq!(bit_length_of(1), 1);
    assert_eq!(bit_length_of(2), 2);
    assert_eq!(bit_length_of(3), 2);
    assert_eq!(bit_length_of(255), 8);
    assert_eq!(bit_length_of(256), 9);
    assert_eq!(bit_length_of(u64::MAX), 64);
    for n in 1..100_000u64 {
        assert_eq!(bit_length_of(n), 64 - n.leading_zeros());
    }
}

#[test]
fn shifting_rounds_to_nearest_and_ties_to_even() {
    assert_eq!(shift_rounded(0, 0), 0);
    assert_eq!(shift_rounded(5, 0), 5);
    assert_eq!(shift_rounded(u64::MAX, 0), u64::MAX);
    assert_eq!(shift_rounded(0, 1), 0);
    assert_eq!(shift_rounded(1, 1), 0);
    assert_eq!(shift_rounded(2, 1), 1);
    assert_eq!(shift_rounded(3, 1), 2);
    assert_eq!(shift_rounded(5, 1), 2);
    assert_eq!(shift_rounded(7, 1), 4);
    assert_eq!(shift_rounded(10, 2), 2);
    assert_eq!(shift_rounded(11, 2), 3);
    assert_eq!(shift_rounded(14, 2), 4);
    assert_eq!(shift_rounded(u64::MAX, 63), 2);
    assert_eq!(shift_rounded(u64::MAX, 64), 1);
    assert_eq!(shift_rounded(1 << 63, 64), 0);
    assert_eq!(shift_rounded((1 << 63) + 1, 64), 1);
    assert_eq!(shift_rounded(u64::MAX, 65), 0);
    assert_eq!(shift_rounded(u64::MAX, 1000), 0);
}

#[test]
fn whole_numbers_as_singles() {
    for n in 0..=(1u32 << 25) + 64 {
        assert_eq!(from_integer(n), (n as f32).to_bits(), "{n}");
    }
    for n in [u32::MAX, u32::MAX - 1, u32::MAX - 127, u32::MAX - 128, u32::MAX - 129, 1 << 31, (1 << 31) + 128] {
        assert_eq!(from_integer(n), (n as f32).to_bits(), "{n}");
    }
    let mut random = Random(7);
    for _ in 0..2_000_000 {
        let n = random.next() as u32;
        assert_eq!(from_integer(n), (n as f32).to_bits(), "{n}");
    }
}

#[test]
fn nearest_single_of_scaled_numbers() {
    assert_eq!(nearest_single(1, 0), 1.0f32.to_bits());
    assert_eq!(nearest_single(3, -1), 1.5f32.to_bits());
    assert_eq!(nearest_single(1, -149), 1);
    assert_eq!(nearest_single(1, -150), 0);
    assert_eq!(nearest_single(3, -151), 1);
    assert_eq!(nearest_single(1, -151), 0);
    assert_eq!(nearest_single(1, 127), 2.0f32.powi(127).to_bits());
    assert_eq!(nearest_single(1, 128), f32::INFINITY.to_bits());
    assert_eq!(nearest_single(0xff_ffff, 104), f32::MAX.to_bits());
    assert_eq!(nearest_single(0x1ff_fffe, 103), f32::MAX.to_bits());
    assert_eq!(nearest_single(0x1ff_ffff, 103), f32::INFINITY.to_bits());
    assert_eq!(nearest_single(u64::MAX, i32::MAX), f32::INFINITY.to_bits());
    assert_eq!(nearest_single(u64::MAX, i32::MIN), 0);
    assert_eq!(nearest_single(0, i32::MAX), 0);
    assert_eq!(nearest_single(1 << 23, -149), f32::MIN_POSITIVE.to_bits());
    assert_eq!(nearest_single(0xff_ffff, -150), f32::MIN_POSITIVE.to_bits());
}

#[test]
fn products_of_singles() {
    let samples: Vec<u32> = vec![
        0,
        0x8000_0000,
        1,
        2,
        0x7f_ffff,
        0x80_0000,
        0x80_0001,
        0x3f80_0000,
        0xbf80_0000,
        0x3a83_126f,
        0x7f7f_ffff,
        0x7f80_0000,
        0xff80_0000,
        0x7fc0_0000,
        0x7f80_0001,
        0xffc0_0000,
        0x0040_0000,
        0x3400_0000,
        0x3380_0000,
        0x1f80_0000,
        0x2000_0000,
        0x5f80_0000,
        0x3fff_ffff,
        0x4000_0000,
        0x3f00_0000,
    ];
    for &a in &samples {
        for &b in &samples {
            let theirs = f32::from_bits(a) * f32::from_bits(b);
            assert!(same(multiply(a, b), theirs), "{a:#x} * {b:#x}");
        }
    }
    let mut random = Random(11);
    for _ in 0..1_500_000 {
        let a = random.next() as u32;
        let b = random.next() as u32;
        let theirs = f32::from_bits(a) * f32::from_bits(b);
        assert!(same(multiply(a, b), theirs), "{a:#x} * {b:#x}");
    }
}

#[test]
fn products_near_the_ends_of_the_range() {
    let mut random = Random(13);
    for _ in 0..1_000_000 {
        // Exponents that add up to the smallest and to the largest results.
        let a = (random.next() as u32) & 0x807f_ffff | (((random.next() % 40) as u32 + 20) << 23);
        let b = (random.next() as u32) & 0x807f_ffff | (((random.next() % 90) as u32 + 60) << 23);
        assert!(same(multiply(a, b), f32::from_bits(a) * f32::from_bits(b)), "{a:#x} * {b:#x}");
        let c = (random.next() as u32) & 0x807f_ffff | (((random.next() % 40) as u32 + 180) << 23);
        let d = (random.next() as u32) & 0x807f_ffff | (((random.next() % 40) as u32 + 170) << 23);
        assert!(same(multiply(c, d), f32::from_bits(c) * f32::from_bits(d)), "{c:#x} * {d:#x}");
        let tiny = (random.next() as u32) & 0x807f_ffff;
        assert!(same(multiply(tiny, c), f32::from_bits(tiny) * f32::from_bits(c)), "{tiny:#x} * {c:#x}");
    }
}

#[test]
fn readings_scaled_as_the_hardware_scales_them() {
    let mut random = Random(17);
    let factors = [0.001f32, 0.1, 1.0, 0.5, 1e-6, 1000.0, 0.01];
    for _ in 0..300_000 {
        let raw = random.next() as u32 >> (random.next() % 32);
        for factor in factors {
            let ours = multiply(from_integer(raw), factor.to_bits());
            assert_eq!(ours, (raw as f32 * factor).to_bits(), "{raw} * {factor}");
        }
    }
}

#[test]
fn singles_as_doubles() {
    for exponent in 0..=255u32 {
        for fraction in [0u32, 1, 2, 3, 0x40_0000, 0x7f_ffff, 0x7f_fffe, 0x12_3456, 0x00_0100] {
            for sign in [0u32, 0x8000_0000] {
                let bits = sign | (exponent << 23) | fraction;
                let theirs = f32::from_bits(bits) as f64;
                if theirs.is_nan() {
                    assert!(f64::from_bits(to_double(bits)).is_nan());
                } else {
                    assert_eq!(to_double(bits), theirs.to_bits(), "{bits:#x}");
                }
            }
        }
    }
    for fraction in 0..=0x7f_ffffu32 {
        assert_eq!(to_double(fraction), (f32::from_bits(fraction) as f64).to_bits());
    }
    let mut random = Random(19);
    for _ in 0..2_000_000 {
        let bits = random.next() as u32;
        let theirs = f32::from_bits(bits) as f64;
        if !theirs.is_nan() {
            assert_eq!(to_double(bits), theirs.to_bits(), "{bits:#x}");
        }
    }
}
