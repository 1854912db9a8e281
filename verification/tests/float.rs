use slamwich::float::double::F64;
use slamwich::float::single::F32;

fn next(state: &mut u64) -> u64 {
    *state ^= *state << 13;
    *state ^= *state >> 7;
    *state ^= *state << 17;
    *state
}

fn same(a: f64, b: F64) -> bool {
    a.is_nan() && b.is_nan() || a.to_bits() == b.to_bits()
}

fn same_single(a: f32, b: F32) -> bool {
    a.is_nan() && b.is_nan() || a.to_bits() == b.to_bits()
}

/// A pattern whose exponent is often close to that of another.
fn pattern(state: &mut u64, other: u64) -> u64 {
    let bits = next(state);
    match next(state) % 4 {
        0 => bits,
        1 => (other & 0xffe0_0000_0000_0000) | (bits & 0x001f_ffff_ffff_ffff),
        2 => other.wrapping_add(bits % 5).wrapping_sub(2),
        _ => bits & 0x800f_ffff_ffff_ffff,
    }
}

#[test]
fn double_operations_agree_with_the_machine() {
    let mut state = 0x9e37_79b9_7f4a_7c15u64;
    let special = [
        0.0,
        -0.0,
        1.0,
        -1.0,
        f64::INFINITY,
        f64::NEG_INFINITY,
        f64::NAN,
        f64::MAX,
        5e-324,
    ];
    let mut last = 0x3ff0_0000_0000_0000u64;
    for n in 0..100_000usize {
        let x = if n % 50 == 0 {
            special[n / 50 % special.len()]
        } else {
            f64::from_bits(pattern(&mut state, last))
        };
        let y = if n % 70 == 0 {
            special[n / 70 % special.len()]
        } else {
            f64::from_bits(pattern(&mut state, x.to_bits()))
        };
        last = y.to_bits();
        let (a, b) = (F64::from_bits(x.to_bits()), F64::from_bits(y.to_bits()));
        assert!(same(x + y, a.plus(b)), "{x:e} + {y:e}");
        assert!(same(x - y, a.minus(b)), "{x:e} - {y:e}");
        assert!(same(x * y, a.times(b)), "{x:e} * {y:e}");
        assert!(same(x / y, a.over(b)), "{x:e} / {y:e}");
        assert!(same(x % y, a.rem(b)), "{x:e} % {y:e}");
        assert!(same(x.sqrt(), a.sqrt()), "sqrt {x:e}");
        assert!(same(x.abs(), a.abs()));
        assert!(same(-x, a.negated()));
        assert_eq!(x < y, a.less(b));
        assert_eq!(x <= y, a.at_most(b));
        assert_eq!(x as usize, a.to_usize(), "{x:e}");
        assert_eq!(x.floor() as i32, a.floor_to_i32(), "{x:e}");
        assert!(same_single(x as f32, a.to_single()), "{x:e}");
        assert_eq!(x.is_finite(), a.is_finite());
        assert_eq!(x.is_infinite(), a.is_infinite());
    }
}

#[test]
fn single_operations_agree_with_the_machine() {
    let mut state = 0x2545_f491_4f6c_dd1du64;
    let mut last = 0x3f80_0000u32;
    for n in 0..100_000usize {
        let bits = next(&mut state) as u32;
        let near = (last & 0xff00_0000) | (bits & 0x00ff_ffff);
        let x = f32::from_bits(if n % 3 == 0 { bits } else { near });
        let bits = next(&mut state) as u32;
        let near = (x.to_bits() & 0xff00_0000) | (bits & 0x00ff_ffff);
        let y = f32::from_bits(if n % 4 == 0 { bits } else { near });
        last = y.to_bits();
        let (a, b) = (F32::from_bits(x.to_bits()), F32::from_bits(y.to_bits()));
        assert!(same_single(x + y, a.plus(b)), "{x:e} + {y:e}");
        assert!(same_single(x - y, a.minus(b)), "{x:e} - {y:e}");
        assert!(same_single(x * y, a.times(b)), "{x:e} * {y:e}");
        assert!(same_single(x / y, a.over(b)), "{x:e} / {y:e}");
        assert!(same_single(x.sqrt(), a.sqrt()), "sqrt {x:e}");
        assert!(same_single(x.abs(), a.abs()));
        assert!(same_single(-x, a.negated()));
        assert_eq!(x < y, a.less(b));
        assert_eq!(x <= y, a.at_most(b));
        assert!(same(x as f64, a.to_double()), "{x:e}");
        assert_eq!(x.is_finite(), a.is_finite());
        assert_eq!(x.is_infinite(), a.is_infinite());
    }
}

#[test]
fn whole_numbers_are_converted_to_the_nearest() {
    let mut state = 0xdead_beef_1234_5678u64;
    for n in 0..50_000u32 {
        let k = (next(&mut state) >> (n % 64)) as usize;
        assert!(same(k as f64, F64::from_usize(k)), "{k}");
        assert!(same_single(k as f32, F32::from_usize(k)), "{k}");
    }
}
