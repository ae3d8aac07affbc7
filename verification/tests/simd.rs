//! Runs of bytes that pass through.

use sakura_core::settings::Mode;
use sakura_core::simd::{
    admits, passes_through, passthrough_len, passthrough_lut, scan_avx, scan_avx2, scan_avx512,
    scan_scalar, Lut,
};
use sakura_core::width::{Normalizer, Width, WidthPolicy};

type Kernel = fn(&[u8], &Lut) -> usize;

const FILLER: u8 = 0x01;

fn kernels() -> Vec<(&'static str, Kernel)> {
    vec![
        ("scalar", scan_scalar as Kernel),
        ("avx", scan_avx as Kernel),
        ("avx2", scan_avx2 as Kernel),
        ("avx512", scan_avx512 as Kernel),
    ]
}

fn policies() -> impl Iterator<Item = (bool, bool, bool)> {
    (0..8).map(|i| (i & 0b100 != 0, i & 0b010 != 0, i & 0b001 != 0))
}

#[test]
fn the_kernels_under_test_are_named() {
    let names: Vec<&str> = kernels().iter().map(|(name, _)| *name).collect();
    println!("kernels under test: {names:?}");
    assert!(names.contains(&"scalar"));
    assert!(names.contains(&"avx"));
}

#[test]
fn the_tables_agree_with_the_predicate_for_every_byte() {
    for (alpha, digit, symbol) in policies() {
        let lut = passthrough_lut(alpha, digit, symbol);
        for b in 0..=u8::MAX {
            let expected = b < 0x80 && passes_through(b, alpha, digit, symbol);
            assert_eq!(
                admits(lut, b),
                expected,
                "byte {b:#04x} under ({alpha}, {digit}, {symbol})"
            );
        }
    }
}

#[test]
fn no_table_ever_admits_a_non_ascii_byte() {
    for (alpha, digit, symbol) in policies() {
        let lut = passthrough_lut(alpha, digit, symbol);
        for b in 0x80..=u8::MAX {
            assert!(!admits(lut, b), "byte {b:#04x} escaped the ASCII guard");
        }
    }
}

#[test]
fn kernels_find_a_stopper_at_every_position() {
    let lut = passthrough_lut(false, false, false);
    let stopper = 0xE3; // the lead byte of a kana character
    for len in [1usize, 15, 16, 17, 31, 32, 33, 63, 64, 65, 130, 257] {
        for at in 0..len {
            let mut buffer = vec![FILLER; len];
            buffer[at] = stopper;
            for (name, kernel) in kernels() {
                let found = kernel(&buffer, lut);
                assert_eq!(found, at, "{name} on len {len} with a stopper at {at}");
            }
        }
    }
}

#[test]
fn an_unbroken_run_is_reported_whole() {
    let lut = passthrough_lut(false, false, false);
    for len in 0..=300usize {
        let buffer = vec![FILLER; len];
        for (name, kernel) in kernels() {
            let found = kernel(&buffer, lut);
            assert_eq!(found, len, "{name} on an unbroken run of {len}");
        }
    }
}

#[test]
fn every_byte_value_is_classified_the_same_by_every_kernel() {
    for (alpha, digit, symbol) in policies() {
        let lut = passthrough_lut(alpha, digit, symbol);
        for b in 0..=u8::MAX {
            let mut buffer = vec![FILLER; 96];
            buffer[70] = b;
            let expected = scan_scalar(&buffer, lut);
            for (name, kernel) in kernels() {
                let found = kernel(&buffer, lut);
                assert_eq!(
                    found, expected,
                    "{name} disagreed on byte {b:#04x} under ({alpha}, {digit}, {symbol})"
                );
            }
        }
    }
}

#[test]
fn kernels_agree_with_the_reference_on_a_random_corpus() {
    let mut rng = Lcg::seeded(0x5A6B_1234_9876_0001);
    for (alpha, digit, symbol) in policies() {
        let lut = passthrough_lut(alpha, digit, symbol);
        for len in 0..=200usize {
            let buffer: Vec<u8> = (0..len).map(|_| rng.text_byte()).collect();
            let expected = scan_scalar(&buffer, lut);
            for (name, kernel) in kernels() {
                let found = kernel(&buffer, lut);
                assert_eq!(
                    found, expected,
                    "{name} disagreed on a random buffer of {len} under \
                     ({alpha}, {digit}, {symbol}): {buffer:?}"
                );
            }
        }
    }
}

#[test]
fn the_dispatched_entry_point_agrees_with_the_reference() {
    let mut rng = Lcg::seeded(0x0BAD_C0DE_1234_5678);
    for (alpha, digit, symbol) in policies() {
        let lut = passthrough_lut(alpha, digit, symbol);
        for len in 0..=120usize {
            let buffer: Vec<u8> = (0..len).map(|_| rng.text_byte()).collect();
            assert_eq!(
                passthrough_len(&buffer, lut),
                scan_scalar(&buffer, lut),
                "dispatch disagreed on {buffer:?} under ({alpha}, {digit}, {symbol})"
            );
        }
    }
}

#[test]
fn each_channel_stops_only_its_own_characters() {
    let alpha_only = passthrough_lut(true, false, false);
    assert!(!admits(alpha_only, b'a'));
    assert!(admits(alpha_only, b'0'));
    assert!(admits(alpha_only, b'@'));

    let digit_only = passthrough_lut(false, true, false);
    assert!(admits(digit_only, b'a'));
    assert!(!admits(digit_only, b'0'));
    assert!(admits(digit_only, b'@'));

    let symbol_only = passthrough_lut(false, false, true);
    assert!(admits(symbol_only, b'a'));
    assert!(admits(symbol_only, b'0'));
    assert!(!admits(symbol_only, b'@'));
    assert!(!admits(symbol_only, b' '), "space is a symbol");

    let everything = passthrough_lut(true, true, true);
    assert!(admits(everything, b'\n'));
    assert!(admits(everything, 0x7F));
    assert!(!admits(everything, b'~'));
}

#[derive(Debug)]
struct Lcg(u64);

impl Lcg {
    fn seeded(seed: u64) -> Self {
        Lcg(seed)
    }

    fn next(&mut self) -> u64 {
        self.0 = self
            .0
            .wrapping_mul(6_364_136_223_846_793_005)
            .wrapping_add(1_442_695_040_888_963_407);
        self.0 >> 33
    }

    fn text_byte(&mut self) -> u8 {
        let r = self.next();
        match r % 8 {
            0 => (r >> 8) as u8,
            1 => 0xE3, // a kana lead byte
            2 => b'0' + (r >> 8) as u8 % 10,
            3 => (r >> 8) as u8 % 0x20, // control characters
            _ => b'a' + (r >> 8) as u8 % 26,
        }
    }
}

#[test]
fn a_run_ends_between_two_characters() {
    let lut = passthrough_lut(false, false, false);
    let text = "plain ascii text, longer than one block of bytesあいう and more";
    let length = passthrough_len(text.as_bytes(), lut);
    assert_eq!(&text[..length], "plain ascii text, longer than one block of bytes");
    assert!(text.is_char_boundary(length));
    assert_eq!(passthrough_len(&text.as_bytes()[..10], lut), 10);
    assert_eq!(passthrough_len(b"", lut), 0);
}

#[test]
fn only_bytes_that_stay_are_in_a_run() {
    let lut = passthrough_lut(false, true, false);
    assert_eq!(passthrough_len(b"abcdefghijklmnopqrstuvwxyz 7 rest", lut), 27);
    assert!(passes_through(b'a', false, true, false));
    assert!(!passes_through(b'7', false, true, false));
}

#[test]
fn what_passes_is_what_a_policy_leaves_alone() {
    for (alpha, digit, symbol) in policies() {
        let width = |full: bool| if full { Width::Full } else { Width::Half };
        let policy = Normalizer {
            width: WidthPolicy {
                alnum: width(alpha),
                number: width(digit),
                symbol: width(symbol),
            },
            ..Normalizer::default()
        };
        let lut = passthrough_lut(alpha, digit, symbol);
        for b in 0..0x80u8 {
            let c = char::from(b);
            let stays = policy.normalize_char(c, Mode::Hiragana) == c;
            assert_eq!(admits(lut, b), stays, "{b:#04x} under ({alpha}, {digit}, {symbol})");
        }
    }
}
