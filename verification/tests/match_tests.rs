use bitmatch::bitmatch;
use bitmatch::plan::PatternError;

#[test]
fn all_fixed_present() {
    let x = 0xacu128; // 10101100
    assert_eq!(bitmatch("1010 1100", x), Ok(Some(vec![])));
}

#[test]
fn all_fixed_absent() {
    let x = 0xacu128;
    assert_eq!(bitmatch("1010 0100", x), Ok(None));
}

#[test]
fn dont_care_bits_ignored() {
    let x = 0xacu128;
    assert_eq!(bitmatch("1_10 1_00", x), Ok(Some(vec![])));
}

#[test]
fn single_bit_extract_zero() {
    let x = 0xacu128;
    assert_eq!(bitmatch("1a10 1100", x), Ok(Some(vec![0])));
}

#[test]
fn single_bit_extract_one() {
    let x = 0xacu128;
    assert_eq!(bitmatch("10a0 1100", x), Ok(Some(vec![1])));
}

#[test]
fn multi_bit_extract() {
    let x = 0xacu128;
    assert_eq!(bitmatch("1aaa a100", x), Ok(Some(vec![5])));
}

#[test]
fn two_fields_extract() {
    let x = 0xacu128;
    assert_eq!(bitmatch("1aa0 aa00", x), Ok(Some(vec![1, 3])));
}

#[test]
fn adjacent_fields_extract() {
    let x = 0xacu128;
    assert_eq!(bitmatch("1aab bccc", x), Ok(Some(vec![1, 1, 4])));
}

#[test]
fn failed_match_extracts_nothing() {
    // The one fixed bit (the high bit) does not match, so no field value is
    // produced.
    assert_eq!(bitmatch("1aab bccc", 0x2du128), Ok(None));
}

#[test]
fn same_letter_after_gap_is_two_fields() {
    // Two runs of the same letter separated by a don't-care bit are
    // independent fields.
    let v = 0b11011u128;
    assert_eq!(bitmatch("aa_aa", v), Ok(Some(vec![3, 3])));
}

#[test]
fn value_truncated_to_selected_width() {
    // An 8-character pattern tests only the low 8 bits of the value.
    assert_eq!(bitmatch("1010 1100", 0xffacu128), Ok(Some(vec![])));
    assert_eq!(bitmatch("1010 1100", 0xff53u128), Ok(None));
}

#[test]
fn sixteen_bit_pattern() {
    let v = 0xffacu128;
    assert_eq!(bitmatch("aaaaaaaa 10101100", v), Ok(Some(vec![0xff])));
}

#[test]
fn thirty_two_bit_pattern() {
    let v = 0x1234ac78u128;
    assert_eq!(
        bitmatch("aaaaaaaa bbbbbbbb 10101100 cccccccc", v),
        Ok(Some(vec![0x12, 0x34, 0x78]))
    );
    assert_eq!(bitmatch("aaaaaaaa bbbbbbbb 10100100 cccccccc", v), Ok(None));
}

#[test]
fn sixty_four_bit_pattern() {
    // Forty characters select the 64-bit width; bits 39-32 must be zero.
    let p = format!("00000000{}dddddddd", "_".repeat(24));
    assert_eq!(bitmatch(&p, 0x12345678u128), Ok(Some(vec![0x78])));
    assert_eq!(bitmatch(&p, 0xff12345678u128), Ok(None));
}

#[test]
fn one_hundred_twenty_eight_bit_pattern() {
    let high_one = format!("1{}", "_".repeat(127));
    let v = (1u128 << 127) | 5;
    assert_eq!(bitmatch(&high_one, v), Ok(Some(vec![])));
    let high_zero = format!("0{}", "_".repeat(127));
    assert_eq!(bitmatch(&high_zero, v), Ok(None));
}

#[test]
fn full_width_extraction() {
    let all_extract = "a".repeat(128);
    assert_eq!(bitmatch(&all_extract, u128::MAX), Ok(Some(vec![u128::MAX])));
}

#[test]
fn fixed_bit_test_over_all_byte_values() {
    // Pattern "1_10 1_00": mask 0xbb, expected bits 0xa8. Presence must agree
    // with the masked comparison for every byte value, and absence must come
    // with no extracted fields.
    for v in 0u128..=255 {
        let r = bitmatch("1_10 1_00", v).unwrap();
        if v & 0xbb == 0xa8 {
            assert_eq!(r, Some(vec![]));
        } else {
            assert_eq!(r, None);
        }
    }
}

#[test]
fn empty_pattern_rejected() {
    assert_eq!(bitmatch("", 0), Err(PatternError::Empty));
}

#[test]
fn only_spaces_rejected() {
    assert_eq!(bitmatch("   ", 0), Err(PatternError::Empty));
}

#[test]
fn overlong_pattern_rejected() {
    let p = "0".repeat(129);
    assert_eq!(bitmatch(&p, 0), Err(PatternError::TooLong));
}

#[test]
fn whitespace_is_insignificant() {
    for v in 0u128..=255 {
        assert_eq!(bitmatch("1010 1100", v), bitmatch("10101100", v));
        assert_eq!(bitmatch("1aa0 aa00", v), bitmatch("1aa0aa00", v));
    }
}

#[test]
fn matching_is_deterministic() {
    let a = bitmatch("1aab bccc", 0xacu128);
    let b = bitmatch("1aab bccc", 0xacu128);
    assert_eq!(a, b);
}
