use netpong::flexcontrol::{movement, read_number, read_token};

#[test]
fn up_and_down_tokens_are_summed() {
    assert_eq!(movement(b"U5;D3;"), 2);
    assert_eq!(movement(b"U5;D3"), 2);
    assert_eq!(movement(b"D12;D30;U2"), -40);
    assert_eq!(movement(b"U1"), 1);
    assert_eq!(movement(b"D7;"), -7);
}

#[test]
fn nothing_read_is_no_movement() {
    assert_eq!(movement(b""), 0);
    assert_eq!(movement(b";"), 0);
    assert_eq!(movement(b";;;"), 0);
}

#[test]
fn empty_tokens_add_nothing() {
    assert_eq!(movement(b";;U4;;;D1;;"), 3);
}

#[test]
fn a_count_that_cannot_be_read_is_one() {
    assert_eq!(movement(b"U"), 1);
    assert_eq!(movement(b"D"), -1);
    assert_eq!(movement(b"Ux;"), 1);
    assert_eq!(movement(b"D1x;U 3;"), 0);
    assert_eq!(movement(b"U3.5"), 1);
    assert_eq!(movement(b"D+;U-"), 0);
    assert_eq!(movement(b"U\xff\xfe"), 1);
}

#[test]
fn a_count_that_32_bits_do_not_hold_is_one() {
    assert_eq!(movement(b"U2147483647"), 2_147_483_647);
    assert_eq!(movement(b"U2147483648"), 1);
    assert_eq!(movement(b"D99999999999999999999999999"), -1);
    assert_eq!(movement(b"U-2147483648"), -2_147_483_648);
    assert_eq!(movement(b"U-2147483649"), 1);
    assert_eq!(movement(b"D-2147483648"), 2_147_483_648);
}

#[test]
fn a_count_may_carry_a_sign_and_leading_zeros() {
    assert_eq!(movement(b"U+5"), 5);
    assert_eq!(movement(b"U-5"), -5);
    assert_eq!(movement(b"D-5"), 5);
    assert_eq!(movement(b"D+5"), -5);
    assert_eq!(movement(b"U007"), 7);
    assert_eq!(movement(b"U00000000000000000000012"), 12);
    assert_eq!(movement(b"U--5"), 1);
    assert_eq!(movement(b"U+-5"), 1);
}

#[test]
fn a_token_with_another_first_byte_adds_nothing() {
    assert_eq!(movement(b"X5;U2"), 2);
    assert_eq!(movement(b"u5;d5;5;"), 0);
    assert_eq!(movement(b" U5"), 0);
    assert_eq!(movement(b"\xc3\xa9U5;D1"), -1);
}

#[test]
fn many_large_tokens_do_not_overflow() {
    let mut read: Vec<u8> = Vec::new();
    for _ in 0..10 {
        read.extend_from_slice(b"U2147483647;");
    }
    assert_eq!(movement(&read), 21_474_836_470);
}

#[test]
fn the_counts_agree_with_the_standard_parser() {
    let words = ["", "0", "-0", "+0", "12", "-12", "+12", "1a", "a1", "+", "-", " 1", "1 ",
        "2147483647", "2147483648", "-2147483648", "-2147483649", "0000000000001", "١"];
    for word in words {
        let expected = word.parse::<i32>().ok();
        assert_eq!(read_number(word.as_bytes(), 0, word.len()), expected, "{:?}", word);
    }
}

#[test]
fn a_number_is_read_from_the_part_that_is_named() {
    assert_eq!(read_number(b"ab123cd", 2, 5), Some(123));
    assert_eq!(read_number(b"ab123cd", 2, 6), None);
    assert_eq!(read_number(b"ab123cd", 2, 2), None);
    assert_eq!(read_number(b"ab-23cd", 2, 5), Some(-23));
}

#[test]
fn a_token_is_read_from_the_part_that_is_named() {
    assert_eq!(read_token(b"U5;D3;", 0, 2), 5);
    assert_eq!(read_token(b"U5;D3;", 3, 5), -3);
    assert_eq!(read_token(b"U5;D3;", 1, 2), 0);
    assert_eq!(read_token(b"U5;D3;", 3, 4), -1);
}
