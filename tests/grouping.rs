use bitcalc::{pretty_bin, pretty_dec, pretty_dec_signed, pretty_hex, pretty_num_sep};

#[test]
fn separators() {
    assert_eq!(pretty_num_sep("0123", 2), "01'23");
    assert_eq!(pretty_num_sep("123", 2), "1'23");
    assert_eq!(pretty_num_sep("23", 2), "23");
    assert_eq!(pretty_num_sep("3", 2), "3");
    assert_eq!(pretty_num_sep("01234", 2), "0'12'34");
    assert_eq!(pretty_num_sep("01234456789", 2), "0'12'34'45'67'89");

    assert_eq!(pretty_num_sep("0123", 3), "0'123");
    assert_eq!(pretty_num_sep("123", 3), "123");
    assert_eq!(pretty_num_sep("23", 3), "23");
    assert_eq!(pretty_num_sep("3", 3), "3");
    assert_eq!(pretty_num_sep("01234", 3), "01'234");
    assert_eq!(pretty_num_sep("01234456789", 3), "01'234'456'789");
}

#[test]
fn separators_empty_and_groups_of_four() {
    assert_eq!(pretty_num_sep("", 4), "");
    assert_eq!(pretty_num_sep("10000000", 4), "1000'0000");
    assert_eq!(pretty_num_sep("DEADBEEF", 4), "DEAD'BEEF");
}

#[test]
fn separators_every_single_character() {
    // no separator goes right before the last character
    assert_eq!(pretty_num_sep("123", 1), "1'23");
    assert_eq!(pretty_num_sep("1", 1), "1");
}

#[test]
fn binary_is_padded_and_grouped_by_four() {
    assert_eq!(pretty_bin(128, 8), "0b1000'0000");
    assert_eq!(pretty_bin(5, 8), "0b0000'0101");
    assert_eq!(pretty_bin(5, 16), "0b0000'0000'0000'0101");
}

#[test]
fn hex_is_upper_case_padded_and_grouped_by_four() {
    assert_eq!(pretty_hex(0xdead_beef, 32), "0xDEAD'BEEF");
    assert_eq!(pretty_hex(0xab, 8), "0xAB");
    assert_eq!(pretty_hex(0xab, 16), "0x00AB");
}

#[test]
fn decimal_is_padded_and_grouped_by_three() {
    assert_eq!(pretty_dec(1234, 16), "01'234");
    assert_eq!(pretty_dec(255, 8), "255");
    assert_eq!(pretty_dec(0, 8), "00");
}

#[test]
fn signed_decimal_carries_its_sign() {
    assert_eq!(pretty_dec_signed(1234, 16), "01'234");
    assert_eq!(pretty_dec_signed(-1234, 16), "-01'234");
    assert_eq!(pretty_dec_signed(-2, 8), "-02");
    assert_eq!(pretty_dec_signed(i64::MIN, 64), "-009'223'372'036'854'775'808");
}
