use terradle_solver::data::SellValue;

fn coins(s: &str) -> (u16, u8, u8, u8) {
    let v = SellValue::parse(s);
    (v.platinum(), v.gold(), v.silver(), v.copper())
}

#[test]
fn parse_reads_all_four_denominations() {
    assert_eq!(coins("1 Platinum 2 Gold 3 Silver 4 Copper"), (1, 2, 3, 4));
}

#[test]
fn parse_defaults_missing_denominations_to_zero() {
    assert_eq!(coins(""), (0, 0, 0, 0));
    assert_eq!(coins("No value"), (0, 0, 0, 0));
    assert_eq!(coins("5 Gold"), (0, 5, 0, 0));
    assert_eq!(coins("70 Copper"), (0, 0, 0, 70));
    assert_eq!(coins("1 Gold 50 Silver"), (0, 1, 50, 0));
    assert_eq!(coins("3 Platinum 20 Copper"), (3, 0, 0, 20));
}

#[test]
fn parse_accepts_any_order_and_spacing() {
    assert_eq!(coins("  4 Copper\t1 Platinum\n 2 Gold "), (1, 2, 0, 4));
}

#[test]
fn parse_lets_a_later_amount_replace_an_earlier_one() {
    assert_eq!(coins("1 Gold 2 Gold"), (0, 2, 0, 0));
}

#[test]
fn parse_passes_over_words_it_does_not_know() {
    assert_eq!(coins("about 1 Gold and 5 Silver each"), (0, 1, 5, 0));
    assert_eq!(coins("Gold 1"), (0, 0, 0, 0));
    assert_eq!(coins("1 gold"), (0, 0, 0, 0));
    assert_eq!(coins("1 Golds"), (0, 0, 0, 0));
}

#[test]
fn parse_pairs_a_number_with_the_word_right_after_it() {
    assert_eq!(coins("1 2 Gold"), (0, 2, 0, 0));
    assert_eq!(coins("1 x Gold"), (0, 0, 0, 0));
    assert_eq!(coins("1 Gold Silver"), (0, 1, 0, 0));
    assert_eq!(coins("7 Gold 8"), (0, 7, 0, 0));
    assert_eq!(coins("9"), (0, 0, 0, 0));
}

#[test]
fn parse_ignores_amounts_beyond_sixteen_bits() {
    assert_eq!(coins("65535 Platinum"), (65535, 0, 0, 0));
    assert_eq!(coins("65536 Platinum"), (0, 0, 0, 0));
}

#[test]
fn parse_keeps_the_small_denominations_modulo_256() {
    assert_eq!(coins("255 Gold 256 Silver 257 Copper"), (0, 255, 0, 1));
    assert_eq!(coins("300 Gold"), (0, 44, 0, 0));
    assert_eq!(coins("65535 Copper"), (0, 0, 0, 255));
}

#[test]
fn total_in_copper_weighs_each_denomination_by_a_hundred() {
    assert_eq!(u64::from(SellValue::parse("")), 0);
    assert_eq!(u64::from(SellValue::parse("4 Copper")), 4);
    assert_eq!(u64::from(SellValue::parse("3 Silver")), 300);
    assert_eq!(u64::from(SellValue::parse("2 Gold")), 20_000);
    assert_eq!(u64::from(SellValue::parse("1 Platinum")), 1_000_000);
    assert_eq!(u64::from(SellValue::parse("1 Platinum 2 Gold 3 Silver 4 Copper")), 1_020_304);
    assert_eq!(
        u64::from(SellValue::parse("65535 Platinum 255 Gold 255 Silver 255 Copper")),
        65_535_000_000 + 2_550_000 + 25_500 + 255
    );
}
