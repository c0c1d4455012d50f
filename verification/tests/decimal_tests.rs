use cr_price::decimal::{parse_decimal, parse_decimal_bytes, SCALE, SCALE_DIGITS};
use cr_price::quote::{LadderError, VenueBook, VenueQuote};
use cr_price::venue::{
    coinbase_book, coinbase_quotes, gemini_book, gemini_quotes, read_quote, CoinBaseData, GemOrder,
    GeminData,
};

#[test]
fn scale_is_ten_to_the_scale_digits() {
    assert_eq!(SCALE, 10u64.pow(SCALE_DIGITS as u32));
}

#[test]
fn whole_numbers() {
    assert_eq!(parse_decimal("0"), Ok(0));
    assert_eq!(parse_decimal("1"), Ok(100_000_000));
    assert_eq!(parse_decimal("100"), Ok(10_000_000_000));
    assert_eq!(parse_decimal("007"), Ok(700_000_000));
}

#[test]
fn fractions() {
    assert_eq!(parse_decimal("0.5"), Ok(50_000_000));
    assert_eq!(parse_decimal("43125.67"), Ok(4_312_567_000_000));
    assert_eq!(parse_decimal("0.00000001"), Ok(1));
    assert_eq!(parse_decimal("12.34567890"), Ok(1_234_567_890));
    assert_eq!(parse_decimal("3.0"), Ok(300_000_000));
}

#[test]
fn malformed_text_is_a_parse_error() {
    for text in
        ["", ".", ".5", "5.", "1.2.3", "-1", "+1", "1e5", "abc", "1,5", " 1", "1 ", "NaN", "inf"]
    {
        assert_eq!(parse_decimal(text), Err(LadderError::ParseError), "{:?}", text);
    }
}

#[test]
fn too_many_fraction_digits_is_a_parse_error() {
    assert_eq!(parse_decimal("0.123456789"), Err(LadderError::ParseError));
    assert_eq!(parse_decimal("0.12345678"), Ok(12_345_678));
}

#[test]
fn values_at_the_edge_of_the_range() {
    assert_eq!(parse_decimal("184467440737.09551615"), Ok(u64::MAX));
    assert_eq!(parse_decimal("184467440737.09551616"), Err(LadderError::ParseError));
    assert_eq!(parse_decimal("184467440738"), Err(LadderError::ParseError));
    assert_eq!(parse_decimal("184467440737"), Ok(18_446_744_073_700_000_000));
    assert_eq!(
        parse_decimal("99999999999999999999999999999999999999999999"),
        Err(LadderError::ParseError)
    );
    assert_eq!(parse_decimal("0000000000000000000000000000000000000001.5"), Ok(150_000_000));
}

#[test]
fn bytes_that_are_no_text() {
    assert_eq!(parse_decimal_bytes(&[0xff, 0x31]), Err(LadderError::ParseError));
    assert_eq!(parse_decimal_bytes(b"2.5"), Ok(250_000_000));
}

#[test]
fn read_quote_needs_both_texts() {
    assert_eq!(
        read_quote("1.5", "2"),
        Ok(VenueQuote { price: Some(150_000_000), quantity: Some(200_000_000) })
    );
    assert_eq!(read_quote("x", "2"), Err(LadderError::ParseError));
    assert_eq!(read_quote("1.5", ""), Err(LadderError::ParseError));
}

#[test]
fn coinbase_book_reads_both_sides() {
    let data = CoinBaseData {
        bids: vec![("100.5".to_string(), "0.25".to_string(), 3)],
        asks: vec![
            ("101".to_string(), "1".to_string(), 1),
            ("102.25".to_string(), "0.5".to_string(), 2),
        ],
    };
    let book = coinbase_book(&data).unwrap();
    assert_eq!(
        book,
        VenueBook {
            bids: vec![VenueQuote { price: Some(10_050_000_000), quantity: Some(25_000_000) }],
            asks: vec![
                VenueQuote { price: Some(10_100_000_000), quantity: Some(100_000_000) },
                VenueQuote { price: Some(10_225_000_000), quantity: Some(50_000_000) },
            ],
        }
    );
    assert_eq!(coinbase_quotes(&data.bids).unwrap(), book.bids);
}

#[test]
fn coinbase_book_fails_on_one_bad_text() {
    let data = CoinBaseData {
        bids: vec![("100.5".to_string(), "0.25".to_string(), 3)],
        asks: vec![
            ("101".to_string(), "1".to_string(), 1),
            ("102.25".to_string(), "half".to_string(), 2),
        ],
    };
    assert_eq!(coinbase_book(&data), Err(LadderError::ParseError));
}

#[test]
fn gemini_book_reads_both_sides() {
    let data = GeminData {
        bids: vec![
            GemOrder { price: "99.99".to_string(), amount: "2".to_string() },
            GemOrder { price: "99.5".to_string(), amount: "0.1".to_string() },
        ],
        asks: vec![],
    };
    let book = gemini_book(&data).unwrap();
    assert_eq!(
        book.bids,
        vec![
            VenueQuote { price: Some(9_999_000_000), quantity: Some(200_000_000) },
            VenueQuote { price: Some(9_950_000_000), quantity: Some(10_000_000) },
        ]
    );
    assert!(book.asks.is_empty());
    assert_eq!(gemini_quotes(&data.asks), Ok(Vec::new()));
}

#[test]
fn gemini_book_fails_on_one_bad_text() {
    let data = GeminData {
        bids: vec![GemOrder { price: "1e3".to_string(), amount: "2".to_string() }],
        asks: vec![],
    };
    assert_eq!(gemini_book(&data), Err(LadderError::ParseError));
}
