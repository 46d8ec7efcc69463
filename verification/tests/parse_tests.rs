use oracle_node::{parse_quote, FetchError};

#[test]
fn parses_plain_body() {
    let q = parse_quote(b"{\"BTC\":0.045,\"USD\":1800.005,\"EUR\":1650.10}").unwrap();
    assert!(!q.btc.neg);
    assert_eq!(q.btc.mantissa, 45);
    assert_eq!(q.btc.scale, 3);
    assert_eq!(q.usd.mantissa, 1800005);
    assert_eq!(q.usd.scale, 3);
    assert_eq!(q.eur.mantissa, 165010);
    assert_eq!(q.eur.scale, 2);
}

#[test]
fn parses_whitespace_and_ignores_extra_fields() {
    let body = b" {\t\"Response\" : \"ok\" ,\n \"BTC\" : 1.0 , \"RAW\" : 42 , \"EUR\" : 2 , \"USD\" : 3.5 }\r\n";
    let q = parse_quote(body).unwrap();
    assert_eq!((q.btc.mantissa, q.btc.scale), (10, 1));
    assert_eq!((q.eur.mantissa, q.eur.scale), (2, 0));
    assert_eq!((q.usd.mantissa, q.usd.scale), (35, 1));
}

#[test]
fn integer_prices_parse_with_scale_zero() {
    let q = parse_quote(b"{\"BTC\":1,\"EUR\":2,\"USD\":1800}").unwrap();
    assert_eq!((q.usd.mantissa, q.usd.scale), (1800, 0));
}

#[test]
fn missing_field_is_reported() {
    assert_eq!(parse_quote(b"{\"BTC\":1,\"EUR\":2}"), Err(FetchError::MissingField));
    assert_eq!(parse_quote(b"{}"), Err(FetchError::MissingField));
    assert_eq!(parse_quote(b"  { }  "), Err(FetchError::MissingField));
}

#[test]
fn non_numeric_field_is_reported() {
    assert_eq!(
        parse_quote(b"{\"BTC\":\"abc\",\"EUR\":2,\"USD\":3}"),
        Err(FetchError::NonNumeric)
    );
    assert_eq!(
        parse_quote(b"{\"BTC\":true,\"EUR\":2,\"USD\":3}"),
        Err(FetchError::NonNumeric)
    );
    assert_eq!(
        parse_quote(b"{\"BTC\":null,\"EUR\":2,\"USD\":3}"),
        Err(FetchError::NonNumeric)
    );
    assert_eq!(
        parse_quote(b"{\"BTC\":[1],\"EUR\":2,\"USD\":3}"),
        Err(FetchError::NonNumeric)
    );
    assert_eq!(
        parse_quote(b"{\"BTC\":{\"v\":1},\"EUR\":2,\"USD\":3}"),
        Err(FetchError::NonNumeric)
    );
}

#[test]
fn complex_extra_fields_are_ignored() {
    let body = b"{\"A\":[1,{\"x\":[]},\"s\"],\"B\":{\"c\":{\"d\":null}},\"C\":null,\"D\":true,\"E\":false,\"BTC\":1,\"EUR\":2,\"USD\":3}";
    let q = parse_quote(body).unwrap();
    assert_eq!((q.btc.mantissa, q.eur.mantissa, q.usd.mantissa), (1, 2, 3));

    // Two bodies agreeing on the three prices and differing only in extra
    // fields yield the same quote.
    let plain = parse_quote(b"{\"BTC\":1,\"EUR\":2,\"USD\":3}").unwrap();
    assert_eq!(q, plain);
    let with_array = parse_quote(b"{\"A\":[],\"BTC\":1,\"EUR\":2,\"USD\":3}").unwrap();
    assert_eq!(with_array, plain);
}

#[test]
fn exponents_shift_the_decimal_point() {
    let q = parse_quote(b"{\"BTC\":1e3,\"EUR\":1.5e2,\"USD\":2e-2}").unwrap();
    assert_eq!((q.btc.mantissa, q.btc.scale), (1000, 0));
    assert_eq!((q.eur.mantissa, q.eur.scale), (150, 0));
    assert_eq!((q.usd.mantissa, q.usd.scale), (2, 2));

    let q = parse_quote(b"{\"BTC\":4.5E-2,\"EUR\":1.5e1,\"USD\":1E+2}").unwrap();
    assert_eq!((q.btc.mantissa, q.btc.scale), (45, 3));
    assert_eq!((q.eur.mantissa, q.eur.scale), (15, 0));
    assert_eq!((q.usd.mantissa, q.usd.scale), (100, 0));
}

#[test]
fn zero_swallows_any_positive_exponent() {
    let q = parse_quote(b"{\"BTC\":0e999999999999999999999999,\"EUR\":2,\"USD\":3}").unwrap();
    assert_eq!((q.btc.mantissa, q.btc.scale), (0, 0));
}

#[test]
fn exponents_out_of_bounds_are_non_numeric() {
    assert_eq!(
        parse_quote(b"{\"BTC\":1e999999999999999999999999,\"EUR\":2,\"USD\":3}"),
        Err(FetchError::NonNumeric)
    );
    assert_eq!(
        parse_quote(b"{\"BTC\":1e31,\"EUR\":2,\"USD\":3}"),
        Err(FetchError::NonNumeric)
    );
    // 0.5e-29 has scale 30 and still fits; one further does not
    let q = parse_quote(b"{\"BTC\":0.5e-29,\"EUR\":2,\"USD\":3}").unwrap();
    assert_eq!((q.btc.mantissa, q.btc.scale), (5, 30));
    assert_eq!(
        parse_quote(b"{\"BTC\":0.5e-30,\"EUR\":2,\"USD\":3}"),
        Err(FetchError::NonNumeric)
    );
}

#[test]
fn oversized_number_is_non_numeric() {
    // 31 digits: one past the representation bound of 10^30
    let body = b"{\"BTC\":1000000000000000000000000000000,\"EUR\":2,\"USD\":3}";
    assert_eq!(parse_quote(body), Err(FetchError::NonNumeric));
    // 30 digits still fit
    let body_ok = b"{\"BTC\":100000000000000000000000000000,\"EUR\":2,\"USD\":3}";
    assert!(parse_quote(body_ok).is_ok());
}

#[test]
fn oversized_scale_is_non_numeric() {
    let body = b"{\"BTC\":0.0000000000000000000000000000001,\"EUR\":2,\"USD\":3}";
    assert_eq!(parse_quote(body), Err(FetchError::NonNumeric));
}

#[test]
fn malformed_bodies_are_parse_errors() {
    assert_eq!(parse_quote(b""), Err(FetchError::Parse));
    assert_eq!(parse_quote(b"[1,2]"), Err(FetchError::Parse));
    assert_eq!(parse_quote(b"{\"BTC\":1,}"), Err(FetchError::Parse));
    assert_eq!(parse_quote(b"{\"BTC\":tru,\"EUR\":2,\"USD\":3}"), Err(FetchError::Parse));
    assert_eq!(parse_quote(b"{\"BTC\":1 \"EUR\":2}"), Err(FetchError::Parse));
    assert_eq!(parse_quote(b"{\"BTC\":1,\"EUR\":2,\"USD\":3} x"), Err(FetchError::Parse));
    assert_eq!(parse_quote(b"{\"BTC\":1."), Err(FetchError::Parse));
    assert_eq!(parse_quote(b"{\"BTC"), Err(FetchError::Parse));
    assert_eq!(parse_quote(b"{\"BTC\":-,\"EUR\":2,\"USD\":3}"), Err(FetchError::Parse));
    assert_eq!(parse_quote(b"{\"BTC\":1e,\"EUR\":2,\"USD\":3}"), Err(FetchError::Parse));
    assert_eq!(parse_quote(b"{\"BTC\":1e+,\"EUR\":2,\"USD\":3}"), Err(FetchError::Parse));
    assert_eq!(
        parse_quote(b"{\"A\":[1,,2],\"BTC\":1,\"EUR\":2,\"USD\":3}"),
        Err(FetchError::Parse)
    );
    assert_eq!(parse_quote(b"{\"A\":[1,\"BTC\":1}"), Err(FetchError::Parse));
    assert_eq!(
        parse_quote(b"{\"A\":{\"b\":},\"BTC\":1,\"EUR\":2,\"USD\":3}"),
        Err(FetchError::Parse)
    );
}

#[test]
fn repeated_key_keeps_the_last_member() {
    let q = parse_quote(b"{\"BTC\":1,\"BTC\":2,\"EUR\":3,\"USD\":4}").unwrap();
    assert_eq!((q.btc.mantissa, q.btc.scale), (2, 0));
}

#[test]
fn negative_price_parses_with_sign() {
    let q = parse_quote(b"{\"BTC\":-0.5,\"EUR\":2,\"USD\":3}").unwrap();
    assert!(q.btc.neg);
    assert_eq!((q.btc.mantissa, q.btc.scale), (5, 1));
}

#[test]
fn escaped_string_values_are_skipped() {
    let q = parse_quote(b"{\"note\":\"a\\\"b\\\\\",\"BTC\":1,\"EUR\":2,\"USD\":3}").unwrap();
    assert_eq!((q.btc.mantissa, q.btc.scale), (1, 0));
}

#[test]
fn key_case_matters() {
    assert_eq!(parse_quote(b"{\"btc\":1,\"EUR\":2,\"USD\":3}"), Err(FetchError::MissingField));
}
