use pallet_ares::price::parse_price;

#[test]
fn parse_price_works() {
    let test_data = vec![
        ("{\"USD\":6536.92}", Some(653692)),
        ("{\"USD\":65.92}", Some(6592)),
        ("{\"USD\":6536.924565}", Some(653692)),
        ("{\"USD\":6536}", Some(653600)),
        ("{\"USD2\":6536}", None),
        ("{\"USD\":\"6432\"}", None),
        ( "{\"msg\":\"success\",\"code\":0,\"data\":{\"market\":null,\"symbol\":\"btcusdt\",\"price\":23383.08,\"nodes\":null,\"sn\":null,\"systs\":1608654228412,\"ts\":1608654228412}}",
          Some(2338308)),
    ];

    for (json, expected) in test_data {
        assert_eq!(expected, parse_price(json));
    }
}

#[test]
fn one_fraction_digit_counts_as_tens() {
    assert_eq!(parse_price("{\"USD\":65.9}"), Some(6590));
    assert_eq!(parse_price("{\"USD\":0.05}"), Some(5));
    assert_eq!(parse_price("{\"USD\":0}"), Some(0));
}

#[test]
fn whitespace_around_tokens_is_allowed() {
    assert_eq!(parse_price(" \n{ \"USD\" :\t12.5 , \"x\" : [ 1 , true , false , null ] }\r\n"), Some(1250));
}

#[test]
fn usd_wins_over_data() {
    assert_eq!(parse_price("{\"data\":{\"price\":1},\"USD\":2}"), Some(200));
    assert_eq!(parse_price("{\"USD\":3,\"USD\":4}"), Some(300));
}

#[test]
fn data_price_needs_an_object() {
    assert_eq!(parse_price("{\"data\":[1,2]}"), None);
    assert_eq!(parse_price("{\"data\":{\"prices\":1}}"), None);
    assert_eq!(parse_price("{\"data\":{\"price\":\"1\"}}"), None);
}

#[test]
fn numbers_that_give_no_price() {
    assert_eq!(parse_price("{\"USD\":-1}"), None);
    assert_eq!(parse_price("{\"USD\":1e3}"), None);
    assert_eq!(parse_price("{\"USD\":42949672.95}"), Some(4294967295));
    assert_eq!(parse_price("{\"USD\":42949672.96}"), None);
    assert_eq!(parse_price("{\"USD\":99999999999999999999999}"), None);
}

#[test]
fn malformed_documents_give_no_price() {
    assert_eq!(parse_price(""), None);
    assert_eq!(parse_price("{\"USD\":1"), None);
    assert_eq!(parse_price("{\"USD\":01}"), None);
    assert_eq!(parse_price("{\"USD\":1.}"), None);
    assert_eq!(parse_price("{\"USD\":1,}"), None);
    assert_eq!(parse_price("{\"USD\":1} x"), None);
    assert_eq!(parse_price("[{\"USD\":1}]"), None);
    assert_eq!(parse_price("{USD:1}"), None);
    assert_eq!(parse_price("{\"a\":tru,\"USD\":1}"), None);
}

#[test]
fn escapes_in_strings_are_skipped() {
    assert_eq!(parse_price("{\"a\\\"b\":\"x\\u00e9\\n\",\"USD\":7}"), Some(700));
    assert_eq!(parse_price("{\"a\":\"\\x\",\"USD\":7}"), None);
}
