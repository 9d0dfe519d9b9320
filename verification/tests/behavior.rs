use url_search_params::SearchParams;
use url_search_params::Symbol;
use url_search_params::build_url_search_params;
use url_search_params::decode_uri_component;
use url_search_params::encode_uri_component;
use url_search_params::parse_url_search_params;

#[test]
fn parse_two_pairs_exactly() {
    let params = parse_url_search_params("key=value&another_key=its_value");
    assert_eq!(2, params.len());
    assert_eq!(params.get("key").unwrap(), "value");
    assert_eq!(params.get("another_key").unwrap(), "its_value");
    assert!(params.get("missing").is_none());
}

#[test]
fn parse_whitespace_only_is_empty() {
    assert_eq!(0, parse_url_search_params("   ").len());
    assert_eq!(0, parse_url_search_params(" \t\r\n ").len());
    assert_eq!(0, parse_url_search_params("\u{00A0}\u{2003}").len());
}

#[test]
fn build_empty_is_empty_string() {
    let params = SearchParams::new();
    assert!(params.is_empty());
    assert_eq!("", build_url_search_params(params));
}

#[test]
fn parse_splits_on_first_equals_only() {
    let params = parse_url_search_params("a=b=c");
    assert_eq!(1, params.len());
    assert_eq!(params.get("a").unwrap(), "b=c");
}

#[test]
fn parse_token_without_equals_gets_empty_value() {
    let params = parse_url_search_params("flag");
    assert_eq!(1, params.len());
    assert_eq!(params.get("flag").unwrap(), "");
}

#[test]
fn parse_later_token_overwrites_earlier() {
    let params = parse_url_search_params("k=1&k=2");
    assert_eq!(1, params.len());
    assert_eq!(params.get("k").unwrap(), "2");
}

#[test]
fn insert_overwrites_in_place() {
    let mut params = SearchParams::new();
    params.insert("a".to_string(), "1".to_string());
    params.insert("b".to_string(), "2".to_string());
    params.insert("a".to_string(), "3".to_string());
    assert_eq!(2, params.len());
    assert_eq!(params.get("a").unwrap(), "3");
    assert_eq!("a=3&b=2", build_url_search_params(params));
}

#[test]
fn build_keeps_insertion_order() {
    let mut params = SearchParams::new();
    params.insert("key1".to_string(), "test1".to_string());
    params.insert("key2".to_string(), "test2".to_string());
    assert_eq!("key1=test1&key2=test2", build_url_search_params(params));
}

#[test]
fn build_escapes_delimiters_inside_pairs() {
    let mut params = SearchParams::new();
    params.insert("key1&".to_string(), "test1=".to_string());
    let built = build_url_search_params(params);
    assert_eq!("key1%26=test1%3D", built);

    let parsed = parse_url_search_params(&built);
    assert_eq!(1, parsed.len());
    assert_eq!(parsed.get("key1&").unwrap(), "test1=");
}

#[test]
fn encode_exact_escapes() {
    assert_eq!("a%20b", encode_uri_component("a b"));
    assert_eq!("%25", encode_uri_component("%"));
    assert_eq!("%2525", encode_uri_component("%25"));
    assert_eq!("100%25%20sure", encode_uri_component("100% sure"));
    assert_eq!("plain-text_7E", encode_uri_component("plain-text_7E"));
}

#[test]
fn decode_exact_escapes() {
    assert_eq!("a b", decode_uri_component("a%20b"));
    assert_eq!("%25", decode_uri_component("%2525"));
    assert_eq!("100% sure", decode_uri_component("100%25%20sure"));
}

#[test]
fn question_mark_decoded_but_never_encoded() {
    assert_eq!("?", encode_uri_component("?"));
    assert_eq!("?", decode_uri_component("%3F"));
    assert_eq!("??", decode_uri_component("?%3F"));
}

#[test]
fn decode_leaves_unknown_sequences_untouched() {
    assert_eq!("%ZZ", decode_uri_component("%ZZ"));
    assert_eq!("%2G%", decode_uri_component("%2G%"));
    assert_eq!("%", decode_uri_component("%"));
    assert_eq!("%2", decode_uri_component("%2"));
}

#[test]
fn decode_encode_round_trip_non_ascii() {
    let component = "caf\u{00E9} = 50% & more \u{1F600}";
    let encoded = encode_uri_component(component);
    assert_eq!(component, decode_uri_component(&encoded));
}

#[test]
fn parse_build_round_trip_unreserved() {
    let mut params = SearchParams::new();
    params.insert("alpha".to_string(), "one".to_string());
    params.insert("beta".to_string(), "two".to_string());
    params.insert("gamma".to_string(), "three".to_string());
    let built = build_url_search_params(params);
    let parsed = parse_url_search_params(&built);
    assert_eq!(3, parsed.len());
    assert_eq!(parsed.get("alpha").unwrap(), "one");
    assert_eq!(parsed.get("beta").unwrap(), "two");
    assert_eq!(parsed.get("gamma").unwrap(), "three");
}

#[test]
fn key_and_value_by_position() {
    let mut params = SearchParams::new();
    params.insert("first".to_string(), "1".to_string());
    params.insert("second".to_string(), "2".to_string());
    assert_eq!(params.key_at(0), "first");
    assert_eq!(params.value_at(0), "1");
    assert_eq!(params.key_at(1), "second");
    assert_eq!(params.value_at(1), "2");
}

#[test]
fn symbol_table_values() {
    let symbol = Symbol::new();
    assert_eq!("\r\n", symbol.new_line_carriage_return);
    assert_eq!("\n", symbol.new_line);
    assert_eq!("\r", symbol.carriage_return);
    assert_eq!("", symbol.empty_string);
    assert_eq!(" ", symbol.whitespace);
    assert_eq!("=", symbol.equals);
    assert_eq!(",", symbol.comma);
    assert_eq!("-", symbol.hyphen);
    assert_eq!("/", symbol.slash);
    assert_eq!(";", symbol.semicolon);
    assert_eq!(":", symbol.colon);
    assert_eq!("#", symbol.number_sign);
    assert_eq!("[", symbol.opening_square_bracket);
    assert_eq!("]", symbol.closing_square_bracket);
    assert_eq!("{", symbol.opening_curly_bracket);
    assert_eq!("}", symbol.closing_curly_bracket);
    assert_eq!("\"", symbol.quotation_mark);
    assert_eq!("_", symbol.underscore);
    assert_eq!("'", symbol.single_quote);
    assert_eq!("%", symbol.percent);
    assert_eq!("!", symbol.exclamation_mark);
    assert_eq!("$", symbol.dollar);
    assert_eq!("&", symbol.ampersand);
    assert_eq!("(", symbol.opening_bracket);
    assert_eq!(")", symbol.closing_bracket);
    assert_eq!("*", symbol.asterisk);
    assert_eq!("+", symbol.plus);
    assert_eq!("?", symbol.question_mark);
    assert_eq!("@", symbol.at);
}
