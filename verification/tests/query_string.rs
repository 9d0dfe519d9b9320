use url_search_params::SearchParams;
use url_search_params::build_url_search_params;
use url_search_params::decode_uri_component;
use url_search_params::encode_uri_component;
use url_search_params::parse_url_search_params;

#[test]
fn build_url_search_params_test() {
    let mut params_map = SearchParams::new();
    params_map.insert("key1".to_string(), "test1".to_string());
    params_map.insert("key2".to_string(), "test2".to_string());
    params_map.insert("".to_string(), "empty_key".to_string());
    params_map.insert("empty_value".to_string(), "".to_string());

    let search_params = build_url_search_params(params_map);
    let parsed_search_params = parse_url_search_params(&search_params);

    let boxed_get = parsed_search_params.get("key1");
    assert!(boxed_get.is_some());

    let actual_param_value = boxed_get.unwrap();
    assert_eq!(actual_param_value, "test1");

    let boxed_get = parsed_search_params.get("key2");
    assert!(boxed_get.is_some());

    let actual_param_value = boxed_get.unwrap();
    assert_eq!(actual_param_value, "test2");

    let boxed_get = parsed_search_params.get("");
    assert!(boxed_get.is_none());

    let boxed_get = parsed_search_params.get("empty_value");
    assert!(boxed_get.is_some());

    let actual_param_value = boxed_get.unwrap();
    assert_eq!(actual_param_value, "");
}

#[test]
fn build_url_search_params_ampersand() {
    let mut params_map = SearchParams::new();
    params_map.insert("key1".to_string(), "test1".to_string());
    params_map.insert("key2".to_string(), "test2".to_string());
    params_map.insert("".to_string(), "empty_key".to_string());
    params_map.insert("empty_value".to_string(), "".to_string());
    params_map.insert("&".to_string(), "unescaped_ampersand_as_key".to_string());

    let search_params = build_url_search_params(params_map);
    let parsed_search_params = parse_url_search_params(&search_params);

    let boxed_get = parsed_search_params.get("key1");
    assert!(boxed_get.is_some());

    let actual_param_value = boxed_get.unwrap();
    assert_eq!(actual_param_value, "test1");

    let boxed_get = parsed_search_params.get("key2");
    assert!(boxed_get.is_some());

    let actual_param_value = boxed_get.unwrap();
    assert_eq!(actual_param_value, "test2");

    let boxed_get = parsed_search_params.get("");
    assert!(boxed_get.is_none());

    let boxed_get = parsed_search_params.get("empty_value");
    assert!(boxed_get.is_some());

    let actual_param_value = boxed_get.unwrap();
    assert_eq!(actual_param_value, "");

    let boxed_get = parsed_search_params.get("empty_value");
    assert!(boxed_get.is_some());
}

#[test]
fn parse_empty_url_search_params() {
    let search_params = "";
    let params = parse_url_search_params(search_params);
    assert_eq!(0, params.len());
}

#[test]
fn parse_empty_equals_ampersand_search_params() {
    let search_params = "=&key2=value2";
    let params = parse_url_search_params(search_params);
    assert_eq!(1, params.len());

    let boxed_get = params.get("key2");
    assert!(boxed_get.is_some());

    let actual_param_value = boxed_get.unwrap();
    assert_eq!(actual_param_value, "value2");
}

#[test]
fn encode_decode() {
    let component = "\r\n \"%!#$&'()*+,/:;=?@[]][@?=;:/,+*)('&$#!%\" \r\n";
    let mut _result = encode_uri_component(component);
    assert_eq!(
        "%0D%0A%20%22%25%21%23%24%26%27%28%29%2A%2B%2C%2F%3A%3B%3D?%40%5B%5D%5D%5B%40?%3D%3B%3A%2F%2C%2B%2A%29%28%27%26%24%23%21%25%22%20%0D%0A",
        _result
    );
    _result = decode_uri_component(_result.as_str());
    assert_eq!(component, _result);
}
