use webxr::case_conversion::{to_camel_case, to_kebab_case, to_pascal_case, to_snake_case};

#[test]
fn test_to_snake_case() {
    assert_eq!(to_snake_case("helloWorld"), "hello_world");
    assert_eq!(to_snake_case("HelloWorld"), "hello_world");
    assert_eq!(to_snake_case("hello-world"), "hello_world");
    assert_eq!(to_snake_case("user123Name"), "user123_name");
    assert_eq!(to_snake_case("getHTTPResponse"), "get_http_response");
    assert_eq!(to_snake_case("HTTPResponse"), "http_response");
    assert_eq!(to_snake_case(""), "");
    assert_eq!(to_snake_case("a"), "a");
    assert_eq!(to_snake_case("A"), "a");
    assert_eq!(to_snake_case("hello_world"), "hello_world");
    assert_eq!(to_snake_case("user-ID-123"), "user_id_123");
    assert_eq!(to_snake_case("MixedCASE"), "mixed_case");
}

#[test]
fn test_to_camel_case() {
    assert_eq!(to_camel_case("hello_world"), "helloWorld");
    assert_eq!(to_camel_case("HelloWorld"), "helloWorld");
    assert_eq!(to_camel_case("hello-world"), "helloWorld");
    assert_eq!(to_camel_case("user_123_name"), "user123Name");
    assert_eq!(to_camel_case("get_http_response"), "getHttpResponse");
    assert_eq!(to_camel_case(""), "");
    assert_eq!(to_camel_case("a"), "a");
    assert_eq!(to_camel_case("A"), "a");
    assert_eq!(to_camel_case("helloWorld"), "helloWorld");
}

#[test]
fn test_to_kebab_case() {
    assert_eq!(to_kebab_case("helloWorld"), "hello-world");
    assert_eq!(to_kebab_case("HelloWorld"), "hello-world");
    assert_eq!(to_kebab_case("hello_world"), "hello-world");
    assert_eq!(to_kebab_case("user123Name"), "user123-name");
    assert_eq!(to_kebab_case(""), "");
    assert_eq!(to_kebab_case("a"), "a");
}

#[test]
fn test_to_pascal_case() {
    assert_eq!(to_pascal_case("helloWorld"), "HelloWorld");
    assert_eq!(to_pascal_case("hello_world"), "HelloWorld");
    assert_eq!(to_pascal_case("hello-world"), "HelloWorld");
    assert_eq!(to_pascal_case("user_123_name"), "User123Name");
    assert_eq!(to_pascal_case(""), "");
    assert_eq!(to_pascal_case("a"), "A");
}

#[test]
fn case_conversion_round_trips_words() {
    assert_eq!(to_snake_case("Multiple__Underscores"), "multiple_underscores");
    assert_eq!(to_pascal_case("_leading"), "Leading");
    assert_eq!(to_camel_case("_leading"), "leading");
}
