use cloudflare_manager::config::parse_u64;
use cloudflare_manager::config::parse_usize;
use cloudflare_manager::handler::create_dns_record_body;
use cloudflare_manager::handler::create_dns_record_url;
use cloudflare_manager::handler::fully_qualified_name;
use cloudflare_manager::request::parse_request;
use cloudflare_manager::text::chars_to_string;
use cloudflare_manager::text::str_to_chars;
use cloudflare_manager::text::trim_chars;

#[test]
fn url_names_the_configured_zone() {
    assert_eq!(
        create_dns_record_url("Z1"),
        "https://api.cloudflare.com/client/v4/zones/Z1/dns_records"
    );
}

#[test]
fn qualified_name_joins_with_one_dot() {
    assert_eq!(fully_qualified_name("www", "example.com"), "www.example.com");
    assert_eq!(fully_qualified_name("", "example.com"), ".example.com");
}

#[test]
fn body_escapes_string_values() {
    let body = create_dns_record_body("a\"b\\c\nd", "1.2.3.4");
    assert_eq!(
        body,
        "{\"content\":\"1.2.3.4\",\"name\":\"a\\\"b\\\\c\\nd\",\"priority\":10,\"proxied\":true,\"ttl\":1,\"type\":\"A\"}"
    );
    let value: serde_json::Value = serde_json::from_str(&body).unwrap();
    assert_eq!(value.get("name").unwrap().as_str().unwrap(), "a\"b\\c\nd");
}

#[test]
fn body_escapes_control_characters_as_hex() {
    let body = create_dns_record_body("a\u{1}b\u{1f}", "1.2.3.4");
    assert!(body.contains("\"name\":\"a\\u0001b\\u001f\""));
    let value: serde_json::Value = serde_json::from_str(&body).unwrap();
    assert_eq!(value.get("name").unwrap().as_str().unwrap(), "a\u{1}b\u{1f}");
}

#[test]
fn body_matches_a_standard_serializer() {
    let mut fields = serde_json::Map::new();
    fields.insert("type".to_string(), serde_json::Value::String("A".to_string()));
    fields.insert(
        "name".to_string(),
        serde_json::Value::String("w\"w\\w\n.example.com".to_string()),
    );
    fields.insert("content".to_string(), serde_json::Value::String("1.2.3.4".to_string()));
    fields.insert("ttl".to_string(), serde_json::Value::from(1u64));
    fields.insert("priority".to_string(), serde_json::Value::from(10u64));
    fields.insert("proxied".to_string(), serde_json::Value::Bool(true));
    let expected = serde_json::Value::Object(fields).to_string();
    assert_eq!(create_dns_record_body("w\"w\\w\n.example.com", "1.2.3.4"), expected);
}

#[test]
fn request_parses_simple_escapes() {
    assert_eq!(parse_request("{\"name\":\"a\\\"b\\\\c\\/d\\ne\"}").unwrap(), "a\"b\\c/d\ne");
    assert_eq!(parse_request("{\"name\":\"\\b\\f\\r\\t\"}").unwrap(), "\u{8}\u{c}\r\t");
}

#[test]
fn request_parses_unicode_escapes() {
    assert_eq!(parse_request("{\"name\":\"\\u0041\\u00e9\"}").unwrap(), "A\u{e9}");
    assert_eq!(parse_request("{\"name\":\"\\ud83d\\ude00\"}").unwrap(), "\u{1f600}");
}

#[test]
fn request_accepts_escaped_key() {
    assert_eq!(parse_request("{\"na\\u006de\":\"www\"}").unwrap(), "www");
}

#[test]
fn request_rejects_bad_escapes() {
    assert!(parse_request("{\"name\":\"\\q\"}").is_none());
    assert!(parse_request("{\"name\":\"\\u12\"}").is_none());
    assert!(parse_request("{\"name\":\"\\ud83d\"}").is_none());
    assert!(parse_request("{\"name\":\"\\ude00\"}").is_none());
    assert!(parse_request("{\"name\":\"a\nb\"}").is_none());
}

#[test]
fn request_agrees_with_a_standard_parser() {
    let cases = [
        "{\"name\":\"www\"}",
        " { \"name\" : \"a\\u0041\" } ",
        "{\"name\":\"\\ud83d\\ude00\"}",
        "{\"name\":123}",
        "{\"name\":\"x\\q\"}",
        "[\"name\"]",
        "{\"name\"\"x\"}",
    ];
    for body in cases {
        let theirs: Result<serde_json::Value, _> = serde_json::from_str(body);
        let theirs_name = theirs.ok().and_then(|v| {
            v.get("name").and_then(|n| n.as_str().map(|s| s.to_string()))
        });
        assert_eq!(parse_request(body), theirs_name, "case: {}", body);
    }
}

#[test]
fn string_char_round_trip() {
    let s = "h\u{e9}llo \u{1f600} world";
    let chars = str_to_chars(s);
    assert_eq!(chars_to_string(&chars), s);
}

#[test]
fn trim_removes_unicode_whitespace() {
    let chars = str_to_chars(" \t\u{a0}x y\u{3000}\n");
    assert_eq!(chars_to_string(&trim_chars(&chars)), "x y");
    let blank = str_to_chars(" \u{2028} ");
    assert_eq!(trim_chars(&blank).len(), 0);
}

#[test]
fn decimal_parsing_matches_std() {
    assert_eq!(parse_u64("8080"), Some(8080));
    assert_eq!(parse_u64("+42"), Some(42));
    assert_eq!(parse_u64("0"), Some(0));
    assert_eq!(parse_u64("18446744073709551615"), Some(u64::MAX));
    assert_eq!(parse_u64("18446744073709551616"), None);
    assert_eq!(parse_u64(""), None);
    assert_eq!(parse_u64("+"), None);
    assert_eq!(parse_u64("12a"), None);
    assert_eq!(parse_u64("-1"), None);
    assert_eq!(parse_u64(" 1"), None);
    assert_eq!(parse_usize("4"), Some(4));
    assert_eq!(parse_usize("four"), None);
}
