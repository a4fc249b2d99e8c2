use puma::codec::{manifest_from_response, parse_manifest};
use puma::error::DownloadError;

fn two_layer_body() -> String {
    String::from(
        "{\"schemaVersion\":2,\"layers\":[\
         {\"mediaType\":\"application/vnd.ollama.image.model\",\"size\":150000000,\
         \"digest\":\"sha256:aaa\"},\
         {\"mediaType\":\"application/vnd.ollama.image.license\",\"size\":5000000,\
         \"digest\":\"sha256:bbb\"}]}",
    )
}

#[test]
fn parses_two_layer_manifest_preserving_fields() {
    let resp = parse_manifest(&two_layer_body()).unwrap();
    assert_eq!(resp.schema_version, 2);
    assert_eq!(resp.layers.len(), 2);
    assert_eq!(resp.layers[0].media_type, "application/vnd.ollama.image.model");
    assert_eq!(resp.layers[0].size, 150_000_000);
    assert_eq!(resp.layers[0].digest, "sha256:aaa");
    assert_eq!(resp.layers[1].media_type, "application/vnd.ollama.image.license");
    assert_eq!(resp.layers[1].size, 5_000_000);
    assert_eq!(resp.layers[1].digest, "sha256:bbb");
}

#[test]
fn parses_manifest_with_whitespace() {
    let body = "  {\n \"schemaVersion\" : 2 ,\n \"layers\" : [\n  { \"mediaType\" : \
                \"application/vnd.ollama.image.model\" , \"size\" : 42 , \"digest\" : \
                \"sha256:xyz\" }\n ]\n }\n";
    let resp = parse_manifest(body).unwrap();
    assert_eq!(resp.schema_version, 2);
    assert_eq!(resp.layers.len(), 1);
    assert_eq!(resp.layers[0].size, 42);
}

#[test]
fn parses_empty_layer_list() {
    let resp = parse_manifest("{\"schemaVersion\":1,\"layers\":[]}").unwrap();
    assert_eq!(resp.schema_version, 1);
    assert!(resp.layers.is_empty());
}

#[test]
fn rejects_truncated_body() {
    let body = two_layer_body();
    let cut = &body[..body.len() - 2];
    assert!(matches!(parse_manifest(cut), Err(DownloadError::ParseError(_))));
}

#[test]
fn rejects_trailing_garbage() {
    let mut body = two_layer_body();
    body.push_str("x");
    assert!(matches!(parse_manifest(&body), Err(DownloadError::ParseError(_))));
}

#[test]
fn rejects_missing_field() {
    let body = "{\"schemaVersion\":2,\"layers\":[{\"mediaType\":\"a.b\",\"size\":1}]}";
    assert!(matches!(parse_manifest(body), Err(DownloadError::ParseError(_))));
}

#[test]
fn rejects_size_overflowing_sixty_four_bits() {
    let body = "{\"schemaVersion\":2,\"layers\":[{\"mediaType\":\"a.b\",\
                \"size\":18446744073709551616,\"digest\":\"d\"}]}";
    assert!(matches!(parse_manifest(body), Err(DownloadError::ParseError(_))));
}

#[test]
fn accepts_size_at_sixty_four_bit_limit() {
    let body = "{\"schemaVersion\":2,\"layers\":[{\"mediaType\":\"a.b\",\
                \"size\":18446744073709551615,\"digest\":\"d\"}]}";
    let resp = parse_manifest(body).unwrap();
    assert_eq!(resp.layers[0].size, u64::MAX);
}

#[test]
fn rejects_schema_version_overflowing_thirty_two_bits() {
    let body = "{\"schemaVersion\":4294967296,\"layers\":[]}";
    assert!(matches!(parse_manifest(body), Err(DownloadError::ParseError(_))));
}

#[test]
fn rejects_unterminated_string() {
    let body = "{\"schemaVersion\":2,\"layers\":[{\"mediaType\":\"abc";
    assert!(matches!(parse_manifest(body), Err(DownloadError::ParseError(_))));
}

#[test]
fn rejects_quote_cutting_a_string_short() {
    let body = "{\"schemaVersion\":2,\"layers\":[{\"mediaType\":\"a.b,\"size\":1,\"digest\":\"d\"}]}";
    assert!(matches!(parse_manifest(body), Err(DownloadError::ParseError(_))));
}

#[test]
fn rejects_escape_in_string() {
    let body = "{\"schemaVersion\":2,\"layers\":[{\"mediaType\":\"a\\.b\",\"size\":1,\"digest\":\"d\"}]}";
    assert!(matches!(parse_manifest(body), Err(DownloadError::ParseError(_))));
}

#[test]
fn non_success_status_is_request_error_naming_the_code() {
    let r = manifest_from_response(404, &two_layer_body());
    match r {
        Err(DownloadError::RequestError(m)) => assert_eq!(m, "HTTP Code not right: 404"),
        other => panic!("expected RequestError, got {:?}", other),
    }
}

#[test]
fn success_status_hands_body_to_parser() {
    let resp = manifest_from_response(200, &two_layer_body()).unwrap();
    assert_eq!(resp.layers.len(), 2);
    assert!(matches!(
        manifest_from_response(200, "not json"),
        Err(DownloadError::ParseError(_))
    ));
}

#[test]
fn accepts_members_in_any_order() {
    let body = "{\"layers\":[{\"digest\":\"sha256:aaa\",\"mediaType\":\"a.model\",\"size\":7}],\
                \"schemaVersion\":2}";
    let resp = parse_manifest(body).unwrap();
    assert_eq!(resp.schema_version, 2);
    assert_eq!(resp.layers[0].media_type, "a.model");
    assert_eq!(resp.layers[0].size, 7);
    assert_eq!(resp.layers[0].digest, "sha256:aaa");
}

#[test]
fn skips_unknown_members_of_a_real_registry_manifest() {
    let body = "{\"schemaVersion\":2,\
                \"mediaType\":\"application/vnd.docker.distribution.manifest.v2+json\",\
                \"config\":{\"mediaType\":\"application/vnd.docker.container.image.v1+json\",\
                \"digest\":\"sha256:cfg\",\"size\":485},\
                \"layers\":[{\"mediaType\":\"application/vnd.ollama.image.model\",\
                \"digest\":\"sha256:aaa\",\"size\":150000000,\"extra\":null}]}";
    let resp = parse_manifest(body).unwrap();
    assert_eq!(resp.schema_version, 2);
    assert_eq!(resp.layers.len(), 1);
    assert_eq!(resp.layers[0].media_type, "application/vnd.ollama.image.model");
    assert_eq!(resp.layers[0].size, 150_000_000);
    assert_eq!(resp.layers[0].digest, "sha256:aaa");
}

#[test]
fn skips_unknown_members_of_every_value_kind() {
    let body = "{\"a\":-1.5e3,\"b\":[true,false,null,\"s\",[1,2],{\"x\":\"y\"}],\
                \"schemaVersion\":1,\"c\":{\"d\":{\"e\":[]}},\"layers\":[]}";
    let resp = parse_manifest(body).unwrap();
    assert_eq!(resp.schema_version, 1);
    assert!(resp.layers.is_empty());
}

#[test]
fn unescapes_strings() {
    let body = "{\"schemaVersion\":1,\"layers\":[{\"mediaType\":\"a\\\"b\\\\c\\n.\\u0041\",\
                \"size\":1,\"digest\":\"\\uD83D\\uDE00\"}]}";
    let resp = parse_manifest(body).unwrap();
    assert_eq!(resp.layers[0].media_type, "a\"b\\c\n.A");
    assert_eq!(resp.layers[0].digest, "\u{1F600}");
}

#[test]
fn rejects_lone_surrogate_escape() {
    let body = "{\"schemaVersion\":1,\"layers\":[{\"mediaType\":\"a.\\uD800b\",\"size\":1,\
                \"digest\":\"d\"}]}";
    assert!(matches!(parse_manifest(body), Err(DownloadError::ParseError(_))));
}

#[test]
fn rejects_duplicate_known_member() {
    let body = "{\"schemaVersion\":1,\"schemaVersion\":2,\"layers\":[]}";
    assert!(matches!(parse_manifest(body), Err(DownloadError::ParseError(_))));
    let body2 = "{\"schemaVersion\":1,\"layers\":[{\"mediaType\":\"a.b\",\"size\":1,\"size\":2,\
                 \"digest\":\"d\"}]}";
    assert!(matches!(parse_manifest(body2), Err(DownloadError::ParseError(_))));
}

#[test]
fn rejects_leading_zero_in_number() {
    let body = "{\"schemaVersion\":1,\"layers\":[{\"mediaType\":\"a.b\",\"size\":007,\
                \"digest\":\"d\"}]}";
    assert!(matches!(parse_manifest(body), Err(DownloadError::ParseError(_))));
}

#[test]
fn rejects_trailing_comma_in_unknown_object() {
    let body = "{\"schemaVersion\":1,\"config\":{\"a\":1,},\"layers\":[]}";
    assert!(matches!(parse_manifest(body), Err(DownloadError::ParseError(_))));
}

#[test]
fn rejects_unknown_member_nested_past_the_depth_guard() {
    let mut nested = String::from("0");
    for _ in 0..200 {
        nested = format!("[{}]", nested);
    }
    let body = format!("{{\"schemaVersion\":1,\"junk\":{},\"layers\":[]}}", nested);
    assert!(matches!(parse_manifest(&body), Err(DownloadError::ParseError(_))));
    let mut shallow = String::from("0");
    for _ in 0..20 {
        shallow = format!("[{}]", shallow);
    }
    let ok_body = format!("{{\"schemaVersion\":1,\"junk\":{},\"layers\":[]}}", shallow);
    assert!(parse_manifest(&ok_body).is_ok());
}

#[test]
fn error_messages_carry_their_prefix() {
    let e = DownloadError::RequestError(String::from("boom"));
    assert_eq!(e.message(), "RequestError: boom");
    let p = DownloadError::ParseError(String::from("bad"));
    assert_eq!(p.message(), "ParseError: bad");
}
