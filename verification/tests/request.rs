use cloudflare_cli::command_tree::{Operation, ParamDef};
use cloudflare_cli::request::{
    body_source, build_request, build_url, default_env_for_param, is_whitespace, parse_headers,
    parse_key_values, resolve_param_value, resolve_param_values, split_key_value, split_list,
    BodySource, EnvDefaults, FlagValues, RequestError, RequestParts,
};

fn strings(items: &[&str]) -> Vec<String> {
    items.iter().map(|s| s.to_string()).collect()
}

fn pairs(items: &[(&str, &str)]) -> Vec<(String, String)> {
    items.iter().map(|(k, v)| (k.to_string(), v.to_string())).collect()
}

fn flag(flag: &str, values: &[&str]) -> FlagValues {
    FlagValues { flag: flag.to_string(), values: strings(values) }
}

fn param(name: &str, flag: &str, location: &str, required: bool, list: bool) -> ParamDef {
    ParamDef {
        name: name.to_string(),
        flag: flag.to_string(),
        location: location.to_string(),
        required,
        list,
        schema_type: None,
        description: None,
    }
}

fn operation(path: &str, parameters: Vec<ParamDef>) -> Operation {
    Operation {
        name: "op".to_string(),
        display_name: "op".to_string(),
        method: "GET".to_string(),
        path: path.to_string(),
        summary: None,
        description: None,
        parameters,
        has_body: false,
    }
}

fn no_env() -> EnvDefaults {
    EnvDefaults { account_id: None, zone_id: None }
}

#[test]
fn split_list_on_commas() {
    assert_eq!(split_list("a,b,c"), strings(&["a", "b", "c"]));
    assert_eq!(split_list(" a , b ,, c ,"), strings(&["a", "b", "c"]));
    assert_eq!(split_list(","), Vec::<String>::new());
    assert_eq!(split_list(" \t,\u{a0}\u{3000}x\u{2003}"), strings(&["x"]));
    assert_eq!(split_list("a b, c d"), strings(&["a b", "c d"]));
}

#[test]
fn split_list_without_comma_keeps_the_value() {
    assert_eq!(split_list("abc"), strings(&["abc"]));
    assert_eq!(split_list("  padded  "), strings(&["  padded  "]));
    assert_eq!(split_list(""), strings(&[""]));
}

#[test]
fn split_key_value_prefers_the_equals_sign() {
    assert_eq!(split_key_value("a=b"), Some(("a", "b")));
    assert_eq!(split_key_value("a:b"), Some(("a", "b")));
    assert_eq!(split_key_value("a:b=c"), Some(("a:b", "c")));
    assert_eq!(split_key_value("a=b:c=d"), Some(("a", "b:c=d")));
    assert_eq!(split_key_value("x-trace: on"), Some(("x-trace", " on")));
    assert_eq!(split_key_value("="), Some(("", "")));
    assert_eq!(split_key_value("k\u{e9}y=v\u{e4}l"), Some(("k\u{e9}y", "v\u{e4}l")));
    assert_eq!(split_key_value("plain"), None);
    assert_eq!(split_key_value(""), None);
}

#[test]
fn headers_and_query_pairs() {
    let values = strings(&["X-A: 1", "broken", "b=2", "c:d=e"]);
    let expected = pairs(&[("X-A", " 1"), ("b", "2"), ("c:d", "e")]);
    assert_eq!(parse_headers(&values), expected);
    assert_eq!(parse_key_values(&values), expected);
    assert!(parse_headers(&Vec::new()).is_empty());
}

#[test]
fn environment_defaults_by_parameter_name() {
    let env = EnvDefaults { account_id: Some("acc".to_string()), zone_id: Some("zone".to_string()) };
    for name in ["account_id", "account_identifier", "accountId"] {
        assert_eq!(default_env_for_param(name, &env), Some("acc".to_string()));
    }
    for name in ["zone_id", "zone_identifier", "zoneId"] {
        assert_eq!(default_env_for_param(name, &env), Some("zone".to_string()));
    }
    assert_eq!(default_env_for_param("zone", &env), None);
    assert_eq!(default_env_for_param("Account_id", &env), None);
    assert_eq!(default_env_for_param("zone_id", &no_env()), None);
}

#[test]
fn resolving_values() {
    let env = EnvDefaults { account_id: None, zone_id: Some("from-env".to_string()) };
    let zone = param("zone_id", "zone-id", "path", true, false);
    let inputs = vec![flag("other", &["x"]), flag("zone-id", &["first", "second"]), flag("zone-id", &["shadowed"])];
    assert_eq!(resolve_param_value(&zone, &inputs, &env), Some("first".to_string()));
    assert_eq!(resolve_param_value(&zone, &vec![flag("zone-id", &[])], &env), Some("from-env".to_string()));
    assert_eq!(resolve_param_value(&zone, &Vec::new(), &env), Some("from-env".to_string()));
    assert_eq!(resolve_param_value(&zone, &Vec::new(), &no_env()), None);

    assert_eq!(resolve_param_values(&zone, &inputs), strings(&["first"]));
    assert_eq!(resolve_param_values(&zone, &Vec::new()), Vec::<String>::new());
    let tags = param("tags", "tags", "query", false, true);
    let given = vec![flag("tags", &["a, b", "c", ",", "d,,e"])];
    assert_eq!(resolve_param_values(&tags, &given), strings(&["a", "b", "c", "d", "e"]));
    assert_eq!(resolve_param_values(&tags, &vec![flag("tags", &[])]), Vec::<String>::new());
}

#[test]
fn request_for_an_operation() {
    let op = operation(
        "/zones/{zone_id}/records/{id}/{zone_id}",
        vec![
            param("id", "id", "path", true, false),
            param("tag", "tag", "query", false, true),
            param("zone_id", "zone-id", "path", true, false),
            param("X-Trace", "x-trace", "header", true, false),
            param("page", "page", "query", false, false),
            param("session", "session", "cookie", true, false),
        ],
    );
    let inputs = vec![
        flag("id", &["a b/c~d_e-f.g\u{e9}"]),
        flag("tag", &["x,y", "z"]),
        flag("x-trace", &["on", "ignored"]),
    ];
    let env = EnvDefaults { account_id: None, zone_id: Some("z 1".to_string()) };
    assert_eq!(
        build_request(&op, &inputs, &env),
        Ok(RequestParts {
            path: "/zones/z%201/records/a%20b%2Fc~d_e-f.g%C3%A9/z%201".to_string(),
            query: pairs(&[("tag", "x"), ("tag", "y"), ("tag", "z")]),
            headers: pairs(&[("X-Trace", "on")]),
        })
    );
}

#[test]
fn request_without_parameters() {
    let op = operation("/user", Vec::new());
    assert_eq!(
        build_request(&op, &vec![flag("unused", &["1"])], &no_env()),
        Ok(RequestParts { path: "/user".to_string(), query: Vec::new(), headers: Vec::new() })
    );
}

#[test]
fn every_request_error() {
    let path = operation("/a/{id}", vec![param("id", "id", "path", false, false)]);
    assert_eq!(
        build_request(&path, &Vec::new(), &no_env()),
        Err(RequestError::MissingPathParam("id".to_string()))
    );
    let query = operation("/a", vec![param("q", "q", "query", true, true)]);
    assert_eq!(
        build_request(&query, &vec![flag("q", &[" , "])], &no_env()),
        Err(RequestError::MissingQueryParam("q".to_string()))
    );
    let header = operation("/a", vec![param("H", "h", "header", true, false), param("id", "id", "path", true, false)]);
    assert_eq!(
        build_request(&header, &Vec::new(), &no_env()),
        Err(RequestError::MissingHeaderParam("H".to_string()))
    );
    let optional = operation("/a", vec![param("q", "q", "query", false, false), param("H", "h", "header", false, true)]);
    assert!(build_request(&optional, &Vec::new(), &no_env()).is_ok());

    assert_eq!(RequestError::MissingPathParam("id".to_string()).message(), "missing path param id");
    assert_eq!(RequestError::MissingQueryParam("q".to_string()).message(), "missing query param q");
    assert_eq!(RequestError::MissingHeaderParam("H".to_string()).message(), "missing header param H");
}

#[test]
fn url_has_one_slash_between_base_and_path() {
    assert_eq!(build_url("https://api.example.com/v4", "/zones"), "https://api.example.com/v4/zones");
    assert_eq!(build_url("https://api.example.com/v4///", "///zones/"), "https://api.example.com/v4/zones/");
    assert_eq!(build_url("https://api.example.com", "zones"), "https://api.example.com/zones");
    assert_eq!(build_url("", ""), "/");
    assert_eq!(build_url("//", "/"), "/");
}

#[test]
fn body_comes_from_text_before_file() {
    assert_eq!(body_source(Some("{}"), Some("body.json")), BodySource::Inline("{}"));
    assert_eq!(body_source(Some("{}"), None), BodySource::Inline("{}"));
    assert_eq!(body_source(None, Some("body.json")), BodySource::File("body.json"));
    assert_eq!(body_source(None, None), BodySource::Absent);
}

#[test]
fn white_space_is_what_trimming_removes() {
    for code in 0..=0x10ffff_u32 {
        if let Some(c) = char::from_u32(code) {
            assert_eq!(is_whitespace(c), c.is_whitespace(), "U+{code:04X}");
        }
    }
    for piece in ["\u{85}x\u{85}", "\u{2028}x\u{2029}", "\u{1680}x\u{205f}", "\u{b}x\u{c}\r\n"] {
        assert_eq!(split_list(&format!("{piece},")), strings(&["x"]));
    }
    assert_eq!(split_list("\u{200b}x,"), strings(&["\u{200b}x"]));
}

#[test]
fn every_byte_is_percent_encoded_as_expected() {
    let op = operation("{v}", vec![param("v", "v", "path", true, false)]);
    for code in 0..=0x7f_u32 {
        let c = char::from_u32(code).unwrap();
        let expected = if c.is_ascii_alphanumeric() || "-._~".contains(c) {
            c.to_string()
        } else {
            format!("%{code:02X}")
        };
        let parts = build_request(&op, &vec![flag("v", &[&c.to_string()])], &no_env()).unwrap();
        assert_eq!(parts.path, expected);
    }
    let parts = build_request(&op, &vec![flag("v", &["\u{20ac}\u{1f600}"])], &no_env()).unwrap();
    assert_eq!(parts.path, "%E2%82%AC%F0%9F%98%80");
}
