use cloudflare_cli::document::{find_entry, DocValue};
use cloudflare_cli::yaml::parse_document;

fn text(s: &str) -> DocValue {
    DocValue::Text(s.to_string())
}

fn number(s: &str) -> DocValue {
    DocValue::Number(s.to_string())
}

fn tagged(tag: &str, inner: DocValue) -> DocValue {
    DocValue::Tagged(tag.to_string(), Box::new(inner))
}

#[test]
fn yaml_nodes_become_document_nodes() {
    let doc = parse_document("a: 1\nb: [true, ~, x, 2.5]\nc: {d: e}\n-3: f\n").unwrap();
    assert_eq!(
        doc,
        DocValue::Mapping(vec![
            (text("a"), number("1")),
            (
                text("b"),
                DocValue::Sequence(vec![
                    DocValue::Bool(true),
                    DocValue::Null,
                    text("x"),
                    number("2.5"),
                ]),
            ),
            (text("c"), DocValue::Mapping(vec![(text("d"), text("e"))])),
            (number("-3"), text("f")),
        ])
    );
}

#[test]
fn mapping_order_is_document_order() {
    let doc = parse_document("z: 1\na: 2\nm: 3\n").unwrap();
    let keys: Vec<&str> = doc
        .as_mapping()
        .unwrap()
        .iter()
        .map(|(k, _)| k.as_str().unwrap())
        .collect();
    assert_eq!(keys, vec!["z", "a", "m"]);
}

#[test]
fn tags_are_kept() {
    let doc = parse_document("!outer {k: !inner v}").unwrap();
    assert_eq!(
        doc,
        tagged("!outer", DocValue::Mapping(vec![(text("k"), tagged("!inner", text("v")))]))
    );
    assert_eq!(doc.get("k").unwrap().as_str(), Some("v"));
}

#[test]
fn invalid_text_is_rejected() {
    assert_eq!(parse_document("a: [1, 2"), None);
    assert_eq!(parse_document("a: 1\na: 2\n"), None);
    assert_eq!(parse_document("{a: 1"), None);
    assert_eq!(parse_document("{\"a\": }"), Some(DocValue::Mapping(vec![(text("a"), DocValue::Null)])));
    assert_eq!(parse_document(""), Some(DocValue::Null));
    assert_eq!(parse_document("plain"), Some(text("plain")));
}

#[test]
fn accessors_answer_for_their_own_kind_only() {
    let list = DocValue::Sequence(vec![text("a")]);
    let map = DocValue::Mapping(vec![(text("k"), DocValue::Bool(false))]);
    assert_eq!(text("a").as_str(), Some("a"));
    assert_eq!(DocValue::Bool(true).as_bool(), Some(true));
    assert_eq!(list.as_sequence(), Some(&vec![text("a")]));
    assert_eq!(map.as_mapping().map(|m| m.len()), Some(1));
    for other in [DocValue::Null, number("7"), map, list] {
        assert_eq!(other.as_str(), None);
        assert_eq!(other.as_bool(), None);
    }
    assert_eq!(text("a").as_sequence(), None);
    assert_eq!(text("a").as_mapping(), None);
    assert_eq!(text("a").get("a"), None);
    assert_eq!(DocValue::Null.get("a"), None);
}

#[test]
fn accessors_look_through_tags() {
    let deep = tagged("!a", tagged("!b", text("x")));
    assert_eq!(deep.untag(), &text("x"));
    assert_eq!(deep.as_str(), Some("x"));
    assert_eq!(tagged("!t", DocValue::Bool(false)).as_bool(), Some(false));
    let map = tagged("!m", DocValue::Mapping(vec![(text("k"), text("v"))]));
    assert_eq!(map.get("k"), Some(&text("v")));
    assert_eq!(tagged("!s", DocValue::Sequence(vec![])).as_sequence(), Some(&vec![]));
}

#[test]
fn lookup_matches_plain_text_keys_and_takes_the_first() {
    let entries = vec![
        (number("1"), text("number")),
        (tagged("!t", text("k")), text("tagged")),
        (text("k"), text("first")),
        (text("k"), text("second")),
        (text(""), text("empty")),
    ];
    assert_eq!(find_entry(&entries, "k"), Some(&text("first")));
    assert_eq!(find_entry(&entries, ""), Some(&text("empty")));
    assert_eq!(find_entry(&entries, "K"), None);
    assert_eq!(find_entry(&Vec::new(), "k"), None);
}
