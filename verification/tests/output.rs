use cloudflare_cli::openapi::compile_yaml;
use cloudflare_cli::output::{
    describe_lines, format_output, http_failure, list_lines, select_output,
};

const DOCUMENT: &str = "
paths:
  /zones/{zone_id}:
    get:
      operationId: getZone
      summary: Zone details
      description: Everything about one zone
      tags: [Zones, Zone Settings]
      parameters:
        - {name: zone_id, in: path, required: true}
        - {name: X-Fields, in: header}
    delete:
      tags: [Zones]
";

#[test]
fn listing_of_a_tree() {
    let tree = compile_yaml(DOCUMENT).unwrap();
    assert_eq!(
        list_lines(&tree),
        vec![
            "zones (Zones)",
            "  getzone (getZone)",
            "  delete-zones-zone-id (delete_/zones/{zone_id})",
            "zone-settings (Zone Settings)",
            "  getzone (getZone)",
        ]
    );
    assert!(list_lines(&compile_yaml("paths: {}").unwrap()).is_empty());
}

#[test]
fn description_of_an_operation() {
    let tree = compile_yaml(DOCUMENT).unwrap();
    assert_eq!(
        describe_lines(&tree.resources[0].ops[0]),
        vec![
            "GET /zones/{zone_id}",
            "name: getZone",
            "summary: Zone details",
            "description: Everything about one zone",
            "params:",
            "  --x-fields (header, required: false)",
            "  --zone-id (path, required: true)",
        ]
    );
    assert_eq!(
        describe_lines(&tree.resources[0].ops[1]),
        vec!["DELETE /zones/{zone_id}", "name: delete_/zones/{zone_id}"]
    );
}

#[test]
fn result_is_unwrapped_unless_raw() {
    let body: serde_json::Value =
        serde_json::from_str(r#"{"success": true, "result": {"id": "z1"}}"#).unwrap();
    let result: serde_json::Value = serde_json::from_str(r#"{"id": "z1"}"#).unwrap();
    assert_eq!(format_output(&body, false), result);
    assert_eq!(format_output(&body, true), body);
    let bare: serde_json::Value = serde_json::from_str(r#"{"errors": []}"#).unwrap();
    assert_eq!(format_output(&bare, false), bare);
    let list: serde_json::Value = serde_json::from_str(r#"["result"]"#).unwrap();
    assert_eq!(format_output(&list, false), list);
    let null_result: serde_json::Value = serde_json::from_str(r#"{"result": null}"#).unwrap();
    assert_eq!(format_output(&null_result, false), serde_json::Value::Null);
}

#[test]
fn selection_for_each_case() {
    let body = serde_json::Value::String("body".to_string());
    let result = serde_json::Value::String("result".to_string());
    assert_eq!(select_output(&body, Some(&result), false), result);
    assert_eq!(select_output(&body, Some(&result), true), body);
    assert_eq!(select_output(&body, None, false), body);
    assert_eq!(select_output(&body, None, true), body);
}

#[test]
fn failure_statuses() {
    assert_eq!(http_failure(200), None);
    assert_eq!(http_failure(399), None);
    assert_eq!(http_failure(400), Some("http 400".to_string()));
    assert_eq!(http_failure(404), Some("http 404".to_string()));
    assert_eq!(http_failure(65535), Some("http 65535".to_string()));
    assert_eq!(http_failure(0), None);
}
