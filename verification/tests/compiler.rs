use cloudflare_cli::command_tree::{find_op, CommandTree, Operation, ParamDef, Resource};
use cloudflare_cli::document::DocValue;
use cloudflare_cli::merge::merge_parameters;
use cloudflare_cli::naming::unique_op_name;
use cloudflare_cli::openapi::{build_command_tree, compile_yaml, CompileError};
use cloudflare_cli::params::{collect_parameters, parse_schema};
use cloudflare_cli::version::parse_major_version;

fn text(s: &str) -> DocValue {
    DocValue::Text(s.to_string())
}

fn mapping(entries: Vec<(&str, DocValue)>) -> DocValue {
    DocValue::Mapping(entries.into_iter().map(|(k, v)| (text(k), v)).collect())
}

fn param(name: &str, location: &str, required: bool) -> ParamDef {
    ParamDef {
        name: name.to_string(),
        flag: name.replace('_', "-"),
        location: location.to_string(),
        required,
        list: false,
        schema_type: None,
        description: None,
    }
}

fn operation(name: &str) -> Operation {
    Operation {
        name: name.to_string(),
        display_name: name.to_string(),
        method: "GET".to_string(),
        path: "/".to_string(),
        summary: None,
        description: None,
        parameters: Vec::new(),
        has_body: false,
    }
}

fn resource(ops: Vec<&str>) -> Resource {
    Resource {
        name: "things".to_string(),
        display_name: "Things".to_string(),
        ops: ops.into_iter().map(operation).collect(),
    }
}

fn names(resource: &Resource) -> Vec<&str> {
    resource.ops.iter().map(|op| op.name.as_str()).collect()
}

const DNS_DOCUMENT: &str = "
openapi: 3.0.0
info:
  title: Example
  version: 4.0.0
servers:
  - url: https://api.example.com/client/v4
  - url: https://ignored.example.com
paths:
  /zones/{zone_id}/dns_records:
    parameters:
      - name: zone_id
        in: path
        required: true
        schema:
          type: string
    get:
      operationId: dns-records-list
      summary: List DNS records
      tags: [DNS]
      parameters:
        - name: per_page
          in: query
          schema:
            type: integer
    post:
      operationId: dns-records-create
      description: Create a DNS record
      tags: [DNS]
      requestBody:
        content: {}
";

#[test]
fn end_to_end_dns_records() {
    let tree = compile_yaml(DNS_DOCUMENT).unwrap();
    assert_eq!(tree.version, 4);
    assert_eq!(tree.endpoint, "https://api.example.com/client/v4");
    assert_eq!(tree.resources.len(), 1);
    let dns = &tree.resources[0];
    assert_eq!(dns.name, "dns");
    assert_eq!(dns.display_name, "DNS");
    assert_eq!(dns.ops.len(), 2);

    let list = &dns.ops[0];
    assert_eq!(list.name, "dns-records-list");
    assert_eq!(list.display_name, "dns-records-list");
    assert_eq!(list.method, "GET");
    assert_eq!(list.path, "/zones/{zone_id}/dns_records");
    assert_eq!(list.summary.as_deref(), Some("List DNS records"));
    assert_eq!(list.description, None);
    assert!(!list.has_body);
    assert_eq!(list.parameters.len(), 2);
    assert_eq!(list.parameters[0].name, "per_page");
    assert_eq!(list.parameters[0].flag, "per-page");
    assert_eq!(list.parameters[0].location, "query");
    assert!(!list.parameters[0].required);
    assert_eq!(list.parameters[0].schema_type.as_deref(), Some("integer"));
    assert_eq!(list.parameters[1].name, "zone_id");
    assert_eq!(list.parameters[1].flag, "zone-id");
    assert_eq!(list.parameters[1].location, "path");
    assert!(list.parameters[1].required);
    assert!(!list.parameters[1].list);
    assert_eq!(list.parameters[1].schema_type.as_deref(), Some("string"));

    let create = &dns.ops[1];
    assert_eq!(create.name, "dns-records-create");
    assert_eq!(create.method, "POST");
    assert_eq!(create.summary, None);
    assert_eq!(create.description.as_deref(), Some("Create a DNS record"));
    assert!(create.has_body);
    assert_eq!(create.parameters.len(), 1);
    assert_eq!(create.parameters[0].name, "zone_id");
    assert_eq!(create.parameters[0].location, "path");
    assert!(create.parameters[0].required);
}

#[test]
fn compiling_twice_gives_the_same_tree() {
    let first = compile_yaml(DNS_DOCUMENT).unwrap();
    let second = compile_yaml(DNS_DOCUMENT).unwrap();
    assert_eq!(first, second);
    let copy: CommandTree = first.clone();
    assert_eq!(copy, second);
}

#[test]
fn json_text_is_accepted() {
    let json = r#"{"info": {"version": "7.2"}, "paths": {"/a": {"get": {"tags": ["A"]}}}}"#;
    let tree = compile_yaml(json).unwrap();
    assert_eq!(tree.version, 7);
    assert_eq!(tree.endpoint, "https://api.cloudflare.com/client/v4");
    assert_eq!(tree.resources.len(), 1);
    assert_eq!(tree.resources[0].ops[0].name, "get-a");
    assert_eq!(tree.resources[0].ops[0].display_name, "get_/a");
    assert_eq!(tree.resources[0].ops[0].method, "GET");
}

#[test]
fn metadata_defaults() {
    let tree = compile_yaml("paths: {}").unwrap();
    assert_eq!(tree.version, 4);
    assert_eq!(tree.endpoint, "https://api.cloudflare.com/client/v4");
    assert!(tree.resources.is_empty());

    let numeric = compile_yaml("info: {version: 3}\nservers: []\npaths: {}").unwrap();
    assert_eq!(numeric.version, 4);
    assert_eq!(numeric.endpoint, "https://api.cloudflare.com/client/v4");

    let odd = compile_yaml("info: {version: v2.1}\nservers: [{url: 12}]\npaths: {}").unwrap();
    assert_eq!(odd.version, 4);
    assert_eq!(odd.endpoint, "https://api.cloudflare.com/client/v4");
}

#[test]
fn major_version_of_version_texts() {
    assert_eq!(parse_major_version("4.0.0"), Some(4));
    assert_eq!(parse_major_version("4"), Some(4));
    assert_eq!(parse_major_version("12.3"), Some(12));
    assert_eq!(parse_major_version("04.1"), Some(4));
    assert_eq!(parse_major_version("+4.1"), Some(4));
    assert_eq!(parse_major_version("4294967295.9"), Some(4294967295));
    assert_eq!(parse_major_version("4294967296"), None);
    assert_eq!(parse_major_version("99999999999999999999999"), None);
    assert_eq!(parse_major_version(""), None);
    assert_eq!(parse_major_version(".5"), None);
    assert_eq!(parse_major_version("+"), None);
    assert_eq!(parse_major_version("+.1"), None);
    assert_eq!(parse_major_version("-1.0"), None);
    assert_eq!(parse_major_version("v4.0"), None);
    assert_eq!(parse_major_version("4 .0"), None);
    assert_eq!(parse_major_version("4a"), None);
}

#[test]
fn every_compile_error() {
    assert_eq!(compile_yaml("paths: [unclosed"), Err(CompileError::InvalidYaml));
    assert_eq!(compile_yaml("info: {version: '1'}"), Err(CompileError::MissingPaths));
    assert_eq!(compile_yaml("paths: [a, b]"), Err(CompileError::MissingPaths));
    assert_eq!(compile_yaml("- just\n- a list"), Err(CompileError::MissingPaths));
    assert_eq!(compile_yaml("paths: {1: {}}"), Err(CompileError::PathKeyNotText));
    assert_eq!(compile_yaml("paths: {/a: 3}"), Err(CompileError::PathItemNotMapping));
    assert_eq!(compile_yaml("paths: {/a: {get: 3}}"), Err(CompileError::OperationNotMapping));
    assert_eq!(
        compile_yaml("paths: {/a: {get: {tags: [A]}}, /b: {head: []}}"),
        Err(CompileError::OperationNotMapping)
    );
    assert_eq!(
        compile_yaml("paths: {/a: {post: 1}, 2: {}}"),
        Err(CompileError::OperationNotMapping)
    );
}

#[test]
fn error_messages() {
    assert_eq!(CompileError::InvalidYaml.message(), "parse openapi yaml");
    assert_eq!(CompileError::MissingPaths.message(), "openapi missing paths");
    assert_eq!(CompileError::PathKeyNotText.message(), "path key must be string");
    assert_eq!(CompileError::PathItemNotMapping.message(), "path item must be mapping");
    assert_eq!(CompileError::OperationNotMapping.message(), "op must be mapping");
}

#[test]
fn document_built_by_hand() {
    let doc = mapping(vec![(
        "paths",
        mapping(vec![(
            "/zones",
            mapping(vec![(
                "get",
                mapping(vec![
                    ("operationId", text("listZones")),
                    ("tags", DocValue::Sequence(vec![text("Zones")])),
                ]),
            )]),
        )]),
    )]);
    let tree = build_command_tree(&doc).unwrap();
    assert_eq!(tree.resources.len(), 1);
    assert_eq!(tree.resources[0].name, "zones");
    assert_eq!(tree.resources[0].ops[0].name, "listzones");
    assert_eq!(tree.resources[0].ops[0].display_name, "listZones");

    assert_eq!(build_command_tree(&DocValue::Null), Err(CompileError::MissingPaths));
    let tagged = DocValue::Tagged("!doc".to_string(), Box::new(mapping(vec![("paths", mapping(vec![]))])));
    assert!(build_command_tree(&tagged).unwrap().resources.is_empty());
}

#[test]
fn tagged_keys_are_not_plain_keys() {
    let tree = compile_yaml("paths: {/a: {!x get: {tags: [A]}, post: !y {tags: [!z B, 5, C]}}}").unwrap();
    let resources: Vec<&str> = tree.resources.iter().map(|r| r.name.as_str()).collect();
    assert_eq!(resources, vec!["b", "c"]);
    assert_eq!(tree.resources[0].ops[0].method, "POST");
    assert_eq!(compile_yaml("paths: {!t /a: {get: 1}}"), Err(CompileError::OperationNotMapping));
}

#[test]
fn tag_fan_out() {
    let tree = compile_yaml(
        "paths: {/zones/dns: {get: {operationId: list, tags: [Zones, DNS]}}}",
    )
    .unwrap();
    assert_eq!(tree.resources.len(), 2);
    assert_eq!(tree.resources[0].name, "zones");
    assert_eq!(tree.resources[0].display_name, "Zones");
    assert_eq!(tree.resources[1].name, "dns");
    assert_eq!(tree.resources[1].display_name, "DNS");
    assert_eq!(names(&tree.resources[0]), vec!["list"]);
    assert_eq!(names(&tree.resources[1]), vec!["list"]);
    assert_eq!(tree.resources[0].ops[0], tree.resources[1].ops[0]);
}

#[test]
fn operation_without_tags_is_left_out() {
    let tree = compile_yaml(
        "paths: {/a: {get: {operationId: one}, post: {operationId: two, tags: []}, put: {operationId: three, tags: T}}}",
    )
    .unwrap();
    assert!(tree.resources.is_empty());
}

#[test]
fn resources_in_first_seen_order_and_tags_share_a_slug() {
    let tree = compile_yaml(
        "paths:
  /b:
    get: {operationId: first, tags: [Zone Settings]}
  /a:
    get: {operationId: second, tags: [Accounts]}
    delete: {operationId: third, tags: ['zone settings!']}
",
    )
    .unwrap();
    assert_eq!(tree.resources.len(), 2);
    assert_eq!(tree.resources[0].name, "zone-settings");
    assert_eq!(tree.resources[0].display_name, "Zone Settings");
    assert_eq!(names(&tree.resources[0]), vec!["first", "third"]);
    assert_eq!(tree.resources[1].name, "accounts");
    assert_eq!(names(&tree.resources[1]), vec!["second"]);
}

#[test]
fn methods_are_visited_in_a_fixed_order() {
    let tree = compile_yaml(
        "paths: {/a: {head: {tags: [T]}, options: {tags: [T]}, delete: {tags: [T]}, patch: {tags: [T]}, put: {tags: [T]}, post: {tags: [T]}, get: {tags: [T]}, trace: {tags: [T]}}}",
    )
    .unwrap();
    let methods: Vec<&str> = tree.resources[0].ops.iter().map(|op| op.method.as_str()).collect();
    assert_eq!(methods, vec!["GET", "POST", "PUT", "PATCH", "DELETE", "OPTIONS", "HEAD"]);
    assert_eq!(
        names(&tree.resources[0]),
        vec!["get-a", "post-a", "put-a", "patch-a", "delete-a", "options-a", "head-a"]
    );
}

#[test]
fn names_are_unique_in_a_compiled_tree() {
    let tree = compile_yaml(
        "paths:
  /a:
    get: {operationId: Get, tags: [T, t, 'T ']}
    post: {operationId: get, tags: [T]}
  /b:
    get: {operationId: 'get!', tags: [T]}
",
    )
    .unwrap();
    assert_eq!(tree.resources.len(), 1);
    assert_eq!(
        names(&tree.resources[0]),
        vec!["get", "get-get", "get-get-2", "get-post", "get-get-3"]
    );
    for resource in &tree.resources {
        for (i, a) in resource.ops.iter().enumerate() {
            for b in &resource.ops[i + 1..] {
                assert_ne!(a.name, b.name);
            }
        }
    }
}

#[test]
fn collision_resolution_two_collisions() {
    let mut res = resource(vec![]);
    let first = unique_op_name(&res, "get", "GET");
    assert_eq!(first, "get");
    res.ops.push(operation(&first));
    let second = unique_op_name(&res, "get", "POST");
    assert_eq!(second, "get-post");
    res.ops.push(operation(&second));
    let third = unique_op_name(&res, "get", "GET");
    assert_eq!(third, "get-get");
}

#[test]
fn collision_resolution_three_collisions() {
    let res = resource(vec!["get", "get-post", "get-get"]);
    assert_eq!(unique_op_name(&res, "get", "GET"), "get-get-2");
    assert_eq!(unique_op_name(&res, "get", "post"), "get-post-2");
    let more = resource(vec!["get", "get-get", "get-get-2", "get-get-3", "get-get-5"]);
    assert_eq!(unique_op_name(&more, "get", "get"), "get-get-4");
    let many: Vec<String> = (2..=11).map(|k| format!("x-put-{k}")).collect();
    let mut taken: Vec<&str> = vec!["x", "x-put"];
    taken.extend(many.iter().map(|s| s.as_str()));
    assert_eq!(unique_op_name(&resource(taken), "x", "PUT"), "x-put-12");
    assert_eq!(unique_op_name(&resource(vec!["", "-get"]), "", "get"), "-get-2");
}

#[test]
fn merge_override() {
    let merged = merge_parameters(vec![param("id", "path", false)], vec![param("id", "path", true)]);
    assert_eq!(merged.len(), 1);
    assert!(merged[0].required);
    assert_eq!(merged[0].name, "id");
    assert_eq!(merged[0].location, "path");
}

#[test]
fn merge_replaces_whole_entries_and_sorts_by_key() {
    let mut described = param("id", "path", false);
    described.description = Some("from the path".to_string());
    let base = vec![param("zone", "query", false), described, param("id", "query", true)];
    let overrides = vec![param("id", "path", true), param("Zone", "query", false), param("a", "header", false)];
    let merged = merge_parameters(base, overrides);
    let keys: Vec<(&str, &str)> =
        merged.iter().map(|p| (p.name.as_str(), p.location.as_str())).collect();
    assert_eq!(
        keys,
        vec![("Zone", "query"), ("a", "header"), ("id", "path"), ("id", "query"), ("zone", "query")]
    );
    assert!(merged[2].required);
    assert_eq!(merged[2].description, None);
    assert!(merged[3].required);

    let twice = merge_parameters(vec![param("x", "query", false), param("x", "query", true)], vec![]);
    assert_eq!(twice.len(), 1);
    assert!(twice[0].required);
    assert!(merge_parameters(vec![], vec![]).is_empty());
}

#[test]
fn array_schema_inference() {
    let with_items = mapping(vec![("type", text("array")), ("items", mapping(vec![("type", text("string"))]))]);
    assert_eq!(parse_schema(Some(&with_items)), (Some("string".to_string()), true));
    let without_items = mapping(vec![("type", text("array"))]);
    assert_eq!(parse_schema(Some(&without_items)), (Some("array".to_string()), true));
    let odd_items = mapping(vec![("type", text("array")), ("items", text("string"))]);
    assert_eq!(parse_schema(Some(&odd_items)), (Some("array".to_string()), true));
    let scalar = mapping(vec![("type", text("integer"))]);
    assert_eq!(parse_schema(Some(&scalar)), (Some("integer".to_string()), false));
    let untyped = mapping(vec![("format", text("int32"))]);
    assert_eq!(parse_schema(Some(&untyped)), (None, false));
    assert_eq!(parse_schema(Some(&text("array"))), (None, false));
    assert_eq!(parse_schema(None), (None, false));
}

#[test]
fn parameters_are_collected_and_malformed_ones_skipped() {
    let list = DocValue::Sequence(vec![
        mapping(vec![
            ("name", text("_ids")),
            ("in", text("query")),
            ("required", DocValue::Bool(true)),
            ("description", text("Identifiers")),
            ("schema", mapping(vec![("type", text("array")), ("items", mapping(vec![("type", text("string"))]))])),
        ]),
        mapping(vec![("name", text("nameless location"))]),
        mapping(vec![("in", text("query"))]),
        mapping(vec![("name", DocValue::Number("1".to_string())), ("in", text("query"))]),
        text("not a mapping"),
        mapping(vec![("name", text("X-Trace")), ("in", text("header")), ("required", text("yes"))]),
    ]);
    let params = collect_parameters(Some(&list));
    assert_eq!(params.len(), 2);
    assert_eq!(
        params[0],
        ParamDef {
            name: "_ids".to_string(),
            flag: "ids".to_string(),
            location: "query".to_string(),
            required: true,
            list: true,
            schema_type: Some("string".to_string()),
            description: Some("Identifiers".to_string()),
        }
    );
    assert_eq!(
        params[1],
        ParamDef {
            name: "X-Trace".to_string(),
            flag: "x-trace".to_string(),
            location: "header".to_string(),
            required: false,
            list: false,
            schema_type: None,
            description: None,
        }
    );
    assert!(collect_parameters(None).is_empty());
    assert!(collect_parameters(Some(&mapping(vec![]))).is_empty());
}

#[test]
fn find_op_by_names() {
    let tree = compile_yaml(DNS_DOCUMENT).unwrap();
    let found = find_op(&tree, "dns", "dns-records-create").unwrap();
    assert_eq!(found.method, "POST");
    assert!(find_op(&tree, "dns", "missing").is_none());
    assert!(find_op(&tree, "zones", "dns-records-create").is_none());
    assert!(find_op(&tree, "DNS", "dns-records-create").is_none());
}
