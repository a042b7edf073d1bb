//! What the command-line front end prints: the listing of a tree, the
//! description of one operation, and the part of an API response to show.

use vstd::prelude::*;
use vstd::string::StringExecFns;
use crate::command_tree::{
    CommandTree, Operation, OperationModel, ParamDef, ParamModel, ResourceModel,
};
use crate::text::{decimal, decimal_text, joined, text_view, texts_view};

verus! {

/// `serde_json::Value`, carried through as it is: nothing here looks inside.
#[verifier::external_type_specification]
#[verifier::external_body]
pub struct ExJsonValue(serde_json::Value);

/// The member that `serde_json::Value::get` finds under the text `key`:
/// the value under that key where `value` is an object that has it.
pub uninterp spec fn json_member(value: serde_json::Value, key: Seq<char>) -> Option<
    serde_json::Value,
>;

/// `serde_json::Value::get` with a text index.
#[verifier::external_body]
fn json_get<'a>(value: &'a serde_json::Value, key: &str) -> (found: Option<&'a serde_json::Value>)
    ensures
        match found {
            Some(member) => json_member(*value, key@) == Some(*member),
            None => json_member(*value, key@) is None,
        },
{
    value.get(key)
}

/// `Clone::clone` of a `serde_json::Value`: an equal value.
#[verifier::external_body]
fn json_clone(value: &serde_json::Value) -> (copy: serde_json::Value)
    ensures
        copy == *value,
{
    value.clone()
}

/// Of a response body and its member `result`, the part to show: the body
/// itself where `raw` is asked for or there is no such member, else the member.
pub open spec fn part_to_show(
    body: serde_json::Value,
    result: Option<serde_json::Value>,
    raw: bool,
) -> serde_json::Value {
    if raw {
        body
    } else {
        match result {
            Some(result) => result,
            None => body,
        }
    }
}

/// The part of a response body to show, the member looked up in the body.
pub open spec fn shown_part(body: serde_json::Value, raw: bool) -> serde_json::Value {
    part_to_show(body, json_member(body, "result"@), raw)
}

/// The model of an optional value behind a reference.
pub open spec fn deref_json(v: Option<&serde_json::Value>) -> Option<serde_json::Value> {
    match v {
        Some(value) => Some(*value),
        None => None,
    }
}

/// Picks the part to show of a response body whose member `result`, if it
/// has one, is `result`.
pub fn select_output(body: &serde_json::Value, result: Option<&serde_json::Value>, raw: bool) -> (out:
    serde_json::Value)
    ensures
        out == part_to_show(*body, deref_json(result), raw),
{
    if raw {
        return json_clone(body);
    }
    match result {
        Some(result) => json_clone(result),
        None => json_clone(body),
    }
}

/// Picks the part of a response body to show. API responses wrap their
/// payload in an envelope; unless `raw` is set, only the payload under
/// `result` is shown, where there is one.
pub fn format_output(body: &serde_json::Value, raw: bool) -> (out: serde_json::Value)
    ensures
        out == shown_part(*body, raw),
{
    select_output(body, json_get(body, "result"), raw)
}

/// The message for a response whose status reports a failure: `http` and
/// the status, for every status from 400 on.
pub open spec fn failure_text(status: u16) -> Option<Seq<char>> {
    if status >= 400 {
        Some("http "@ + decimal(status as nat))
    } else {
        None
    }
}

/// The error to report for a response with this status, if it is one.
pub fn http_failure(status: u16) -> (out: Option<String>)
    ensures
        text_view(out) == failure_text(status),
{
    if status >= 400 {
        let number = decimal_text(status as u128);
        Some(joined("http ", number.as_str()))
    } else {
        None
    }
}

/// One line of a listing: `indent`, the name, and the display name in brackets.
pub open spec fn labelled(indent: Seq<char>, name: Seq<char>, display: Seq<char>) -> Seq<char> {
    indent + name + " ("@ + display + ")"@
}

/// The lines for the operations of a resource, each indented by two spaces.
pub open spec fn operation_lines(ops: Seq<OperationModel>) -> Seq<Seq<char>> {
    Seq::new(ops.len(), |i: int| labelled("  "@, ops[i].name, ops[i].display_name))
}

/// The lines for a resource: its own, then those of its operations.
pub open spec fn resource_lines(resource: ResourceModel) -> Seq<Seq<char>> {
    seq![labelled(Seq::empty(), resource.name, resource.display_name)] + operation_lines(
        resource.ops,
    )
}

/// The lines for a run of resources, in order.
pub open spec fn listing(resources: Seq<ResourceModel>) -> Seq<Seq<char>>
    decreases resources.len(),
{
    if resources.len() == 0 {
        Seq::empty()
    } else {
        listing(resources.drop_last()) + resource_lines(resources.last())
    }
}

/// `true` or `false`.
pub open spec fn bool_text(b: bool) -> Seq<char> {
    if b {
        "true"@
    } else {
        "false"@
    }
}

/// The line that describes one parameter.
pub open spec fn param_line(p: ParamModel) -> Seq<char> {
    "  --"@ + p.flag + " ("@ + p.location + ", required: "@ + bool_text(p.required) + ")"@
}

/// An optional text under a label, as no line or one.
pub open spec fn optional_line(label: Seq<char>, text: Option<Seq<char>>) -> Seq<Seq<char>> {
    match text {
        Some(t) => seq![label + t],
        None => Seq::empty(),
    }
}

/// The lines for the parameters of an operation: none where it has no
/// parameter, else a heading and one line for each.
pub open spec fn param_lines(params: Seq<ParamModel>) -> Seq<Seq<char>> {
    if params.len() == 0 {
        Seq::empty()
    } else {
        seq!["params:"@] + Seq::new(params.len(), |i: int| param_line(params[i]))
    }
}

/// The lines that describe an operation: method and path, its display
/// name, its summary and description where it has them, and its parameters.
pub open spec fn description(op: OperationModel) -> Seq<Seq<char>> {
    seq![op.method + " "@ + op.path, "name: "@ + op.display_name] + optional_line(
        "summary: "@,
        op.summary,
    ) + optional_line("description: "@, op.description) + param_lines(op.parameters)
}

fn label_line(indent: &str, name: &str, display: &str) -> (out: String)
    ensures
        out@ == labelled(indent@, name@, display@),
{
    let mut out = joined(indent, name);
    out.append(" (");
    out.append(display);
    out.append(")");
    out
}

/// The listing of a tree, one line per resource and, indented under it,
/// one line per operation.
pub fn list_lines(tree: &CommandTree) -> (out: Vec<String>)
    ensures
        texts_view(out@) == listing(tree@.resources),
{
    let ghost resources = tree@.resources;
    let mut out: Vec<String> = Vec::new();
    let mut i: usize = 0;
    assert(resources.take(0) =~= Seq::<ResourceModel>::empty());
    assert(texts_view(out@) =~= Seq::<Seq<char>>::empty());
    while i < tree.resources.len()
        invariant
            i <= tree.resources.len(),
            resources == tree@.resources,
            resources.len() == tree.resources.len(),
            texts_view(out@) == listing(resources.take(i as int)),
        decreases tree.resources.len() - i,
    {
        let res = &tree.resources[i];
        assert(resources.take(i + 1).drop_last() =~= resources.take(i as int));
        assert(resources.take(i + 1).last() == res@);
        let ghost before = texts_view(out@);
        proof {
            reveal_strlit("");
            assert(""@ =~= Seq::<char>::empty());
        }
        out.push(label_line("", res.name.as_str(), res.display_name.as_str()));
        let ghost head = texts_view(out@);
        assert(head =~= before + seq![labelled(Seq::empty(), res@.name, res@.display_name)]);
        let mut j: usize = 0;
        while j < res.ops.len()
            invariant
                j <= res.ops.len(),
                texts_view(out@) == head + operation_lines(res@.ops).take(j as int),
            decreases res.ops.len() - j,
        {
            let op = &res.ops[j];
            let ghost so_far = texts_view(out@);
            out.push(label_line("  ", op.name.as_str(), op.display_name.as_str()));
            assert(res@.ops[j as int] == op@);
            assert(texts_view(out@) =~= so_far.push(operation_lines(res@.ops)[j as int]));
            assert(operation_lines(res@.ops).take(j + 1) =~= operation_lines(res@.ops).take(
                j as int,
            ).push(operation_lines(res@.ops)[j as int]));
            j += 1;
        }
        assert(operation_lines(res@.ops).take(j as int) =~= operation_lines(res@.ops));
        assert(texts_view(out@) =~= before + resource_lines(res@));
        i += 1;
    }
    assert(resources.take(i as int) =~= resources);
    out
}

fn parameter_line(p: &ParamDef) -> (out: String)
    ensures
        out@ == param_line(p@),
{
    let mut out = joined("  --", p.flag.as_str());
    out.append(" (");
    out.append(p.location.as_str());
    out.append(", required: ");
    if p.required {
        out.append("true");
    } else {
        out.append("false");
    }
    out.append(")");
    out
}

/// The description of one operation, line by line.
pub fn describe_lines(op: &Operation) -> (out: Vec<String>)
    ensures
        texts_view(out@) == description(op@),
{
    let mut out: Vec<String> = Vec::new();
    let mut first = joined(op.method.as_str(), " ");
    first.append(op.path.as_str());
    out.push(first);
    out.push(joined("name: ", op.display_name.as_str()));
    assert(texts_view(out@) =~= seq![op@.method + " "@ + op@.path, "name: "@ + op@.display_name]);
    let ghost before = texts_view(out@);
    match &op.summary {
        Some(summary) => {
            out.push(joined("summary: ", summary.as_str()));
        },
        None => {},
    }
    assert(texts_view(out@) =~= before + optional_line("summary: "@, op@.summary));
    let ghost before = texts_view(out@);
    match &op.description {
        Some(text) => {
            out.push(joined("description: ", text.as_str()));
        },
        None => {},
    }
    assert(texts_view(out@) =~= before + optional_line("description: "@, op@.description));
    let ghost head = texts_view(out@);
    if op.parameters.len() > 0 {
        out.push("params:".to_owned());
        let ghost lines = Seq::new(op@.parameters.len(), |i: int| param_line(op@.parameters[i]));
        let ghost start = texts_view(out@);
        assert(start =~= head + seq!["params:"@]);
        let mut i: usize = 0;
        while i < op.parameters.len()
            invariant
                i <= op.parameters.len(),
                lines == Seq::new(op@.parameters.len(), |i: int| param_line(op@.parameters[i])),
                lines.len() == op.parameters.len(),
                texts_view(out@) == start + lines.take(i as int),
            decreases op.parameters.len() - i,
        {
            let ghost so_far = texts_view(out@);
            out.push(parameter_line(&op.parameters[i]));
            assert(op@.parameters[i as int] == op.parameters@[i as int]@);
            assert(texts_view(out@) =~= so_far.push(lines[i as int]));
            assert(lines.take(i + 1) =~= lines.take(i as int).push(lines[i as int]));
            i += 1;
        }
        assert(lines.take(i as int) =~= lines);
        assert(texts_view(out@) =~= head + param_lines(op@.parameters));
    } else {
        assert(texts_view(out@) =~= head + param_lines(op@.parameters));
    }
    out
}

} // verus!
