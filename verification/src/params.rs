//! Reading the `parameters` arrays of an OpenAPI document.

use vstd::prelude::*;
use crate::command_tree::{params_view, ParamDef, ParamModel};
use crate::document::{
    deref_opt, entries_of, field_of, find_entry, items_of, lookup, owned_text, text_of, truth_of,
    DocValue,
};
use crate::slug::{flag_slug, normalize_flag};
use crate::text::{same_text, text_view};

verus! {

/// What a parameter's `schema` says: its type text, and whether the
/// parameter takes a list. For an array the type is that of the items, or
/// the text `array` where the items name none.
pub open spec fn schema_of(schema: Option<DocValue>) -> (Option<Seq<char>>, bool) {
    match entries_of(schema) {
        None => (None, false),
        Some(fields) => {
            let declared = text_of(lookup(fields, "type"@));
            if declared == Some("array"@) {
                match text_of(field_of(lookup(fields, "items"@), "type"@)) {
                    Some(item_type) => (Some(item_type), true),
                    None => (Some("array"@), true),
                }
            } else {
                (declared, false)
            }
        },
    }
}

/// The parameter that one item of a `parameters` array declares; `None`
/// where the item is no mapping or lacks a text `name` or a text `in`.
pub open spec fn param_of(item: DocValue) -> Option<ParamModel> {
    match item.entries() {
        None => None,
        Some(fields) => match (text_of(lookup(fields, "name"@)), text_of(lookup(fields, "in"@))) {
            (Some(name), Some(location)) => Some(
                ParamModel {
                    name,
                    flag: flag_slug(name),
                    location,
                    required: match truth_of(lookup(fields, "required"@)) {
                        Some(b) => b,
                        None => false,
                    },
                    list: schema_of(lookup(fields, "schema"@)).1,
                    schema_type: schema_of(lookup(fields, "schema"@)).0,
                    description: text_of(lookup(fields, "description"@)),
                },
            ),
            _ => None,
        },
    }
}

/// The parameters that a run of items declares, in order, malformed items left out.
pub open spec fn params_in(items: Seq<DocValue>) -> Seq<ParamModel>
    decreases items.len(),
{
    if items.len() == 0 {
        Seq::empty()
    } else {
        let head = params_in(items.drop_last());
        match param_of(items.last()) {
            Some(p) => head.push(p),
            None => head,
        }
    }
}

/// The parameters that a `parameters` value declares; none where the value
/// is missing or no sequence.
pub open spec fn params_of(value: Option<DocValue>) -> Seq<ParamModel> {
    match items_of(value) {
        Some(items) => params_in(items),
        None => Seq::empty(),
    }
}

/// Reads a parameter's `schema`: the type text to report and whether the
/// parameter takes a list.
pub fn parse_schema(value: Option<&DocValue>) -> (out: (Option<String>, bool))
    ensures
        (text_view(out.0), out.1) == schema_of(deref_opt(value)),
{
    let fields = match value {
        Some(d) => match d.as_mapping() {
            Some(fields) => fields,
            None => {
                return (None, false);
            },
        },
        None => {
            return (None, false);
        },
    };
    let declared = owned_text(find_entry(fields, "type"));
    let list = match &declared {
        Some(t) => same_text(t.as_str(), "array"),
        None => false,
    };
    if list {
        let item_type = match find_entry(fields, "items") {
            Some(items) => owned_text(items.get("type")),
            None => None,
        };
        match item_type {
            Some(t) => (Some(t), true),
            None => (Some("array".to_owned()), true),
        }
    } else {
        (declared, false)
    }
}

/// Reads one item of a `parameters` array.
fn parse_parameter(item: &DocValue) -> (out: Option<ParamDef>)
    ensures
        match out {
            Some(p) => param_of(*item) == Some(p@),
            None => param_of(*item) is None,
        },
{
    let fields = match item.as_mapping() {
        Some(fields) => fields,
        None => {
            return None;
        },
    };
    let name = owned_text(find_entry(fields, "name"));
    let location = owned_text(find_entry(fields, "in"));
    match (name, location) {
        (Some(name), Some(location)) => {
            let required = match find_entry(fields, "required") {
                Some(d) => match d.as_bool() {
                    Some(b) => b,
                    None => false,
                },
                None => false,
            };
            let description = owned_text(find_entry(fields, "description"));
            let (schema_type, list) = parse_schema(find_entry(fields, "schema"));
            let flag = normalize_flag(name.as_str());
            Some(ParamDef { name, flag, location, required, list, schema_type, description })
        },
        _ => None,
    }
}

/// Reads a `parameters` array: one parameter for each item that is a
/// mapping with a text `name` and a text `in`, in document order. Any other
/// item is passed over, and a missing or malformed array gives no parameters.
pub fn collect_parameters(value: Option<&DocValue>) -> (out: Vec<ParamDef>)
    ensures
        params_view(out@) == params_of(deref_opt(value)),
{
    let mut out: Vec<ParamDef> = Vec::new();
    let list = match value {
        Some(d) => match d.as_sequence() {
            Some(list) => list,
            None => {
                assert(params_view(out@) =~= Seq::<ParamModel>::empty());
                return out;
            },
        },
        None => {
            assert(params_view(out@) =~= Seq::<ParamModel>::empty());
            return out;
        },
    };
    let mut i: usize = 0;
    assert(list@.take(0) =~= Seq::<DocValue>::empty());
    assert(params_view(out@) =~= Seq::<ParamModel>::empty());
    while i < list.len()
        invariant
            i <= list.len(),
            params_view(out@) == params_in(list@.take(i as int)),
        decreases list.len() - i,
    {
        assert(list@.take(i + 1).drop_last() =~= list@.take(i as int));
        assert(list@.take(i + 1).last() == list@[i as int]);
        let ghost before = out@;
        match parse_parameter(&list[i]) {
            Some(p) => {
                out.push(p);
                assert(params_view(out@) =~= params_view(before).push(p@));
            },
            None => {},
        }
        i += 1;
    }
    assert(list@.take(i as int) =~= list@);
    out
}

} // verus!
