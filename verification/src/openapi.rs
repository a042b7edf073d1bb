//! The compiler from an OpenAPI document to a command tree.

use vstd::prelude::*;
use crate::command_tree::{
    clone_params, find_resource, lemma_name_position, name_position, op_names,
    pairwise_distinct, params_view, resource_names, resources_view, well_formed, CommandTree,
    Operation, OperationModel, ParamDef, ParamModel, Resource, ResourceModel, TreeModel,
};
use crate::document::{
    entries_of, field_of, find_entry, first_of, items_of, lookup, owned_text, text_of, DocValue,
};
use crate::merge::{merge_parameters, merged};
use crate::naming::{lemma_unique_name_free, unique_name, unique_op_name};
use crate::params::{collect_parameters, params_of};
use crate::slug::{normalize_name, slug};
use crate::text::{clone_text, joined, to_upper, uppered};
use crate::version::{major_version, parse_major_version};
use crate::yaml::{parse_document, yaml_document};

verus! {

/// Why a document cannot be compiled.
#[derive(Debug, Clone, Copy, PartialEq, Eq, Structural)]
pub enum CompileError {
    /// The text is not valid YAML.
    InvalidYaml,
    /// The document has no `paths` mapping.
    MissingPaths,
    /// A key under `paths` is not a text.
    PathKeyNotText,
    /// The value of a path is not a mapping.
    PathItemNotMapping,
    /// The value under a method of a path is not a mapping.
    OperationNotMapping,
}

impl CompileError {
    /// The message for each error.
    pub open spec fn message_text(self) -> Seq<char> {
        match self {
            CompileError::InvalidYaml => "parse openapi yaml"@,
            CompileError::MissingPaths => "openapi missing paths"@,
            CompileError::PathKeyNotText => "path key must be string"@,
            CompileError::PathItemNotMapping => "path item must be mapping"@,
            CompileError::OperationNotMapping => "op must be mapping"@,
        }
    }

    /// A one-line description of the error.
    pub fn message(&self) -> (out: String)
        ensures
            out@ == self.message_text(),
    {
        match self {
            CompileError::InvalidYaml => "parse openapi yaml".to_owned(),
            CompileError::MissingPaths => "openapi missing paths".to_owned(),
            CompileError::PathKeyNotText => "path key must be string".to_owned(),
            CompileError::PathItemNotMapping => "path item must be mapping".to_owned(),
            CompileError::OperationNotMapping => "op must be mapping".to_owned(),
        }
    }
}

/// The base URL used where the document names no server.
pub open spec fn default_endpoint() -> Seq<char> {
    "https://api.cloudflare.com/client/v4"@
}

/// The major version used where the document states none.
pub open spec fn default_version() -> u32 {
    4
}

/// The base URL of the API: the `url` of the first entry of `servers`.
pub open spec fn endpoint_of(doc: DocValue) -> Seq<char> {
    match text_of(field_of(first_of(doc.field("servers"@)), "url"@)) {
        Some(url) => url,
        None => default_endpoint(),
    }
}

/// The major version of the API, read from `info.version`.
pub open spec fn version_of(doc: DocValue) -> u32 {
    match text_of(field_of(doc.field("info"@), "version"@)) {
        Some(text) => match major_version(text) {
            Some(major) => major,
            None => default_version(),
        },
        None => default_version(),
    }
}

/// The HTTP methods looked for under each path, in the order they are visited.
pub open spec fn methods() -> Seq<Seq<char>> {
    seq!["get"@, "post"@, "put"@, "patch"@, "delete"@, "options"@, "head"@]
}

/// The identifier of an operation: its `operationId`, or `method_path`.
pub open spec fn operation_id(
    fields: Seq<(DocValue, DocValue)>,
    method: Seq<char>,
    path: Seq<char>,
) -> Seq<char> {
    match text_of(lookup(fields, "operationId"@)) {
        Some(id) => id,
        None => method + seq!['_'] + path,
    }
}

/// The tags of an operation; none where `tags` is missing or no sequence.
pub open spec fn tags_of(fields: Seq<(DocValue, DocValue)>) -> Seq<DocValue> {
    match items_of(lookup(fields, "tags"@)) {
        Some(tags) => tags,
        None => Seq::empty(),
    }
}

/// The operation that `method` declares under `path`, before it joins a
/// resource: `name` holds its base name, the slug of its identifier.
pub open spec fn draft_of(
    path: Seq<char>,
    path_params: Seq<ParamModel>,
    method: Seq<char>,
    fields: Seq<(DocValue, DocValue)>,
) -> OperationModel {
    OperationModel {
        name: slug(operation_id(fields, method, path)),
        display_name: operation_id(fields, method, path),
        method: uppered(method),
        path,
        summary: text_of(lookup(fields, "summary"@)),
        description: text_of(lookup(fields, "description"@)),
        parameters: merged(path_params, params_of(lookup(fields, "parameters"@))),
        has_body: lookup(fields, "requestBody"@) is Some,
    }
}

/// `resource` with `draft` appended under the name that [`unique_name`] picks.
pub open spec fn with_operation(
    resource: ResourceModel,
    draft: OperationModel,
    method: Seq<char>,
) -> ResourceModel {
    ResourceModel {
        name: resource.name,
        display_name: resource.display_name,
        ops: resource.ops.push(
            OperationModel {
                name: unique_name(op_names(resource.ops), draft.name, method),
                display_name: draft.display_name,
                method: draft.method,
                path: draft.path,
                summary: draft.summary,
                description: draft.description,
                parameters: draft.parameters,
                has_body: draft.has_body,
            },
        ),
    }
}

/// `resources` after `draft` joined the resource of `tag`: the first
/// resource named by the tag's slug, or a new last resource with that name
/// and the tag as its display name.
pub open spec fn add_under_tag(
    resources: Seq<ResourceModel>,
    tag: Seq<char>,
    draft: OperationModel,
    method: Seq<char>,
) -> Seq<ResourceModel> {
    let at = name_position(resource_names(resources), slug(tag));
    if at < resources.len() {
        resources.update(at, with_operation(resources[at], draft, method))
    } else {
        resources.push(
            with_operation(
                ResourceModel { name: slug(tag), display_name: tag, ops: Seq::empty() },
                draft,
                method,
            ),
        )
    }
}

/// `resources` after `draft` joined the resource of each text among
/// `tags[from..]`, in order.
pub open spec fn add_under_tags(
    resources: Seq<ResourceModel>,
    tags: Seq<DocValue>,
    from: int,
    draft: OperationModel,
    method: Seq<char>,
) -> Seq<ResourceModel>
    decreases tags.len() - from,
{
    if from < 0 || from >= tags.len() {
        resources
    } else {
        let next = match tags[from].text() {
            Some(tag) => add_under_tag(resources, tag, draft, method),
            None => resources,
        };
        add_under_tags(next, tags, from + 1, draft, method)
    }
}

/// `resources` after the operation that `method` declares in the path item
/// `item`, if any, joined the resources of its tags.
pub open spec fn add_method(
    resources: Seq<ResourceModel>,
    path: Seq<char>,
    path_params: Seq<ParamModel>,
    item: Seq<(DocValue, DocValue)>,
    method: Seq<char>,
) -> Result<Seq<ResourceModel>, CompileError> {
    match lookup(item, method) {
        None => Ok(resources),
        Some(op) => match op.entries() {
            None => Err(CompileError::OperationNotMapping),
            Some(fields) => Ok(
                add_under_tags(
                    resources,
                    tags_of(fields),
                    0,
                    draft_of(path, path_params, method, fields),
                    method,
                ),
            ),
        },
    }
}

/// [`add_method`] for each of `methods()[from..]`, in order, up to the first error.
pub open spec fn add_methods(
    resources: Seq<ResourceModel>,
    path: Seq<char>,
    path_params: Seq<ParamModel>,
    item: Seq<(DocValue, DocValue)>,
    from: int,
) -> Result<Seq<ResourceModel>, CompileError>
    decreases methods().len() - from,
{
    if from < 0 || from >= methods().len() {
        Ok(resources)
    } else {
        match add_method(resources, path, path_params, item, methods()[from]) {
            Ok(next) => add_methods(next, path, path_params, item, from + 1),
            Err(e) => Err(e),
        }
    }
}

/// `resources` after every operation of one entry of `paths` was added.
pub open spec fn add_path(resources: Seq<ResourceModel>, key: DocValue, item: DocValue) -> Result<
    Seq<ResourceModel>,
    CompileError,
> {
    match key.text() {
        None => Err(CompileError::PathKeyNotText),
        Some(path) => match item.entries() {
            None => Err(CompileError::PathItemNotMapping),
            Some(fields) => add_methods(
                resources,
                path,
                params_of(lookup(fields, "parameters"@)),
                fields,
                0,
            ),
        },
    }
}

/// [`add_path`] for each of `paths[from..]`, in document order, up to the first error.
pub open spec fn add_paths(
    resources: Seq<ResourceModel>,
    paths: Seq<(DocValue, DocValue)>,
    from: int,
) -> Result<Seq<ResourceModel>, CompileError>
    decreases paths.len() - from,
{
    if from < 0 || from >= paths.len() {
        Ok(resources)
    } else {
        match add_path(resources, paths[from].0, paths[from].1) {
            Ok(next) => add_paths(next, paths, from + 1),
            Err(e) => Err(e),
        }
    }
}

/// The command tree of a document, or the first error met in document order.
pub open spec fn compiled(doc: DocValue) -> Result<TreeModel, CompileError> {
    match entries_of(doc.field("paths"@)) {
        None => Err(CompileError::MissingPaths),
        Some(paths) => match add_paths(Seq::empty(), paths, 0) {
            Ok(resources) => Ok(
                TreeModel { version: version_of(doc), endpoint: endpoint_of(doc), resources },
            ),
            Err(e) => Err(e),
        },
    }
}

/// Whether `out` is what compiling `doc` must return.
pub open spec fn compiles_to(doc: DocValue, out: Result<CommandTree, CompileError>) -> bool {
    match out {
        Ok(tree) => compiled(doc) == Ok::<TreeModel, CompileError>(tree@),
        Err(e) => compiled(doc) == Err::<TreeModel, CompileError>(e),
    }
}

fn read_endpoint(doc: &DocValue) -> (out: String)
    ensures
        out@ == endpoint_of(*doc),
{
    let first = match doc.get("servers") {
        Some(servers) => match servers.as_sequence() {
            Some(list) => if list.len() > 0 {
                Some(&list[0])
            } else {
                None
            },
            None => None,
        },
        None => None,
    };
    let url = match first {
        Some(server) => owned_text(server.get("url")),
        None => None,
    };
    match url {
        Some(url) => url,
        None => "https://api.cloudflare.com/client/v4".to_owned(),
    }
}

fn read_version(doc: &DocValue) -> (out: u32)
    ensures
        out == version_of(*doc),
{
    let text = match doc.get("info") {
        Some(info) => info.get("version"),
        None => None,
    };
    let major = match text {
        Some(v) => match v.as_str() {
            Some(t) => parse_major_version(t),
            None => None,
        },
        None => None,
    };
    match major {
        Some(major) => major,
        None => 4,
    }
}

fn method_name(k: usize) -> (name: &'static str)
    requires
        k < 7,
    ensures
        name@ == methods()[k as int],
{
    if k == 0 {
        "get"
    } else if k == 1 {
        "post"
    } else if k == 2 {
        "put"
    } else if k == 3 {
        "patch"
    } else if k == 4 {
        "delete"
    } else if k == 5 {
        "options"
    } else {
        "head"
    }
}

/// Reads the operation that `method` declares under `path`, unnamed as yet.
fn read_draft(
    path: &str,
    path_params: &Vec<ParamDef>,
    method: &str,
    fields: &Vec<(DocValue, DocValue)>,
) -> (out: Operation)
    ensures
        out@ == draft_of(path@, params_view(path_params@), method@, fields@),
{
    let op_id = match owned_text(find_entry(fields, "operationId")) {
        Some(id) => id,
        None => {
            proof {
                reveal_strlit("_");
                assert("_"@ =~= seq!['_']);
            }
            let stem = joined(method, "_");
            joined(stem.as_str(), path)
        },
    };
    let summary = owned_text(find_entry(fields, "summary"));
    let description = owned_text(find_entry(fields, "description"));
    let op_params = collect_parameters(find_entry(fields, "parameters"));
    let parameters = merge_parameters(clone_params(path_params), op_params);
    let has_body = find_entry(fields, "requestBody").is_some();
    Operation {
        name: normalize_name(op_id.as_str()),
        display_name: op_id,
        method: to_upper(method),
        path: path.to_owned(),
        summary,
        description,
        parameters,
        has_body,
    }
}

/// Adds `draft` to the resource of `tag`, making the resource where it is new.
fn add_operation(resources: &mut Vec<Resource>, tag: &str, draft: &Operation, method: &str)
    ensures
        resources_view(final(resources)@) == add_under_tag(
            resources_view(old(resources)@),
            tag@,
            draft@,
            method@,
        ),
{
    let ghost before = resources_view(resources@);
    let res_name = normalize_name(tag);
    let at = find_resource(resources, res_name.as_str());
    if at == resources.len() {
        resources.push(Resource { name: res_name, display_name: tag.to_owned(), ops: Vec::new() });
    }
    let ghost target = resources@[at as int]@;
    assert(target == if at < before.len() {
        before[at as int]
    } else {
        ResourceModel { name: slug(tag@), display_name: tag@, ops: Seq::empty() }
    }) by {
        if at == before.len() {
            assert(target.ops =~= Seq::<OperationModel>::empty());
        }
    }
    let ghost middle = resources@;
    let name = unique_op_name(&resources[at], draft.name.as_str(), method);
    let op = Operation {
        name,
        display_name: draft.display_name.clone(),
        method: draft.method.clone(),
        path: draft.path.clone(),
        summary: clone_text(&draft.summary),
        description: clone_text(&draft.description),
        parameters: clone_params(&draft.parameters),
        has_body: draft.has_body,
    };
    resources[at].ops.push(op);
    proof {
        let after = resources_view(resources@);
        let grown = with_operation(target, draft@, method@);
        assert(resources@[at as int]@.ops =~= grown.ops);
        assert(resources@[at as int]@ == grown);
        assert forall|j: int| 0 <= j < resources@.len() && j != at implies resources@[j]
            == middle[j] by {}
        assert(after =~= add_under_tag(before, tag@, draft@, method@));
    }
}

/// Adds `draft` to the resource of each text among `tags`, in order.
fn add_operations(
    resources: &mut Vec<Resource>,
    tags: &Vec<DocValue>,
    draft: &Operation,
    method: &str,
)
    ensures
        resources_view(final(resources)@) == add_under_tags(
            resources_view(old(resources)@),
            tags@,
            0,
            draft@,
            method@,
        ),
{
    let ghost before = resources_view(resources@);
    let mut i: usize = 0;
    while i < tags.len()
        invariant
            i <= tags.len(),
            add_under_tags(resources_view(resources@), tags@, i as int, draft@, method@)
                == add_under_tags(before, tags@, 0, draft@, method@),
        decreases tags.len() - i,
    {
        match tags[i].as_str() {
            Some(tag) => {
                add_operation(resources, tag, draft, method);
            },
            None => {},
        }
        i += 1;
    }
}

/// Adds the operation that `method` declares in `item`, if there is one.
fn add_method_operations(
    resources: &mut Vec<Resource>,
    path: &str,
    path_params: &Vec<ParamDef>,
    item: &Vec<(DocValue, DocValue)>,
    method: &str,
) -> (out: Result<(), CompileError>)
    ensures
        match out {
            Ok(_) => add_method(
                resources_view(old(resources)@),
                path@,
                params_view(path_params@),
                item@,
                method@,
            ) == Ok::<Seq<ResourceModel>, CompileError>(resources_view(final(resources)@)),
            Err(e) => add_method(
                resources_view(old(resources)@),
                path@,
                params_view(path_params@),
                item@,
                method@,
            ) == Err::<Seq<ResourceModel>, CompileError>(e),
        },
{
    let op = match find_entry(item, method) {
        Some(op) => op,
        None => {
            return Ok(());
        },
    };
    let fields = match op.as_mapping() {
        Some(fields) => fields,
        None => {
            return Err(CompileError::OperationNotMapping);
        },
    };
    let draft = read_draft(path, path_params, method, fields);
    match find_entry(fields, "tags") {
        Some(tags) => match tags.as_sequence() {
            Some(tags) => {
                add_operations(resources, tags, &draft, method);
            },
            None => {},
        },
        None => {},
    }
    Ok(())
}

/// Adds every operation of one entry of `paths`.
fn add_path_operations(resources: &mut Vec<Resource>, key: &DocValue, item: &DocValue) -> (out:
    Result<(), CompileError>)
    ensures
        match out {
            Ok(_) => add_path(resources_view(old(resources)@), *key, *item) == Ok::<
                Seq<ResourceModel>,
                CompileError,
            >(resources_view(final(resources)@)),
            Err(e) => add_path(resources_view(old(resources)@), *key, *item) == Err::<
                Seq<ResourceModel>,
                CompileError,
            >(e),
        },
{
    let ghost before = resources_view(resources@);
    let path = match key.as_str() {
        Some(path) => path,
        None => {
            return Err(CompileError::PathKeyNotText);
        },
    };
    let fields = match item.as_mapping() {
        Some(fields) => fields,
        None => {
            return Err(CompileError::PathItemNotMapping);
        },
    };
    let path_params = collect_parameters(find_entry(fields, "parameters"));
    let ghost shared = params_view(path_params@);
    let mut k: usize = 0;
    while k < 7
        invariant
            k <= 7,
            methods().len() == 7,
            shared == params_view(path_params@),
            before == resources_view(old(resources)@),
            add_path(before, *key, *item) == add_methods(before, path@, shared, fields@, 0),
            add_methods(resources_view(resources@), path@, shared, fields@, k as int)
                == add_methods(before, path@, shared, fields@, 0),
        decreases 7 - k,
    {
        let method = method_name(k);
        match add_method_operations(resources, path, &path_params, fields, method) {
            Ok(_) => {},
            Err(e) => {
                return Err(e);
            },
        }
        k += 1;
    }
    Ok(())
}

/// Compiles a parsed OpenAPI document into a command tree.
///
/// The endpoint is the `url` of the first server and the version the major
/// part of `info.version`, each with a fixed default. Every path is visited
/// in document order and under it the methods get, post, put, patch, delete,
/// options and head in that order; each operation found joins the resource
/// of each of its tags under a name that is unique there. Resources stand in
/// the order in which their tags were first seen. An operation without tags
/// is left out.
///
/// Fails where `paths` is missing or no mapping, a path's key is no text, a
/// path's value is no mapping, or a method's value is no mapping: the first
/// such fault in document order decides the error.
pub fn build_command_tree(doc: &DocValue) -> (out: Result<CommandTree, CompileError>)
    ensures
        compiles_to(*doc, out),
        out matches Ok(tree) ==> tree@.well_formed(),
{
    proof {
        lemma_compiled_well_formed(*doc);
    }
    let endpoint = read_endpoint(doc);
    let version = read_version(doc);
    let paths = match doc.get("paths") {
        Some(paths) => match paths.as_mapping() {
            Some(paths) => paths,
            None => {
                return Err(CompileError::MissingPaths);
            },
        },
        None => {
            return Err(CompileError::MissingPaths);
        },
    };
    let mut resources: Vec<Resource> = Vec::new();
    assert(resources_view(resources@) =~= Seq::<ResourceModel>::empty());
    let mut i: usize = 0;
    while i < paths.len()
        invariant
            i <= paths.len(),
            entries_of(doc.field("paths"@)) == Some(paths@),
            add_paths(resources_view(resources@), paths@, i as int) == add_paths(
                Seq::empty(),
                paths@,
                0,
            ),
        decreases paths.len() - i,
    {
        match add_path_operations(&mut resources, &paths[i].0, &paths[i].1) {
            Ok(_) => {},
            Err(e) => {
                return Err(e);
            },
        }
        i += 1;
    }
    Ok(CommandTree { version, endpoint, resources })
}

/// What compiling a text must return: the tree of the document that the
/// YAML parser reads from it, `InvalidYaml` where the parser rejects it.
pub open spec fn text_compiles_to(text: Seq<char>, out: Result<CommandTree, CompileError>) -> bool {
    match yaml_document(text) {
        Some(doc) => compiles_to(doc, out),
        None => out == Err::<CommandTree, CompileError>(CompileError::InvalidYaml),
    }
}

/// Compiles the text of an OpenAPI description, in YAML or JSON, into a
/// command tree: the text is parsed, and the document compiled by
/// [`build_command_tree`].
pub fn compile_yaml(text: &str) -> (out: Result<CommandTree, CompileError>)
    ensures
        text_compiles_to(text@, out),
        out matches Ok(tree) ==> tree@.well_formed(),
{
    match parse_document(text) {
        Some(doc) => build_command_tree(&doc),
        None => Err(CompileError::InvalidYaml),
    }
}

/// An operation that joins a resource never takes a name that is in use there.
pub proof fn lemma_with_operation_distinct(
    resource: ResourceModel,
    draft: OperationModel,
    method: Seq<char>,
)
    requires
        pairwise_distinct(op_names(resource.ops)),
    ensures
        pairwise_distinct(op_names(with_operation(resource, draft, method).ops)),
{
    let names = op_names(resource.ops);
    let grown = op_names(with_operation(resource, draft, method).ops);
    lemma_unique_name_free(names, draft.name, method);
    assert forall|i: int, j: int| 0 <= i < j < grown.len() implies grown[i] != grown[j] by {
        assert(grown[i] == names[i]);
        if j < names.len() {
            assert(grown[j] == names[j]);
        } else {
            assert(names.contains(names[i]));
        }
    }
}

/// Adding an operation under a tag keeps resource names and, within each
/// resource, operation names pairwise distinct.
pub proof fn lemma_add_under_tag_well_formed(
    resources: Seq<ResourceModel>,
    tag: Seq<char>,
    draft: OperationModel,
    method: Seq<char>,
)
    requires
        well_formed(resources),
    ensures
        well_formed(add_under_tag(resources, tag, draft, method)),
{
    let names = resource_names(resources);
    let at = name_position(names, slug(tag));
    let out = add_under_tag(resources, tag, draft, method);
    lemma_name_position(names, slug(tag));
    if at < resources.len() {
        lemma_with_operation_distinct(resources[at], draft, method);
        assert(resource_names(out) =~= names);
        assert forall|i: int| 0 <= i < out.len() implies pairwise_distinct(
            op_names(#[trigger] out[i].ops),
        ) by {
            if i != at {
                assert(out[i] == resources[i]);
            }
        }
    } else {
        let fresh = ResourceModel { name: slug(tag), display_name: tag, ops: Seq::empty() };
        lemma_with_operation_distinct(fresh, draft, method);
        let grown = resource_names(out);
        assert forall|i: int, j: int| 0 <= i < j < grown.len() implies grown[i] != grown[j] by {
            assert(grown[i] == names[i]);
            if j < names.len() {
                assert(grown[j] == names[j]);
            } else {
                assert(names.contains(names[i]));
            }
        }
        assert forall|i: int| 0 <= i < out.len() implies pairwise_distinct(
            op_names(#[trigger] out[i].ops),
        ) by {
            if i < resources.len() {
                assert(out[i] == resources[i]);
            }
        }
    }
}

proof fn lemma_add_under_tags_well_formed(
    resources: Seq<ResourceModel>,
    tags: Seq<DocValue>,
    from: int,
    draft: OperationModel,
    method: Seq<char>,
)
    requires
        well_formed(resources),
    ensures
        well_formed(add_under_tags(resources, tags, from, draft, method)),
    decreases tags.len() - from,
{
    if 0 <= from < tags.len() {
        let next = match tags[from].text() {
            Some(tag) => add_under_tag(resources, tag, draft, method),
            None => resources,
        };
        if let Some(tag) = tags[from].text() {
            lemma_add_under_tag_well_formed(resources, tag, draft, method);
        }
        lemma_add_under_tags_well_formed(next, tags, from + 1, draft, method);
    }
}

proof fn lemma_add_methods_well_formed(
    resources: Seq<ResourceModel>,
    path: Seq<char>,
    path_params: Seq<ParamModel>,
    item: Seq<(DocValue, DocValue)>,
    from: int,
)
    requires
        well_formed(resources),
    ensures
        add_methods(resources, path, path_params, item, from) matches Ok(out) ==> well_formed(out),
    decreases methods().len() - from,
{
    if 0 <= from < methods().len() {
        let method = methods()[from];
        if let Some(op) = lookup(item, method) {
            if let Some(fields) = op.entries() {
                lemma_add_under_tags_well_formed(
                    resources,
                    tags_of(fields),
                    0,
                    draft_of(path, path_params, method, fields),
                    method,
                );
            }
        }
        if let Ok(next) = add_method(resources, path, path_params, item, method) {
            lemma_add_methods_well_formed(next, path, path_params, item, from + 1);
        }
    }
}

proof fn lemma_add_paths_well_formed(
    resources: Seq<ResourceModel>,
    paths: Seq<(DocValue, DocValue)>,
    from: int,
)
    requires
        well_formed(resources),
    ensures
        add_paths(resources, paths, from) matches Ok(out) ==> well_formed(out),
    decreases paths.len() - from,
{
    if 0 <= from < paths.len() {
        let key = paths[from].0;
        let item = paths[from].1;
        if let Some(path) = key.text() {
            if let Some(fields) = item.entries() {
                lemma_add_methods_well_formed(
                    resources,
                    path,
                    params_of(lookup(fields, "parameters"@)),
                    fields,
                    0,
                );
            }
        }
        if let Ok(next) = add_path(resources, key, item) {
            lemma_add_paths_well_formed(next, paths, from + 1);
        }
    }
}

/// Uniqueness: in every tree that compiling yields, no two resources share
/// a name, and within one resource no two operations share a name.
pub proof fn lemma_compiled_well_formed(doc: DocValue)
    ensures
        compiled(doc) matches Ok(tree) ==> tree.well_formed(),
{
    if let Some(paths) = entries_of(doc.field("paths"@)) {
        lemma_add_paths_well_formed(Seq::empty(), paths, 0);
    }
}

/// Determinism: whatever compiling one document returned twice, both
/// results hold the same tree, field for field, or the same error.
pub proof fn lemma_compile_deterministic(
    doc: DocValue,
    first: Result<CommandTree, CompileError>,
    second: Result<CommandTree, CompileError>,
)
    requires
        compiles_to(doc, first),
        compiles_to(doc, second),
    ensures
        match (first, second) {
            (Ok(a), Ok(b)) => a@ == b@,
            (Err(e), Err(f)) => e == f,
            _ => false,
        },
{
}

/// Determinism from text: whatever compiling one text returned twice, both
/// results hold the same tree or the same error.
pub proof fn lemma_compile_yaml_deterministic(
    text: Seq<char>,
    first: Result<CommandTree, CompileError>,
    second: Result<CommandTree, CompileError>,
)
    requires
        text_compiles_to(text, first),
        text_compiles_to(text, second),
    ensures
        match (first, second) {
            (Ok(a), Ok(b)) => a@ == b@,
            (Err(e), Err(f)) => e == f,
            _ => false,
        },
{
}

} // verus!
