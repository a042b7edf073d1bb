//! The command tree: resources, their operations and the parameters of each,
//! together with the mathematical model that the contracts speak of.

use vstd::prelude::*;
use crate::text::{clone_text, same_text, text_view};

verus! {

/// One request parameter of an operation.
#[derive(Debug, PartialEq, Eq)]
pub struct ParamDef {
    pub name: String,
    pub flag: String,
    pub location: String,
    pub required: bool,
    pub list: bool,
    pub schema_type: Option<String>,
    pub description: Option<String>,
}

/// One (method, path, tag) combination.
#[derive(Debug, PartialEq, Eq)]
pub struct Operation {
    pub name: String,
    pub display_name: String,
    pub method: String,
    pub path: String,
    pub summary: Option<String>,
    pub description: Option<String>,
    pub parameters: Vec<ParamDef>,
    pub has_body: bool,
}

/// The operations that share one tag.
#[derive(Debug, PartialEq, Eq)]
pub struct Resource {
    pub name: String,
    pub display_name: String,
    pub ops: Vec<Operation>,
}

/// The whole catalogue of an API.
#[derive(Debug, PartialEq, Eq)]
pub struct CommandTree {
    pub version: u32,
    pub endpoint: String,
    pub resources: Vec<Resource>,
}

/// Model of a [`ParamDef`].
pub struct ParamModel {
    pub name: Seq<char>,
    pub flag: Seq<char>,
    pub location: Seq<char>,
    pub required: bool,
    pub list: bool,
    pub schema_type: Option<Seq<char>>,
    pub description: Option<Seq<char>>,
}

/// Model of an [`Operation`].
pub struct OperationModel {
    pub name: Seq<char>,
    pub display_name: Seq<char>,
    pub method: Seq<char>,
    pub path: Seq<char>,
    pub summary: Option<Seq<char>>,
    pub description: Option<Seq<char>>,
    pub parameters: Seq<ParamModel>,
    pub has_body: bool,
}

/// Model of a [`Resource`].
pub struct ResourceModel {
    pub name: Seq<char>,
    pub display_name: Seq<char>,
    pub ops: Seq<OperationModel>,
}

/// Model of a [`CommandTree`].
pub struct TreeModel {
    pub version: u32,
    pub endpoint: Seq<char>,
    pub resources: Seq<ResourceModel>,
}

/// The models of a run of parameters.
pub open spec fn params_view(v: Seq<ParamDef>) -> Seq<ParamModel> {
    Seq::new(v.len(), |i: int| v[i]@)
}

/// The models of a run of operations.
pub open spec fn ops_view(v: Seq<Operation>) -> Seq<OperationModel> {
    Seq::new(v.len(), |i: int| v[i]@)
}

/// The models of a run of resources.
pub open spec fn resources_view(v: Seq<Resource>) -> Seq<ResourceModel> {
    Seq::new(v.len(), |i: int| v[i]@)
}

impl View for ParamDef {
    type V = ParamModel;

    open spec fn view(&self) -> ParamModel {
        ParamModel {
            name: self.name@,
            flag: self.flag@,
            location: self.location@,
            required: self.required,
            list: self.list,
            schema_type: text_view(self.schema_type),
            description: text_view(self.description),
        }
    }
}

impl View for Operation {
    type V = OperationModel;

    open spec fn view(&self) -> OperationModel {
        OperationModel {
            name: self.name@,
            display_name: self.display_name@,
            method: self.method@,
            path: self.path@,
            summary: text_view(self.summary),
            description: text_view(self.description),
            parameters: params_view(self.parameters@),
            has_body: self.has_body,
        }
    }
}

impl View for Resource {
    type V = ResourceModel;

    open spec fn view(&self) -> ResourceModel {
        ResourceModel {
            name: self.name@,
            display_name: self.display_name@,
            ops: ops_view(self.ops@),
        }
    }
}

impl View for CommandTree {
    type V = TreeModel;

    open spec fn view(&self) -> TreeModel {
        TreeModel {
            version: self.version,
            endpoint: self.endpoint@,
            resources: resources_view(self.resources@),
        }
    }
}

/// The names of a run of operations, in order.
pub open spec fn op_names(ops: Seq<OperationModel>) -> Seq<Seq<char>> {
    Seq::new(ops.len(), |i: int| ops[i].name)
}

/// The names of a run of resources, in order.
pub open spec fn resource_names(resources: Seq<ResourceModel>) -> Seq<Seq<char>> {
    Seq::new(resources.len(), |i: int| resources[i].name)
}

/// No text occurs twice in `names`.
pub open spec fn pairwise_distinct(names: Seq<Seq<char>>) -> bool {
    forall|i: int, j: int| 0 <= i < j < names.len() ==> names[i] != names[j]
}

/// The position of the first `name` in `names`, or `names.len()` where there is none.
pub open spec fn name_position(names: Seq<Seq<char>>, name: Seq<char>) -> int
    decreases names.len(),
{
    if names.len() == 0 {
        0
    } else if names[0] == name {
        0
    } else {
        1 + name_position(names.drop_first(), name)
    }
}

/// A tree is well formed when no two resources share a name and, within each
/// resource, no two operations share a name.
pub open spec fn well_formed(resources: Seq<ResourceModel>) -> bool {
    &&& pairwise_distinct(resource_names(resources))
    &&& forall|i: int|
        0 <= i < resources.len() ==> pairwise_distinct(op_names(#[trigger] resources[i].ops))
}

impl TreeModel {
    /// See [`well_formed`].
    pub open spec fn well_formed(self) -> bool {
        well_formed(self.resources)
    }
}

/// `name_position` is within bounds, points at `name` when inside, nothing
/// before it is `name`, and it reaches the end exactly where `name` is absent.
pub proof fn lemma_name_position(names: Seq<Seq<char>>, name: Seq<char>)
    ensures
        0 <= name_position(names, name) <= names.len(),
        name_position(names, name) < names.len() ==> names[name_position(names, name)] == name,
        forall|j: int| 0 <= j < name_position(names, name) ==> names[j] != name,
        name_position(names, name) == names.len() <==> !names.contains(name),
    decreases names.len(),
{
    if names.len() == 0 {
    } else if names[0] == name {
        assert(names.contains(name));
    } else {
        let rest = names.drop_first();
        lemma_name_position(rest, name);
        let k = name_position(rest, name);
        assert forall|j: int| 0 <= j < 1 + k implies names[j] != name by {
            if j > 0 {
                assert(names[j] == rest[j - 1]);
            }
        }
        if k < rest.len() {
            assert(names[1 + k] == rest[k]);
            assert(names.contains(name));
        } else {
            if names.contains(name) {
                let j = choose|j: int| 0 <= j < names.len() && names[j] == name;
                assert(rest[j - 1] == name);
                assert(rest.contains(name));
            }
        }
    }
}

/// The operation that `find_op` is to return: the first operation called
/// `op_name` in the first resource called `res_name`, as a pair of positions.
pub open spec fn op_location(tree: TreeModel, res_name: Seq<char>, op_name: Seq<char>) -> Option<
    (int, int),
> {
    let r = name_position(resource_names(tree.resources), res_name);
    if r < tree.resources.len() {
        let o = name_position(op_names(tree.resources[r].ops), op_name);
        if o < tree.resources[r].ops.len() {
            Some((r, o))
        } else {
            None
        }
    } else {
        None
    }
}

/// The position of the first resource called `name`, or `resources.len()`.
pub fn find_resource(resources: &Vec<Resource>, name: &str) -> (at: usize)
    ensures
        at == name_position(resource_names(resources_view(resources@)), name@),
        at <= resources.len(),
{
    let ghost names = resource_names(resources_view(resources@));
    let mut i: usize = 0;
    assert(names.skip(0) =~= names);
    while i < resources.len()
        invariant
            i <= resources.len(),
            names == resource_names(resources_view(resources@)),
            name_position(names, name@) == i + name_position(names.skip(i as int), name@),
        decreases resources.len() - i,
    {
        assert(names.skip(i as int)[0] == resources@[i as int].name@);
        if same_text(resources[i].name.as_str(), name) {
            return i;
        }
        assert(names.skip(i as int).drop_first() =~= names.skip(i + 1));
        i += 1;
    }
    i
}

/// The position of the first operation called `name`, or `ops.len()`.
pub fn find_operation(ops: &Vec<Operation>, name: &str) -> (at: usize)
    ensures
        at == name_position(op_names(ops_view(ops@)), name@),
        at <= ops.len(),
{
    let ghost names = op_names(ops_view(ops@));
    let mut i: usize = 0;
    assert(names.skip(0) =~= names);
    while i < ops.len()
        invariant
            i <= ops.len(),
            names == op_names(ops_view(ops@)),
            name_position(names, name@) == i + name_position(names.skip(i as int), name@),
        decreases ops.len() - i,
    {
        assert(names.skip(i as int)[0] == ops@[i as int].name@);
        if same_text(ops[i].name.as_str(), name) {
            return i;
        }
        assert(names.skip(i as int).drop_first() =~= names.skip(i + 1));
        i += 1;
    }
    i
}

/// Looks an operation up by resource name and operation name: the first
/// resource with that name decides, and in it the first operation with that
/// name. `None` where either is missing.
pub fn find_op<'a>(tree: &'a CommandTree, res_name: &str, op_name: &str) -> (found: Option<
    &'a Operation,
>)
    ensures
        match op_location(tree@, res_name@, op_name@) {
            Some((r, o)) => found == Some(&tree.resources@[r].ops@[o]),
            None => found is None,
        },
        found matches Some(op) ==> op.name@ == op_name@,
{
    let r = find_resource(&tree.resources, res_name);
    if r >= tree.resources.len() {
        return None;
    }
    let resource = &tree.resources[r];
    let o = find_operation(&resource.ops, op_name);
    if o >= resource.ops.len() {
        return None;
    }
    proof {
        lemma_name_position(op_names(ops_view(resource.ops@)), op_name@);
    }
    Some(&resource.ops[o])
}

/// A copy of a run of parameters.
pub fn clone_params(params: &Vec<ParamDef>) -> (out: Vec<ParamDef>)
    ensures
        params_view(out@) == params_view(params@),
{
    let mut out: Vec<ParamDef> = Vec::new();
    let mut i: usize = 0;
    while i < params.len()
        invariant
            i <= params.len(),
            out.len() == i,
            forall|j: int| 0 <= j < i ==> out@[j]@ == params@[j]@,
        decreases params.len() - i,
    {
        out.push(params[i].clone());
        i += 1;
    }
    assert(params_view(out@) =~= params_view(params@));
    out
}

impl Clone for ParamDef {
    fn clone(&self) -> (out: Self)
        ensures
            out@ == self@,
    {
        ParamDef {
            name: self.name.clone(),
            flag: self.flag.clone(),
            location: self.location.clone(),
            required: self.required,
            list: self.list,
            schema_type: clone_text(&self.schema_type),
            description: clone_text(&self.description),
        }
    }
}

impl Clone for Operation {
    fn clone(&self) -> (out: Self)
        ensures
            out@ == self@,
    {
        Operation {
            name: self.name.clone(),
            display_name: self.display_name.clone(),
            method: self.method.clone(),
            path: self.path.clone(),
            summary: clone_text(&self.summary),
            description: clone_text(&self.description),
            parameters: clone_params(&self.parameters),
            has_body: self.has_body,
        }
    }
}

impl Clone for Resource {
    fn clone(&self) -> (out: Self)
        ensures
            out@ == self@,
    {
        let mut ops: Vec<Operation> = Vec::new();
        let mut i: usize = 0;
        while i < self.ops.len()
            invariant
                i <= self.ops.len(),
                ops.len() == i,
                forall|j: int| 0 <= j < i ==> ops@[j]@ == self.ops@[j]@,
            decreases self.ops.len() - i,
        {
            ops.push(self.ops[i].clone());
            i += 1;
        }
        assert(ops_view(ops@) =~= ops_view(self.ops@));
        Resource { name: self.name.clone(), display_name: self.display_name.clone(), ops }
    }
}

impl Clone for CommandTree {
    fn clone(&self) -> (out: Self)
        ensures
            out@ == self@,
    {
        let mut resources: Vec<Resource> = Vec::new();
        let mut i: usize = 0;
        while i < self.resources.len()
            invariant
                i <= self.resources.len(),
                resources.len() == i,
                forall|j: int| 0 <= j < i ==> resources@[j]@ == self.resources@[j]@,
            decreases self.resources.len() - i,
        {
            resources.push(self.resources[i].clone());
            i += 1;
        }
        assert(resources_view(resources@) =~= resources_view(self.resources@));
        CommandTree { version: self.version, endpoint: self.endpoint.clone(), resources }
    }
}

} // verus!
