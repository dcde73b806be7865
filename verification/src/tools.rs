//! Tool registry metadata as the planner, the autonomous runtime and the
//! tool-calling loop read it.

use vstd::prelude::*;
use crate::text::{str_eq, string_eq, strings_view};

verus! {

/// Type of a tool parameter.
#[derive(Clone, Copy, PartialEq, Eq, Structural)]
pub enum ToolParameterType {
    String,
    Number,
    Boolean,
    Object,
    Array,
}

/// Permission level a tool requires.
#[derive(Clone, Copy, PartialEq, Eq, Structural)]
pub enum ToolPermissionLevel {
    Allowed,
    RequiresConfirmation,
    Denied,
}

/// Static risk of a tool.
#[derive(Clone, Copy, PartialEq, Eq, Structural)]
pub enum ToolRiskLevel {
    Low,
    Medium,
    High,
}

/// One declared parameter of a tool.
pub struct ToolParameter {
    pub name: String,
    pub description: String,
    pub parameter_type: ToolParameterType,
    pub required: bool,
}

/// Registry entry for a tool.
pub struct ToolDefinition {
    pub name: String,
    pub description: String,
    pub parameters: Vec<ToolParameter>,
    pub requires_confirmation: bool,
    pub required_level: ToolPermissionLevel,
    pub risk_level: ToolRiskLevel,
}

/// Provider-side parameter type of a tool schema.
#[derive(Clone, Copy, PartialEq, Eq, Structural)]
pub enum LLMToolParameterType {
    String,
    Number,
    Boolean,
    Object,
    Array,
}

/// One parameter of a provider-native tool schema.
pub struct LLMToolParameter {
    pub name: String,
    pub description: String,
    pub param_type: LLMToolParameterType,
    pub required: bool,
}

/// A provider-native tool schema.
pub struct LLMTool {
    pub name: String,
    pub description: String,
    pub parameters: Vec<LLMToolParameter>,
}

/// The provider parameter type for a registry parameter type.
pub open spec fn provider_type(t: ToolParameterType) -> LLMToolParameterType {
    match t {
        ToolParameterType::String => LLMToolParameterType::String,
        ToolParameterType::Number => LLMToolParameterType::Number,
        ToolParameterType::Boolean => LLMToolParameterType::Boolean,
        ToolParameterType::Object => LLMToolParameterType::Object,
        ToolParameterType::Array => LLMToolParameterType::Array,
    }
}

/// `schema` carries the name, description and parameters of `def`, in order.
pub open spec fn schema_matches(def: ToolDefinition, schema: LLMTool) -> bool {
    &&& schema.name@ == def.name@
    &&& schema.description@ == def.description@
    &&& schema.parameters@.len() == def.parameters@.len()
    &&& forall|i: int|
        0 <= i < def.parameters@.len() ==> {
            let p = #[trigger] def.parameters@[i];
            let q = schema.parameters@[i];
            &&& q.name@ == p.name@
            &&& q.description@ == p.description@
            &&& q.param_type == provider_type(p.parameter_type)
            &&& q.required == p.required
        }
}

/// Maps registry tool definitions into provider-native tool schemas.
pub fn build_tool_schemas(definitions: Vec<ToolDefinition>) -> (r: Vec<LLMTool>)
    ensures
        r@.len() == definitions@.len(),
        forall|i: int| 0 <= i < r@.len() ==> schema_matches(#[trigger] definitions@[i], r@[i]),
{
    let mut out: Vec<LLMTool> = Vec::new();
    let mut i: usize = 0;
    while i < definitions.len()
        invariant
            i <= definitions@.len(),
            out@.len() == i,
            forall|k: int| 0 <= k < i ==> schema_matches(#[trigger] definitions@[k], out@[k]),
        decreases definitions.len() - i,
    {
        let def = &definitions[i];
        let mut params: Vec<LLMToolParameter> = Vec::new();
        let mut j: usize = 0;
        while j < def.parameters.len()
            invariant
                i < definitions@.len(),
                *def == definitions@[i as int],
                j <= def.parameters@.len(),
                params@.len() == j,
                forall|k: int|
                    0 <= k < j ==> {
                        let p = #[trigger] def.parameters@[k];
                        let q = params@[k];
                        &&& q.name@ == p.name@
                        &&& q.description@ == p.description@
                        &&& q.param_type == provider_type(p.parameter_type)
                        &&& q.required == p.required
                    },
            decreases def.parameters.len() - j,
        {
            let p = &def.parameters[j];
            let param_type = match p.parameter_type {
                ToolParameterType::String => LLMToolParameterType::String,
                ToolParameterType::Number => LLMToolParameterType::Number,
                ToolParameterType::Boolean => LLMToolParameterType::Boolean,
                ToolParameterType::Object => LLMToolParameterType::Object,
                ToolParameterType::Array => LLMToolParameterType::Array,
            };
            params.push(
                LLMToolParameter {
                    name: p.name.clone(),
                    description: p.description.clone(),
                    param_type,
                    required: p.required,
                },
            );
            j = j + 1;
        }
        out.push(
            LLMTool { name: def.name.clone(), description: def.description.clone(), parameters: params },
        );
        i = i + 1;
    }
    out
}

/// Whether `names` holds `name`.
pub fn contains_name(names: &Vec<String>, name: &str) -> (r: bool)
    ensures
        r == strings_view(names@).contains(name@),
{
    let mut i: usize = 0;
    while i < names.len()
        invariant
            i <= names@.len(),
            forall|k: int| 0 <= k < i ==> names@[k]@ != name@,
        decreases names.len() - i,
    {
        if str_eq(names[i].as_str(), name) {
            assert(strings_view(names@)[i as int] == name@);
            return true;
        }
        i = i + 1;
    }
    false
}

/// Whether `names` holds the string `name`.
pub fn contains_string(names: &Vec<String>, name: &String) -> (r: bool)
    ensures
        r == strings_view(names@).contains(name@),
{
    let mut i: usize = 0;
    while i < names.len()
        invariant
            i <= names@.len(),
            forall|k: int| 0 <= k < i ==> names@[k]@ != name@,
        decreases names.len() - i,
    {
        if string_eq(&names[i], name) {
            assert(strings_view(names@)[i as int] == name@);
            return true;
        }
        i = i + 1;
    }
    false
}

} // verus!
