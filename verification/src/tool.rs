//! Tools: their names and specifications, what a call carries and what it gives back.

use crate::cell::text_opt;
use vstd::prelude::*;

verus! {

/// Where a tool name belongs.
#[derive(Debug)]
pub enum ToolNamespace {
    /// Nowhere in particular.
    Unspecified,
    /// The namespace of tools that name none, said outright.
    Default,
    Named(String),
}

impl Clone for ToolNamespace {
    fn clone(&self) -> (copy: Self)
        ensures
            copy == *self,
    {
        match self {
            ToolNamespace::Unspecified => ToolNamespace::Unspecified,
            ToolNamespace::Default => ToolNamespace::Default,
            ToolNamespace::Named(name) => ToolNamespace::Named(name.clone()),
        }
    }
}

impl ToolNamespace {
    /// The name of the namespace. The default one goes without.
    pub open spec fn named(self) -> Option<String> {
        match self {
            ToolNamespace::Named(name) => Some(name),
            _ => None,
        }
    }

    /// The name of the namespace, unless it is the default one.
    pub fn name(&self) -> (name: Option<String>)
        ensures
            name == self.named(),
    {
        match self {
            ToolNamespace::Named(name) => Some(name.clone()),
            _ => None,
        }
    }
}

/// The name that a tool is called by.
#[derive(Debug)]
pub struct ToolName {
    pub name: String,
    pub namespace: ToolNamespace,
}

/// What a tool name stands for: names in the default namespace, said outright or not, are the
/// same.
pub struct ToolNameView {
    pub name: Seq<char>,
    pub namespace: Option<Seq<char>>,
}

impl View for ToolName {
    type V = ToolNameView;

    open spec fn view(&self) -> ToolNameView {
        ToolNameView { name: self.name@, namespace: text_opt(self.namespace.named()) }
    }
}

impl Clone for ToolName {
    fn clone(&self) -> (copy: Self)
        ensures
            copy == *self,
    {
        ToolName { name: self.name.clone(), namespace: self.namespace.clone() }
    }
}

impl ToolName {
    /// A name without a namespace.
    pub fn plain(name: &str) -> (tool_name: ToolName)
        ensures
            tool_name.name@ == name@,
            tool_name.namespace is Unspecified,
    {
        ToolName { name: name.to_string(), namespace: ToolNamespace::Unspecified }
    }

    /// The same name, with the default namespace said outright where none is given.
    pub fn with_default_namespace(self) -> (tool_name: ToolName)
        ensures
            tool_name.name == self.name,
            tool_name.namespace == if self.namespace is Unspecified {
                ToolNamespace::Default
            } else {
                self.namespace
            },
            tool_name@ == self@,
    {
        ToolName {
            name: self.name,
            namespace: match self.namespace {
                ToolNamespace::Unspecified => ToolNamespace::Default,
                namespace => namespace,
            },
        }
    }

    /// Whether two names stand for the same tool.
    pub fn same_tool(&self, other: &ToolName) -> (same: bool)
        ensures
            same == (self@ == other@),
    {
        let same_namespace = match (&self.namespace, &other.namespace) {
            (ToolNamespace::Named(mine), ToolNamespace::Named(theirs)) => *mine == *theirs,
            (ToolNamespace::Named(_), _) => false,
            (_, ToolNamespace::Named(_)) => false,
            _ => true,
        };
        self.name == other.name && same_namespace
    }
}

/// A JSON schema, by its keywords and their JSON texts.
#[derive(Debug)]
pub struct JsonSchema {
    pub keywords: Vec<(String, String)>,
}

impl Default for JsonSchema {
    /// The schema that says nothing.
    fn default() -> (schema: Self)
        ensures
            schema.keywords@ == Seq::<(String, String)>::empty(),
    {
        JsonSchema { keywords: Vec::new() }
    }
}

/// A function tool as it is offered to the model.
#[derive(Debug)]
pub struct ResponsesApiTool {
    pub name: String,
    pub description: String,
    pub strict: bool,
    pub defer_loading: Option<bool>,
    pub parameters: JsonSchema,
    pub output_schema: Option<JsonSchema>,
}

/// How a tool is offered to the model.
#[derive(Debug)]
pub enum ToolSpec {
    Function(ResponsesApiTool),
}

/// What a tool call carries.
#[derive(Debug)]
pub enum ToolPayload {
    Function { arguments: String },
    Custom { input: String },
}

/// A `ToolPayload` with its strings read as texts.
pub enum PayloadView {
    Function { arguments: Seq<char> },
    Custom { input: Seq<char> },
}

impl View for ToolPayload {
    type V = PayloadView;

    open spec fn view(&self) -> PayloadView {
        match *self {
            ToolPayload::Function { arguments } => PayloadView::Function {
                arguments: arguments@,
            },
            ToolPayload::Custom { input } => PayloadView::Custom { input: input@ },
        }
    }
}

impl Clone for ToolPayload {
    fn clone(&self) -> (copy: Self)
        ensures
            copy == *self,
    {
        match self {
            ToolPayload::Function { arguments } => ToolPayload::Function {
                arguments: arguments.clone(),
            },
            ToolPayload::Custom { input } => ToolPayload::Custom { input: input.clone() },
        }
    }
}

/// What a tool gives back, as text.
#[derive(Debug)]
pub struct FunctionToolOutput {
    pub text: String,
    pub success: Option<bool>,
}

impl FunctionToolOutput {
    pub fn from_text(text: String, success: Option<bool>) -> (output: Self)
        ensures
            output.text == text,
            output.success == success,
    {
        FunctionToolOutput { text, success }
    }
}

impl Clone for FunctionToolOutput {
    fn clone(&self) -> (copy: Self)
        ensures
            copy == *self,
    {
        FunctionToolOutput { text: self.text.clone(), success: self.success }
    }
}

/// Why a tool call failed.
#[derive(Debug)]
pub enum FunctionCallError {
    /// The model is told.
    RespondToModel(String),
    /// The turn cannot go on.
    Fatal(String),
}

impl Clone for FunctionCallError {
    fn clone(&self) -> (copy: Self)
        ensures
            copy == *self,
    {
        match self {
            FunctionCallError::RespondToModel(message) => FunctionCallError::RespondToModel(
                message.clone(),
            ),
            FunctionCallError::Fatal(message) => FunctionCallError::Fatal(message.clone()),
        }
    }
}

/// What a call comes to.
pub type ToolResult = Result<FunctionToolOutput, FunctionCallError>;

/// A plain name is the one given, and belongs nowhere in particular.
pub proof fn law_plain_names_have_no_namespace(name: &str, tool_name: ToolName)
    requires
        call_ensures(ToolName::plain, (name,), tool_name),
    ensures
        tool_name.name@ == name@,
        tool_name.namespace is Unspecified,
{
}

/// Saying the default namespace outright changes neither the name nor a namespace that is given.
pub proof fn law_default_namespace_is_only_added(name: ToolName, tool_name: ToolName)
    requires
        call_ensures(ToolName::with_default_namespace, (name,), tool_name),
    ensures
        tool_name.name@ == name.name@,
        name.namespace is Unspecified || name.namespace is Default ==> tool_name.namespace is Default,
        name.namespace matches ToolNamespace::Named(given) ==> {
            &&& tool_name.namespace matches ToolNamespace::Named(kept)
            &&& kept@ == given@
        },
{
}

/// Only a named namespace has a name, which is its own.
pub proof fn law_named_namespaces_have_names(namespace: ToolNamespace, name: Option<String>)
    requires
        call_ensures(ToolNamespace::name, (&namespace,), name),
    ensures
        name is Some <==> namespace is Named,
        namespace matches ToolNamespace::Named(given) ==> name matches Some(name) && name@ == given@,
{
}

/// Two names stand for the same tool exactly when their names are the same and they belong to
/// the same named namespace, or neither belongs to one.
pub proof fn law_same_tools_share_name_and_namespace(
    mine: ToolName,
    theirs: ToolName,
    same: bool,
)
    requires
        call_ensures(ToolName::same_tool, (&mine, &theirs), same),
    ensures
        same <==> mine.name@ == theirs.name@ && match (mine.namespace, theirs.namespace) {
            (ToolNamespace::Named(a), ToolNamespace::Named(b)) => a@ == b@,
            (ToolNamespace::Named(_), _) => false,
            (_, ToolNamespace::Named(_)) => false,
            _ => true,
        },
{
}

/// An output holds the text and the verdict that it is made of.
pub proof fn law_outputs_hold_their_text(
    text: String,
    success: Option<bool>,
    output: FunctionToolOutput,
)
    requires
        call_ensures(FunctionToolOutput::from_text, (text, success), output),
    ensures
        output.text@ == text@,
        output.success == success,
{
}

/// Views of payloads keep their kind and their text.
pub proof fn law_views_keep_payloads(payload: ToolPayload)
    ensures
        payload matches ToolPayload::Function { arguments } ==> payload@ == (
        PayloadView::Function { arguments: arguments@ }),
        payload matches ToolPayload::Custom { input } ==> payload@ == (
        PayloadView::Custom { input: input@ }),
{
}

} // verus!
