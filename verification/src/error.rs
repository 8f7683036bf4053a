//! Why a template helper refused its input.

use vstd::prelude::*;
use vstd::string::StringExecFns;

verus! {

/// The failures of the template helpers. Each is raised for one call of a helper and says what
/// was wrong with the input of that call.
#[derive(Debug, PartialEq, Eq)]
pub enum TemplateError {
    /// The arguments hold no member named `id`.
    MissingId,
    /// The member named `id` is no text.
    IdNotText,
    /// The member with this key is no text.
    ValueNotText { key: String },
    /// An item of the array is no object.
    ItemNotObject,
    /// The value is neither an object nor an array.
    NotObjectOrArray,
    /// The value is no text.
    NotText,
}

/// A failure as a mathematical value.
pub enum Failure {
    MissingId,
    IdNotText,
    ValueNotText { key: Seq<char> },
    ItemNotObject,
    NotObjectOrArray,
    NotText,
}

impl View for TemplateError {
    type V = Failure;

    open spec fn view(&self) -> Failure {
        match self {
            TemplateError::MissingId => Failure::MissingId,
            TemplateError::IdNotText => Failure::IdNotText,
            TemplateError::ValueNotText { key } => Failure::ValueNotText { key: key@ },
            TemplateError::ItemNotObject => Failure::ItemNotObject,
            TemplateError::NotObjectOrArray => Failure::NotObjectOrArray,
            TemplateError::NotText => Failure::NotText,
        }
    }
}

/// The message that describes a failure: what went wrong and, where one member is at fault,
/// its key.
pub open spec fn message_of(failure: Failure) -> Seq<char> {
    match failure {
        Failure::MissingId => "js_global: missing id argument"@,
        Failure::IdNotText => "js_global: id should be string"@,
        Failure::ValueNotText { key } => "function - js_global: failed to stringify value "@ + key,
        Failure::ItemNotObject => "filter - js_global: value is array but not a array of objects"@,
        Failure::NotObjectOrArray => {
            "filter - js_global: value must be object or array of objects"@
        },
        Failure::NotText => "Inner value should be string"@,
    }
}

impl TemplateError {
    /// The failure as a descriptive message.
    pub fn message(&self) -> (r: String)
        ensures
            r@ == message_of(self@),
    {
        match self {
            TemplateError::MissingId => "js_global: missing id argument".to_owned(),
            TemplateError::IdNotText => "js_global: id should be string".to_owned(),
            TemplateError::ValueNotText { key } => {
                let head = "function - js_global: failed to stringify value ".to_owned();
                head.concat(key.as_str())
            },
            TemplateError::ItemNotObject => {
                "filter - js_global: value is array but not a array of objects".to_owned()
            },
            TemplateError::NotObjectOrArray => {
                "filter - js_global: value must be object or array of objects".to_owned()
            },
            TemplateError::NotText => "Inner value should be string".to_owned(),
        }
    }
}

} // verus!
