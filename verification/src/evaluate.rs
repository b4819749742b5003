//! Results of evaluating JavaScript in a page, their truthiness, and the
//! test for whether a script is a function.

use vstd::prelude::*;
use vstd::string::StrSliceExecFns;

use crate::text::{chars_of, contains, contains_str, has_prefix, starts_with_str, trim, trim_chars};

verus! {

/// The type tag of a JavaScript value returned by the browser.
#[derive(Debug, Clone, Copy, PartialEq, Eq, Structural)]
pub enum RemoteObjectType {
    Object,
    Function,
    Undefined,
    String,
    Number,
    Boolean,
    Symbol,
    Bigint,
}

/// The JSON value the browser sent along with a result, as far as
/// truthiness reads it: a number only says whether it is zero.
#[derive(Debug, Clone)]
pub enum JsValue {
    Null,
    Bool(bool),
    Number { nonzero: bool },
    String(String),
    Other,
}

/// A JavaScript value held by the browser.
#[derive(Debug, Clone)]
pub struct RemoteObject {
    /// The value's type tag.
    pub object_type: RemoteObjectType,
    /// The subtype for objects (`"null"`, `"array"`, `"node"`, …).
    pub subtype: Option<String>,
    /// The value itself, when it was sent by value.
    pub value: Option<JsValue>,
    /// The value's text when JSON cannot carry it: `NaN`, `Infinity`,
    /// `-Infinity`, `-0`, and big integers such as `0n`.
    pub unserializable_value: Option<String>,
    /// The browser's handle for the object, when it was sent by reference.
    pub object_id: Option<String>,
    /// A display string for the value.
    pub description: Option<String>,
}

/// Where and why a script threw.
#[derive(Debug, Clone)]
pub struct ExceptionDetails {
    /// The exception message.
    pub text: String,
    /// Line of the throw site (0-based).
    pub line_number: i64,
    /// Column of the throw site (0-based).
    pub column_number: i64,
}

/// The browser's answer to an evaluation.
#[derive(Debug, Clone)]
pub struct EvaluateResponse {
    /// The value the script produced.
    pub result: RemoteObject,
    /// Details of the exception, when the script threw.
    pub exception_details: Option<ExceptionDetails>,
}

/// The result of evaluating a script in a page.
#[derive(Debug, Clone)]
pub struct EvaluationResult {
    /// The browser's answer.
    pub inner: EvaluateResponse,
}

/// Whether a number is non-zero and not `NaN`: a number sent as JSON says
/// whether it is zero; one JSON cannot carry is `NaN`, `-0` (both falsy) or
/// an infinity (truthy).
pub open spec fn number_truthy(value: Option<JsValue>, unserializable: Option<String>) -> bool {
    match value {
        Some(JsValue::Number { nonzero }) => nonzero,
        _ => match unserializable {
            Some(u) => u@ != "NaN"@ && u@ != "-0"@,
            None => false,
        },
    }
}

/// JavaScript truthiness of a result: `undefined`, `false`, `0`, `-0`,
/// `NaN`, `0n`, `""` and `null` (an object of subtype `null`) are falsy; a
/// boolean or string whose value was not sent is falsy too; non-zero
/// numbers (the infinities among them), other big integers, functions,
/// symbols and every other object are truthy.
pub open spec fn truthy(o: RemoteObject) -> bool {
    match o.object_type {
        RemoteObjectType::Undefined => false,
        RemoteObjectType::Boolean => o.value matches Some(JsValue::Bool(b)) && b,
        RemoteObjectType::Number => number_truthy(o.value, o.unserializable_value),
        RemoteObjectType::String => o.value matches Some(JsValue::String(s)) && s@.len() > 0,
        RemoteObjectType::Object => !(o.subtype matches Some(st) && st@ == "null"@),
        RemoteObjectType::Bigint => !(o.unserializable_value matches Some(u) && u@ == "0n"@),
        _ => true,
    }
}

impl EvaluationResult {
    /// A result wrapping the browser's answer.
    pub fn new(inner: EvaluateResponse) -> (r: Self)
        ensures
            r.inner == inner,
    {
        EvaluationResult { inner }
    }

    /// The value the script produced.
    pub fn object(&self) -> (o: &RemoteObject)
        ensures
            *o == self.inner.result,
    {
        &self.inner.result
    }

    /// The browser's whole answer.
    pub fn into_inner(self) -> (r: EvaluateResponse)
        ensures
            r == self.inner,
    {
        self.inner
    }

    /// Whether the result is truthy by JavaScript's rules.
    pub fn is_truthy(&self) -> (b: bool)
        ensures
            b == truthy(self.inner.result),
    {
        let o = &self.inner.result;
        match o.object_type {
            RemoteObjectType::Undefined => false,
            RemoteObjectType::Boolean => match &o.value {
                Some(JsValue::Bool(b)) => *b,
                _ => false,
            },
            RemoteObjectType::Number => match &o.value {
                Some(JsValue::Number { nonzero }) => *nonzero,
                _ => match &o.unserializable_value {
                    Some(u) => {
                        let t = chars_of(u.as_str());
                        !crate::text::eq_str(t.as_slice(), "NaN") && !crate::text::eq_str(t.as_slice(), "-0")
                    },
                    None => false,
                },
            },
            RemoteObjectType::Bigint => match &o.unserializable_value {
                Some(u) => !crate::text::eq_str(chars_of(u.as_str()).as_slice(), "0n"),
                None => true,
            },
            RemoteObjectType::String => match &o.value {
                Some(JsValue::String(s)) => s.as_str().unicode_len() > 0,
                _ => false,
            },
            RemoteObjectType::Object => match &o.subtype {
                Some(st) => !crate::text::eq_str(chars_of(st.as_str()).as_slice(), "null"),
                None => true,
            },
            _ => true,
        }
    }
}

/// Whether a script looks like a function rather than a bare expression:
/// after trimming whitespace it starts with `function`, `async function`
/// or `async (`, or it starts with `(` or `/*` and contains `=>`.
pub open spec fn looks_like_function(js: Seq<char>) -> bool {
    let t = trim(js);
    ||| has_prefix(t, "function"@)
    ||| has_prefix(t, "async function"@)
    ||| has_prefix(t, "async ("@)
    ||| has_prefix(t, "("@) && contains(t, "=>"@)
    ||| has_prefix(t, "/*"@) && contains(t, "=>"@)
}

/// Whether `js` looks like a function declaration rather than a bare
/// expression.
pub fn is_likely_js_function(js: &str) -> (b: bool)
    ensures
        b == looks_like_function(js@),
{
    let v = chars_of(js);
    let t = trim_chars(v.as_slice());
    let t = t.as_slice();
    starts_with_str(t, "function") || starts_with_str(t, "async function") || starts_with_str(
        t,
        "async (",
    ) || (starts_with_str(t, "(") && contains_str(t, "=>")) || (starts_with_str(t, "/*")
        && contains_str(t, "=>"))
}

} // verus!
