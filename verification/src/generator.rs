//! The code generator's settings, its errors, and the naming of generated
//! items.

use vstd::prelude::*;

use crate::pdl::{spec_parse_error_text, ParseError};
use crate::text::push_str;

verus! {

#[verifier::external_type_specification]
#[verifier::external_body]
pub struct ExPathBuf(std::path::PathBuf);

/// Errors of the code generator.
#[derive(Debug)]
pub enum GeneratorError {
    /// A PDL file could not be read.
    Io { path: String, source: std::io::Error },
    /// A PDL file did not parse.
    Parse { path: String, source: ParseError },
    /// Anything else, as a message.
    Other(String),
}

/// The message of a generator error; `inner` stands for the message of a
/// wrapped I/O error.
pub open spec fn generator_error_text(e: GeneratorError, inner: Seq<char>) -> Seq<char> {
    match e {
        GeneratorError::Io { path, .. } => "I/O error reading "@ + path@ + ": "@ + inner,
        GeneratorError::Parse { path, source } => "parse error in "@ + path@ + ": "@
            + spec_parse_error_text(source@),
        GeneratorError::Other(m) => m@,
    }
}

/// A compile run needs at least one PDL file: with `count` files it may go
/// on, or fails with "no PDL files provided" when there are none.
pub fn check_pdl_count(count: usize) -> (r: Result<(), GeneratorError>)
    ensures
        r is Ok <==> count > 0,
        r is Err ==> (r matches Err(GeneratorError::Other(m)) && m@ == "no PDL files provided"@),
{
    if count == 0 {
        Err(GeneratorError::Other("no PDL files provided".to_owned()))
    } else {
        Ok(())
    }
}

impl GeneratorError {
    /// The error's message.
    pub fn to_display_string(&self) -> (s: String)
        ensures
            exists|inner: Seq<char>| s@ == generator_error_text(*self, inner),
    {
        let ghost mut inner: Seq<char> = seq![];
        let s = match self {
            GeneratorError::Io { path, source } => {
                let t = crate::error::io_error_text(source);
                proof {
                    inner = t@;
                }
                let mut s = "I/O error reading ".to_owned();
                push_str(&mut s, path.as_str());
                push_str(&mut s, ": ");
                push_str(&mut s, t.as_str());
                s
            },
            GeneratorError::Parse { path, source } => {
                let mut s = "parse error in ".to_owned();
                push_str(&mut s, path.as_str());
                push_str(&mut s, ": ");
                let t = source.to_display_string();
                push_str(&mut s, t.as_str());
                s
            },
            GeneratorError::Other(m) => m.clone(),
        };
        assert(s@ == generator_error_text(*self, inner));
        s
    }
}

impl From<String> for GeneratorError {
    fn from(s: String) -> (e: GeneratorError) {
        GeneratorError::Other(s)
    }
}

impl vstd::std_specs::convert::FromSpecImpl<String> for GeneratorError {
    open spec fn obeys_from_spec() -> bool {
        true
    }

    open spec fn from_spec(s: String) -> GeneratorError {
        GeneratorError::Other(s)
    }
}

/// The code generator's settings.
#[derive(Debug)]
pub struct Generator {
    /// Where the generated code is written, once set.
    pub out_dir: Option<std::path::PathBuf>,
}

impl Default for Generator {
    fn default() -> (g: Self)
        ensures
            g.out_dir is None,
    {
        Generator { out_dir: None }
    }
}

impl Generator {
    /// Write the generated code to `path`.
    pub fn out_dir(self, path: std::path::PathBuf) -> (g: Self)
        ensures
            g.out_dir == Some(path),
    {
        Generator { out_dir: Some(path) }
    }
}

/// The `UpperCamelCase` form of `s` (`heck::ToUpperCamelCase`).
pub uninterp spec fn upper_camel_case(s: Seq<char>) -> Seq<char>;

/// `heck::ToUpperCamelCase::to_upper_camel_case` on a string.
///
/// Trusted: the result is the form named by `upper_camel_case`, a function
/// of the text alone.
#[verifier::external_body]
pub(crate) fn to_upper_camel_case(s: &str) -> (r: String)
    ensures
        r@ == upper_camel_case(s@),
{
    heck::ToUpperCamelCase::to_upper_camel_case(s)
}

/// The name of the enum generated for an inline enum field: the parent
/// type's name followed by the field's name in `UpperCamelCase` (e.g.
/// `ConsoleMessage` and `level` give `ConsoleMessageLevel`).
pub fn subenum_name(parent_camel: &str, field_name: &str) -> (r: String)
    ensures
        r@ == parent_camel@ + upper_camel_case(field_name@),
{
    let field_camel = to_upper_camel_case(field_name);
    let mut r = parent_camel.to_owned();
    push_str(&mut r, field_camel.as_str());
    r
}

} // verus!
