//! The decisions of resolving `include <file>` directives in a PDL file:
//! what each line asks for, and what of an included file is kept.

use vstd::prelude::*;

use crate::pdl::{strs, ParseError, SpecParseError};
use crate::text::{chars_of, find, find_chars, has_prefix, lemma_find, lines, push_str, split_lines, split_words, starts_with_str, string_of, words};

verus! {

/// What a line of a PDL file asks for.
#[derive(Debug)]
pub enum LineAction {
    /// Append this text (the line and a newline).
    Copy(String),
    /// Append the body of the named file from the base directory.
    Include(String),
}

/// A line action as plain text.
pub ghost enum SpecLineAction {
    Copy(Seq<char>),
    Include(Seq<char>),
}

impl View for LineAction {
    type V = SpecLineAction;

    open spec fn view(&self) -> SpecLineAction {
        match self {
            LineAction::Copy(s) => SpecLineAction::Copy(s@),
            LineAction::Include(s) => SpecLineAction::Include(s@),
        }
    }
}

/// What a line asks for: a line starting with `include ` names a file by
/// its second word (an error when it has none, or when there is no base
/// directory to find it in); any other line is copied with a newline.
pub open spec fn line_action(line: Seq<char>, has_base_dir: bool) -> Result<SpecLineAction, SpecParseError> {
    if has_prefix(line, "include "@) {
        let ws = words(line);
        if ws.len() < 2 {
            Err(SpecParseError::MissingHeader("malformed include directive"@))
        } else if !has_base_dir {
            Err(
                SpecParseError::MissingHeader(
                    "include '"@ + ws[1] + "' found but no base directory provided"@,
                ),
            )
        } else {
            Ok(SpecLineAction::Include(ws[1]))
        }
    } else {
        Ok(SpecLineAction::Copy(line + seq!['\n']))
    }
}

/// What `line` asks for, given whether there is a base directory for
/// included files.
pub fn resolve_line(line: &str, has_base_dir: bool) -> (r: Result<LineAction, ParseError>)
    ensures
        match r {
            Ok(a) => line_action(line@, has_base_dir) == Ok::<SpecLineAction, SpecParseError>(a@),
            Err(e) => line_action(line@, has_base_dir) == Err::<SpecLineAction, SpecParseError>(e@),
        },
{
    let v = chars_of(line);
    if starts_with_str(v.as_slice(), "include ") {
        let ws = split_words(v.as_slice());
        if ws.len() < 2 {
            return Err(ParseError::MissingHeader("malformed include directive".to_owned()));
        }
        assert(ws@.map_values(|l: Vec<char>| l@)[1] == ws@[1]@);
        let name = string_of(ws[1].as_slice());
        if !has_base_dir {
            let mut m = "include '".to_owned();
            push_str(&mut m, name.as_str());
            push_str(&mut m, "' found but no base directory provided");
            return Err(ParseError::MissingHeader(m));
        }
        Ok(LineAction::Include(name))
    } else {
        let mut s = line.to_owned();
        crate::text::push_char(&mut s, '\n');
        assert(s@ =~= line@ + seq!['\n']);
        Ok(LineAction::Copy(s))
    }
}

/// The lines of a PDL file, as `str::lines` splits them.
pub fn pdl_lines(input: &str) -> (r: Vec<String>)
    ensures
        strs(r@) == lines(input@),
{
    let v = chars_of(input);
    let ls = split_lines(v.as_slice());
    let mut r: Vec<String> = Vec::new();
    let mut i: usize = 0;
    while i < ls.len()
        invariant
            i <= ls@.len(),
            ls@.map_values(|l: Vec<char>| l@) == lines(input@),
            strs(r@) == ls@.map_values(|l: Vec<char>| l@).take(i as int),
        decreases ls@.len() - i,
    {
        let s = string_of(ls[i].as_slice());
        let ghost before = r@;
        r.push(s);
        proof {
            assert(strs(r@) =~= strs(before).push(s@));
            assert(ls@.map_values(|l: Vec<char>| l@).take(i + 1) =~= ls@.map_values(
                |l: Vec<char>| l@,
            ).take(i as int).push(ls@[i as int]@));
        }
        i = i + 1;
    }
    proof {
        assert(ls@.map_values(|l: Vec<char>| l@).take(ls@.len() as int) =~= ls@.map_values(
            |l: Vec<char>| l@,
        ));
    }
    r
}

/// What of an included file is kept: everything after the license header,
/// which ends at the first blank line (`\n\n`); all of it when there is
/// none.
pub open spec fn body_of(content: Seq<char>) -> Seq<char> {
    match find(content, seq!['\n', '\n']) {
        Some(i) => content.skip(i + 2),
        None => content,
    }
}

/// The body of an included file: its text after the license header.
pub fn included_body(content: &str) -> (r: String)
    ensures
        r@ == body_of(content@),
{
    let v = chars_of(content);
    let n = v.len();
    let sep = vec!['\n', '\n'];
    assert(sep@ =~= seq!['\n', '\n']);
    match find_chars(v.as_slice(), sep.as_slice()) {
        Some(i) => {
            proof {
                lemma_find(v@, sep@);
            }
            let rest = crate::text::slice_chars(v.as_slice(), i + 2, v.len());
            assert(rest@ =~= content@.skip(i + 2));
            string_of(rest.as_slice())
        },
        None => content.to_owned(),
    }
}

/// The error for an included file that could not be read.
pub fn read_error(path: &str, reason: &str) -> (e: ParseError)
    ensures
        e@ == SpecParseError::MissingHeader("cannot read included file '"@ + path@ + "': "@ + reason@),
{
    let mut m = "cannot read included file '".to_owned();
    push_str(&mut m, path);
    push_str(&mut m, "': ");
    push_str(&mut m, reason);
    ParseError::MissingHeader(m)
}

} // verus!
