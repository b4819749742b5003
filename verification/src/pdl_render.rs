//! The canonical PDL text of a protocol, and the proof that parsing it gives
//! the protocol back.
//!
//! The rendering writes each element in the one form the parser reads back
//! unchanged: no descriptions (comments are trimmed when read), no inline
//! enums, identifiers made of ASCII letters and digits that are not PDL
//! keywords, objects with at least one property (an object without any
//! reads back as the primitive `object`), and arrays of non-array types.

use vstd::prelude::*;

use crate::pdl::{
    initial_state, is_indent, pdl_step, run_lines, spaces, spec_consume_flag, spec_finalise,
    spec_finalise_into_last, spec_parse, spec_push_property, step_indent2, step_indent4,
    step_indent6, step_top_level, PdlState, PrimitiveType, SpecCdpType, SpecCommand, SpecDomain,
    SpecElement, SpecEnumVariant, SpecEvent, SpecMember, SpecParseError, SpecProperty, SpecProtocol,
    SpecTypeDef, SpecTypeExtends, SpecTypeKind, SpecVersion,
};
use crate::text::{find, has_prefix, is_ws, lemma_find, lines, occurs_at, strip_cr, strip_prefix, trim, trim_end, trim_start, word_len, words};

verus! {

// ---------------------------------------------------------------------------
// Words and identifiers
// ---------------------------------------------------------------------------

/// An ASCII letter or digit.
pub open spec fn is_alnum(c: char) -> bool {
    ('a' <= c && c <= 'z') || ('A' <= c && c <= 'Z') || ('0' <= c && c <= '9')
}

/// A non-empty run of ASCII letters and digits.
pub open spec fn is_word(s: Seq<char>) -> bool {
    s.len() > 0 && forall|i: int| 0 <= i < s.len() ==> is_alnum(#[trigger] s[i])
}

/// The words PDL gives a meaning of its own.
pub open spec fn is_keyword(s: Seq<char>) -> bool {
    ||| s == "version"@
    ||| s == "domain"@
    ||| s == "depends"@
    ||| s == "type"@
    ||| s == "command"@
    ||| s == "event"@
    ||| s == "parameters"@
    ||| s == "returns"@
    ||| s == "properties"@
    ||| s == "enum"@
    ||| s == "extends"@
    ||| s == "experimental"@
    ||| s == "deprecated"@
    ||| s == "optional"@
    ||| s == "array"@
    ||| s == "of"@
    ||| s == "on"@
    ||| s == "redirect"@
    ||| s == "integer"@
    ||| s == "number"@
    ||| s == "boolean"@
    ||| s == "string"@
    ||| s == "object"@
    ||| s == "any"@
    ||| s == "binary"@
    ||| s == "major"@
    ||| s == "minor"@
}

/// A name the canonical text can carry: a word that is not a keyword.
pub open spec fn is_ident(s: Seq<char>) -> bool {
    is_word(s) && !is_keyword(s)
}

// ---------------------------------------------------------------------------
// The canonical text
// ---------------------------------------------------------------------------

/// The words joined with single spaces.
pub open spec fn spaced(ws: Seq<Seq<char>>) -> Seq<char>
    decreases ws.len(),
{
    if ws.len() == 0 {
        seq![]
    } else if ws.len() == 1 {
        ws[0]
    } else {
        ws[0] + " "@ + spaced(ws.drop_first())
    }
}

/// The lines joined, each followed by a newline.
pub open spec fn joined_lines(ls: Seq<Seq<char>>) -> Seq<char>
    decreases ls.len(),
{
    if ls.len() == 0 {
        seq![]
    } else {
        ls[0] + seq!['\n'] + joined_lines(ls.drop_first())
    }
}

/// The lists of lines one after the other.
pub open spec fn concat_lines(ls: Seq<Seq<Seq<char>>>) -> Seq<Seq<char>>
    decreases ls.len(),
{
    if ls.len() == 0 {
        seq![]
    } else {
        concat_lines(ls.drop_last()) + ls.last()
    }
}

/// `experimental ` and `deprecated ` as the flags say.
pub open spec fn flags_text(experimental: bool, deprecated: bool) -> Seq<char> {
    (if experimental {
        "experimental "@
    } else {
        seq![]
    }) + (if deprecated {
        "deprecated "@
    } else {
        seq![]
    })
}

/// The name of a primitive type in PDL.
pub open spec fn primitive_token(p: PrimitiveType) -> Seq<char> {
    match p {
        PrimitiveType::Integer => "integer"@,
        PrimitiveType::Number => "number"@,
        PrimitiveType::Boolean => "boolean"@,
        PrimitiveType::String => "string"@,
        PrimitiveType::Object => "object"@,
        PrimitiveType::Any => "any"@,
        PrimitiveType::Binary => "binary"@,
    }
}

/// The name of a non-array type in PDL.
pub open spec fn leaf_token(t: SpecCdpType) -> Seq<char> {
    match t {
        SpecCdpType::Integer => "integer"@,
        SpecCdpType::Number => "number"@,
        SpecCdpType::Boolean => "boolean"@,
        SpecCdpType::String => "string"@,
        SpecCdpType::Object => "object"@,
        SpecCdpType::Any => "any"@,
        SpecCdpType::Binary => "binary"@,
        SpecCdpType::Ref(r) => r,
        _ => seq![],
    }
}

/// The words of a property line.
pub open spec fn property_words(p: SpecProperty) -> Seq<Seq<char>> {
    (if p.experimental {
        seq!["experimental"@]
    } else {
        seq![]
    }) + (if p.deprecated {
        seq!["deprecated"@]
    } else {
        seq![]
    }) + (if p.optional {
        seq!["optional"@]
    } else {
        seq![]
    }) + match p.kind {
        SpecCdpType::Array(inner) => seq!["array"@, "of"@, leaf_token(*inner), p.name],
        other => seq![leaf_token(other), p.name],
    }
}

/// `      [experimental ][deprecated ][optional ][array of ]<type> <name>`.
pub open spec fn property_line(p: SpecProperty) -> Seq<char> {
    spaces(6) + spaced(property_words(p))
}

/// The lines of a member list under its header, or nothing when empty.
pub open spec fn section_lines(header: Seq<char>, ps: Seq<SpecProperty>) -> Seq<Seq<char>> {
    if ps.len() == 0 {
        seq![]
    } else {
        seq![spaces(4) + header] + ps.map_values(|p: SpecProperty| property_line(p))
    }
}

/// The lines of a type declaration.
pub open spec fn type_lines(t: SpecTypeDef) -> Seq<Seq<char>> {
    let head = spaces(2) + flags_text(t.experimental, t.deprecated) + "type "@ + t.id + " extends "@;
    match t.kind {
        SpecTypeKind::Primitive(p) => seq![head + primitive_token(p)],
        SpecTypeKind::Enum(vs) => seq![head + "string"@, spaces(4) + "enum"@] + vs.map_values(
            |v: crate::pdl::SpecEnumVariant| spaces(6) + v.name,
        ),
        SpecTypeKind::Object(ps) => seq![head + "object"@] + section_lines("properties"@, ps),
        SpecTypeKind::Array(inner) => seq![head + "array of "@ + leaf_token(inner)],
        SpecTypeKind::Ref(r) => seq![head + r],
    }
}

/// The lines of a command.
pub open spec fn command_lines(c: SpecCommand) -> Seq<Seq<char>> {
    seq![spaces(2) + flags_text(c.experimental, c.deprecated) + "command "@ + c.name]
        + section_lines("parameters"@, c.parameters) + section_lines("returns"@, c.returns)
}

/// The lines of an event.
pub open spec fn event_lines(e: SpecEvent) -> Seq<Seq<char>> {
    seq![spaces(2) + flags_text(e.experimental, e.deprecated) + "event "@ + e.name]
        + section_lines("parameters"@, e.parameters)
}

/// The lines of a domain, after a blank line.
pub open spec fn domain_lines(d: SpecDomain) -> Seq<Seq<char>> {
    seq![seq![], flags_text(d.experimental, d.deprecated) + "domain "@ + d.name]
        + d.dependencies.map_values(|dep: Seq<char>| spaces(2) + "depends on "@ + dep)
        + concat_lines(d.types.map_values(|t: SpecTypeDef| type_lines(t)))
        + concat_lines(d.commands.map_values(|c: SpecCommand| command_lines(c)))
        + concat_lines(d.events.map_values(|e: SpecEvent| event_lines(e)))
}

/// The lines of a protocol: the version block, then each domain.
pub open spec fn protocol_lines(p: SpecProtocol) -> Seq<Seq<char>> {
    seq!["version"@, spaces(2) + "major "@ + p.version.major, spaces(2) + "minor "@ + p.version.minor]
        + concat_lines(p.domains.map_values(|d: SpecDomain| domain_lines(d)))
}

/// The canonical PDL text of a protocol.
pub open spec fn render(p: SpecProtocol) -> Seq<char> {
    joined_lines(protocol_lines(p))
}

// ---------------------------------------------------------------------------
// What can be rendered
// ---------------------------------------------------------------------------

/// A non-array type the canonical text can name.
pub open spec fn renderable_leaf(t: SpecCdpType) -> bool {
    match t {
        SpecCdpType::Ref(r) => is_ident(r),
        SpecCdpType::Array(_) => false,
        SpecCdpType::InlineEnum(_) => false,
        _ => true,
    }
}

pub open spec fn renderable_property(p: SpecProperty) -> bool {
    &&& is_ident(p.name)
    &&& p.description is None
    &&& match p.kind {
        SpecCdpType::Array(inner) => renderable_leaf(*inner),
        other => renderable_leaf(other),
    }
}

pub open spec fn renderable_properties(ps: Seq<SpecProperty>) -> bool {
    forall|i: int| 0 <= i < ps.len() ==> renderable_property(#[trigger] ps[i])
}

/// Enum literals the canonical text carries: plain names, no descriptions.
pub open spec fn renderable_variants(vs: Seq<SpecEnumVariant>) -> bool {
    forall|i: int| 0 <= i < vs.len() ==> is_ident(#[trigger] vs[i].name) && vs[i].description is None
}

pub open spec fn renderable_type(t: SpecTypeDef) -> bool {
    &&& is_ident(t.id)
    &&& t.description is None
    &&& match t.kind {
        SpecTypeKind::Enum(vs) => renderable_variants(vs),
        SpecTypeKind::Object(ps) => ps.len() > 0 && renderable_properties(ps),
        SpecTypeKind::Primitive(_) => true,
        SpecTypeKind::Array(inner) => renderable_leaf(inner),
        SpecTypeKind::Ref(r) => is_ident(r),
    }
}

pub open spec fn renderable_command(c: SpecCommand) -> bool {
    &&& is_ident(c.name)
    &&& c.description is None
    &&& renderable_properties(c.parameters)
    &&& renderable_properties(c.returns)
}

pub open spec fn renderable_event(e: SpecEvent) -> bool {
    &&& is_ident(e.name)
    &&& e.description is None
    &&& renderable_properties(e.parameters)
}

pub open spec fn renderable_domain(d: SpecDomain) -> bool {
    &&& is_ident(d.name)
    &&& d.description is None
    &&& forall|i: int| 0 <= i < d.dependencies.len() ==> is_ident(#[trigger] d.dependencies[i])
    &&& forall|i: int| 0 <= i < d.types.len() ==> renderable_type(#[trigger] d.types[i])
    &&& forall|i: int| 0 <= i < d.commands.len() ==> renderable_command(#[trigger] d.commands[i])
    &&& forall|i: int| 0 <= i < d.events.len() ==> renderable_event(#[trigger] d.events[i])
}

/// A protocol the canonical text carries without loss.
pub open spec fn renderable(p: SpecProtocol) -> bool {
    &&& is_word(p.version.major)
    &&& is_word(p.version.minor)
    &&& forall|i: int| 0 <= i < p.domains.len() ==> renderable_domain(#[trigger] p.domains[i])
}

// ---------------------------------------------------------------------------
// Text facts
// ---------------------------------------------------------------------------

proof fn lemma_prefix(p: Seq<char>, s: Seq<char>)
    ensures
        has_prefix(p + s, p),
        (p + s).skip(p.len() as int) == s,
        strip_prefix(p + s, p) == Some(s),
{
    assert((p + s).take(p.len() as int) =~= p);
    assert((p + s).skip(p.len() as int) =~= s);
}

proof fn lemma_not_prefix(s: Seq<char>, p: Seq<char>, j: int)
    requires
        0 <= j < p.len(),
        j < s.len(),
        s[j] != p[j],
    ensures
        !has_prefix(s, p),
        strip_prefix(s, p) is None,
{
    if has_prefix(s, p) {
        assert(s.take(p.len() as int)[j] == s[j]);
    }
}

proof fn lemma_word_not_ws(s: Seq<char>)
    requires
        is_word(s),
    ensures
        forall|i: int| 0 <= i < s.len() ==> !is_ws(#[trigger] s[i]),
        forall|i: int| 0 <= i < s.len() ==> #[trigger] s[i] != '\n' && s[i] != '\r' && s[i] != ' ' && s[i] != '#',
{
    assert forall|i: int| 0 <= i < s.len() implies !is_ws(#[trigger] s[i]) by {
        assert(is_alnum(s[i]));
    }
    assert forall|i: int| 0 <= i < s.len() implies #[trigger] s[i] != '\n' && s[i] != '\r' && s[i] != ' ' && s[i] != '#' by {
        assert(is_alnum(s[i]));
    }
}

proof fn lemma_trim_start_spaces(n: nat, s: Seq<char>)
    ensures
        trim_start(spaces(n) + s) == trim_start(s),
    decreases n,
{
    if n > 0 {
        assert((spaces(n) + s)[0] == ' ');
        assert((spaces(n) + s).drop_first() =~= spaces((n - 1) as nat) + s);
        lemma_trim_start_spaces((n - 1) as nat, s);
    } else {
        assert(spaces(0) + s =~= s);
    }
}

/// A text whose ends are not whitespace is its own trim, also after
/// leading spaces.
proof fn lemma_trim_solid(n: nat, s: Seq<char>)
    requires
        s.len() > 0,
        !is_ws(s[0]),
        !is_ws(s.last()),
    ensures
        trim(spaces(n) + s) == s,
        trim(s) == s,
        trim_start(s) == s,
{
    lemma_trim_start_spaces(n, s);
}

proof fn lemma_word_len_word(w: Seq<char>, rest: Seq<char>)
    requires
        forall|i: int| 0 <= i < w.len() ==> !is_ws(#[trigger] w[i]),
        rest.len() == 0 || is_ws(rest[0]),
    ensures
        word_len(w + rest) == w.len(),
    decreases w.len(),
{
    if w.len() > 0 {
        assert((w + rest)[0] == w[0]);
        assert((w + rest).drop_first() =~= w.drop_first() + rest);
        assert forall|i: int| 0 <= i < w.drop_first().len() implies !is_ws(#[trigger] w.drop_first()[i]) by {
            assert(w.drop_first()[i] == w[i + 1]);
        }
        lemma_word_len_word(w.drop_first(), rest);
    } else {
        assert(w + rest =~= rest);
    }
}

/// Words joined with single spaces split back into those words.
proof fn lemma_words_spaced(ws: Seq<Seq<char>>)
    requires
        forall|i: int| 0 <= i < ws.len() ==> is_word(#[trigger] ws[i]),
    ensures
        words(spaced(ws)) == ws,
        ws.len() > 0 ==> spaced(ws).len() > 0 && !is_ws(spaced(ws)[0]) && !is_ws(spaced(ws).last()),
    decreases ws.len(),
{
    if ws.len() == 0 {
        assert(trim_start(seq![]) == Seq::<char>::empty());
        assert(words(seq![]) =~= Seq::<Seq<char>>::empty());
    } else {
        let w = ws[0];
        assert(is_word(w));
        lemma_word_not_ws(w);
        if ws.len() == 1 {
            assert(spaced(ws) == w);
            lemma_word_len_word(w, seq![]);
            assert(w + Seq::<char>::empty() =~= w);
            assert(trim_start(w) == w);
            assert(w.take(w.len() as int) =~= w);
            assert(w.skip(w.len() as int) =~= Seq::<char>::empty());
            lemma_words_spaced(ws.drop_first());
            assert(ws.drop_first() =~= Seq::<Seq<char>>::empty());
            assert(words(spaced(ws)) =~= seq![w] + Seq::<Seq<char>>::empty());
            assert(words(spaced(ws)) =~= ws);
        } else {
            let rest = ws.drop_first();
            assert forall|i: int| 0 <= i < rest.len() implies is_word(#[trigger] rest[i]) by {
                assert(rest[i] == ws[i + 1]);
            }
            lemma_words_spaced(rest);
            let tail = " "@ + spaced(rest);
            assert(spaced(ws) == w + tail);
            reveal_strlit(" ");
            assert(tail[0] == ' ');
            assert(is_ws(tail[0]));
            lemma_word_len_word(w, tail);
            let s = spaced(ws);
            assert(s[0] == w[0]);
            assert(trim_start(s) == s);
            assert(s.take(w.len() as int) =~= w);
            assert(s.skip(w.len() as int) =~= tail);
            assert(tail.drop_first() =~= spaced(rest));
            assert(trim_start(tail) == trim_start(spaced(rest)));
            assert(trim_start(spaced(rest)) == spaced(rest));
            assert(words(tail) == words(spaced(rest)));
            assert(words(s) =~= seq![w] + rest);
            assert(s.last() == spaced(rest).last());
        }
    }
}

// ---------------------------------------------------------------------------
// Lines
// ---------------------------------------------------------------------------

/// A line the canonical text can hold: no newline, and no carriage return
/// at its end.
pub open spec fn plain_line(l: Seq<char>) -> bool {
    &&& forall|i: int| 0 <= i < l.len() ==> #[trigger] l[i] != '\n'
    &&& l.len() > 0 ==> l.last() != '\r'
}

/// Lines joined with newlines are read back as those lines.
proof fn lemma_lines_joined(ls: Seq<Seq<char>>)
    requires
        forall|i: int| 0 <= i < ls.len() ==> plain_line(#[trigger] ls[i]),
    ensures
        lines(joined_lines(ls)) == ls,
    decreases ls.len(),
{
    reveal(lines);
    if ls.len() == 0 {
    } else {
        let l = ls[0];
        assert(plain_line(l));
        let rest = ls.drop_first();
        assert forall|i: int| 0 <= i < rest.len() implies plain_line(#[trigger] rest[i]) by {
            assert(rest[i] == ls[i + 1]);
        }
        lemma_lines_joined(rest);
        let s = joined_lines(ls);
        assert(s == l + seq!['\n'] + joined_lines(rest));
        let nl = seq!['\n'];
        assert(occurs_at(s, nl, l.len() as int)) by {
            assert(s.subrange(l.len() as int, l.len() + 1 as int) =~= nl);
        }
        assert forall|j: int| 0 <= j < l.len() implies !occurs_at(s, nl, j) by {
            if occurs_at(s, nl, j) {
                assert(s.subrange(j, j + 1)[0] == s[j]);
                assert(s[j] == l[j]);
            }
        }
        lemma_find(s, nl);
        let k = find(s, nl)->0;
        if k < l.len() {
            assert(!occurs_at(s, nl, k));
        }
        assert(k == l.len());
        assert(s.take(k) =~= l);
        assert(strip_cr(l) == l);
        assert(s.skip(k + 1) =~= joined_lines(rest));
        assert(lines(s) =~= seq![l] + rest);
    }
}

// ---------------------------------------------------------------------------
// Running the parser over a list of lines
// ---------------------------------------------------------------------------

/// The parser state after lines `ls`, starting from `st`, the first of them
/// being line `base + 1`.
pub open spec fn run_from(st: PdlState, ls: Seq<Seq<char>>, base: int) -> Result<PdlState, SpecParseError>
    decreases ls.len(),
{
    if ls.len() == 0 {
        Ok(st)
    } else {
        match run_from(st, ls.drop_last(), base) {
            Err(e) => Err(e),
            Ok(s) => pdl_step(s, ls.last(), base + ls.len()),
        }
    }
}

proof fn lemma_run_lines_from(ls: Seq<Seq<char>>, n: nat)
    requires
        n <= ls.len(),
    ensures
        run_lines(ls, n) == run_from(initial_state(), ls.take(n as int), 0),
    decreases n,
{
    if n > 0 {
        lemma_run_lines_from(ls, (n - 1) as nat);
        assert(ls.take(n as int).drop_last() =~= ls.take(n - 1));
        assert(ls.take(n as int).last() == ls[n - 1]);
    } else {
        assert(ls.take(0) =~= Seq::<Seq<char>>::empty());
    }
}

proof fn lemma_run_concat(st: PdlState, a: Seq<Seq<char>>, b: Seq<Seq<char>>, base: int)
    ensures
        run_from(st, a + b, base) == match run_from(st, a, base) {
            Ok(s) => run_from(s, b, base + a.len()),
            Err(e) => Err(e),
        },
    decreases b.len(),
{
    if b.len() == 0 {
        assert(a + b =~= a);
    } else {
        lemma_run_concat(st, a, b.drop_last(), base);
        assert((a + b).drop_last() =~= a + b.drop_last());
        assert((a + b).last() == b.last());
    }
}

proof fn lemma_run_one(st: PdlState, l: Seq<char>, base: int)
    ensures
        run_from(st, seq![l], base) == pdl_step(st, l, base + 1),
{
    assert(seq![l].drop_last() =~= Seq::<Seq<char>>::empty());
    assert(run_from(st, seq![l].drop_last(), base) == Ok::<PdlState, SpecParseError>(st));
    assert(seq![l].last() == l);
}

// ---------------------------------------------------------------------------
// One line at a time
// ---------------------------------------------------------------------------

/// A text with no whitespace at either end, not starting a comment.
pub open spec fn solid(c: Seq<char>) -> bool {
    &&& c.len() > 0
    &&& !is_ws(c[0])
    &&& !is_ws(c.last())
    &&& c[0] != '#'
}

proof fn lemma_spaces_prefix(n: nat, m: nat, c: Seq<char>)
    requires
        m <= n,
    ensures
        has_prefix(spaces(n) + c, spaces(m)),
        (spaces(n) + c).skip(m as int) == spaces((n - m) as nat) + c,
{
    assert((spaces(n) + c).take(m as int) =~= spaces(m));
    assert((spaces(n) + c).skip(m as int) =~= spaces((n - m) as nat) + c);
}

/// A blank line changes nothing.
proof fn lemma_step_blank(st: PdlState, line: int)
    ensures
        pdl_step(st, seq![], line) == Ok::<PdlState, SpecParseError>(st),
{
    assert(trim_start(seq![]) == Seq::<char>::empty());
    assert(trim_end(seq![]) == Seq::<char>::empty());
}

/// An indented line outside the version block is read by the step for its
/// indentation.
proof fn lemma_step_indented(st: PdlState, n: nat, c: Seq<char>, line: int)
    requires
        n == 2 || n == 4 || n == 6,
        solid(c),
        c[0] != ' ',
        !st.in_version,
    ensures
        pdl_step(st, spaces(n) + c, line) == if n == 2 {
            crate::pdl::step_indent2(st, c, line)
        } else if n == 4 {
            Ok(crate::pdl::step_indent4(st, c))
        } else {
            crate::pdl::step_indent6(st, c, line)
        },
{
    let raw = spaces(n) + c;
    lemma_trim_solid(n, c);
    assert(trim(raw) == c);
    reveal_strlit("version");
    reveal_strlit(" ");
    reveal_strlit("  ");
    assert(raw[0] == ' ');
    lemma_not_prefix(raw, "version"@, 0);
    lemma_spaces_prefix(n, 1, c);
    assert(spaces(1) =~= " "@);
    lemma_spaces_prefix(n, 2, c);
    if n == 2 {
        assert(raw.skip(2) =~= c);
        lemma_not_prefix(c, " "@, 0);
        assert(is_indent(raw, 2));
    } else {
        assert(raw.skip(2)[0] == ' ');
        assert(!is_indent(raw, 2)) by {
            lemma_spaces_prefix(n, 2, c);
            assert(raw.skip(2).take(1) =~= " "@);
        }
        lemma_spaces_prefix(n, 4, c);
        if n == 4 {
            assert(raw.skip(4) =~= c);
            lemma_not_prefix(c, " "@, 0);
            assert(is_indent(raw, 4));
        } else {
            assert(raw.skip(4)[0] == ' ');
            assert(!is_indent(raw, 4)) by {
                assert(raw.skip(4).take(1) =~= " "@);
            }
            lemma_spaces_prefix(n, 6, c);
            assert(spaces(0) + c =~= c);
        }
    }
}

/// An unindented line outside the version block is read as a top-level
/// line.
proof fn lemma_step_top(st: PdlState, c: Seq<char>, line: int)
    requires
        solid(c),
        c[0] != ' ',
        c[0] != 'v',
        crate::pdl::is_domain_line(c),
    ensures
        pdl_step(st, c, line) == Ok::<PdlState, SpecParseError>(crate::pdl::step_top_level(st, c)),
{
    lemma_trim_solid(0, c);
    reveal_strlit("version");
    reveal_strlit(" ");
    lemma_not_prefix(c, "version"@, 0);
    lemma_not_prefix(c, " "@, 0);
    lemma_not_prefix(c, spaces(2), 0);
    assert(crate::pdl::version_field(c) is None);
}

// ---------------------------------------------------------------------------
// Tokens and property lines
// ---------------------------------------------------------------------------

proof fn lemma_keyword_literals()
    ensures
        is_word("experimental"@),
        is_word("deprecated"@),
        is_word("optional"@),
        is_word("array"@),
        is_word("of"@),
        is_word("integer"@),
        is_word("number"@),
        is_word("boolean"@),
        is_word("string"@),
        is_word("object"@),
        is_word("any"@),
        is_word("binary"@),
        "experimental"@ != "deprecated"@,
        "experimental"@ != "optional"@,
        "deprecated"@ != "optional"@,
{
    reveal_strlit("experimental");
    reveal_strlit("deprecated");
    reveal_strlit("optional");
    reveal_strlit("array");
    reveal_strlit("of");
    reveal_strlit("integer");
    reveal_strlit("number");
    reveal_strlit("boolean");
    reveal_strlit("string");
    reveal_strlit("object");
    reveal_strlit("any");
    reveal_strlit("binary");
    assert("experimental"@[0] != "deprecated"@[0]);
    assert("experimental"@[0] != "optional"@[0]);
    assert("deprecated"@[0] != "optional"@[0]);
}

/// Whether `w` is one of the property flags.
pub open spec fn is_flag_word(w: Seq<char>) -> bool {
    w == "experimental"@ || w == "deprecated"@ || w == "optional"@
}

proof fn lemma_leaf_token(t: SpecCdpType)
    requires
        renderable_leaf(t),
    ensures
        crate::pdl::spec_parse_base_type(leaf_token(t)) == t,
        is_word(leaf_token(t)),
        !is_flag_word(leaf_token(t)),
        leaf_token(t) != "array"@,
        leaf_token(t) != "enum"@,
{
    reveal(crate::pdl::spec_parse_base_type);
    lemma_keyword_literals();
    reveal_strlit("experimental");
    reveal_strlit("deprecated");
    reveal_strlit("optional");
    reveal_strlit("array");
    reveal_strlit("enum");
    reveal_strlit("integer");
    reveal_strlit("number");
    reveal_strlit("boolean");
    reveal_strlit("string");
    reveal_strlit("object");
    reveal_strlit("any");
    reveal_strlit("binary");
    match t {
        SpecCdpType::Ref(r) => {},
        SpecCdpType::Integer => {},
        SpecCdpType::Number => {
            assert("number"@[0] != "integer"@[0]);
        },
        SpecCdpType::Boolean => {
            assert("boolean"@[0] != "integer"@[0]);
            assert("boolean"@[0] != "number"@[0]);
        },
        SpecCdpType::String => {
            assert("string"@[0] != "integer"@[0]);
            assert("string"@[0] != "number"@[0]);
            assert("string"@[0] != "boolean"@[0]);
        },
        SpecCdpType::Object => {
            assert("object"@[0] != "integer"@[0]);
            assert("object"@[0] != "number"@[0]);
            assert("object"@[0] != "boolean"@[0]);
            assert("object"@[0] != "string"@[0]);
            assert("object"@[1] != "optional"@[1]);
        },
        SpecCdpType::Any => {
            assert("any"@[0] != "integer"@[0]);
            assert("any"@[0] != "number"@[0]);
            assert("any"@[0] != "boolean"@[0]);
            assert("any"@[0] != "string"@[0]);
            assert("any"@[0] != "object"@[0]);
            assert("any"@[1] != "array"@[1]);
        },
        SpecCdpType::Binary => {
            assert("binary"@[0] != "integer"@[0]);
            assert("binary"@[0] != "number"@[0]);
            assert("binary"@[1] != "boolean"@[1]);
            assert("binary"@[0] != "string"@[0]);
            assert("binary"@[0] != "object"@[0]);
            assert("binary"@[0] != "any"@[0]);
        },
        _ => {},
    }
}

/// Some of `experimental`, `deprecated` and `optional`, in that order.
pub open spec fn flag_words(e: bool, d: bool, o: bool) -> Seq<Seq<char>> {
    (if e {
        seq!["experimental"@]
    } else {
        seq![]
    }) + (if d {
        seq!["deprecated"@]
    } else {
        seq![]
    }) + (if o {
        seq!["optional"@]
    } else {
        seq![]
    })
}

proof fn lemma_strip_flags(e: bool, d: bool, o: bool, rest: Seq<Seq<char>>)
    requires
        rest.len() > 0,
        !is_flag_word(rest[0]),
    ensures
        crate::pdl::spec_strip_flags(flag_words(e, d, o) + rest) == (e, d, o, rest),
{
    lemma_keyword_literals();
    let r = rest;
    let w_o = (if o {
        seq!["optional"@]
    } else {
        seq![]
    }) + r;
    let w_d = (if d {
        seq!["deprecated"@]
    } else {
        seq![]
    }) + w_o;
    let w_e = (if e {
        seq!["experimental"@]
    } else {
        seq![]
    }) + w_d;
    assert(flag_words(e, d, o) + rest =~= w_e);
    assert(crate::pdl::spec_strip_flags(r) == (false, false, false, r));
    if o {
        assert(w_o.drop_first() =~= r);
        assert(w_o[0] == "optional"@);
    } else {
        assert(w_o =~= r);
    }
    assert(crate::pdl::spec_strip_flags(w_o) == (false, false, o, r));
    if d {
        assert(w_d.drop_first() =~= w_o);
        assert(w_d[0] == "deprecated"@);
    } else {
        assert(w_d =~= w_o);
    }
    assert(crate::pdl::spec_strip_flags(w_d) == (false, d, o, r));
    if e {
        assert(w_e.drop_first() =~= w_d);
        assert(w_e[0] == "experimental"@);
    } else {
        assert(w_e =~= w_d);
    }
}

/// A property line is read back as the property.
proof fn lemma_property_line(p: SpecProperty)
    requires
        renderable_property(p),
    ensures
        solid(spaced(property_words(p))),
        spaced(property_words(p))[0] != ' ',
        crate::pdl::spec_try_parse_property(spaced(property_words(p)), None) == Some(p),
        p.kind != SpecCdpType::Ref("enum"@),
        property_line(p) == spaces(6) + spaced(property_words(p)),
{
    lemma_keyword_literals();
    let tail = match p.kind {
        SpecCdpType::Array(inner) => seq!["array"@, "of"@, leaf_token(*inner), p.name],
        other => seq![leaf_token(other), p.name],
    };
    match p.kind {
        SpecCdpType::Array(inner) => {
            lemma_leaf_token(*inner);
            reveal_strlit("array");
            reveal_strlit("experimental");
            reveal_strlit("deprecated");
            reveal_strlit("optional");
            assert("array"@[0] != "experimental"@[0]);
            assert("array"@[0] != "deprecated"@[0]);
            assert("array"@[0] != "optional"@[0]);
        },
        other => {
            lemma_leaf_token(other);
        },
    }
    assert(property_words(p) =~= flag_words(p.experimental, p.deprecated, p.optional) + tail);
    let ws = property_words(p);
    assert forall|i: int| 0 <= i < ws.len() implies is_word(#[trigger] ws[i]) by {
        let f = flag_words(p.experimental, p.deprecated, p.optional);
        if i < f.len() {
            assert(ws[i] == f[i]);
            assert(f[i] == "experimental"@ || f[i] == "deprecated"@ || f[i] == "optional"@);
        } else {
            assert(ws[i] == tail[i - f.len()]);
        }
    }
    lemma_words_spaced(ws);
    let c = spaced(ws);
    lemma_word_not_ws(ws[0]);
    assert(c[0] == ws[0][0]) by {
        lemma_spaced_first(ws);
    }
    assert(c[0] != '#' && c[0] != ' ');
    lemma_strip_flags(p.experimental, p.deprecated, p.optional, tail);
    reveal_strlit("enum");
    reveal_strlit("array");
    reveal_strlit("of");
    match p.kind {
        SpecCdpType::Array(inner) => {
            assert(tail.last() == p.name);
        },
        other => {
            assert(tail.len() == 2);
            assert(tail[0] != "array"@);
        },
    }
}

proof fn lemma_spaced_first(ws: Seq<Seq<char>>)
    requires
        ws.len() > 0,
        ws[0].len() > 0,
    ensures
        spaced(ws)[0] == ws[0][0],
{
    if ws.len() > 1 {
        assert((ws[0] + " "@ + spaced(ws.drop_first()))[0] == ws[0][0]);
    }
}

// ---------------------------------------------------------------------------
// Flags and element heads
// ---------------------------------------------------------------------------

proof fn lemma_consume_flags(e: bool, d: bool, body: Seq<char>)
    requires
        !has_prefix(body, "experimental "@),
        !has_prefix(body, "deprecated "@),
    ensures
        ({
            let (x, r1) = spec_consume_flag(flags_text(e, d) + body, "experimental "@);
            let (y, r2) = spec_consume_flag(r1, "deprecated "@);
            x == e && y == d && r2 == body
        }),
{
    reveal_strlit("experimental ");
    reveal_strlit("deprecated ");
    let dep = if d {
        "deprecated "@
    } else {
        seq![]
    };
    let after_e = dep + body;
    if e {
        assert(flags_text(e, d) + body =~= "experimental "@ + after_e);
        lemma_prefix("experimental "@, after_e);
    } else {
        assert(flags_text(e, d) + body =~= after_e);
        if d {
            assert(after_e[0] == 'd');
            lemma_not_prefix(after_e, "experimental "@, 0);
        }
    }
    if d {
        lemma_prefix("deprecated "@, body);
    } else {
        assert(after_e =~= body);
    }
}

/// What follows the flags of an element head never reads as a flag or as
/// `depends on`.
proof fn lemma_head_body(keyword: Seq<char>, name: Seq<char>)
    requires
        keyword == "type "@ || keyword == "command "@ || keyword == "event "@ || keyword == "domain "@,
    ensures
        !has_prefix(keyword + name, "experimental "@),
        !has_prefix(keyword + name, "deprecated "@),
        !has_prefix(keyword + name, "depends on "@),
        (keyword + name)[0] == keyword[0],
{
    reveal_strlit("experimental ");
    reveal_strlit("deprecated ");
    reveal_strlit("depends on ");
    reveal_strlit("type ");
    reveal_strlit("command ");
    reveal_strlit("event ");
    reveal_strlit("domain ");
    let b = keyword + name;
    assert(b[0] == keyword[0]);
    assert(b[1] == keyword[1]);
    if keyword == "type "@ || keyword == "command "@ {
        lemma_not_prefix(b, "experimental "@, 0);
        lemma_not_prefix(b, "deprecated "@, 0);
        lemma_not_prefix(b, "depends on "@, 0);
    } else if keyword == "event "@ {
        lemma_not_prefix(b, "experimental "@, 1);
        lemma_not_prefix(b, "deprecated "@, 0);
        lemma_not_prefix(b, "depends on "@, 0);
    } else {
        lemma_not_prefix(b, "experimental "@, 0);
        lemma_not_prefix(b, "deprecated "@, 1);
        lemma_not_prefix(b, "depends on "@, 1);
    }
}

/// A line starting with flags never reads as `depends on`.
proof fn lemma_flags_not_depends(e: bool, d: bool, body: Seq<char>)
    requires
        !has_prefix(body, "depends on "@),
    ensures
        !has_prefix(flags_text(e, d) + body, "depends on "@),
{
    reveal_strlit("experimental ");
    reveal_strlit("deprecated ");
    reveal_strlit("depends on ");
    let c = flags_text(e, d) + body;
    if e {
        assert(c[0] == 'e');
        lemma_not_prefix(c, "depends on "@, 0);
    } else if d {
        assert(c[3] == 'r');
        lemma_not_prefix(c, "depends on "@, 3);
    } else {
        assert(c =~= body);
    }
}

/// The first character and the solidity of a head line.
proof fn lemma_head_solid(e: bool, d: bool, keyword: Seq<char>, rest: Seq<char>)
    requires
        keyword == "type "@ || keyword == "command "@ || keyword == "event "@ || keyword == "domain "@,
        rest.len() > 0,
        is_alnum(rest.last()),
    ensures
        solid(flags_text(e, d) + (keyword + rest)),
        (flags_text(e, d) + (keyword + rest))[0] != ' ',
        (flags_text(e, d) + (keyword + rest))[0] != 'v',
{
    reveal_strlit("experimental ");
    reveal_strlit("deprecated ");
    reveal_strlit("type ");
    reveal_strlit("command ");
    reveal_strlit("event ");
    reveal_strlit("domain ");
    let c = flags_text(e, d) + (keyword + rest);
    assert(c.last() == rest.last());
    if e {
        assert(c[0] == 'e');
    } else if d {
        assert(c[0] == 'd');
    } else {
        assert(c[0] == keyword[0]);
    }
}

// ---------------------------------------------------------------------------
// The state inside the domains
// ---------------------------------------------------------------------------

/// The parser inside the domains: the version is read, no comment or
/// inline enum is open, and the domains read so far, with the open element
/// closed, are `ds`.
pub open spec fn settled(st: PdlState, v: SpecVersion, ds: Seq<SpecDomain>) -> bool {
    &&& st.version == Some(v)
    &&& !st.in_version
    &&& st.pending_desc is None
    &&& !st.member_enum_active
    &&& ds.len() > 0
    &&& spec_finalise_into_last(st.domains, st.element) == ds
}

/// A member list that an element takes properties into.
pub open spec fn accepts(el: SpecElement, m: SpecMember) -> bool {
    match el {
        SpecElement::TypeDef { .. } => m == SpecMember::Properties,
        SpecElement::Command { .. } => m == SpecMember::Parameters || m == SpecMember::Returns,
        SpecElement::Event { .. } => m == SpecMember::Parameters,
    }
}

/// The element with `ps` added to its member list `m`.
pub open spec fn add_props(el: SpecElement, m: SpecMember, ps: Seq<SpecProperty>) -> SpecElement {
    match el {
        SpecElement::TypeDef {
            id,
            description,
            experimental,
            deprecated,
            enum_started,
            variants,
            properties,
            extends,
        } => SpecElement::TypeDef {
            id,
            description,
            experimental,
            deprecated,
            enum_started,
            variants,
            properties: properties + ps,
            extends,
        },
        SpecElement::Command { name, description, experimental, deprecated, parameters, returns: rets } =>
            if m == SpecMember::Parameters {
            SpecElement::Command {
                name,
                description,
                experimental,
                deprecated,
                parameters: parameters + ps,
                returns: rets,
            }
        } else {
            SpecElement::Command {
                name,
                description,
                experimental,
                deprecated,
                parameters,
                returns: rets + ps,
            }
        },
        SpecElement::Event { name, description, experimental, deprecated, parameters } =>
            SpecElement::Event { name, description, experimental, deprecated, parameters: parameters + ps },
    }
}

/// Property lines add their properties to the open member list.
proof fn lemma_property_lines(st: PdlState, el: SpecElement, m: SpecMember, ps: Seq<SpecProperty>, base: int)
    requires
        st.element == Some(el),
        st.member == Some(m),
        accepts(el, m),
        !st.in_version,
        st.pending_desc is None,
        !st.member_enum_active,
        renderable_properties(ps),
    ensures
        run_from(st, ps.map_values(|p: SpecProperty| property_line(p)), base) == Ok::<PdlState, SpecParseError>(
            PdlState { element: Some(add_props(el, m, ps)), ..st },
        ),
    decreases ps.len(),
{
    let ls = ps.map_values(|p: SpecProperty| property_line(p));
    if ps.len() == 0 {
        assert(ls =~= Seq::<Seq<char>>::empty());
        assert(add_props(el, m, ps) == el) by {
            assert(ps =~= Seq::<SpecProperty>::empty());
            match el {
                SpecElement::TypeDef { properties, .. } => {
                    assert(properties + ps =~= properties);
                },
                SpecElement::Command { parameters, returns: rets, .. } => {
                    assert(parameters + ps =~= parameters);
                    assert(rets + ps =~= rets);
                },
                SpecElement::Event { parameters, .. } => {
                    assert(parameters + ps =~= parameters);
                },
            }
        }
    } else {
        let init = ps.drop_last();
        let p = ps.last();
        assert(renderable_properties(init)) by {
            assert forall|i: int| 0 <= i < init.len() implies renderable_property(#[trigger] init[i]) by {
                assert(init[i] == ps[i]);
            }
        }
        assert(renderable_property(p)) by {
            assert(p == ps[ps.len() - 1]);
        }
        lemma_property_lines(st, el, m, init, base);
        assert(ls.drop_last() =~= init.map_values(|p: SpecProperty| property_line(p)));
        let mid = PdlState { element: Some(add_props(el, m, init)), ..st };
        lemma_property_line(p);
        let c = spaced(property_words(p));
        assert(ls.last() == spaces(6) + c);
        lemma_step_indented(mid, 6, c, base + ls.len());
        let el2 = add_props(el, m, init);
        assert(accepts(el2, m));
        assert(add_props(el2, m, seq![p]) == add_props(el, m, ps)) by {
            match el {
                SpecElement::TypeDef { properties, .. } => {
                    assert(properties + init + seq![p] =~= properties + ps);
                },
                SpecElement::Command { parameters, returns: rets, .. } => {
                    assert(parameters + init + seq![p] =~= parameters + ps);
                    assert(rets + init + seq![p] =~= rets + ps);
                },
                SpecElement::Event { parameters, .. } => {
                    assert(parameters + init + seq![p] =~= parameters + ps);
                },
            }
        }
        assert(spec_push_property(p, Some(el2), Some(m), base + ls.len()) == Ok::<
            Option<SpecElement>,
            SpecParseError,
        >(Some(add_props(el2, m, seq![p])))) by {
            match el2 {
                SpecElement::TypeDef { properties, .. } => {
                    assert(properties.push(p) =~= properties + seq![p]);
                },
                SpecElement::Command { parameters, returns: rets, .. } => {
                    assert(parameters.push(p) =~= parameters + seq![p]);
                    assert(rets.push(p) =~= rets + seq![p]);
                },
                SpecElement::Event { parameters, .. } => {
                    assert(parameters.push(p) =~= parameters + seq![p]);
                },
            }
        }
        assert(trim_start(c) == c) by {
            lemma_trim_solid(0, c);
        }
    }
}

// ---------------------------------------------------------------------------
// Type declarations
// ---------------------------------------------------------------------------

/// The text after `extends` in the line of a type.
pub open spec fn kind_text(k: SpecTypeKind) -> Seq<char> {
    match k {
        SpecTypeKind::Primitive(p) => primitive_token(p),
        SpecTypeKind::Enum(_) => "string"@,
        SpecTypeKind::Object(_) => "object"@,
        SpecTypeKind::Array(inner) => "array of "@ + leaf_token(inner),
        SpecTypeKind::Ref(r) => r,
    }
}

/// What the head line of a type makes of its kind, before any block.
pub open spec fn head_extends(k: SpecTypeKind) -> SpecTypeExtends {
    match k {
        SpecTypeKind::Primitive(p) => SpecTypeExtends::Primitive(p),
        SpecTypeKind::Enum(_) => SpecTypeExtends::Primitive(PrimitiveType::String),
        SpecTypeKind::Object(_) => SpecTypeExtends::Primitive(PrimitiveType::Object),
        SpecTypeKind::Array(inner) => SpecTypeExtends::Array(inner),
        SpecTypeKind::Ref(r) => SpecTypeExtends::Ref(r),
    }
}

/// A type whose kind the canonical text carries.
pub open spec fn renderable_kind(k: SpecTypeKind) -> bool {
    match k {
        SpecTypeKind::Array(inner) => renderable_leaf(inner),
        SpecTypeKind::Ref(r) => is_ident(r),
        _ => true,
    }
}

proof fn lemma_primitive_token(p: PrimitiveType)
    ensures
        crate::pdl::spec_parse_primitive(primitive_token(p)) == Some(p),
        is_word(primitive_token(p)),
        primitive_token(p) != "enum"@,
{
    reveal(crate::pdl::spec_parse_primitive);
    let t = match p {
        PrimitiveType::Integer => SpecCdpType::Integer,
        PrimitiveType::Number => SpecCdpType::Number,
        PrimitiveType::Boolean => SpecCdpType::Boolean,
        PrimitiveType::String => SpecCdpType::String,
        PrimitiveType::Object => SpecCdpType::Object,
        PrimitiveType::Any => SpecCdpType::Any,
        PrimitiveType::Binary => SpecCdpType::Binary,
    };
    lemma_leaf_token(t);
    assert(leaf_token(t) == primitive_token(p));
    reveal(crate::pdl::spec_parse_base_type);
}

proof fn lemma_word_not_array(w: Seq<char>)
    requires
        is_word(w),
    ensures
        !has_prefix(w, "array of "@),
{
    reveal_strlit("array of ");
    if has_prefix(w, "array of "@) {
        assert(w.take(9)[5] == w[5]);
        assert(is_alnum(w[5]));
    }
}

proof fn lemma_kind_text(k: SpecTypeKind)
    requires
        renderable_kind(k),
    ensures
        crate::pdl::spec_extends_of(kind_text(k)) == head_extends(k),
        kind_text(k).len() > 0,
        is_alnum(kind_text(k).last()),
        trim(kind_text(k)) == kind_text(k),
{
    reveal_strlit("enum");
    reveal_strlit("array of ");
    reveal_strlit("string");
    reveal_strlit("object");
    reveal(crate::pdl::spec_parse_primitive);
    let kt = kind_text(k);
    match k {
        SpecTypeKind::Primitive(p) => {
            lemma_primitive_token(p);
            lemma_word_not_array(kt);
        },
        SpecTypeKind::Enum(_) => {
            lemma_primitive_token(PrimitiveType::String);
            lemma_word_not_array(kt);
        },
        SpecTypeKind::Object(_) => {
            lemma_primitive_token(PrimitiveType::Object);
            lemma_word_not_array(kt);
        },
        SpecTypeKind::Array(inner) => {
            lemma_leaf_token(inner);
            let tok = leaf_token(inner);
            lemma_prefix("array of "@, tok);
            lemma_word_not_ws(tok);
            lemma_trim_solid(0, tok);
            assert(kt[0] == 'a');
            assert(kt.last() == tok.last());
            assert(kt != "enum"@) by {
                assert(kt.len() > 4);
            }
            assert(is_alnum(tok.last()));
            lemma_trim_solid(0, kt);
        },
        SpecTypeKind::Ref(r) => {
            lemma_word_not_ws(r);
            if has_prefix(r, "array of "@) {
                assert(r.take(9)[5] == r[5]);
            }
            lemma_trim_solid(0, r);
            assert(is_alnum(r.last()));
        },
    }
    if let SpecTypeKind::Primitive(p) = k {
        lemma_word_not_ws(kt);
        assert(is_alnum(kt.last()));
        lemma_trim_solid(0, kt);
    }
    if let SpecTypeKind::Enum(_) = k {
        assert(kt =~= "string"@);
        assert(is_alnum(kt.last()));
        lemma_trim_solid(0, kt);
    }
    if let SpecTypeKind::Object(_) = k {
        assert(is_alnum(kt.last()));
        lemma_trim_solid(0, kt);
    }
}

proof fn lemma_find_extends(id: Seq<char>, k: Seq<char>)
    requires
        is_word(id),
    ensures
        find(id + " extends "@ + k, " extends "@) == Some(id.len() as int),
{
    reveal_strlit(" extends ");
    let s = id + " extends "@ + k;
    let pat = " extends "@;
    lemma_word_not_ws(id);
    assert(occurs_at(s, pat, id.len() as int)) by {
        assert(s.subrange(id.len() as int, id.len() + 9int) =~= pat);
    }
    assert forall|j: int| 0 <= j < id.len() implies !occurs_at(s, pat, j) by {
        if occurs_at(s, pat, j) {
            assert(s.subrange(j, j + 9)[0] == s[j]);
            assert(s[j] == id[j]);
        }
    }
    lemma_find(s, pat);
    let f = find(s, pat)->0;
    if f < id.len() {
        assert(!occurs_at(s, pat, f));
    }
}

/// The element the head line of a type opens.
pub open spec fn type_head_element(t: SpecTypeDef) -> SpecElement {
    SpecElement::TypeDef {
        id: t.id,
        description: None,
        experimental: t.experimental,
        deprecated: t.deprecated,
        enum_started: false,
        variants: seq![],
        properties: seq![],
        extends: head_extends(t.kind),
    }
}

/// The head line of a type closes the open element and opens the type.
#[verifier::spinoff_prover]
#[verifier::rlimit(60)]
proof fn lemma_type_head(st: PdlState, t: SpecTypeDef, line: int)
    requires
        !st.in_version,
        st.pending_desc is None,
        is_ident(t.id),
        renderable_kind(t.kind),
    ensures
        type_lines(t)[0] == spaces(2) + (flags_text(t.experimental, t.deprecated) + ("type "@ + (t.id + " extends "@ + kind_text(t.kind)))),
        pdl_step(st, type_lines(t)[0], line) == Ok::<PdlState, SpecParseError>(
            PdlState {
                domains: spec_finalise_into_last(st.domains, st.element),
                member: None,
                element: Some(type_head_element(t)),
                pending_desc: None,
                member_enum_active: false,
                ..st
            },
        ),
{
    let kt = kind_text(t.kind);
    let rest = t.id + " extends "@ + kt;
    let body = "type "@ + rest;
    let c = flags_text(t.experimental, t.deprecated) + body;
    assert(type_lines(t)[0] =~= spaces(2) + c);
    lemma_kind_text(t.kind);
    assert(rest.last() == kt.last());
    lemma_head_solid(t.experimental, t.deprecated, "type "@, rest);
    lemma_step_indented(st, 2, c, line);
    lemma_head_body("type "@, rest);
    lemma_flags_not_depends(t.experimental, t.deprecated, body);
    lemma_consume_flags(t.experimental, t.deprecated, body);
    lemma_prefix("type "@, rest);
    lemma_find_extends(t.id, kt);
    reveal_strlit(" extends ");
    assert(rest.take(t.id.len() as int) =~= t.id);
    assert(rest.skip(t.id.len() + 9int) =~= kt);
    lemma_word_not_ws(t.id);
    assert(is_alnum(t.id.last()));
    lemma_trim_solid(0, t.id);
}

/// The element a type is when its block is done.
pub open spec fn type_element(t: SpecTypeDef) -> SpecElement {
    match t.kind {
        SpecTypeKind::Enum(vs) => SpecElement::TypeDef {
            id: t.id,
            description: None,
            experimental: t.experimental,
            deprecated: t.deprecated,
            enum_started: true,
            variants: vs,
            properties: seq![],
            extends: SpecTypeExtends::Enum,
        },
        SpecTypeKind::Object(ps) => SpecElement::TypeDef {
            id: t.id,
            description: None,
            experimental: t.experimental,
            deprecated: t.deprecated,
            enum_started: false,
            variants: seq![],
            properties: ps,
            extends: SpecTypeExtends::Primitive(PrimitiveType::Object),
        },
        _ => type_head_element(t),
    }
}

/// A section keyword line switches the member list or opens an enum block.
proof fn lemma_step_keyword(st: PdlState, kw: Seq<char>, line: int)
    requires
        kw == "enum"@ || kw == "properties"@ || kw == "parameters"@ || kw == "returns"@,
        !st.in_version,
    ensures
        pdl_step(st, spaces(4) + kw, line) == Ok::<PdlState, SpecParseError>(
            crate::pdl::step_indent4(st, kw),
        ),
        kw == "parameters"@ ==> crate::pdl::step_indent4(st, kw) == (PdlState {
            member: Some(SpecMember::Parameters),
            member_enum_active: false,
            pending_desc: None,
            ..st
        }),
        kw == "returns"@ ==> crate::pdl::step_indent4(st, kw) == (PdlState {
            member: Some(SpecMember::Returns),
            member_enum_active: false,
            pending_desc: None,
            ..st
        }),
        kw == "properties"@ ==> crate::pdl::step_indent4(st, kw) == (PdlState {
            member: Some(SpecMember::Properties),
            member_enum_active: false,
            pending_desc: None,
            ..st
        }),
        kw == "enum"@ ==> crate::pdl::step_indent4(st, kw).element == (match st.element {
            Some(
                SpecElement::TypeDef {
                    id,
                    description,
                    experimental,
                    deprecated,
                    enum_started,
                    variants,
                    properties,
                    extends,
                },
            ) => Some(
                SpecElement::TypeDef {
                    id,
                    description,
                    experimental,
                    deprecated,
                    enum_started: true,
                    variants,
                    properties,
                    extends: SpecTypeExtends::Enum,
                },
            ),
            other => other,
        }),
        kw == "enum"@ ==> crate::pdl::step_indent4(st, kw) == (PdlState {
            element: crate::pdl::step_indent4(st, kw).element,
            member_enum_active: false,
            pending_desc: None,
            ..st
        }),
{
    reveal_strlit("enum");
    reveal_strlit("properties");
    reveal_strlit("parameters");
    reveal_strlit("returns");
    assert(kw.len() > 0);
    assert(is_alnum(kw[0]) && is_alnum(kw.last()));
    lemma_trim_solid(0, kw);
    lemma_step_indented(st, 4, kw, line);
    assert("properties"@[1] != "parameters"@[1]);
    assert("enum"@.len() != "parameters"@.len());
    assert("enum"@.len() != "returns"@.len());
    assert("enum"@.len() != "properties"@.len());
    assert("returns"@.len() != "parameters"@.len());
    assert("returns"@.len() != "properties"@.len());
}

/// Enum literal lines add their variants to an open enum block.
proof fn lemma_variant_lines(st: PdlState, t: SpecTypeDef, vs0: Seq<SpecEnumVariant>, vs: Seq<SpecEnumVariant>, base: int)
    requires
        st.element == Some(
            SpecElement::TypeDef {
                id: t.id,
                description: None,
                experimental: t.experimental,
                deprecated: t.deprecated,
                enum_started: true,
                variants: vs0,
                properties: seq![],
                extends: SpecTypeExtends::Enum,
            },
        ),
        !st.in_version,
        st.pending_desc is None,
        !st.member_enum_active,
        renderable_variants(vs),
    ensures
        run_from(st, vs.map_values(|v: SpecEnumVariant| spaces(6) + v.name), base) == Ok::<PdlState, SpecParseError>(
            PdlState {
                element: Some(
                    SpecElement::TypeDef {
                        id: t.id,
                        description: None,
                        experimental: t.experimental,
                        deprecated: t.deprecated,
                        enum_started: true,
                        variants: vs0 + vs,
                        properties: seq![],
                        extends: SpecTypeExtends::Enum,
                    },
                ),
                ..st
            },
        ),
    decreases vs.len(),
{
    let ls = vs.map_values(|v: SpecEnumVariant| spaces(6) + v.name);
    if vs.len() == 0 {
        assert(ls =~= Seq::<Seq<char>>::empty());
        assert(vs0 + vs =~= vs0);
    } else {
        let init = vs.drop_last();
        let v = vs.last();
        assert(renderable_variants(init)) by {
            assert forall|i: int| 0 <= i < init.len() implies is_ident(#[trigger] init[i].name)
                && init[i].description is None by {
                assert(init[i] == vs[i]);
            }
        }
        lemma_variant_lines(st, t, vs0, init, base);
        assert(ls.drop_last() =~= init.map_values(|v: SpecEnumVariant| spaces(6) + v.name));
        let mid = PdlState {
            element: Some(
                SpecElement::TypeDef {
                    id: t.id,
                    description: None,
                    experimental: t.experimental,
                    deprecated: t.deprecated,
                    enum_started: true,
                    variants: vs0 + init,
                    properties: seq![],
                    extends: SpecTypeExtends::Enum,
                },
            ),
            ..st
        };
        assert(is_ident(v.name) && v.description is None) by {
            assert(v == vs[vs.len() - 1]);
        }
        let name = v.name;
        lemma_word_not_ws(name);
        assert(is_alnum(name[0]) && is_alnum(name.last()));
        assert(ls.last() == spaces(6) + name);
        lemma_step_indented(mid, 6, name, base + ls.len());
        lemma_trim_solid(0, name);
        lemma_words_spaced(seq![name]);
        assert(spaced(seq![name]) == name);
        assert(crate::pdl::spec_try_parse_property(name, None) is None);
        assert(vs0 + init + seq![SpecEnumVariant { name, description: None }] =~= vs0 + vs);
        assert((vs0 + init).push(SpecEnumVariant { name, description: None }) =~= vs0 + vs);
    }
}

/// The member list a type leaves open after its block.
pub open spec fn type_member(t: SpecTypeDef) -> Option<SpecMember> {
    match t.kind {
        SpecTypeKind::Object(_) => Some(SpecMember::Properties),
        _ => None,
    }
}

/// The lines of a type close the open element and leave the type open.
#[verifier::spinoff_prover]
#[verifier::rlimit(40)]
proof fn lemma_type_lines(st: PdlState, t: SpecTypeDef, base: int)
    requires
        !st.in_version,
        st.pending_desc is None,
        renderable_type(t),
    ensures
        run_from(st, type_lines(t), base) == Ok::<PdlState, SpecParseError>(
            PdlState {
                domains: spec_finalise_into_last(st.domains, st.element),
                member: type_member(t),
                element: Some(type_element(t)),
                pending_desc: None,
                member_enum_active: false,
                ..st
            },
        ),
{
    let ls = type_lines(t);
    lemma_type_head(st, t, base + 1);
    let head = ls[0];
    let mid = PdlState {
        domains: spec_finalise_into_last(st.domains, st.element),
        member: None,
        element: Some(type_head_element(t)),
        pending_desc: None,
        member_enum_active: false,
        ..st
    };
    let rest = ls.drop_first();
    assert(ls =~= seq![head] + rest);
    lemma_run_concat(st, seq![head], rest, base);
    lemma_run_one(st, head, base);
    assert(run_from(st, seq![head], base) == Ok::<PdlState, SpecParseError>(mid));
    match t.kind {
        SpecTypeKind::Enum(vs) => {
            let kw = spaces(4) + "enum"@;
            let vls = vs.map_values(|v: SpecEnumVariant| spaces(6) + v.name);
            assert(rest =~= seq![kw] + vls);
            lemma_run_concat(mid, seq![kw], vls, base + 1);
            lemma_run_one(mid, kw, base + 1);
            lemma_step_keyword(mid, "enum"@, base + 2);
            let opened = PdlState {
                element: Some(
                    SpecElement::TypeDef {
                        id: t.id,
                        description: None,
                        experimental: t.experimental,
                        deprecated: t.deprecated,
                        enum_started: true,
                        variants: seq![],
                        properties: seq![],
                        extends: SpecTypeExtends::Enum,
                    },
                ),
                ..mid
            };
            assert(crate::pdl::step_indent4(mid, "enum"@) == opened);
            lemma_variant_lines(opened, t, seq![], vs, base + 2);
            assert(Seq::<SpecEnumVariant>::empty() + vs =~= vs);
        },
        SpecTypeKind::Object(ps) => {
            let kw = spaces(4) + "properties"@;
            let pls = ps.map_values(|p: SpecProperty| property_line(p));
            assert(rest =~= seq![kw] + pls);
            lemma_run_concat(mid, seq![kw], pls, base + 1);
            lemma_run_one(mid, kw, base + 1);
            lemma_step_keyword(mid, "properties"@, base + 2);
            let opened = PdlState { member: Some(SpecMember::Properties), ..mid };
            lemma_property_lines(opened, type_head_element(t), SpecMember::Properties, ps, base + 2);
            assert(Seq::<SpecProperty>::empty() + ps =~= ps);
        },
        _ => {
            assert(rest =~= Seq::<Seq<char>>::empty());
        },
    }
}

// ---------------------------------------------------------------------------
// Commands and events
// ---------------------------------------------------------------------------

/// A member list under its header adds its properties to the element.
proof fn lemma_section(st: PdlState, el: SpecElement, m: SpecMember, header: Seq<char>, ps: Seq<SpecProperty>, base: int)
    requires
        (header == "parameters"@ && m == SpecMember::Parameters) || (header == "returns"@ && m
            == SpecMember::Returns) || (header == "properties"@ && m == SpecMember::Properties),
        st.element == Some(el),
        accepts(el, m),
        !st.in_version,
        st.pending_desc is None,
        !st.member_enum_active,
        renderable_properties(ps),
    ensures
        run_from(st, section_lines(header, ps), base) == Ok::<PdlState, SpecParseError>(
            PdlState {
                member: if ps.len() == 0 {
                    st.member
                } else {
                    Some(m)
                },
                element: Some(add_props(el, m, ps)),
                ..st
            },
        ),
{
    if ps.len() == 0 {
        assert(section_lines(header, ps) =~= Seq::<Seq<char>>::empty());
        assert(add_props(el, m, ps) == el) by {
            match el {
                SpecElement::TypeDef { properties, .. } => {
                    assert(properties + ps =~= properties);
                },
                SpecElement::Command { parameters, returns: rets, .. } => {
                    assert(parameters + ps =~= parameters);
                    assert(rets + ps =~= rets);
                },
                SpecElement::Event { parameters, .. } => {
                    assert(parameters + ps =~= parameters);
                },
            }
        }
        assert(st == PdlState { member: st.member, element: Some(el), ..st });
    } else {
        let kw = spaces(4) + header;
        let pls = ps.map_values(|p: SpecProperty| property_line(p));
        assert(section_lines(header, ps) =~= seq![kw] + pls);
        lemma_run_concat(st, seq![kw], pls, base);
        lemma_run_one(st, kw, base);
        lemma_step_keyword(st, header, base + 1);
        let opened = PdlState { member: Some(m), ..st };
        lemma_property_lines(opened, el, m, ps, base + 1);
    }
}

/// The element the head line of a command or an event opens.
pub open spec fn named_head_element(keyword: Seq<char>, e: bool, d: bool, name: Seq<char>) -> SpecElement {
    if keyword == "command "@ {
        SpecElement::Command {
            name,
            description: None,
            experimental: e,
            deprecated: d,
            parameters: seq![],
            returns: seq![],
        }
    } else {
        SpecElement::Event { name, description: None, experimental: e, deprecated: d, parameters: seq![] }
    }
}

/// The head line of a command or an event closes the open element and
/// opens the new one.
#[verifier::spinoff_prover]
#[verifier::rlimit(40)]
proof fn lemma_named_head(st: PdlState, keyword: Seq<char>, e: bool, d: bool, name: Seq<char>, line: int)
    requires
        keyword == "command "@ || keyword == "event "@,
        !st.in_version,
        st.pending_desc is None,
        is_ident(name),
    ensures
        pdl_step(st, spaces(2) + (flags_text(e, d) + (keyword + name)), line) == Ok::<PdlState, SpecParseError>(
            PdlState {
                domains: spec_finalise_into_last(st.domains, st.element),
                member: None,
                element: Some(named_head_element(keyword, e, d, name)),
                pending_desc: None,
                member_enum_active: false,
                ..st
            },
        ),
{
    reveal_strlit("type ");
    reveal_strlit("command ");
    reveal_strlit("event ");
    let body = keyword + name;
    let c = flags_text(e, d) + body;
    lemma_word_not_ws(name);
    assert(is_alnum(name.last()));
    lemma_head_solid(e, d, keyword, name);
    lemma_step_indented(st, 2, c, line);
    lemma_head_body(keyword, name);
    lemma_flags_not_depends(e, d, body);
    lemma_consume_flags(e, d, body);
    lemma_prefix(keyword, name);
    lemma_not_prefix(body, "type "@, 0);
    if keyword == "event "@ {
        lemma_not_prefix(body, "command "@, 0);
    }
    lemma_trim_solid(0, name);
}

/// The member list a command leaves open.
pub open spec fn command_member(c: SpecCommand) -> Option<SpecMember> {
    if c.returns.len() > 0 {
        Some(SpecMember::Returns)
    } else if c.parameters.len() > 0 {
        Some(SpecMember::Parameters)
    } else {
        None
    }
}

/// The member list an event leaves open.
pub open spec fn event_member(e: SpecEvent) -> Option<SpecMember> {
    if e.parameters.len() > 0 {
        Some(SpecMember::Parameters)
    } else {
        None
    }
}

/// The lines of a command close the open element and leave the command
/// open.
#[verifier::spinoff_prover]
#[verifier::rlimit(40)]
proof fn lemma_command_lines(st: PdlState, c: SpecCommand, base: int)
    requires
        !st.in_version,
        st.pending_desc is None,
        renderable_command(c),
    ensures
        run_from(st, command_lines(c), base) == Ok::<PdlState, SpecParseError>(
            PdlState {
                domains: spec_finalise_into_last(st.domains, st.element),
                member: command_member(c),
                element: Some(
                    SpecElement::Command {
                        name: c.name,
                        description: None,
                        experimental: c.experimental,
                        deprecated: c.deprecated,
                        parameters: c.parameters,
                        returns: c.returns,
                    },
                ),
                pending_desc: None,
                member_enum_active: false,
                ..st
            },
        ),
{
    let head = spaces(2) + (flags_text(c.experimental, c.deprecated) + ("command "@ + c.name));
    let pl = section_lines("parameters"@, c.parameters);
    let rl = section_lines("returns"@, c.returns);
    assert(head =~= spaces(2) + flags_text(c.experimental, c.deprecated) + "command "@ + c.name);
    assert(command_lines(c) =~= seq![head] + pl + rl);
    lemma_named_head(st, "command "@, c.experimental, c.deprecated, c.name, base + 1);
    let el0 = named_head_element("command "@, c.experimental, c.deprecated, c.name);
    let s1 = PdlState {
        domains: spec_finalise_into_last(st.domains, st.element),
        member: None,
        element: Some(el0),
        pending_desc: None,
        member_enum_active: false,
        ..st
    };
    lemma_run_concat(st, seq![head] + pl, rl, base);
    lemma_run_concat(st, seq![head], pl, base);
    lemma_run_one(st, head, base);
    lemma_section(s1, el0, SpecMember::Parameters, "parameters"@, c.parameters, base + 1);
    let el1 = add_props(el0, SpecMember::Parameters, c.parameters);
    let s2 = PdlState {
        member: if c.parameters.len() == 0 {
            s1.member
        } else {
            Some(SpecMember::Parameters)
        },
        element: Some(el1),
        ..s1
    };
    assert((seq![head] + pl).len() == 1 + pl.len());
    lemma_section(s2, el1, SpecMember::Returns, "returns"@, c.returns, base + 1 + pl.len());
    assert(Seq::<SpecProperty>::empty() + c.parameters =~= c.parameters);
    assert(Seq::<SpecProperty>::empty() + c.returns =~= c.returns);
}

/// The lines of an event close the open element and leave the event open.
#[verifier::spinoff_prover]
#[verifier::rlimit(40)]
proof fn lemma_event_lines(st: PdlState, e: SpecEvent, base: int)
    requires
        !st.in_version,
        st.pending_desc is None,
        renderable_event(e),
    ensures
        run_from(st, event_lines(e), base) == Ok::<PdlState, SpecParseError>(
            PdlState {
                domains: spec_finalise_into_last(st.domains, st.element),
                member: event_member(e),
                element: Some(
                    SpecElement::Event {
                        name: e.name,
                        description: None,
                        experimental: e.experimental,
                        deprecated: e.deprecated,
                        parameters: e.parameters,
                    },
                ),
                pending_desc: None,
                member_enum_active: false,
                ..st
            },
        ),
{
    let head = spaces(2) + (flags_text(e.experimental, e.deprecated) + ("event "@ + e.name));
    let pl = section_lines("parameters"@, e.parameters);
    assert(head =~= spaces(2) + flags_text(e.experimental, e.deprecated) + "event "@ + e.name);
    assert(event_lines(e) =~= seq![head] + pl);
    lemma_named_head(st, "event "@, e.experimental, e.deprecated, e.name, base + 1);
    reveal_strlit("command ");
    reveal_strlit("event ");
    assert("event "@ != "command "@);
    let el0 = named_head_element("event "@, e.experimental, e.deprecated, e.name);
    let s1 = PdlState {
        domains: spec_finalise_into_last(st.domains, st.element),
        member: None,
        element: Some(el0),
        pending_desc: None,
        member_enum_active: false,
        ..st
    };
    lemma_run_concat(st, seq![head], pl, base);
    lemma_run_one(st, head, base);
    lemma_section(s1, el0, SpecMember::Parameters, "parameters"@, e.parameters, base + 1);
    assert(Seq::<SpecProperty>::empty() + e.parameters =~= e.parameters);
}

// ---------------------------------------------------------------------------
// The lists of a domain
// ---------------------------------------------------------------------------

/// The domains with `ts` added to the types of the last one.
pub open spec fn with_types(ds: Seq<SpecDomain>, ts: Seq<SpecTypeDef>) -> Seq<SpecDomain> {
    ds.update(ds.len() - 1, SpecDomain { types: ds.last().types + ts, ..ds.last() })
}

/// The domains with `cs` added to the commands of the last one.
pub open spec fn with_commands(ds: Seq<SpecDomain>, cs: Seq<SpecCommand>) -> Seq<SpecDomain> {
    ds.update(ds.len() - 1, SpecDomain { commands: ds.last().commands + cs, ..ds.last() })
}

/// The domains with `es` added to the events of the last one.
pub open spec fn with_events(ds: Seq<SpecDomain>, es: Seq<SpecEvent>) -> Seq<SpecDomain> {
    ds.update(ds.len() - 1, SpecDomain { events: ds.last().events + es, ..ds.last() })
}

proof fn lemma_concat_lines_last(ls: Seq<Seq<Seq<char>>>)
    requires
        ls.len() > 0,
    ensures
        concat_lines(ls) == concat_lines(ls.drop_last()) + ls.last(),
{
}

#[verifier::spinoff_prover]
proof fn lemma_types_lines(st: PdlState, v: SpecVersion, ds: Seq<SpecDomain>, ts: Seq<SpecTypeDef>, base: int)
    requires
        settled(st, v, ds),
        forall|i: int| 0 <= i < ts.len() ==> renderable_type(#[trigger] ts[i]),
    ensures
        run_from(st, concat_lines(ts.map_values(|t: SpecTypeDef| type_lines(t))), base) is Ok,
        settled(
            run_from(st, concat_lines(ts.map_values(|t: SpecTypeDef| type_lines(t))), base)->Ok_0,
            v,
            with_types(ds, ts),
        ),
    decreases ts.len(),
{
    let all = ts.map_values(|t: SpecTypeDef| type_lines(t));
    if ts.len() == 0 {
        assert(all =~= Seq::<Seq<Seq<char>>>::empty());
        assert(concat_lines(all) =~= Seq::<Seq<char>>::empty());
        assert(ds.last().types + ts =~= ds.last().types);
        assert(with_types(ds, ts) =~= ds);
    } else {
        let init = ts.drop_last();
        let t = ts.last();
        assert(renderable_type(t)) by {
            assert(t == ts[ts.len() - 1]);
        }
        assert forall|i: int| 0 <= i < init.len() implies renderable_type(#[trigger] init[i]) by {
            assert(init[i] == ts[i]);
        }
        lemma_types_lines(st, v, ds, init, base);
        let a = concat_lines(init.map_values(|t: SpecTypeDef| type_lines(t)));
        lemma_concat_lines_last(all);
        assert(all.drop_last() =~= init.map_values(|t: SpecTypeDef| type_lines(t)));
        assert(concat_lines(all) == a + type_lines(t));
        lemma_run_concat(st, a, type_lines(t), base);
        let s1 = run_from(st, a, base)->Ok_0;
        lemma_type_lines(s1, t, base + a.len());
        let d1 = with_types(ds, init);
        assert(spec_finalise(type_element(t), d1.last()) == SpecDomain { types: d1.last().types.push(t), ..d1.last() });
        assert(d1.last().types.push(t) =~= ds.last().types + ts);
        assert(with_types(ds, ts) =~= d1.update(d1.len() - 1, SpecDomain { types: d1.last().types.push(t), ..d1.last() }));
    }
}

#[verifier::spinoff_prover]
proof fn lemma_commands_lines(st: PdlState, v: SpecVersion, ds: Seq<SpecDomain>, cs: Seq<SpecCommand>, base: int)
    requires
        settled(st, v, ds),
        forall|i: int| 0 <= i < cs.len() ==> renderable_command(#[trigger] cs[i]),
    ensures
        run_from(st, concat_lines(cs.map_values(|c: SpecCommand| command_lines(c))), base) is Ok,
        settled(
            run_from(st, concat_lines(cs.map_values(|c: SpecCommand| command_lines(c))), base)->Ok_0,
            v,
            with_commands(ds, cs),
        ),
    decreases cs.len(),
{
    let all = cs.map_values(|c: SpecCommand| command_lines(c));
    if cs.len() == 0 {
        assert(all =~= Seq::<Seq<Seq<char>>>::empty());
        assert(concat_lines(all) =~= Seq::<Seq<char>>::empty());
        assert(ds.last().commands + cs =~= ds.last().commands);
        assert(with_commands(ds, cs) =~= ds);
    } else {
        let init = cs.drop_last();
        let c = cs.last();
        assert(renderable_command(c)) by {
            assert(c == cs[cs.len() - 1]);
        }
        assert forall|i: int| 0 <= i < init.len() implies renderable_command(#[trigger] init[i]) by {
            assert(init[i] == cs[i]);
        }
        lemma_commands_lines(st, v, ds, init, base);
        let a = concat_lines(init.map_values(|c: SpecCommand| command_lines(c)));
        lemma_concat_lines_last(all);
        assert(all.drop_last() =~= init.map_values(|c: SpecCommand| command_lines(c)));
        assert(concat_lines(all) == a + command_lines(c));
        lemma_run_concat(st, a, command_lines(c), base);
        let s1 = run_from(st, a, base)->Ok_0;
        lemma_command_lines(s1, c, base + a.len());
        let d1 = with_commands(ds, init);
        assert(d1.last().commands.push(c) =~= ds.last().commands + cs);
        assert(with_commands(ds, cs) =~= d1.update(d1.len() - 1, SpecDomain { commands: d1.last().commands.push(c), ..d1.last() }));
    }
}

#[verifier::spinoff_prover]
proof fn lemma_events_lines(st: PdlState, v: SpecVersion, ds: Seq<SpecDomain>, es: Seq<SpecEvent>, base: int)
    requires
        settled(st, v, ds),
        forall|i: int| 0 <= i < es.len() ==> renderable_event(#[trigger] es[i]),
    ensures
        run_from(st, concat_lines(es.map_values(|e: SpecEvent| event_lines(e))), base) is Ok,
        settled(
            run_from(st, concat_lines(es.map_values(|e: SpecEvent| event_lines(e))), base)->Ok_0,
            v,
            with_events(ds, es),
        ),
    decreases es.len(),
{
    let all = es.map_values(|e: SpecEvent| event_lines(e));
    if es.len() == 0 {
        assert(all =~= Seq::<Seq<Seq<char>>>::empty());
        assert(concat_lines(all) =~= Seq::<Seq<char>>::empty());
        assert(ds.last().events + es =~= ds.last().events);
        assert(with_events(ds, es) =~= ds);
    } else {
        let init = es.drop_last();
        let e = es.last();
        assert(renderable_event(e)) by {
            assert(e == es[es.len() - 1]);
        }
        assert forall|i: int| 0 <= i < init.len() implies renderable_event(#[trigger] init[i]) by {
            assert(init[i] == es[i]);
        }
        lemma_events_lines(st, v, ds, init, base);
        let a = concat_lines(init.map_values(|e: SpecEvent| event_lines(e)));
        lemma_concat_lines_last(all);
        assert(all.drop_last() =~= init.map_values(|e: SpecEvent| event_lines(e)));
        assert(concat_lines(all) == a + event_lines(e));
        lemma_run_concat(st, a, event_lines(e), base);
        let s1 = run_from(st, a, base)->Ok_0;
        lemma_event_lines(s1, e, base + a.len());
        let d1 = with_events(ds, init);
        assert(d1.last().events.push(e) =~= ds.last().events + es);
        assert(with_events(ds, es) =~= d1.update(d1.len() - 1, SpecDomain { events: d1.last().events.push(e), ..d1.last() }));
    }
}

// ---------------------------------------------------------------------------
// Domains
// ---------------------------------------------------------------------------

/// The parser between domains: the version is read, no comment or inline
/// enum is open, and the domains read so far, with the open element closed,
/// are `ds`.
pub open spec fn outer(st: PdlState, v: SpecVersion, ds: Seq<SpecDomain>) -> bool {
    &&& st.version == Some(v)
    &&& st.pending_desc is None
    &&& !st.member_enum_active
    &&& spec_finalise_into_last(st.domains, st.element) == ds
}

/// The domains with `deps` added to the dependencies of the last one.
pub open spec fn with_deps(ds: Seq<SpecDomain>, deps: Seq<Seq<char>>) -> Seq<SpecDomain> {
    ds.update(ds.len() - 1, SpecDomain { dependencies: ds.last().dependencies + deps, ..ds.last() })
}

/// The domain a domain line opens.
pub open spec fn domain_head(d: SpecDomain) -> SpecDomain {
    SpecDomain {
        name: d.name,
        description: None,
        experimental: d.experimental,
        deprecated: d.deprecated,
        dependencies: seq![],
        types: seq![],
        commands: seq![],
        events: seq![],
    }
}

/// A domain line closes the open element and opens the domain.
#[verifier::spinoff_prover]
#[verifier::rlimit(40)]
proof fn lemma_domain_head(st: PdlState, d: SpecDomain, line: int)
    requires
        st.pending_desc is None,
        is_ident(d.name),
    ensures
        pdl_step(st, flags_text(d.experimental, d.deprecated) + ("domain "@ + d.name), line) == Ok::<
            PdlState,
            SpecParseError,
        >(
            PdlState {
                in_version: false,
                domains: spec_finalise_into_last(st.domains, st.element).push(domain_head(d)),
                pending_desc: None,
                element: None,
                member: None,
                member_enum_active: false,
                ..st
            },
        ),
{
    let body = "domain "@ + d.name;
    let c = flags_text(d.experimental, d.deprecated) + body;
    lemma_word_not_ws(d.name);
    assert(is_alnum(d.name.last()));
    lemma_head_solid(d.experimental, d.deprecated, "domain "@, d.name);
    lemma_head_body("domain "@, d.name);
    lemma_consume_flags(d.experimental, d.deprecated, body);
    lemma_prefix("domain "@, d.name);
    lemma_step_top(st, c, line);
    lemma_trim_solid(0, d.name);
}

/// `depends on` lines add their domains to the dependencies of the last
/// domain.
proof fn lemma_deps_lines(st: PdlState, v: SpecVersion, ds: Seq<SpecDomain>, deps: Seq<Seq<char>>, base: int)
    requires
        settled(st, v, ds),
        st.element is None,
        forall|i: int| 0 <= i < deps.len() ==> is_ident(#[trigger] deps[i]),
    ensures
        run_from(st, deps.map_values(|dep: Seq<char>| spaces(2) + "depends on "@ + dep), base) == Ok::<
            PdlState,
            SpecParseError,
        >(PdlState { domains: with_deps(st.domains, deps), ..st }),
    decreases deps.len(),
{
    let ls = deps.map_values(|dep: Seq<char>| spaces(2) + "depends on "@ + dep);
    if deps.len() == 0 {
        assert(ls =~= Seq::<Seq<char>>::empty());
        assert(st.domains.last().dependencies + deps =~= st.domains.last().dependencies);
        assert(with_deps(st.domains, deps) =~= st.domains);
    } else {
        let init = deps.drop_last();
        let dep = deps.last();
        assert(is_ident(dep)) by {
            assert(dep == deps[deps.len() - 1]);
        }
        assert forall|i: int| 0 <= i < init.len() implies is_ident(#[trigger] init[i]) by {
            assert(init[i] == deps[i]);
        }
        lemma_deps_lines(st, v, ds, init, base);
        assert(ls.drop_last() =~= init.map_values(|dep: Seq<char>| spaces(2) + "depends on "@ + dep));
        let mid = PdlState { domains: with_deps(st.domains, init), ..st };
        reveal_strlit("depends on ");
        let c = "depends on "@ + dep;
        lemma_word_not_ws(dep);
        assert(is_alnum(dep.last()));
        assert(c[0] == 'd');
        assert(c.last() == dep.last());
        assert(ls.last() =~= spaces(2) + c);
        lemma_step_indented(mid, 2, c, base + ls.len());
        lemma_prefix("depends on "@, dep);
        lemma_trim_solid(0, dep);
        assert(mid.domains.last().dependencies.push(dep) =~= st.domains.last().dependencies + deps);
        assert(with_deps(st.domains, deps) =~= mid.domains.update(
            mid.domains.len() - 1,
            SpecDomain { dependencies: mid.domains.last().dependencies.push(dep), ..mid.domains.last() },
        ));
        assert(PdlState { member_enum_active: false, ..mid } == mid);
    }
}

/// The lines of a domain add the domain.
#[verifier::spinoff_prover]
#[verifier::rlimit(60)]
proof fn lemma_domain_lines(st: PdlState, v: SpecVersion, ds: Seq<SpecDomain>, d: SpecDomain, base: int)
    requires
        outer(st, v, ds),
        renderable_domain(d),
    ensures
        run_from(st, domain_lines(d), base) is Ok,
        settled(run_from(st, domain_lines(d), base)->Ok_0, v, ds.push(d)),
{
    let head = flags_text(d.experimental, d.deprecated) + ("domain "@ + d.name);
    let l0 = seq![seq![], head];
    let dl = d.dependencies.map_values(|dep: Seq<char>| spaces(2) + "depends on "@ + dep);
    let tl = concat_lines(d.types.map_values(|t: SpecTypeDef| type_lines(t)));
    let cl = concat_lines(d.commands.map_values(|c: SpecCommand| command_lines(c)));
    let el = concat_lines(d.events.map_values(|e: SpecEvent| event_lines(e)));
    assert(head =~= flags_text(d.experimental, d.deprecated) + "domain "@ + d.name);
    assert(domain_lines(d) =~= l0 + dl + tl + cl + el);
    // the blank line and the head
    lemma_run_concat(st, seq![seq![]], seq![head], base);
    assert(l0 =~= seq![seq![]] + seq![head]);
    lemma_run_one(st, seq![], base);
    lemma_step_blank(st, base + 1);
    lemma_run_one(st, head, base + 1);
    lemma_domain_head(st, d, base + 2);
    let s1 = PdlState {
        in_version: false,
        domains: ds.push(domain_head(d)),
        pending_desc: None,
        element: None,
        member: None,
        member_enum_active: false,
        ..st
    };
    assert(run_from(st, l0, base) == Ok::<PdlState, SpecParseError>(s1));
    let ds1 = ds.push(domain_head(d));
    assert(settled(s1, v, ds1));
    // dependencies
    lemma_run_concat(st, l0, dl, base);
    lemma_deps_lines(s1, v, ds1, d.dependencies, base + 2);
    let ds2 = with_deps(ds1, d.dependencies);
    let s2 = PdlState { domains: ds2, ..s1 };
    assert(settled(s2, v, ds2));
    // types, commands, events
    lemma_run_concat(st, l0 + dl, tl, base);
    lemma_types_lines(s2, v, ds2, d.types, base + 2 + dl.len());
    let s3 = run_from(s2, tl, base + 2 + dl.len())->Ok_0;
    let ds3 = with_types(ds2, d.types);
    lemma_run_concat(st, l0 + dl + tl, cl, base);
    lemma_commands_lines(s3, v, ds3, d.commands, base + 2 + dl.len() + tl.len());
    let s4 = run_from(s3, cl, base + 2 + dl.len() + tl.len())->Ok_0;
    let ds4 = with_commands(ds3, d.commands);
    lemma_run_concat(st, l0 + dl + tl + cl, el, base);
    lemma_events_lines(s4, v, ds4, d.events, base + 2 + dl.len() + tl.len() + cl.len());
    let ds5 = with_events(ds4, d.events);
    assert(Seq::<Seq<char>>::empty() + d.dependencies =~= d.dependencies);
    assert(Seq::<SpecTypeDef>::empty() + d.types =~= d.types);
    assert(Seq::<SpecCommand>::empty() + d.commands =~= d.commands);
    assert(Seq::<SpecEvent>::empty() + d.events =~= d.events);
    assert(ds5.last() == d);
    assert(ds5 =~= ds.push(d));
}

// ---------------------------------------------------------------------------
// The whole protocol
// ---------------------------------------------------------------------------

/// Domain lines one after the other add their domains.
proof fn lemma_domains_lines(st: PdlState, v: SpecVersion, ds: Seq<SpecDomain>, dds: Seq<SpecDomain>, base: int)
    requires
        outer(st, v, ds),
        forall|i: int| 0 <= i < dds.len() ==> renderable_domain(#[trigger] dds[i]),
    ensures
        run_from(st, concat_lines(dds.map_values(|d: SpecDomain| domain_lines(d))), base) is Ok,
        outer(run_from(st, concat_lines(dds.map_values(|d: SpecDomain| domain_lines(d))), base)->Ok_0, v, ds + dds),
    decreases dds.len(),
{
    let all = dds.map_values(|d: SpecDomain| domain_lines(d));
    if dds.len() == 0 {
        assert(all =~= Seq::<Seq<Seq<char>>>::empty());
        assert(concat_lines(all) =~= Seq::<Seq<char>>::empty());
        assert(ds + dds =~= ds);
    } else {
        let init = dds.drop_last();
        let d = dds.last();
        assert(renderable_domain(d)) by {
            assert(d == dds[dds.len() - 1]);
        }
        assert forall|i: int| 0 <= i < init.len() implies renderable_domain(#[trigger] init[i]) by {
            assert(init[i] == dds[i]);
        }
        lemma_domains_lines(st, v, ds, init, base);
        let a = concat_lines(init.map_values(|d: SpecDomain| domain_lines(d)));
        lemma_concat_lines_last(all);
        assert(all.drop_last() =~= init.map_values(|d: SpecDomain| domain_lines(d)));
        lemma_run_concat(st, a, domain_lines(d), base);
        let s1 = run_from(st, a, base)->Ok_0;
        lemma_domain_lines(s1, v, ds + init, d, base + a.len());
        assert((ds + init).push(d) =~= ds + dds);
    }
}

/// The state after the version block.
pub open spec fn after_version(v: SpecVersion) -> PdlState {
    PdlState { in_version: true, version: Some(v), ..initial_state() }
}

/// The version block is read as the version.
#[verifier::spinoff_prover]
#[verifier::rlimit(40)]
proof fn lemma_version_lines(v: SpecVersion)
    requires
        is_word(v.major),
        is_word(v.minor),
    ensures
        run_from(
            initial_state(),
            seq!["version"@, spaces(2) + "major "@ + v.major, spaces(2) + "minor "@ + v.minor],
            0,
        ) == Ok::<PdlState, SpecParseError>(after_version(v)),
{
    reveal_strlit("version");
    reveal_strlit("major ");
    reveal_strlit("minor ");
    reveal_strlit("  ");
    let l1 = "version"@;
    let ca = "major "@ + v.major;
    let cb = "minor "@ + v.minor;
    let l2 = spaces(2) + "major "@ + v.major;
    let l3 = spaces(2) + "minor "@ + v.minor;
    assert(l2 =~= spaces(2) + ca);
    assert(l3 =~= spaces(2) + cb);
    let ls = seq![l1, l2, l3];
    assert(ls =~= seq![l1] + seq![l2] + seq![l3]);
    lemma_run_concat(initial_state(), seq![l1] + seq![l2], seq![l3], 0);
    lemma_run_concat(initial_state(), seq![l1], seq![l2], 0);
    lemma_run_one(initial_state(), l1, 0);
    // "version"
    assert(is_alnum(l1[0]) && is_alnum(l1.last()));
    lemma_trim_solid(0, l1);
    assert(l1.take(7) =~= l1);
    lemma_not_prefix(l1, "  "@, 0);
    let s1 = PdlState {
        in_version: true,
        version: Some(SpecVersion { major: Seq::empty(), minor: Seq::empty() }),
        pending_desc: None,
        ..initial_state()
    };
    assert(pdl_step(initial_state(), l1, 1) == Ok::<PdlState, SpecParseError>(s1));
    // "  major ..."
    lemma_word_not_ws(v.major);
    assert(is_alnum(v.major.last()));
    assert(ca[0] == 'm' && ca.last() == v.major.last());
    lemma_trim_solid(2, ca);
    lemma_prefix(spaces(2), ca);
    lemma_prefix("major "@, v.major);
    lemma_trim_solid(0, v.major);
    assert(l2[0] == ' ');
    lemma_not_prefix(l2, "version"@, 0);
    let s2 = PdlState { version: Some(SpecVersion { major: v.major, minor: Seq::empty() }), ..s1 };
    lemma_run_one(s1, l2, 1);
    assert(pdl_step(s1, l2, 2) == Ok::<PdlState, SpecParseError>(s2));
    // "  minor ..."
    lemma_word_not_ws(v.minor);
    assert(is_alnum(v.minor.last()));
    assert(cb[0] == 'm' && cb.last() == v.minor.last());
    lemma_trim_solid(2, cb);
    lemma_prefix(spaces(2), cb);
    lemma_prefix("minor "@, v.minor);
    lemma_not_prefix(cb, "major "@, 1);
    lemma_trim_solid(0, v.minor);
    assert(l3[0] == ' ');
    lemma_not_prefix(l3, "version"@, 0);
    lemma_run_one(s2, l3, 2);
    assert(pdl_step(s2, l3, 3) == Ok::<PdlState, SpecParseError>(after_version(v)));
}

// ---------------------------------------------------------------------------
// The lines hold only letters, digits and spaces
// ---------------------------------------------------------------------------

/// A text of ASCII letters, digits and spaces.
pub open spec fn tidy(l: Seq<char>) -> bool {
    forall|i: int| 0 <= i < l.len() ==> is_alnum(#[trigger] l[i]) || l[i] == ' '
}

/// Lines each of ASCII letters, digits and spaces.
pub open spec fn tidy_all(ls: Seq<Seq<char>>) -> bool {
    forall|i: int| 0 <= i < ls.len() ==> tidy(#[trigger] ls[i])
}

proof fn lemma_tidy_add(a: Seq<char>, b: Seq<char>)
    requires
        tidy(a),
        tidy(b),
    ensures
        tidy(a + b),
{
    assert forall|i: int| 0 <= i < (a + b).len() implies is_alnum(#[trigger] (a + b)[i]) || (a + b)[i] == ' ' by {
        if i < a.len() {
            assert((a + b)[i] == a[i]);
        } else {
            assert((a + b)[i] == b[i - a.len()]);
        }
    }
}

proof fn lemma_tidy_all_add(a: Seq<Seq<char>>, b: Seq<Seq<char>>)
    requires
        tidy_all(a),
        tidy_all(b),
    ensures
        tidy_all(a + b),
{
    assert forall|i: int| 0 <= i < (a + b).len() implies tidy(#[trigger] (a + b)[i]) by {
        if i < a.len() {
            assert((a + b)[i] == a[i]);
        } else {
            assert((a + b)[i] == b[i - a.len()]);
        }
    }
}

proof fn lemma_tidy_literals()
    ensures
        tidy("experimental "@),
        tidy("deprecated "@),
        tidy("type "@),
        tidy(" extends "@),
        tidy("array of "@),
        tidy("command "@),
        tidy("event "@),
        tidy("domain "@),
        tidy("depends on "@),
        tidy("major "@),
        tidy("minor "@),
        tidy("version"@),
        tidy("enum"@),
        tidy("properties"@),
        tidy("parameters"@),
        tidy("returns"@),
        tidy("string"@),
        tidy("object"@),
{
    reveal_strlit("experimental ");
    reveal_strlit("deprecated ");
    reveal_strlit("type ");
    reveal_strlit(" extends ");
    reveal_strlit("array of ");
    reveal_strlit("command ");
    reveal_strlit("event ");
    reveal_strlit("domain ");
    reveal_strlit("depends on ");
    reveal_strlit("major ");
    reveal_strlit("minor ");
    reveal_strlit("version");
    reveal_strlit("enum");
    reveal_strlit("properties");
    reveal_strlit("parameters");
    reveal_strlit("returns");
    reveal_strlit("string");
    reveal_strlit("object");
}

proof fn lemma_tidy_word(w: Seq<char>)
    requires
        is_word(w),
    ensures
        tidy(w),
{
}

proof fn lemma_tidy_spaces(n: nat)
    ensures
        tidy(spaces(n)),
{
}

proof fn lemma_tidy_flags(e: bool, d: bool)
    ensures
        tidy(flags_text(e, d)),
{
    lemma_tidy_literals();
    let a = if e {
        "experimental "@
    } else {
        seq![]
    };
    let b = if d {
        "deprecated "@
    } else {
        seq![]
    };
    lemma_tidy_add(a, b);
}

proof fn lemma_tidy_spaced(ws: Seq<Seq<char>>)
    requires
        forall|i: int| 0 <= i < ws.len() ==> tidy(#[trigger] ws[i]),
    ensures
        tidy(spaced(ws)),
    decreases ws.len(),
{
    if ws.len() > 1 {
        let rest = ws.drop_first();
        assert forall|i: int| 0 <= i < rest.len() implies tidy(#[trigger] rest[i]) by {
            assert(rest[i] == ws[i + 1]);
        }
        lemma_tidy_spaced(rest);
        assert(tidy(ws[0]));
        reveal_strlit(" ");
        lemma_tidy_add(ws[0], " "@);
        lemma_tidy_add(ws[0] + " "@, spaced(rest));
    } else if ws.len() == 1 {
        assert(tidy(ws[0]));
    }
}

proof fn lemma_tidy_property(p: SpecProperty)
    requires
        renderable_property(p),
    ensures
        tidy(property_line(p)),
{
    lemma_keyword_literals();
    let ws = property_words(p);
    match p.kind {
        SpecCdpType::Array(inner) => {
            lemma_leaf_token(*inner);
        },
        other => {
            lemma_leaf_token(other);
        },
    }
    assert forall|i: int| 0 <= i < ws.len() implies tidy(#[trigger] ws[i]) by {
        let f = flag_words(p.experimental, p.deprecated, p.optional);
        let tail = match p.kind {
            SpecCdpType::Array(inner) => seq!["array"@, "of"@, leaf_token(*inner), p.name],
            other => seq![leaf_token(other), p.name],
        };
        assert(ws =~= f + tail);
        if i < f.len() {
            assert(ws[i] == f[i]);
            assert(f[i] == "experimental"@ || f[i] == "deprecated"@ || f[i] == "optional"@);
            lemma_tidy_word(ws[i]);
        } else {
            assert(ws[i] == tail[i - f.len()]);
            lemma_tidy_word(ws[i]);
        }
    }
    lemma_tidy_spaced(ws);
    lemma_tidy_spaces(6);
    lemma_tidy_add(spaces(6), spaced(ws));
}

proof fn lemma_tidy_section(header: Seq<char>, ps: Seq<SpecProperty>)
    requires
        tidy(header),
        renderable_properties(ps),
    ensures
        tidy_all(section_lines(header, ps)),
{
    if ps.len() > 0 {
        lemma_tidy_spaces(4);
        lemma_tidy_add(spaces(4), header);
        let pls = ps.map_values(|p: SpecProperty| property_line(p));
        assert forall|i: int| 0 <= i < pls.len() implies tidy(#[trigger] pls[i]) by {
            assert(renderable_property(ps[i]));
            lemma_tidy_property(ps[i]);
        }
        lemma_tidy_all_add(seq![spaces(4) + header], pls);
    }
}

proof fn lemma_tidy_concat(ls: Seq<Seq<Seq<char>>>)
    requires
        forall|i: int| 0 <= i < ls.len() ==> tidy_all(#[trigger] ls[i]),
    ensures
        tidy_all(concat_lines(ls)),
    decreases ls.len(),
{
    if ls.len() > 0 {
        let init = ls.drop_last();
        assert forall|i: int| 0 <= i < init.len() implies tidy_all(#[trigger] init[i]) by {
            assert(init[i] == ls[i]);
        }
        lemma_tidy_concat(init);
        assert(tidy_all(ls[ls.len() - 1]));
        lemma_tidy_all_add(concat_lines(init), ls.last());
    }
}

proof fn lemma_tidy_type(t: SpecTypeDef)
    requires
        renderable_type(t),
    ensures
        tidy_all(type_lines(t)),
{
    lemma_tidy_literals();
    lemma_tidy_spaces(2);
    lemma_tidy_spaces(4);
    lemma_tidy_spaces(6);
    lemma_tidy_flags(t.experimental, t.deprecated);
    lemma_tidy_word(t.id);
    lemma_kind_text(t.kind);
    let kt = kind_text(t.kind);
    assert(tidy(kt)) by {
        match t.kind {
            SpecTypeKind::Primitive(p) => {
                lemma_primitive_token(p);
                lemma_tidy_word(kt);
            },
            SpecTypeKind::Array(inner) => {
                lemma_leaf_token(inner);
                lemma_tidy_word(leaf_token(inner));
                lemma_tidy_add("array of "@, leaf_token(inner));
            },
            SpecTypeKind::Ref(r) => {
                lemma_tidy_word(r);
            },
            _ => {},
        }
    }
    let head = spaces(2) + flags_text(t.experimental, t.deprecated) + "type "@ + t.id + " extends "@;
    lemma_tidy_add(spaces(2), flags_text(t.experimental, t.deprecated));
    lemma_tidy_add(spaces(2) + flags_text(t.experimental, t.deprecated), "type "@);
    lemma_tidy_add(spaces(2) + flags_text(t.experimental, t.deprecated) + "type "@, t.id);
    lemma_tidy_add(spaces(2) + flags_text(t.experimental, t.deprecated) + "type "@ + t.id, " extends "@);
    lemma_tidy_add(head, kt);
    match t.kind {
        SpecTypeKind::Primitive(p) => {
            assert(type_lines(t) =~= seq![head + kt]);
        },
        SpecTypeKind::Enum(vs) => {
            lemma_tidy_add(spaces(4), "enum"@);
            let vls = vs.map_values(|v: SpecEnumVariant| spaces(6) + v.name);
            assert forall|i: int| 0 <= i < vls.len() implies tidy(#[trigger] vls[i]) by {
                assert(is_ident(vs[i].name));
                lemma_tidy_word(vs[i].name);
                lemma_tidy_add(spaces(6), vs[i].name);
            }
            assert(tidy_all(seq![head + kt, spaces(4) + "enum"@]));
            lemma_tidy_all_add(seq![head + kt, spaces(4) + "enum"@], vls);
        },
        SpecTypeKind::Object(ps) => {
            lemma_tidy_section("properties"@, ps);
            lemma_tidy_all_add(seq![head + kt], section_lines("properties"@, ps));
        },
        SpecTypeKind::Array(inner) => {
            assert(head + "array of "@ + leaf_token(inner) =~= head + kt);
            assert(type_lines(t) =~= seq![head + kt]);
        },
        SpecTypeKind::Ref(r) => {
            assert(type_lines(t) =~= seq![head + kt]);
        },
    }
}

proof fn lemma_tidy_head(e: bool, d: bool, keyword: Seq<char>, name: Seq<char>)
    requires
        tidy(keyword),
        is_word(name),
    ensures
        tidy(spaces(2) + flags_text(e, d) + keyword + name),
        tidy(flags_text(e, d) + keyword + name),
{
    lemma_tidy_spaces(2);
    lemma_tidy_flags(e, d);
    lemma_tidy_word(name);
    lemma_tidy_add(spaces(2), flags_text(e, d));
    lemma_tidy_add(spaces(2) + flags_text(e, d), keyword);
    lemma_tidy_add(spaces(2) + flags_text(e, d) + keyword, name);
    lemma_tidy_add(flags_text(e, d), keyword);
    lemma_tidy_add(flags_text(e, d) + keyword, name);
}

proof fn lemma_tidy_command(c: SpecCommand)
    requires
        renderable_command(c),
    ensures
        tidy_all(command_lines(c)),
{
    lemma_tidy_literals();
    lemma_tidy_head(c.experimental, c.deprecated, "command "@, c.name);
    lemma_tidy_section("parameters"@, c.parameters);
    lemma_tidy_section("returns"@, c.returns);
    let head = spaces(2) + flags_text(c.experimental, c.deprecated) + "command "@ + c.name;
    lemma_tidy_all_add(seq![head], section_lines("parameters"@, c.parameters));
    lemma_tidy_all_add(seq![head] + section_lines("parameters"@, c.parameters), section_lines("returns"@, c.returns));
}

proof fn lemma_tidy_event(e: SpecEvent)
    requires
        renderable_event(e),
    ensures
        tidy_all(event_lines(e)),
{
    lemma_tidy_literals();
    lemma_tidy_head(e.experimental, e.deprecated, "event "@, e.name);
    lemma_tidy_section("parameters"@, e.parameters);
    let head = spaces(2) + flags_text(e.experimental, e.deprecated) + "event "@ + e.name;
    lemma_tidy_all_add(seq![head], section_lines("parameters"@, e.parameters));
}

proof fn lemma_tidy_domain(d: SpecDomain)
    requires
        renderable_domain(d),
    ensures
        tidy_all(domain_lines(d)),
{
    lemma_tidy_literals();
    lemma_tidy_head(d.experimental, d.deprecated, "domain "@, d.name);
    let head = flags_text(d.experimental, d.deprecated) + "domain "@ + d.name;
    assert(tidy(Seq::<char>::empty()));
    assert(tidy_all(seq![seq![], head]));
    let dl = d.dependencies.map_values(|dep: Seq<char>| spaces(2) + "depends on "@ + dep);
    assert forall|i: int| 0 <= i < dl.len() implies tidy(#[trigger] dl[i]) by {
        assert(is_ident(d.dependencies[i]));
        lemma_tidy_spaces(2);
        lemma_tidy_word(d.dependencies[i]);
        lemma_tidy_add(spaces(2), "depends on "@);
        lemma_tidy_add(spaces(2) + "depends on "@, d.dependencies[i]);
    }
    let tls = d.types.map_values(|t: SpecTypeDef| type_lines(t));
    assert forall|i: int| 0 <= i < tls.len() implies tidy_all(#[trigger] tls[i]) by {
        assert(renderable_type(d.types[i]));
        lemma_tidy_type(d.types[i]);
    }
    lemma_tidy_concat(tls);
    let cls = d.commands.map_values(|c: SpecCommand| command_lines(c));
    assert forall|i: int| 0 <= i < cls.len() implies tidy_all(#[trigger] cls[i]) by {
        assert(renderable_command(d.commands[i]));
        lemma_tidy_command(d.commands[i]);
    }
    lemma_tidy_concat(cls);
    let els = d.events.map_values(|e: SpecEvent| event_lines(e));
    assert forall|i: int| 0 <= i < els.len() implies tidy_all(#[trigger] els[i]) by {
        assert(renderable_event(d.events[i]));
        lemma_tidy_event(d.events[i]);
    }
    lemma_tidy_concat(els);
    lemma_tidy_all_add(seq![seq![], head], dl);
    lemma_tidy_all_add(seq![seq![], head] + dl, concat_lines(tls));
    lemma_tidy_all_add(seq![seq![], head] + dl + concat_lines(tls), concat_lines(cls));
    lemma_tidy_all_add(seq![seq![], head] + dl + concat_lines(tls) + concat_lines(cls), concat_lines(els));
}

proof fn lemma_tidy_protocol(p: SpecProtocol)
    requires
        renderable(p),
    ensures
        tidy_all(protocol_lines(p)),
{
    lemma_tidy_literals();
    lemma_tidy_spaces(2);
    lemma_tidy_word(p.version.major);
    lemma_tidy_word(p.version.minor);
    lemma_tidy_add(spaces(2), "major "@);
    lemma_tidy_add(spaces(2) + "major "@, p.version.major);
    lemma_tidy_add(spaces(2), "minor "@);
    lemma_tidy_add(spaces(2) + "minor "@, p.version.minor);
    let vb = seq!["version"@, spaces(2) + "major "@ + p.version.major, spaces(2) + "minor "@ + p.version.minor];
    assert(tidy_all(vb));
    let dls = p.domains.map_values(|d: SpecDomain| domain_lines(d));
    assert forall|i: int| 0 <= i < dls.len() implies tidy_all(#[trigger] dls[i]) by {
        assert(renderable_domain(p.domains[i]));
        lemma_tidy_domain(p.domains[i]);
    }
    lemma_tidy_concat(dls);
    lemma_tidy_all_add(vb, concat_lines(dls));
}

// ---------------------------------------------------------------------------
// The round trip
// ---------------------------------------------------------------------------

proof fn lemma_tidy_plain(ls: Seq<Seq<char>>)
    requires
        tidy_all(ls),
    ensures
        forall|i: int| 0 <= i < ls.len() ==> plain_line(#[trigger] ls[i]),
{
    assert forall|i: int| 0 <= i < ls.len() implies plain_line(#[trigger] ls[i]) by {
        let l = ls[i];
        assert(tidy(l));
        if l.len() > 0 {
            assert(is_alnum(l[l.len() - 1]) || l[l.len() - 1] == ' ');
        }
        assert forall|j: int| 0 <= j < l.len() implies #[trigger] l[j] != '\n' by {
            assert(is_alnum(l[j]) || l[j] == ' ');
        }
    }
}

/// Parsing the canonical text of a protocol gives the protocol back, for
/// every protocol the canonical text can carry: plain identifiers that are
/// not PDL keywords, no descriptions, no inline enums, objects with at least
/// one property and arrays of non-array types.
pub proof fn law_render_parse_round_trip(p: SpecProtocol)
    requires
        renderable(p),
    ensures
        spec_parse(render(p)) == Ok::<SpecProtocol, SpecParseError>(p),
{
    let v = p.version;
    let vb = seq!["version"@, spaces(2) + "major "@ + v.major, spaces(2) + "minor "@ + v.minor];
    let dl = concat_lines(p.domains.map_values(|d: SpecDomain| domain_lines(d)));
    let ls = protocol_lines(p);
    assert(ls == vb + dl);
    lemma_tidy_protocol(p);
    lemma_tidy_plain(ls);
    lemma_lines_joined(ls);
    assert(crate::text::lines(render(p)) == ls);
    lemma_run_lines_from(ls, ls.len());
    assert(ls.take(ls.len() as int) =~= ls);
    lemma_run_concat(initial_state(), vb, dl, 0);
    lemma_version_lines(v);
    let s0 = after_version(v);
    assert(outer(s0, v, Seq::<SpecDomain>::empty()));
    lemma_domains_lines(s0, v, Seq::<SpecDomain>::empty(), p.domains, 3);
    assert(Seq::<SpecDomain>::empty() + p.domains =~= p.domains);
}

} // verus!
