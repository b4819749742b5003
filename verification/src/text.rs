//! Character-level text helpers: the library works on `Seq<char>` views of
//! strings, so every string operation it needs is written and proved here.

use vstd::prelude::*;
use vstd::string::StringExecFns;

verus! {

/// The Unicode `White_Space` property, which is exactly what
/// `char::is_whitespace` tests.
pub open spec fn is_ws(c: char) -> bool {
    let x = c as u32;
    ||| (0x9 <= x && x <= 0xd)
    ||| x == 0x20
    ||| x == 0x85
    ||| x == 0xa0
    ||| x == 0x1680
    ||| (0x2000 <= x && x <= 0x200a)
    ||| x == 0x2028
    ||| x == 0x2029
    ||| x == 0x202f
    ||| x == 0x205f
    ||| x == 0x3000
}

/// `s` with leading whitespace removed (`str::trim_start`).
pub open spec fn trim_start(s: Seq<char>) -> Seq<char>
    decreases s.len(),
{
    if s.len() > 0 && is_ws(s[0]) {
        trim_start(s.drop_first())
    } else {
        s
    }
}

/// `s` with trailing whitespace removed (`str::trim_end`).
pub open spec fn trim_end(s: Seq<char>) -> Seq<char>
    decreases s.len(),
{
    if s.len() > 0 && is_ws(s.last()) {
        trim_end(s.drop_last())
    } else {
        s
    }
}

/// `s` with whitespace removed at both ends (`str::trim`).
pub open spec fn trim(s: Seq<char>) -> Seq<char> {
    trim_end(trim_start(s))
}

/// Whether `s` begins with `p`.
pub open spec fn has_prefix(s: Seq<char>, p: Seq<char>) -> bool {
    p.len() <= s.len() && s.take(p.len() as int) == p
}

/// The rest of `s` after the prefix `p`, when `s` begins with `p`.
pub open spec fn strip_prefix(s: Seq<char>, p: Seq<char>) -> Option<Seq<char>> {
    if has_prefix(s, p) {
        Some(s.skip(p.len() as int))
    } else {
        None
    }
}

/// Whether `p` occurs in `s` starting at position `i`.
pub open spec fn occurs_at(s: Seq<char>, p: Seq<char>, i: int) -> bool {
    0 <= i && i + p.len() <= s.len() && s.subrange(i, i + p.len()) == p
}

/// The first position at which `p` occurs in `s` (`str::find`).
#[verifier::opaque]
pub open spec fn find(s: Seq<char>, p: Seq<char>) -> Option<int> {
    if exists|i: int| #[trigger] occurs_at(s, p, i) {
        Some(choose|i: int| occurs_at(s, p, i) && forall|j: int| 0 <= j < i ==> !occurs_at(s, p, j))
    } else {
        None
    }
}

/// Whether `s` contains `p` somewhere.
pub open spec fn contains(s: Seq<char>, p: Seq<char>) -> bool {
    exists|i: int| #[trigger] occurs_at(s, p, i)
}

/// Length of the leading run of non-whitespace characters of `s`.
pub open spec fn word_len(s: Seq<char>) -> nat
    decreases s.len(),
{
    if s.len() > 0 && !is_ws(s[0]) {
        1 + word_len(s.drop_first())
    } else {
        0
    }
}

/// The whitespace-separated words of `s` (`str::split_whitespace`).
pub open spec fn words(s: Seq<char>) -> Seq<Seq<char>>
    decreases s.len(),
{
    let t = trim_start(s);
    proof {
        lemma_trim_start_len(s);
    }
    if t.len() == 0 {
        Seq::empty()
    } else {
        let n = word_len(t);
        if 0 < n <= t.len() {
            seq![t.take(n as int)] + words(t.skip(n as int))
        } else {
            Seq::empty()
        }
    }
}

/// The lines of `s` as `str::lines` yields them: split at `\n`, a `\r`
/// directly before a `\n` dropped, and no empty line after a final `\n`.
#[verifier::opaque]
pub open spec fn lines(s: Seq<char>) -> Seq<Seq<char>>
    decreases s.len(),
{
    if s.len() == 0 {
        Seq::empty()
    } else {
        match find(s, seq!['\n']) {
            None => seq![s],
            Some(i) => {
                if 0 <= i < s.len() {
                    seq![strip_cr(s.take(i))] + lines(s.skip(i + 1))
                } else {
                    Seq::empty()
                }
            },
        }
    }
}

/// `l` without one trailing carriage return.
pub open spec fn strip_cr(l: Seq<char>) -> Seq<char> {
    if l.len() > 0 && l.last() == '\r' {
        l.drop_last()
    } else {
        l
    }
}

pub proof fn lemma_trim_start_len(s: Seq<char>)
    ensures
        trim_start(s).len() <= s.len(),
        trim_start(s) == s.skip(s.len() - trim_start(s).len()),
        trim_start(s).len() > 0 ==> !is_ws(trim_start(s)[0]),
    decreases s.len(),
{
    if s.len() > 0 && is_ws(s[0]) {
        lemma_trim_start_len(s.drop_first());
        assert(s.drop_first().skip(s.drop_first().len() - trim_start(s.drop_first()).len())
            =~= s.skip(s.len() - trim_start(s).len()));
    } else {
        assert(s.skip(0) =~= s);
    }
}

pub proof fn lemma_trim_end_len(s: Seq<char>)
    ensures
        trim_end(s).len() <= s.len(),
        trim_end(s) == s.take(trim_end(s).len() as int),
        trim_end(s).len() > 0 ==> !is_ws(trim_end(s).last()),
    decreases s.len(),
{
    if s.len() > 0 && is_ws(s.last()) {
        lemma_trim_end_len(s.drop_last());
        assert(s.drop_last().take(trim_end(s).len() as int) =~= s.take(trim_end(s).len() as int));
    } else {
        assert(s.take(s.len() as int) =~= s);
    }
}

pub proof fn lemma_word_len(s: Seq<char>)
    ensures
        word_len(s) <= s.len(),
        forall|k: int| 0 <= k < word_len(s) ==> !is_ws(#[trigger] s[k]),
        word_len(s) < s.len() ==> is_ws(s[word_len(s) as int]),
    decreases s.len(),
{
    if s.len() > 0 && !is_ws(s[0]) {
        lemma_word_len(s.drop_first());
        assert forall|k: int| 0 <= k < word_len(s) implies !is_ws(#[trigger] s[k]) by {
            if k > 0 {
                assert(s[k] == s.drop_first()[k - 1]);
            }
        }
    }
}

/// The characters of `s`, in order.
pub fn chars_of(s: &str) -> (v: Vec<char>)
    ensures
        v@ == s@,
{
    let mut v: Vec<char> = Vec::new();
    for c in it: s.chars()
        invariant
            v@ == it.seq().take(it.index() as int),
            it.seq() == s@,
    {
        v.push(c);
        assert(v@ =~= it.seq().take(it.index() + 1));
    }
    assert(v@ =~= s@);
    v
}

/// Append `c` to `s` (`String::push`).
#[verifier::external_body]
pub fn push_char(s: &mut String, c: char)
    ensures
        final(s)@ == old(s)@.push(c),
{
    s.push(c)
}

/// Append `t` to `s`.
pub fn push_str(s: &mut String, t: &str)
    ensures
        final(s)@ == old(s)@ + t@,
{
    s.append(t)
}

/// A `String` holding exactly the characters of `v`.
pub fn string_of(v: &[char]) -> (s: String)
    ensures
        s@ == v@,
{
    let mut s = String::new();
    let mut i: usize = 0;
    while i < v.len()
        invariant
            i <= v@.len(),
            s@ == v@.take(i as int),
        decreases v@.len() - i,
    {
        push_char(&mut s, v[i]);
        assert(s@ =~= v@.take(i + 1));
        i = i + 1;
    }
    assert(s@ =~= v@);
    s
}

/// Exec form of `is_ws` (`char::is_whitespace`).
pub fn is_whitespace(c: char) -> (b: bool)
    ensures
        b == is_ws(c),
{
    let x = c as u32;
    (0x9 <= x && x <= 0xd) || x == 0x20 || x == 0x85 || x == 0xa0 || x == 0x1680 || (0x2000 <= x
        && x <= 0x200a) || x == 0x2028 || x == 0x2029 || x == 0x202f || x == 0x205f || x == 0x3000
}

/// The characters `v[lo..hi]` as a new vector.
pub fn slice_chars(v: &[char], lo: usize, hi: usize) -> (r: Vec<char>)
    requires
        lo <= hi <= v@.len(),
    ensures
        r@ == v@.subrange(lo as int, hi as int),
{
    let mut r: Vec<char> = Vec::new();
    let mut i = lo;
    while i < hi
        invariant
            lo <= i <= hi <= v@.len(),
            r@ == v@.subrange(lo as int, i as int),
        decreases hi - i,
    {
        r.push(v[i]);
        assert(r@ =~= v@.subrange(lo as int, i + 1));
        i = i + 1;
    }
    r
}

/// Number of leading whitespace characters of `v`.
fn leading_ws(v: &[char]) -> (n: usize)
    ensures
        n <= v@.len(),
        v@.skip(n as int) == trim_start(v@),
{
    let mut i: usize = 0;
    proof {
        assert(v@.skip(0) =~= v@);
    }
    while i < v.len() && is_whitespace(v[i])
        invariant
            i <= v@.len(),
            trim_start(v@) == trim_start(v@.skip(i as int)),
        decreases v@.len() - i,
    {
        assert(v@.skip(i as int).drop_first() =~= v@.skip(i + 1));
        i = i + 1;
    }
    i
}

/// Number of trailing whitespace characters of `v`.
fn trailing_ws(v: &[char]) -> (n: usize)
    ensures
        n <= v@.len(),
        v@.take(v@.len() - n) == trim_end(v@),
{
    let mut k: usize = v.len();
    proof {
        assert(v@.take(v@.len() as int) =~= v@);
    }
    while k > 0 && is_whitespace(v[k - 1])
        invariant
            k <= v@.len(),
            trim_end(v@) == trim_end(v@.take(k as int)),
        decreases k,
    {
        assert(v@.take(k as int).drop_last() =~= v@.take(k - 1));
        k = k - 1;
    }
    v.len() - k
}

/// `v` without leading whitespace (`str::trim_start`).
pub fn trim_start_chars(v: &[char]) -> (r: Vec<char>)
    ensures
        r@ == trim_start(v@),
{
    let n = leading_ws(v);
    slice_chars(v, n, v.len())
}

/// `v` without trailing whitespace (`str::trim_end`).
pub fn trim_end_chars(v: &[char]) -> (r: Vec<char>)
    ensures
        r@ == trim_end(v@),
{
    let n = trailing_ws(v);
    slice_chars(v, 0, v.len() - n)
}

/// `v` without whitespace at either end (`str::trim`).
pub fn trim_chars(v: &[char]) -> (r: Vec<char>)
    ensures
        r@ == trim(v@),
{
    let t = trim_start_chars(v);
    trim_end_chars(&t)
}

/// Whether `v` begins with the characters of `p`.
pub fn starts_with(v: &[char], p: &[char]) -> (b: bool)
    ensures
        b == has_prefix(v@, p@),
{
    if p.len() > v.len() {
        return false;
    }
    let mut i: usize = 0;
    while i < p.len()
        invariant
            p@.len() <= v@.len(),
            i <= p@.len(),
            forall|k: int| 0 <= k < i ==> v@[k] == p@[k],
        decreases p@.len() - i,
    {
        if v[i] != p[i] {
            assert(v@.take(p@.len() as int)[i as int] != p@[i as int]);
            return false;
        }
        i = i + 1;
    }
    assert(v@.take(p@.len() as int) =~= p@);
    true
}

/// Whether `v` begins with the string `p`.
pub fn starts_with_str(v: &[char], p: &str) -> (b: bool)
    ensures
        b == has_prefix(v@, p@),
{
    let pc = chars_of(p);
    starts_with(v, &pc)
}

/// `v` without the prefix `p`, when it has it (`str::strip_prefix`).
pub fn strip_prefix_str(v: &[char], p: &str) -> (r: Option<Vec<char>>)
    ensures
        match r {
            Some(rest) => strip_prefix(v@, p@) == Some(rest@),
            None => strip_prefix(v@, p@) is None,
        },
{
    let pc = chars_of(p);
    if starts_with(v, &pc) {
        Some(slice_chars(v, pc.len(), v.len()))
    } else {
        None
    }
}

/// Whether `v` consists of exactly the characters of `p`.
pub fn eq_str(v: &[char], p: &str) -> (b: bool)
    ensures
        b == (v@ == p@),
{
    let pc = chars_of(p);
    if v.len() != pc.len() {
        return false;
    }
    let r = starts_with(v, &pc);
    proof {
        assert(v@.take(pc@.len() as int) =~= v@);
    }
    r
}

/// Whether `p` occurs in `v` at position `i`.
fn matches_at(v: &[char], p: &[char], i: usize) -> (b: bool)
    requires
        i + p@.len() <= v@.len(),
    ensures
        b == occurs_at(v@, p@, i as int),
{
    let n = v.len();
    let mut k: usize = 0;
    while k < p.len()
        invariant
            n == v@.len(),
            i + p@.len() <= v@.len(),
            k <= p@.len(),
            forall|m: int| 0 <= m < k ==> v@[i + m] == p@[m],
        decreases p@.len() - k,
    {
        if v[i + k] != p[k] {
            assert(v@.subrange(i as int, i + p@.len())[k as int] != p@[k as int]);
            return false;
        }
        k = k + 1;
    }
    assert(v@.subrange(i as int, i + p@.len()) =~= p@);
    true
}

/// The first position at which `p` occurs in `v` (`str::find`).
pub fn find_chars(v: &[char], p: &[char]) -> (r: Option<usize>)
    ensures
        match r {
            Some(i) => find(v@, p@) == Some(i as int),
            None => find(v@, p@) is None,
        },
{
    proof {
        lemma_find(v@, p@);
    }
    if p.len() > v.len() {
        return None;
    }
    if p.len() == 0 {
        assert(v@.subrange(0, 0) =~= p@);
        assert(occurs_at(v@, p@, 0));
        return Some(0);
    }
    let mut i: usize = 0;
    while i <= v.len() - p.len()
        invariant
            0 < p@.len() <= v@.len(),
            i <= v@.len() - p@.len() + 1,
            forall|j: int| 0 <= j < i ==> !occurs_at(v@, p@, j),
            match find(v@, p@) {
                Some(k) => occurs_at(v@, p@, k) && forall|j: int|
                    0 <= j < k ==> !occurs_at(v@, p@, j),
                None => forall|j: int| !occurs_at(v@, p@, j),
            },
        decreases v@.len() - i,
    {
        if matches_at(v, p, i) {
            return Some(i);
        }
        i = i + 1;
    }
    None
}

/// The first position at or after `start` holding `c`.
pub fn find_char_from(v: &[char], c: char, start: usize) -> (r: Option<usize>)
    requires
        start <= v@.len(),
    ensures
        match r {
            Some(i) => start <= i < v@.len() && find(v@.skip(start as int), seq![c]) == Some(
                i - start,
            ),
            None => find(v@.skip(start as int), seq![c]) is None,
        },
{
    let ghost s = v@.skip(start as int);
    proof {
        lemma_find(s, seq![c]);
    }
    let mut i = start;
    while i < v.len()
        invariant
            start <= i <= v@.len(),
            s == v@.skip(start as int),
            forall|j: int| 0 <= j < i - start ==> !occurs_at(s, seq![c], j),
            match find(s, seq![c]) {
                Some(k) => occurs_at(s, seq![c], k) && forall|j: int|
                    0 <= j < k ==> !occurs_at(s, seq![c], j),
                None => forall|j: int| !occurs_at(s, seq![c], j),
            },
        decreases v@.len() - i,
    {
        if v[i] == c {
            assert(s.subrange(i - start, i - start + 1) =~= seq![c]);
            assert(occurs_at(s, seq![c], i - start));
            return Some(i);
        }
        assert(!occurs_at(s, seq![c], i - start)) by {
            if occurs_at(s, seq![c], i - start) {
                assert(s.subrange(i - start, i - start + 1)[0] == s[i - start]);
            }
        }
        i = i + 1;
    }
    assert forall|j: int| !occurs_at(s, seq![c], j) by {
        if 0 <= j < i - start {
        }
    }
    None
}

/// What a found position means: `p` occurs there and nowhere before.
pub proof fn lemma_find(s: Seq<char>, p: Seq<char>)
    ensures
        match find(s, p) {
            Some(i) => occurs_at(s, p, i) && forall|j: int| 0 <= j < i ==> !occurs_at(s, p, j),
            None => forall|j: int| !occurs_at(s, p, j),
        },
{
    reveal(find);
    if exists|i: int| #[trigger] occurs_at(s, p, i) {
        let i = choose|i: int| #[trigger] occurs_at(s, p, i);
        lemma_least_occurrence(s, p, i);
    }
}

proof fn lemma_least_occurrence(s: Seq<char>, p: Seq<char>, i: int)
    requires
        occurs_at(s, p, i),
    ensures
        exists|k: int| occurs_at(s, p, k) && forall|j: int| 0 <= j < k ==> !occurs_at(s, p, j),
    decreases i,
{
    if exists|j: int| 0 <= j < i && occurs_at(s, p, j) {
        let j = choose|j: int| 0 <= j < i && occurs_at(s, p, j);
        lemma_least_occurrence(s, p, j);
    } else {
        assert(occurs_at(s, p, i) && forall|j: int| 0 <= j < i ==> !occurs_at(s, p, j));
    }
}

proof fn lemma_lines_empty(s: Seq<char>)
    requires
        s.len() == 0,
    ensures
        lines(s) == Seq::<Seq<char>>::empty(),
{
    reveal(lines);
}

proof fn lemma_lines_last(s: Seq<char>)
    requires
        s.len() > 0,
        find(s, seq!['\n']) is None,
    ensures
        lines(s) == seq![s],
{
    reveal(lines);
}

proof fn lemma_lines_next(s: Seq<char>, i: int)
    requires
        0 <= i < s.len(),
        find(s, seq!['\n']) == Some(i),
    ensures
        lines(s) == seq![strip_cr(s.take(i))] + lines(s.skip(i + 1)),
{
    reveal(lines);
}

proof fn lemma_map_push(r: Seq<Vec<char>>, x: Vec<char>)
    ensures
        r.push(x).map_values(|l: Vec<char>| l@) == r.map_values(|l: Vec<char>| l@).push(x@),
{
    assert(r.push(x).map_values(|l: Vec<char>| l@) =~= r.map_values(|l: Vec<char>| l@).push(x@));
}

/// The lines of `v` (`str::lines`).
pub fn split_lines(v: &[char]) -> (r: Vec<Vec<char>>)
    ensures
        r@.map_values(|l: Vec<char>| l@) == lines(v@),
{
    let mut r: Vec<Vec<char>> = Vec::new();
    let mut start: usize = 0;
    proof {
        assert(v@.skip(0) =~= v@);
    }
    while start < v.len()
        invariant
            start <= v@.len(),
            lines(v@) == r@.map_values(|l: Vec<char>| l@) + lines(v@.skip(start as int)),
        decreases v@.len() - start,
    {
        let ghost rest = v@.skip(start as int);
        let ghost before = r@;
        match find_char_from(v, '\n', start) {
            None => {
                let line = slice_chars(v, start, v.len());
                proof {
                    assert(line@ =~= rest);
                    lemma_lines_last(rest);
                    assert(v@.skip(v@.len() as int) =~= Seq::<char>::empty());
                    lemma_lines_empty(v@.skip(v@.len() as int));
                    lemma_map_push(before, line);
                }
                r.push(line);
                start = v.len();
                proof {
                    assert(lines(v@) =~= r@.map_values(|l: Vec<char>| l@) + lines(
                        v@.skip(start as int),
                    ));
                }
            },
            Some(i) => {
                let mut hi = i;
                if hi > start && v[hi - 1] == '\r' {
                    hi = hi - 1;
                }
                let line = slice_chars(v, start, hi);
                proof {
                    assert(rest.take(i - start) =~= v@.subrange(start as int, i as int));
                    assert(line@ =~= strip_cr(rest.take(i - start)));
                    assert(rest.skip(i - start + 1) =~= v@.skip(i + 1));
                    lemma_lines_next(rest, i - start);
                    lemma_map_push(before, line);
                }
                r.push(line);
                start = i + 1;
                proof {
                    assert(lines(v@) =~= r@.map_values(|l: Vec<char>| l@) + lines(
                        v@.skip(start as int),
                    ));
                }
            },
        }
    }
    proof {
        lemma_lines_empty(v@.skip(start as int));
    }
    assert(r@.map_values(|l: Vec<char>| l@) =~= lines(v@));
    r
}

/// Length of the leading run of non-whitespace characters of `v[lo..]`.
fn word_end(v: &[char], lo: usize) -> (hi: usize)
    requires
        lo <= v@.len(),
    ensures
        lo <= hi <= v@.len(),
        hi - lo == word_len(v@.skip(lo as int)),
{
    let mut j = lo;
    while j < v.len() && !is_whitespace(v[j])
        invariant
            lo <= j <= v@.len(),
            word_len(v@.skip(lo as int)) == (j - lo) + word_len(v@.skip(j as int)),
        decreases v@.len() - j,
    {
        assert(v@.skip(j as int).drop_first() =~= v@.skip(j + 1));
        j = j + 1;
    }
    j
}

/// The whitespace-separated words of `v` (`str::split_whitespace`).
pub fn split_words(v: &[char]) -> (r: Vec<Vec<char>>)
    ensures
        r@.map_values(|l: Vec<char>| l@) == words(v@),
{
    let mut r: Vec<Vec<char>> = Vec::new();
    let mut pos: usize = 0;
    proof {
        assert(v@.skip(0) =~= v@);
    }
    loop
        invariant
            pos <= v@.len(),
            words(v@) == r@.map_values(|l: Vec<char>| l@) + words(v@.skip(pos as int)),
        decreases v@.len() - pos,
    {
        let rest = slice_chars(v, pos, v.len());
        let n = leading_ws(&rest);
        let lo = pos + n;
        proof {
            assert(v@.skip(pos as int).skip(n as int) =~= v@.skip(lo as int));
        }
        if lo == v.len() {
            assert(words(v@.skip(pos as int)) =~= Seq::<Seq<char>>::empty());
            assert(r@.map_values(|l: Vec<char>| l@) =~= words(v@));
            return r;
        }
        let hi = word_end(v, lo);
        proof {
            let t = trim_start(v@.skip(pos as int));
            lemma_trim_start_len(v@.skip(pos as int));
            lemma_word_len(t);
            assert(t =~= v@.skip(lo as int));
            assert(t.take((hi - lo) as int) =~= v@.subrange(lo as int, hi as int));
            assert(t.skip((hi - lo) as int) =~= v@.skip(hi as int));
        }
        let w = slice_chars(v, lo, hi);
        proof {
            lemma_map_push(r@, w);
        }
        r.push(w);
        proof {
            assert(words(v@) =~= r@.map_values(|l: Vec<char>| l@) + words(v@.skip(hi as int)));
        }
        pos = hi;
    }
}

/// Whether `p` occurs anywhere in `v` (`str::contains`).
pub fn contains_str(v: &[char], p: &str) -> (b: bool)
    ensures
        b == contains(v@, p@),
{
    let pc = chars_of(p);
    proof {
        lemma_find(v@, pc@);
    }
    match find_chars(v, &pc) {
        Some(i) => {
            true
        },
        None => false,
    }
}

/// `s` without the copies of `c` at its start (`str::trim_start_matches`
/// with a character).
pub open spec fn trim_start_matching(s: Seq<char>, c: char) -> Seq<char>
    decreases s.len(),
{
    if s.len() > 0 && s[0] == c {
        trim_start_matching(s.drop_first(), c)
    } else {
        s
    }
}

/// `s` without the copies of `c` at its end (`str::trim_end_matches` with a
/// character).
pub open spec fn trim_end_matching(s: Seq<char>, c: char) -> Seq<char>
    decreases s.len(),
{
    if s.len() > 0 && s.last() == c {
        trim_end_matching(s.drop_last(), c)
    } else {
        s
    }
}

/// `s` without the copies of `c` at its start.
pub fn trim_start_matches_char(s: &str, c: char) -> (r: String)
    ensures
        r@ == trim_start_matching(s@, c),
{
    let v = chars_of(s);
    let n = v.len();
    let mut i: usize = 0;
    assert(v@.skip(0) =~= v@);
    while i < n && v[i] == c
        invariant
            n == v@.len(),
            i <= n,
            trim_start_matching(v@.skip(i as int), c) == trim_start_matching(s@, c),
            v@ == s@,
        decreases n - i,
    {
        assert(v@.skip(i as int).drop_first() =~= v@.skip(i + 1));
        i = i + 1;
    }
    let r = slice_chars(v.as_slice(), i, n);
    assert(r@ =~= v@.skip(i as int));
    string_of(r.as_slice())
}

/// `s` without the copies of `c` at its end.
pub fn trim_end_matches_char(s: &str, c: char) -> (r: String)
    ensures
        r@ == trim_end_matching(s@, c),
{
    let v = chars_of(s);
    let mut j: usize = v.len();
    assert(v@.take(j as int) =~= v@);
    while j > 0 && v[j - 1] == c
        invariant
            j <= v@.len(),
            trim_end_matching(v@.take(j as int), c) == trim_end_matching(s@, c),
            v@ == s@,
        decreases j,
    {
        assert(v@.take(j as int).drop_last() =~= v@.take(j - 1));
        j = j - 1;
    }
    let r = slice_chars(v.as_slice(), 0, j);
    assert(r@ =~= v@.take(j as int));
    string_of(r.as_slice())
}

} // verus!
