//! Character-level text utilities: whitespace scanning, tokenization,
//! line splitting, and conversions between `String` and `Vec<char>`.
//!
//! All processing in this crate works over sequences of characters. The
//! specification functions here scan by index so that executable loops can
//! mirror them directly.

use vstd::prelude::*;

verus! {

/// A whitespace character, as used to delimit directive tokens.
pub open spec fn is_space(c: char) -> bool {
    c == ' ' || c == '\t' || c == '\r' || c == '\n'
}

/// First index at or after `i` holding a non-space character (or the end).
pub open spec fn skip_spaces(s: Seq<char>, i: int) -> int
    decreases s.len() - i
        when 0 <= i <= s.len()
{
    if i >= s.len() || !is_space(s[i]) {
        i
    } else {
        skip_spaces(s, i + 1)
    }
}

/// First index at or after `i` holding a space (or the end): the end of the
/// token starting at `i`.
pub open spec fn token_end(s: Seq<char>, i: int) -> int
    decreases s.len() - i
        when 0 <= i <= s.len()
{
    if i >= s.len() || is_space(s[i]) {
        i
    } else {
        token_end(s, i + 1)
    }
}

pub proof fn lemma_skip_spaces_bounds(s: Seq<char>, i: int)
    requires
        0 <= i <= s.len(),
    ensures
        i <= skip_spaces(s, i) <= s.len(),
        skip_spaces(s, i) < s.len() ==> !is_space(s[skip_spaces(s, i)]),
    decreases s.len() - i,
{
    if i < s.len() && is_space(s[i]) {
        lemma_skip_spaces_bounds(s, i + 1);
    }
}

pub proof fn lemma_token_end_bounds(s: Seq<char>, i: int)
    requires
        0 <= i <= s.len(),
    ensures
        i <= token_end(s, i) <= s.len(),
        token_end(s, i) < s.len() ==> is_space(s[token_end(s, i)]),
        i < s.len() && !is_space(s[i]) ==> token_end(s, i) > i,
    decreases s.len() - i,
{
    if i < s.len() && !is_space(s[i]) {
        lemma_token_end_bounds(s, i + 1);
    }
}

/// The whitespace-delimited tokens of `s` from index `i` on.
pub open spec fn tokens_from(s: Seq<char>, i: int) -> Seq<Seq<char>>
    decreases s.len() - i
        when 0 <= i <= s.len()
        via tokens_from_decreases
{
    let j = skip_spaces(s, i);
    if j >= s.len() {
        Seq::empty()
    } else {
        seq![s.subrange(j, token_end(s, j))] + tokens_from(s, token_end(s, j))
    }
}

#[via_fn]
proof fn tokens_from_decreases(s: Seq<char>, i: int) {
    lemma_skip_spaces_bounds(s, i);
    if skip_spaces(s, i) < s.len() {
        lemma_token_end_bounds(s, skip_spaces(s, i));
    }
}

/// The whitespace-delimited tokens of a whole line.
pub open spec fn tokens_of(s: Seq<char>) -> Seq<Seq<char>> {
    tokens_from(s, 0)
}

/// Index of the next line break at or after `i` (or the end).
pub open spec fn line_break(s: Seq<char>, i: int) -> int
    decreases s.len() - i
        when 0 <= i <= s.len()
{
    if i >= s.len() || s[i] == '\n' {
        i
    } else {
        line_break(s, i + 1)
    }
}

pub proof fn lemma_line_break_bounds(s: Seq<char>, i: int)
    requires
        0 <= i <= s.len(),
    ensures
        i <= line_break(s, i) <= s.len(),
        line_break(s, i) < s.len() ==> s[line_break(s, i)] == '\n',
    decreases s.len() - i,
{
    if i < s.len() && s[i] != '\n' {
        lemma_line_break_bounds(s, i + 1);
    }
}

/// A carriage return just before a line break is not part of the line.
pub open spec fn strip_cr(l: Seq<char>) -> Seq<char> {
    if l.len() > 0 && l.last() == '\r' {
        l.drop_last()
    } else {
        l
    }
}

/// The lines of `s` from index `i` on: split at each line feed, with a
/// preceding carriage return stripped, and no empty final line when the text
/// ends with a line feed.
pub open spec fn lines_from(s: Seq<char>, i: int) -> Seq<Seq<char>>
    decreases s.len() - i
        when 0 <= i <= s.len()
        via lines_from_decreases
{
    if i >= s.len() {
        Seq::empty()
    } else {
        let e = line_break(s, i);
        seq![strip_cr(s.subrange(i, e))] + if e < s.len() {
            lines_from(s, e + 1)
        } else {
            Seq::empty()
        }
    }
}

#[via_fn]
proof fn lines_from_decreases(s: Seq<char>, i: int) {
    lemma_line_break_bounds(s, i);
}

/// The lines of a whole text.
pub open spec fn lines_of(s: Seq<char>) -> Seq<Seq<char>> {
    lines_from(s, 0)
}

/// Executable test matching `is_space`.
pub fn is_space_char(c: char) -> (r: bool)
    ensures
        r == is_space(c),
{
    c == ' ' || c == '\t' || c == '\r' || c == '\n'
}

/// Executable counterpart of `skip_spaces`.
pub fn skip_spaces_at(s: &Vec<char>, i: usize) -> (r: usize)
    requires
        i <= s@.len(),
    ensures
        r == skip_spaces(s@, i as int),
        i <= r <= s@.len(),
{
    let mut k = i;
    while k < s.len() && is_space_char(s[k])
        invariant
            i <= k <= s@.len(),
            skip_spaces(s@, i as int) == skip_spaces(s@, k as int),
        decreases s@.len() - k,
    {
        k = k + 1;
    }
    k
}

/// Executable counterpart of `token_end`.
pub fn token_end_at(s: &Vec<char>, i: usize) -> (r: usize)
    requires
        i <= s@.len(),
    ensures
        r == token_end(s@, i as int),
        i <= r <= s@.len(),
{
    let mut k = i;
    while k < s.len() && !is_space_char(s[k])
        invariant
            i <= k <= s@.len(),
            token_end(s@, i as int) == token_end(s@, k as int),
        decreases s@.len() - k,
    {
        k = k + 1;
    }
    k
}

/// A copy of `s[a..b]`.
pub fn subvec(s: &Vec<char>, a: usize, b: usize) -> (r: Vec<char>)
    requires
        a <= b <= s@.len(),
    ensures
        r@ == s@.subrange(a as int, b as int),
{
    let mut out: Vec<char> = Vec::new();
    let mut k = a;
    while k < b
        invariant
            a <= k <= b <= s@.len(),
            out@ == s@.subrange(a as int, k as int),
        decreases b - k,
    {
        out.push(s[k]);
        proof {
            assert(out@ =~= s@.subrange(a as int, k + 1));
        }
        k = k + 1;
    }
    out
}

/// The views of a vector of character vectors.
pub open spec fn texts_view(ts: Seq<Vec<char>>) -> Seq<Seq<char>> {
    ts.map_values(|t: Vec<char>| t@)
}

/// Splits a line into its whitespace-delimited tokens.
pub fn tokenize(line: &Vec<char>) -> (ts: Vec<Vec<char>>)
    ensures
        texts_view(ts@) == tokens_of(line@),
{
    let mut ts: Vec<Vec<char>> = Vec::new();
    let mut i = skip_spaces_at(line, 0);
    proof {
        lemma_skip_spaces_bounds(line@, 0);
    }
    while i < line.len()
        invariant
            i <= line@.len(),
            skip_spaces(line@, i as int) == i,
            tokens_of(line@) == texts_view(ts@) + tokens_from(line@, i as int),
        decreases line@.len() - i,
    {
        let e = token_end_at(line, i);
        proof {
            lemma_token_end_bounds(line@, i as int);
        }
        let tok = subvec(line, i, e);
        let next = skip_spaces_at(line, e);
        proof {
            lemma_skip_spaces_bounds(line@, e as int);
            assert(texts_view(ts@.push(tok)) =~= texts_view(ts@).push(tok@));
            assert(tokens_from(line@, e as int) == tokens_from(line@, next as int));
            assert(texts_view(ts@).push(tok@) + tokens_from(line@, e as int) =~= texts_view(
                ts@,
            ) + tokens_from(line@, i as int));
        }
        ts.push(tok);
        i = next;
    }
    proof {
        assert(tokens_from(line@, i as int) =~= Seq::<Seq<char>>::empty());
        assert(texts_view(ts@) + Seq::<Seq<char>>::empty() =~= texts_view(ts@));
    }
    ts
}

/// Splits a text into its lines.
pub fn split_lines(text: &Vec<char>) -> (ls: Vec<Vec<char>>)
    ensures
        texts_view(ls@) == lines_of(text@),
{
    let mut ls: Vec<Vec<char>> = Vec::new();
    let mut i: usize = 0;
    while i < text.len()
        invariant
            i <= text@.len(),
            lines_of(text@) == texts_view(ls@) + lines_from(text@, i as int),
        decreases text@.len() - i,
    {
        let mut e = i;
        while e < text.len() && text[e] != '\n'
            invariant
                i <= e <= text@.len(),
                line_break(text@, i as int) == line_break(text@, e as int),
            decreases text@.len() - e,
        {
            e = e + 1;
        }
        let stripped_end = if e > i && text[e - 1] == '\r' {
            e - 1
        } else {
            e
        };
        let line = subvec(text, i, stripped_end);
        proof {
            assert(line@ =~= strip_cr(text@.subrange(i as int, e as int)));
            let rest = if e < text@.len() {
                lines_from(text@, e + 1)
            } else {
                Seq::<Seq<char>>::empty()
            };
            assert(texts_view(ls@.push(line)) =~= texts_view(ls@).push(line@));
            assert(texts_view(ls@).push(line@) + rest =~= texts_view(ls@) + lines_from(
                text@,
                i as int,
            ));
        }
        ls.push(line);
        if e >= text.len() {
            i = e;
        } else {
            i = e + 1;
        }
    }
    proof {
        assert(texts_view(ls@) + Seq::<Seq<char>>::empty() =~= texts_view(ls@));
    }
    ls
}

/// Whether two character vectors hold the same text.
pub fn chars_eq(a: &Vec<char>, b: &Vec<char>) -> (r: bool)
    ensures
        r == (a@ == b@),
{
    if a.len() != b.len() {
        return false;
    }
    let mut k: usize = 0;
    while k < a.len()
        invariant
            k <= a@.len(),
            a@.len() == b@.len(),
            forall|j: int| 0 <= j < k ==> a@[j] == b@[j],
        decreases a@.len() - k,
    {
        if a[k] != b[k] {
            return false;
        }
        k = k + 1;
    }
    proof {
        assert(a@ =~= b@);
    }
    true
}

/// Whether the text of `a` equals that of the string slice `b`.
pub fn chars_eq_str(a: &Vec<char>, b: &str) -> (r: bool)
    ensures
        r == (a@ == b@),
{
    let n = b.unicode_len();
    if a.len() != n {
        return false;
    }
    let mut k: usize = 0;
    while k < n
        invariant
            k <= n,
            n == b@.len(),
            a@.len() == b@.len(),
            forall|j: int| 0 <= j < k ==> a@[j] == b@[j],
        decreases n - k,
    {
        if a[k] != b.get_char(k) {
            return false;
        }
        k = k + 1;
    }
    proof {
        assert(a@ =~= b@);
    }
    true
}

/// The characters of a string slice.
pub fn str_chars(s: &str) -> (r: Vec<char>)
    ensures
        r@ == s@,
{
    let n = s.unicode_len();
    let mut out: Vec<char> = Vec::new();
    let mut k: usize = 0;
    while k < n
        invariant
            k <= n,
            n == s@.len(),
            out@ == s@.subrange(0, k as int),
        decreases n - k,
    {
        out.push(s.get_char(k));
        proof {
            assert(out@ =~= s@.subrange(0, k + 1));
        }
        k = k + 1;
    }
    proof {
        assert(out@ =~= s@);
    }
    out
}

/// Appends the characters of `s` to `out`.
pub fn append_chars(out: &mut Vec<char>, s: &Vec<char>)
    ensures
        final(out)@ == old(out)@ + s@,
{
    let mut k: usize = 0;
    while k < s.len()
        invariant
            k <= s@.len(),
            out@ == old(out)@ + s@.subrange(0, k as int),
        decreases s@.len() - k,
    {
        out.push(s[k]);
        proof {
            assert(out@ =~= old(out)@ + s@.subrange(0, k + 1));
        }
        k = k + 1;
    }
    proof {
        assert(out@ =~= old(out)@ + s@);
    }
}

/// The positions of the first two tokens of a line, as `tokens_of` yields
/// them: where each begins and ends, and, when a third token follows, that
/// the second ends strictly before the line does.
pub proof fn lemma_token_positions(line: Seq<char>)
    requires
        tokens_of(line).len() >= 2,
    ensures
        ({
            let k1 = skip_spaces(line, 0);
            let e1 = token_end(line, k1);
            let k2 = skip_spaces(line, e1);
            let e2 = token_end(line, k2);
            &&& 0 <= k1 <= e1 <= k2 <= e2 <= line.len()
            &&& tokens_of(line)[0] == line.subrange(k1, e1)
            &&& tokens_of(line)[1] == line.subrange(k2, e2)
            &&& (tokens_of(line).len() >= 3 ==> e2 < line.len() && is_space(line[e2]))
        }),
{
    let k1 = skip_spaces(line, 0);
    lemma_skip_spaces_bounds(line, 0);
    assert(k1 < line.len()) by {
        if k1 >= line.len() {
            assert(tokens_from(line, 0) =~= Seq::<Seq<char>>::empty());
        }
    }
    let e1 = token_end(line, k1);
    lemma_token_end_bounds(line, k1);
    assert(tokens_of(line) == seq![line.subrange(k1, e1)] + tokens_from(line, e1));
    let k2 = skip_spaces(line, e1);
    lemma_skip_spaces_bounds(line, e1);
    assert(k2 < line.len()) by {
        if k2 >= line.len() {
            assert(tokens_from(line, e1) =~= Seq::<Seq<char>>::empty());
        }
    }
    let e2 = token_end(line, k2);
    lemma_token_end_bounds(line, k2);
    assert(tokens_from(line, e1) == seq![line.subrange(k2, e2)] + tokens_from(line, e2));
    assert(tokens_of(line)[1] == line.subrange(k2, e2));
    if tokens_of(line).len() >= 3 {
        assert(tokens_from(line, e2).len() >= 1);
        let k3 = skip_spaces(line, e2);
        lemma_skip_spaces_bounds(line, e2);
        assert(k3 < line.len()) by {
            if k3 >= line.len() {
                assert(tokens_from(line, e2) =~= Seq::<Seq<char>>::empty());
            }
        }
    }
}

/// `skip_spaces` stops at `j` when spaces fill `[i, j)` and `j` holds none.
pub proof fn lemma_skip_spaces_value(s: Seq<char>, i: int, j: int)
    requires
        0 <= i <= j <= s.len(),
        forall|k: int| i <= k < j ==> is_space(s[k]),
        j < s.len() ==> !is_space(s[j]),
    ensures
        skip_spaces(s, i) == j,
    decreases j - i,
{
    if i < j {
        lemma_skip_spaces_value(s, i + 1, j);
    }
}

/// `token_end` stops at `j` when non-spaces fill `[i, j)` and `j` holds one.
pub proof fn lemma_token_end_value(s: Seq<char>, i: int, j: int)
    requires
        0 <= i <= j <= s.len(),
        forall|k: int| i <= k < j ==> !is_space(s[k]),
        j < s.len() ==> is_space(s[j]),
    ensures
        token_end(s, i) == j,
    decreases j - i,
{
    if i < j {
        lemma_token_end_value(s, i + 1, j);
    }
}

/// `line_break` stops at `j` when `[i, j)` holds no line feed and `j` does.
pub proof fn lemma_line_break_value(s: Seq<char>, i: int, j: int)
    requires
        0 <= i <= j <= s.len(),
        forall|k: int| i <= k < j ==> s[k] != '\n',
        j < s.len() ==> s[j] == '\n',
    ensures
        line_break(s, i) == j,
    decreases j - i,
{
    if i < j {
        lemma_line_break_value(s, i + 1, j);
    }
}

/// A word with no space in it: usable as one token of a directive line.
pub open spec fn word_token(s: Seq<char>) -> bool {
    s.len() > 0 && forall|k: int| 0 <= k < s.len() ==> !is_space(s[k])
}

/// A line holding one word tokenizes to just that word.
pub proof fn lemma_tokens_one(w: Seq<char>)
    requires
        word_token(w),
    ensures
        tokens_of(w) == seq![w],
{
    lemma_skip_spaces_value(w, 0, 0);
    lemma_token_end_value(w, 0, w.len() as int);
    assert(w.subrange(0, w.len() as int) =~= w);
    assert(tokens_from(w, w.len() as int) =~= Seq::<Seq<char>>::empty());
    assert(tokens_of(w) =~= seq![w]);
}

/// A line of two words separated by one space tokenizes to those words.
pub proof fn lemma_tokens_two(a: Seq<char>, b: Seq<char>)
    requires
        word_token(a),
        word_token(b),
    ensures
        tokens_of(a + seq![' '] + b) == seq![a, b],
{
    let s = a + seq![' '] + b;
    let n = a.len() as int;
    lemma_skip_spaces_value(s, 0, 0);
    lemma_token_end_value(s, 0, n);
    assert(s.subrange(0, n) =~= a);
    lemma_skip_spaces_value(s, n, n + 1);
    lemma_token_end_value(s, n + 1, s.len() as int);
    assert(s.subrange(n + 1, s.len() as int) =~= b);
    assert(tokens_from(s, s.len() as int) =~= Seq::<Seq<char>>::empty());
    assert(tokens_from(s, n) =~= seq![b]);
    assert(tokens_of(s) =~= seq![a, b]);
}

/// A line of three words separated by single spaces tokenizes to them.
pub proof fn lemma_tokens_three(a: Seq<char>, b: Seq<char>, c: Seq<char>)
    requires
        word_token(a),
        word_token(b),
        word_token(c),
    ensures
        tokens_of(a + seq![' '] + b + seq![' '] + c) == seq![a, b, c],
{
    let s = a + seq![' '] + b + seq![' '] + c;
    let n = a.len() as int;
    let m = n + 1 + b.len() as int;
    lemma_skip_spaces_value(s, 0, 0);
    lemma_token_end_value(s, 0, n);
    assert(s.subrange(0, n) =~= a);
    lemma_skip_spaces_value(s, n, n + 1);
    lemma_token_end_value(s, n + 1, m);
    assert(s.subrange(n + 1, m) =~= b);
    lemma_skip_spaces_value(s, m, m + 1);
    lemma_token_end_value(s, m + 1, s.len() as int);
    assert(s.subrange(m + 1, s.len() as int) =~= c);
    assert(tokens_from(s, s.len() as int) =~= Seq::<Seq<char>>::empty());
    assert(tokens_from(s, m) =~= seq![c]);
    assert(tokens_from(s, n) =~= seq![b, c]);
    assert(tokens_of(s) =~= seq![a, b, c]);
}

/// `line_break` on a suffix mirrors `line_break` on the whole.
pub proof fn lemma_line_break_skip(s: Seq<char>, i: int, k: int)
    requires
        0 <= i <= k <= s.len(),
    ensures
        line_break(s, k) - i == line_break(s.skip(i), k - i),
    decreases s.len() - k,
{
    if k < s.len() && s[k] != '\n' {
        lemma_line_break_skip(s, i, k + 1);
    }
}

/// Splitting the lines of a suffix splits the remaining lines.
pub proof fn lemma_lines_from_skip(s: Seq<char>, i: int)
    requires
        0 <= i <= s.len(),
    ensures
        lines_from(s, i) == lines_of(s.skip(i)),
    decreases s.len() - i,
{
    let r = s.skip(i);
    if i >= s.len() {
        assert(lines_from(r, 0) =~= Seq::<Seq<char>>::empty());
    } else {
        let e = line_break(s, i);
        lemma_line_break_bounds(s, i);
        lemma_line_break_skip(s, i, i);
        assert(line_break(r, 0) == e - i);
        assert(s.subrange(i, e) =~= r.subrange(0, e - i));
        if e < s.len() {
            lemma_lines_from_skip(s, e + 1);
            lemma_lines_from_skip(r, e - i + 1);
            assert(s.skip(e + 1) =~= r.skip(e - i + 1));
            assert(lines_from(s, i) =~= lines_of(r));
        } else {
            assert(lines_from(s, i) =~= lines_of(r));
        }
    }
}

/// One line with its line feed, ahead of the rest of a text, contributes
/// itself ahead of the rest's lines.
pub proof fn lemma_lines_cons(l: Seq<char>, rest: Seq<char>)
    requires
        forall|k: int| 0 <= k < l.len() ==> l[k] != '\n',
        l.len() > 0 ==> l[l.len() - 1] != '\r',
    ensures
        lines_of(l + seq!['\n'] + rest) == seq![l] + lines_of(rest),
    decreases rest.len(),
{
    let s = l + seq!['\n'] + rest;
    let n = l.len() as int;
    lemma_line_break_value(s, 0, n);
    assert(s.subrange(0, n) =~= l);
    assert(strip_cr(l) == l);
    lemma_lines_from_skip(s, n + 1);
    assert(s.skip(n + 1) =~= rest);
    assert(lines_of(s) =~= seq![l] + lines_of(rest));
}

/// Relies on `String::push`: appends one character to the string.
#[verifier::external_body]
fn push_char(s: &mut String, c: char)
    ensures
        final(s)@ == old(s)@.push(c),
{
    s.push(c);
}

/// A `String` holding the given characters.
pub fn chars_string(v: &Vec<char>) -> (r: String)
    ensures
        r@ == v@,
{
    let mut out = String::new();
    let mut k: usize = 0;
    while k < v.len()
        invariant
            k <= v@.len(),
            out@ == v@.subrange(0, k as int),
        decreases v@.len() - k,
    {
        push_char(&mut out, v[k]);
        proof {
            assert(out@ =~= v@.subrange(0, k + 1));
        }
        k = k + 1;
    }
    proof {
        assert(out@ =~= v@);
    }
    out
}

} // verus!
