//! The meaning of a HOCON document, position by position: what the reader
//! accepts, the value it builds and where it reports a problem.
//!
//! Every function reads the whole input `s` from a position `p` and gives the
//! position just after what it read.

use vstd::prelude::*;

use crate::hocon::error::Problem;
use crate::hocon::number::{float_literal, int_literal};
use crate::hocon::value::ValueView;
use crate::text::{is_white_space, trim, trim_start};

verus! {

/// What a reader gives: a result and the position after it, or a problem and
/// the position where it was found.
pub type Read<T> = Result<(T, nat), (Problem, nat)>;

/// Whether a line comment (`#` or `//`) starts at `p`.
pub open spec fn comment_at(s: Seq<char>, p: nat) -> bool {
    p < s.len() && (s[p as int] == '#' || (s[p as int] == '/' && p + 1 < s.len() && s[p as int + 1]
        == '/'))
}

/// The position of the newline ending the line at `p`, or the end of input.
pub open spec fn line_end(s: Seq<char>, p: nat) -> nat
    decreases s.len() - p,
{
    if p < s.len() && s[p as int] != '\n' {
        line_end(s, p + 1)
    } else {
        p
    }
}

/// The position after inline white space (space, tab, carriage return) and a
/// line comment, stopping at a newline.
pub open spec fn skip_inline(s: Seq<char>, p: nat) -> nat
    decreases s.len() - p,
{
    if p < s.len() && (s[p as int] == ' ' || s[p as int] == '\t' || s[p as int] == '\r') {
        skip_inline(s, p + 1)
    } else if comment_at(s, p) {
        line_end(s, p)
    } else {
        p
    }
}

/// The position after white space, newlines, commas and line comments.
pub open spec fn skip_separators(s: Seq<char>, p: nat) -> nat
    decreases s.len() - p,
{
    if p < s.len() && (is_white_space(s[p as int]) || s[p as int] == ',') {
        skip_separators(s, p + 1)
    } else if comment_at(s, p) {
        proof {
            lemma_line_end(s, p);
        }
        skip_separators(s, line_end(s, p))
    } else {
        p
    }
}

/// Whether `c` ends an unquoted key.
pub open spec fn ends_key(c: char) -> bool {
    is_white_space(c) || c == '=' || c == ':' || c == '{' || c == '}' || c == '[' || c == ']'
        || c == ','
}

/// The end of an unquoted key starting at `p`.
pub open spec fn key_end(s: Seq<char>, p: nat) -> nat
    decreases s.len() - p,
{
    if p < s.len() && !ends_key(s[p as int]) {
        key_end(s, p + 1)
    } else {
        p
    }
}

/// The character that an escape `\c` stands for.
pub open spec fn escaped_char(c: char) -> Option<char> {
    if c == '"' {
        Some('"')
    } else if c == '\\' {
        Some('\\')
    } else if c == '/' {
        Some('/')
    } else if c == 'n' {
        Some('\n')
    } else if c == 't' {
        Some('\t')
    } else if c == 'r' {
        Some('\r')
    } else if c == 'b' {
        Some('\u{8}')
    } else if c == 'f' {
        Some('\u{c}')
    } else {
        None
    }
}

/// `done` put before what was read next.
pub open spec fn after<T>(done: Seq<T>, r: Read<Seq<T>>) -> Read<Seq<T>> {
    match r {
        Ok((rest, q)) => Ok((done + rest, q)),
        Err(e) => Err(e),
    }
}

/// Reading nothing first changes nothing, and what was read first composes.
pub proof fn lemma_after<T>(a: Seq<T>, b: Seq<T>, r: Read<Seq<T>>)
    ensures
        after(Seq::<T>::empty(), r) == r,
        after(a, after(b, r)) == after(a + b, r),
{
    if let Ok((rest, q)) = r {
        assert(Seq::<T>::empty() + rest =~= rest);
        assert(a + (b + rest) =~= (a + b) + rest);
    }
}

/// `c` put before the text that was read.
pub open spec fn prepend_char(c: char, r: Read<Seq<char>>) -> Read<Seq<char>> {
    match r {
        Ok((t, q)) => Ok((seq![c] + t, q)),
        Err(e) => Err(e),
    }
}

/// The contents of a quoted string from `p` (just after the opening quote)
/// up to the closing quote, with escapes replaced.
pub open spec fn quoted_from(s: Seq<char>, p: nat) -> Read<Seq<char>>
    decreases s.len() - p,
{
    if p >= s.len() {
        Err((Problem::UnterminatedString, p))
    } else if s[p as int] == '"' {
        Ok((Seq::empty(), p + 1))
    } else if s[p as int] == '\\' {
        if p + 1 >= s.len() {
            Err((Problem::UnterminatedEscape, p + 1))
        } else {
            match escaped_char(s[p as int + 1]) {
                Some(c) => prepend_char(c, quoted_from(s, p + 2)),
                None => Err((Problem::InvalidEscape(s[p as int + 1]), p + 2)),
            }
        }
    } else {
        prepend_char(s[p as int], quoted_from(s, p + 1))
    }
}

/// A key: a quoted string, or the characters up to white space or one of
/// `= : { } [ ] ,` (at least one).
pub open spec fn read_key(s: Seq<char>, p: nat) -> Read<Seq<char>> {
    if p < s.len() && s[p as int] == '"' {
        quoted_from(s, p + 1)
    } else {
        let q = key_end(s, p);
        if q == p {
            Err((Problem::ExpectedKey, p))
        } else {
            Ok((s.subrange(p as int, q as int), q))
        }
    }
}

/// Whether an unquoted value ends at `p`: a newline, a comma, a closing
/// bracket or brace, or a comment.
pub open spec fn ends_bare(s: Seq<char>, p: nat) -> bool {
    let c = s[p as int];
    c == '\n' || c == ',' || c == '}' || c == ']' || comment_at(s, p)
}

/// The end of an unquoted value starting at `p`.
pub open spec fn bare_end(s: Seq<char>, p: nat) -> nat
    decreases s.len() - p,
{
    if p < s.len() && !ends_bare(s, p) {
        bare_end(s, p + 1)
    } else {
        p
    }
}

/// The value an unquoted text (already trimmed) denotes: `true`, `false`,
/// `null`, an `i64` integer, a floating-point number, or else a string.
pub open spec fn bare_value(t: Seq<char>) -> ValueView {
    if t == seq!['t', 'r', 'u', 'e'] {
        ValueView::Bool(true)
    } else if t == seq!['f', 'a', 'l', 's', 'e'] {
        ValueView::Bool(false)
    } else if t == seq!['n', 'u', 'l', 'l'] {
        ValueView::Null
    } else {
        match int_literal(t) {
            Some(i) => ValueView::Integer(i),
            None => if float_literal(t) {
                ValueView::Float(t)
            } else {
                ValueView::Str(t)
            },
        }
    }
}

/// An unquoted value: the text up to its end, trimmed of white space.
pub open spec fn read_bare(s: Seq<char>, p: nat) -> (ValueView, nat) {
    let q = bare_end(s, p);
    (bare_value(trim(s.subrange(p as int, q as int))), q)
}

/// A value, after inline white space: an object, an array, a quoted string
/// or an unquoted value.
pub open spec fn read_value(s: Seq<char>, p: nat) -> Read<ValueView>
    decreases s.len() - p, 3nat,
{
    let q = skip_inline(s, p);
    proof {
        lemma_skip_inline(s, p);
    }
    if q < s.len() && s[q as int] == '{' {
        read_object(s, q)
    } else if q < s.len() && s[q as int] == '[' {
        read_array(s, q)
    } else if q < s.len() && s[q as int] == '"' {
        match quoted_from(s, q + 1) {
            Ok((t, r)) => Ok((ValueView::Str(t), r)),
            Err(e) => Err(e),
        }
    } else if q < s.len() {
        let (v, r) = read_bare(s, q);
        Ok((v, r))
    } else {
        Err((Problem::ExpectedValue, q))
    }
}

/// An object starting with `{` at `p`: its members, then `}`.
pub open spec fn read_object(s: Seq<char>, p: nat) -> Read<ValueView>
    decreases s.len() - p, 2nat,
{
    if p >= s.len() {
        Err((Problem::UnterminatedObject, p))
    } else {
        match read_members(s, p + 1, true) {
            Err(e) => Err(e),
            Ok((entries, q)) => if q < s.len() && s[q as int] == '}' {
                Ok((ValueView::Object(entries), q + 1))
            } else {
                Err((Problem::UnterminatedObject, q))
            },
        }
    }
}

/// An array starting with `[` at `p`: its items, then `]`.
pub open spec fn read_array(s: Seq<char>, p: nat) -> Read<ValueView>
    decreases s.len() - p, 2nat,
{
    if p >= s.len() {
        Err((Problem::UnterminatedArray, p))
    } else {
        match read_items(s, p + 1) {
            Err(e) => Err(e),
            Ok((items, q)) => Ok((ValueView::Array(items), q)),
        }
    }
}

/// The items of an array from `p` up to and including the closing `]`.
pub open spec fn read_items(s: Seq<char>, p: nat) -> Read<Seq<ValueView>>
    decreases s.len() - p, 4nat,
{
    let q = skip_separators(s, p);
    proof {
        lemma_skip_separators(s, p);
    }
    if q >= s.len() {
        Err((Problem::UnterminatedArray, q))
    } else if s[q as int] == ']' {
        Ok((Seq::empty(), q + 1))
    } else if s[q as int] == '}' {
        Err((Problem::BraceInArray, q))
    } else {
        match read_value(s, q) {
            Err(e) => Err(e),
            Ok((v, r)) => if p < r <= s.len() {
                match read_items(s, r) {
                    Err(e) => Err(e),
                    Ok((rest, w)) => Ok((seq![v] + rest, w)),
                }
            } else {
                Err((Problem::BraceInArray, r))
            },
        }
    }
}

/// The value given to a key at `p` (after the key and inline white space):
/// a `{`-object, or `=`/`:` followed by a value.
pub open spec fn read_assigned(s: Seq<char>, p: nat) -> Read<ValueView>
    decreases s.len() - p, 5nat,
{
    if p < s.len() && s[p as int] == '{' {
        read_object(s, p)
    } else if p < s.len() && (s[p as int] == '=' || s[p as int] == ':') {
        proof {
            lemma_skip_separators(s, p + 1);
        }
        read_value(s, skip_separators(s, p + 1))
    } else if p < s.len() {
        Err((Problem::ExpectedAssignment(s[p as int]), p))
    } else {
        Err((Problem::MissingValueAfterKey, p))
    }
}

/// Object members from `p`, up to the end of input or, when `braced`, a
/// closing `}` (which is not read).
pub open spec fn read_members(s: Seq<char>, p: nat, braced: bool) -> Read<
    Seq<(Seq<char>, ValueView)>,
>
    decreases s.len() - p, 1nat,
{
    let q = skip_separators(s, p);
    proof {
        lemma_skip_separators(s, p);
    }
    if q >= s.len() || (braced && s[q as int] == '}') {
        Ok((Seq::empty(), q))
    } else {
        match read_key(s, q) {
            Err(e) => Err(e),
            Ok((key, r)) => {
                proof {
                    lemma_read_key(s, q);
                    lemma_skip_inline(s, r);
                }
                let t = skip_inline(s, r);
                match read_assigned(s, t) {
                    Err(e) => Err(e),
                    Ok((v, u)) => if p < u <= s.len() {
                        match read_members(s, u, braced) {
                            Err(e) => Err(e),
                            Ok((rest, w)) => Ok((seq![(key, v)] + rest, w)),
                        }
                    } else {
                        Err((Problem::ExpectedKey, u))
                    },
                }
            },
        }
    }
}

/// The meaning of a whole document: an object, written with or without its
/// outer braces, optionally surrounded by separators, and nothing else.
pub open spec fn read_document(s: Seq<char>) -> Result<ValueView, (Problem, nat)> {
    let p = skip_separators(s, 0);
    let root = if p < s.len() && s[p as int] == '{' {
        read_object(s, p)
    } else {
        match read_members(s, p, false) {
            Ok((entries, q)) => Ok((ValueView::Object(entries), q)),
            Err(e) => Err(e),
        }
    };
    match root {
        Err(e) => Err(e),
        Ok((v, q)) => {
            let r = skip_separators(s, q);
            if r < s.len() {
                Err((Problem::TrailingInput(s[r as int]), r))
            } else {
                Ok(v)
            }
        },
    }
}

/// A document is always read as an object: with or without its outer braces.
pub proof fn lemma_document_is_object(s: Seq<char>)
    ensures
        read_document(s) matches Ok(v) ==> v is Object,
{
}

/// Whether `c` may stand in a plain key: an ASCII letter or digit, `-` or `_`.
pub open spec fn is_key_char(c: char) -> bool {
    ('a' <= c <= 'z') || ('A' <= c <= 'Z') || ('0' <= c <= '9') || c == '-' || c == '_'
}

/// A plain key: one or more key characters.
pub open spec fn is_plain_key(k: Seq<char>) -> bool {
    k.len() > 0 && forall|i: int| 0 <= i < k.len() ==> is_key_char(#[trigger] k[i])
}

/// A plain value: text on one line that starts with neither white space nor
/// a bracket, brace or quote, and holds no `,`, `}`, `]`, `#` or `/`.
pub open spec fn is_plain_value(v: Seq<char>) -> bool {
    &&& v.len() > 0
    &&& !is_white_space(v[0])
    &&& v[0] != '{' && v[0] != '[' && v[0] != '"'
    &&& forall|i: int|
        0 <= i < v.len() ==> #[trigger] v[i] != '\n' && v[i] != ',' && v[i] != '}' && v[i] != ']'
            && v[i] != '#' && v[i] != '/'
}

/// The key ends where nothing but key characters came before and the next
/// character ends it.
proof fn lemma_key_end_at(s: Seq<char>, p: nat, q: nat)
    requires
        p <= q <= s.len(),
        forall|j: int| p <= j < q ==> !ends_key(#[trigger] s[j]),
        q < s.len() ==> ends_key(s[q as int]),
    ensures
        key_end(s, p) == q,
    decreases q - p,
{
    if p < q {
        lemma_key_end_at(s, p + 1, q);
    }
}

/// The unquoted value ends where nothing before ended it and the next
/// position does.
proof fn lemma_bare_end_at(s: Seq<char>, p: nat, q: nat)
    requires
        p <= q <= s.len(),
        forall|j: nat| p <= j < q ==> !#[trigger] ends_bare(s, j),
        q < s.len() ==> ends_bare(s, q),
    ensures
        bare_end(s, p) == q,
    decreases q - p,
{
    if p < q {
        assert(!ends_bare(s, p));
        lemma_bare_end_at(s, p + 1, q);
    }
}

/// A line without a newline runs to the end of input.
proof fn lemma_line_end_at_end(s: Seq<char>, p: nat)
    requires
        p <= s.len(),
        forall|j: int| p <= j < s.len() ==> #[trigger] s[j] != '\n',
    ensures
        line_end(s, p) == s.len(),
    decreases s.len() - p,
{
    if p < s.len() {
        lemma_line_end_at_end(s, p + 1);
    }
}

/// Trailing white space does not change what a value is trimmed to.
proof fn lemma_trim_trailing_space(v: Seq<char>)
    requires
        v.len() > 0,
        !is_white_space(v[0]),
    ensures
        trim(v.push(' ')) == trim(v),
{
    assert(trim_start(v.push(' ')) == v.push(' '));
    assert(trim_start(v) == v);
    assert(v.push(' ').drop_last() =~= v);
}

/// The reading of one member `key <sep> value` (with `sep` at `n`, the
/// value's text starting at `start` and ending at `end`) when the key is
/// plain and the value plain up to `end`, where only separators follow.
proof fn lemma_plain_member(s: Seq<char>, k: Seq<char>, v: Seq<char>, start: nat, end: nat)
    requires
        is_plain_key(k),
        is_plain_value(v),
        s.take(k.len() as int) == k,
        k.len() < start <= end <= s.len(),
        s.subrange(start as int, (start + v.len()) as int) == v,
        end == start + v.len() || (end == start + v.len() + 1 && s[end - 1] == ' '),
        // after the key: an `=` alone, or spaced on both sides
        ((s[k.len() as int] == '=' || s[k.len() as int] == ':') && start == k.len() + 1) || (
        s[k.len() as int] == ' ' && s[(k.len() + 1) as int] == '=' && s[(k.len() + 2) as int]
            == ' ' && start == k.len() + 3),
        end < s.len() ==> comment_at(s, end),
        end < s.len() ==> forall|j: int| end <= j < s.len() ==> #[trigger] s[j] != '\n',
    ensures
        read_document(s) == Ok::<ValueView, (Problem, nat)>(
            ValueView::Object(seq![(k, bare_value(trim(v)))]),
        ),
{
    let n: nat = k.len();
    assert forall|j: int| 0 <= j < n implies #[trigger] s[j] == k[j] by {
        assert(s.take(n as int)[j] == s[j]);
    }
    assert forall|i: int| 0 <= i < v.len() implies #[trigger] s[start + i] == v[i] by {
        assert(s.subrange(start as int, (start + v.len()) as int)[i] == s[start + i]);
    }
    // the document starts right at the key
    assert(is_key_char(k[0]));
    assert(skip_separators(s, 0) == 0);
    // the key runs up to the separator
    assert forall|j: int| 0 <= j < n implies !ends_key(#[trigger] s[j]) by {
        assert(is_key_char(k[j]));
    }
    lemma_key_end_at(s, 0, n);
    assert(s.subrange(0, n as int) =~= k);
    assert(read_key(s, 0) == Ok::<(Seq<char>, nat), (Problem, nat)>((k, n)));
    let eq: nat = if s[n as int] == '=' || s[n as int] == ':' { n } else { n + 1 };
    assert(skip_inline(s, n) == eq) by {
        if s[n as int] == ' ' {
            assert(skip_inline(s, n + 1) == n + 1);
        }
    }
    // the value starts right after the separator
    assert(v[0] != ' ' && v[0] != '\t' && v[0] != '\r' && v[0] != ',');
    assert(s[start as int] == v[0]);
    assert(!comment_at(s, start));
    assert(skip_separators(s, eq + 1) == start) by {
        if eq + 1 < start {
            assert(s[(eq + 1) as int] == ' ');
            assert(skip_separators(s, start) == start);
        }
    }
    assert(skip_inline(s, start) == start);
    // the unquoted value runs to `end`
    assert forall|j: nat| start <= j < end implies !#[trigger] ends_bare(s, j) by {
        if j < start + v.len() {
            let c = v[j - start];
            assert(s[j as int] == c);
            assert(c != '#' && c != '/');
        } else {
            assert(s[end - 1] == ' ');
        }
    }
    lemma_bare_end_at(s, start, end);
    let text = s.subrange(start as int, end as int);
    assert(trim(text) == trim(v)) by {
        if end == start + v.len() {
            assert(text =~= v);
        } else {
            assert(text =~= v.push(' '));
            lemma_trim_trailing_space(v);
        }
    }
    assert(read_value(s, start) == Ok::<(ValueView, nat), (Problem, nat)>(
        (bare_value(trim(v)), end),
    ));
    assert(read_assigned(s, eq) == Ok::<(ValueView, nat), (Problem, nat)>(
        (bare_value(trim(v)), end),
    ));
    // only a comment, if anything, follows
    assert(skip_separators(s, end) == s.len()) by {
        if end < s.len() {
            lemma_line_end_at_end(s, end);
            assert(skip_separators(s, s.len()) == s.len());
        }
    }
    assert(read_members(s, end, false) == Ok::<(Seq<(Seq<char>, ValueView)>, nat), (Problem, nat)>(
        (Seq::empty(), s.len()),
    ));
    assert(seq![(k, bare_value(trim(v)))] + Seq::<(Seq<char>, ValueView)>::empty() =~= seq![
        (k, bare_value(trim(v))),
    ]);
    assert(read_members(s, 0, false) == Ok::<(Seq<(Seq<char>, ValueView)>, nat), (Problem, nat)>(
        (seq![(k, bare_value(trim(v)))], s.len()),
    ));
}

/// An unquoted key ends at `=` or `:`: a member written `key=value` or
/// `key:value` reads as the same member written `key = value`, its key the
/// key's text and its value the value's text (trimmed) read as a value.
#[verifier::rlimit(60)]
pub proof fn lemma_key_ends_at_equals(k: Seq<char>, v: Seq<char>)
    requires
        is_plain_key(k),
        is_plain_value(v),
    ensures
        read_document(k + seq!['='] + v) == Ok::<ValueView, (Problem, nat)>(
            ValueView::Object(seq![(k, bare_value(trim(v)))]),
        ),
        read_document(k + seq!['='] + v) == read_document(k + seq![' ', '=', ' '] + v),
        read_document(k + seq![':'] + v) == read_document(k + seq!['='] + v),
{
    let n: nat = k.len();
    let a = k + seq!['='] + v;
    assert(a.take(n as int) =~= k);
    assert(a.subrange(n + 1 as int, (n + 1 + v.len()) as int) =~= v);
    assert(a[n as int] == '=');
    lemma_plain_member(a, k, v, n + 1, a.len());
    let b = k + seq![' ', '=', ' '] + v;
    assert(b.take(n as int) =~= k);
    assert(b.subrange(n + 3 as int, (n + 3 + v.len()) as int) =~= v);
    assert(b[n as int] == ' ' && b[n + 1 as int] == '=' && b[n + 2 as int] == ' ');
    lemma_plain_member(b, k, v, n + 3, b.len());
    let c = k + seq![':'] + v;
    assert(c.take(n as int) =~= k);
    assert(c.subrange(n + 1 as int, (n + 1 + v.len()) as int) =~= v);
    assert(c[n as int] == ':');
    lemma_plain_member(c, k, v, n + 1, c.len());
}

/// A line comment, `//` or `#`, after an unquoted value is not part of it:
/// `key = value // comment` reads as `key = value`.
#[verifier::rlimit(60)]
pub proof fn lemma_comment_ends_value(k: Seq<char>, v: Seq<char>, comment: Seq<char>)
    requires
        is_plain_key(k),
        is_plain_value(v),
        forall|i: int| 0 <= i < comment.len() ==> #[trigger] comment[i] != '\n',
    ensures
        read_document(k + seq![' ', '=', ' '] + v + seq![' ', '/', '/'] + comment)
            == read_document(k + seq![' ', '=', ' '] + v),
        read_document(k + seq![' ', '=', ' '] + v + seq![' ', '#'] + comment) == read_document(
            k + seq![' ', '=', ' '] + v,
        ),
        read_document(k + seq![' ', '=', ' '] + v) == Ok::<ValueView, (Problem, nat)>(
            ValueView::Object(seq![(k, bare_value(trim(v)))]),
        ),
{
    let n: nat = k.len();
    let m: nat = n + 3 + v.len();
    lemma_key_ends_at_equals(k, v);
    let a = k + seq![' ', '=', ' '] + v + seq![' ', '/', '/'] + comment;
    assert(a.take(n as int) =~= k);
    assert(a.subrange(n + 3 as int, (n + 3 + v.len()) as int) =~= v);
    assert(a[n as int] == ' ' && a[n + 1 as int] == '=' && a[n + 2 as int] == ' ');
    assert(a[m as int] == ' ' && a[m + 1 as int] == '/' && a[m + 2 as int] == '/');
    assert forall|j: int| m + 1 <= j < a.len() implies #[trigger] a[j] != '\n' by {
        if j >= m + 3 {
            assert(a[j] == comment[j - m - 3]);
        }
    }
    lemma_plain_member(a, k, v, n + 3, m + 1);
    let b = k + seq![' ', '=', ' '] + v + seq![' ', '#'] + comment;
    assert(b.take(n as int) =~= k);
    assert(b.subrange(n + 3 as int, (n + 3 + v.len()) as int) =~= v);
    assert(b[n as int] == ' ' && b[n + 1 as int] == '=' && b[n + 2 as int] == ' ');
    assert(b[m as int] == ' ' && b[m + 1 as int] == '#');
    assert forall|j: int| m + 1 <= j < b.len() implies #[trigger] b[j] != '\n' by {
        if j >= m + 2 {
            assert(b[j] == comment[j - m - 2]);
        }
    }
    lemma_plain_member(b, k, v, n + 3, m + 1);
}

/// A line comment runs from its start to the newline or the end of input.
pub proof fn lemma_line_end(s: Seq<char>, p: nat)
    ensures
        p <= line_end(s, p),
        p <= s.len() ==> line_end(s, p) <= s.len(),
        p < s.len() && s[p as int] != '\n' ==> p < line_end(s, p),
        forall|k: int| p <= k < line_end(s, p) ==> s[k] != '\n',
        line_end(s, p) < s.len() ==> s[line_end(s, p) as int] == '\n',
    decreases s.len() - p,
{
    if p < s.len() && s[p as int] != '\n' {
        lemma_line_end(s, p + 1);
    }
}

/// Skipping inline white space moves forward and stays within the input.
pub proof fn lemma_skip_inline(s: Seq<char>, p: nat)
    ensures
        p <= skip_inline(s, p),
        p <= s.len() ==> skip_inline(s, p) <= s.len(),
    decreases s.len() - p,
{
    if p < s.len() && (s[p as int] == ' ' || s[p as int] == '\t' || s[p as int] == '\r') {
        lemma_skip_inline(s, p + 1);
    } else if comment_at(s, p) {
        lemma_line_end(s, p);
    }
}

/// Skipping separators moves forward and stays within the input.
pub proof fn lemma_skip_separators(s: Seq<char>, p: nat)
    ensures
        p <= skip_separators(s, p),
        p <= s.len() ==> skip_separators(s, p) <= s.len(),
        skip_separators(s, p) < s.len() ==> !is_white_space(s[skip_separators(s, p) as int])
            && s[skip_separators(s, p) as int] != ',' && !comment_at(s, skip_separators(s, p)),
    decreases s.len() - p,
{
    if p < s.len() && (is_white_space(s[p as int]) || s[p as int] == ',') {
        lemma_skip_separators(s, p + 1);
    } else if comment_at(s, p) {
        lemma_line_end(s, p);
        lemma_skip_separators(s, line_end(s, p));
    }
}

/// A quoted string that is read ends after its start and within the input.
pub proof fn lemma_quoted_from(s: Seq<char>, p: nat)
    ensures
        quoted_from(s, p) matches Ok((_, q)) ==> p < q <= s.len(),
    decreases s.len() - p,
{
    if p < s.len() && s[p as int] != '"' {
        if s[p as int] == '\\' {
            if p + 1 < s.len() && escaped_char(s[p as int + 1]) is Some {
                lemma_quoted_from(s, p + 2);
            }
        } else {
            lemma_quoted_from(s, p + 1);
        }
    }
}

/// A key that is read ends after its start and within the input.
pub proof fn lemma_key_end(s: Seq<char>, p: nat)
    ensures
        p <= key_end(s, p),
        p <= s.len() ==> key_end(s, p) <= s.len(),
    decreases s.len() - p,
{
    if p < s.len() && !ends_key(s[p as int]) {
        lemma_key_end(s, p + 1);
    }
}

/// A key that is read ends after its start and within the input.
pub proof fn lemma_read_key(s: Seq<char>, p: nat)
    requires
        p <= s.len(),
    ensures
        read_key(s, p) matches Ok((_, q)) ==> p < q <= s.len(),
{
    if p < s.len() && s[p as int] == '"' {
        lemma_quoted_from(s, p + 1);
    } else {
        lemma_key_end(s, p);
    }
}

/// An unquoted value ends at or after its start and within the input.
pub proof fn lemma_bare_end(s: Seq<char>, p: nat)
    ensures
        p <= bare_end(s, p),
        p <= s.len() ==> bare_end(s, p) <= s.len(),
    decreases s.len() - p,
{
    if p < s.len() && !ends_bare(s, p) {
        lemma_bare_end(s, p + 1);
    }
}


/// A value that is read ends within the input, after its start unless the
/// start itself ends an unquoted value.
pub proof fn lemma_read_value(s: Seq<char>, p: nat)
    requires
        p <= s.len(),
    ensures
        read_value(s, p) matches Ok((_, r)) ==> p <= r <= s.len() && (p < s.len() && !ends_bare(
            s,
            p,
        ) ==> p < r),
    decreases s.len() - p, 3nat,
{
    let q = skip_inline(s, p);
    lemma_skip_inline(s, p);
    if q < s.len() && s[q as int] == '{' {
        lemma_read_object(s, q);
    } else if q < s.len() && s[q as int] == '[' {
        lemma_read_array(s, q);
    } else if q < s.len() && s[q as int] == '"' {
        lemma_quoted_from(s, q + 1);
    } else if q < s.len() {
        lemma_bare_end(s, q);
        if p < s.len() && !ends_bare(s, p) && q == p {
            assert(bare_end(s, p) == bare_end(s, p + 1));
            lemma_bare_end(s, p + 1);
        }
    }
}

/// An object that is read ends after its start and within the input.
pub proof fn lemma_read_object(s: Seq<char>, p: nat)
    requires
        p <= s.len(),
    ensures
        read_object(s, p) matches Ok((_, r)) ==> p < r <= s.len(),
    decreases s.len() - p, 2nat,
{
    if p < s.len() {
        lemma_read_members(s, p + 1, true);
    }
}

/// An array that is read ends after its start and within the input.
pub proof fn lemma_read_array(s: Seq<char>, p: nat)
    requires
        p <= s.len(),
    ensures
        read_array(s, p) matches Ok((_, r)) ==> p < r <= s.len(),
    decreases s.len() - p, 2nat,
{
    if p < s.len() {
        lemma_read_items(s, p + 1);
    }
}

/// Array items that are read end after their start and within the input.
pub proof fn lemma_read_items(s: Seq<char>, p: nat)
    requires
        p <= s.len(),
    ensures
        read_items(s, p) matches Ok((_, r)) ==> p < r <= s.len(),
    decreases s.len() - p, 4nat,
{
    let q = skip_separators(s, p);
    lemma_skip_separators(s, p);
    if q < s.len() && s[q as int] != ']' && s[q as int] != '}' {
        lemma_read_value(s, q);
        if let Ok((v, r)) = read_value(s, q) {
            if p < r <= s.len() {
                lemma_read_items(s, r);
            }
        }
    }
}

/// A value given to a key ends after its start and within the input.
pub proof fn lemma_read_assigned(s: Seq<char>, p: nat)
    requires
        p <= s.len(),
    ensures
        read_assigned(s, p) matches Ok((_, r)) ==> p < r <= s.len(),
    decreases s.len() - p, 5nat,
{
    if p < s.len() && s[p as int] == '{' {
        lemma_read_object(s, p);
    } else if p < s.len() && (s[p as int] == '=' || s[p as int] == ':') {
        lemma_skip_separators(s, p + 1);
        lemma_read_value(s, skip_separators(s, p + 1));
    }
}

/// Members that are read end at or after their start and within the input.
pub proof fn lemma_read_members(s: Seq<char>, p: nat, braced: bool)
    requires
        p <= s.len(),
    ensures
        read_members(s, p, braced) matches Ok((_, r)) ==> p <= r <= s.len(),
    decreases s.len() - p, 1nat,
{
    let q = skip_separators(s, p);
    lemma_skip_separators(s, p);
    if !(q >= s.len() || (braced && s[q as int] == '}')) {
        if let Ok((key, r)) = read_key(s, q) {
            lemma_read_key(s, q);
            lemma_skip_inline(s, r);
            let t = skip_inline(s, r);
            if let Ok((v, u)) = read_assigned(s, t) {
                if p < u <= s.len() {
                    lemma_read_members(s, u, braced);
                }
            }
        }
    }
}

} // verus!
