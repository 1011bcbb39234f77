//! The HOCON reader.
//!
//! This is a deliberately small subset, enough for configuration files:
//!
//! * objects, with or without the outer braces at the document root;
//! * `key = value` and `key : value`, plus the `key { ... }` nested-object
//!   shorthand;
//! * arrays;
//! * double-quoted strings (with the usual escapes) and unquoted strings;
//! * `true` / `false` / `null`, integers and floats;
//! * `#` and `//` line comments;
//! * commas and/or newlines as separators.
//!
//! Not supported (rejected or treated literally): `${...}` substitutions,
//! triple-quoted strings, `include`, and dotted path keys.

use vstd::prelude::*;

use crate::hocon::error::{Error, ErrorView, Problem, ReasonView};
use crate::hocon::grammar::{
    after, bare_end, bare_value, ends_bare, ends_key, escaped_char, key_end, lemma_after,
    lemma_line_end, lemma_read_assigned, lemma_read_key, lemma_read_value, lemma_skip_inline,
    lemma_skip_separators, line_end, quoted_from, read_array, read_assigned, read_bare,
    read_document, read_items, read_key, read_members, read_object, read_value, skip_inline,
    skip_separators,
};
use crate::hocon::number::{is_float, parse_int};
use crate::hocon::value::{
    entries_view, items_view, lemma_entries_view_push, lemma_items_view_push, Value, ValueView,
};
use crate::text::{chars_of, push_char, string_of_range, trimmed_bounds, white_space};

verus! {

/// The 1-based line of position `p`: one more than the newlines before it.
pub open spec fn line_at(s: Seq<char>, p: nat) -> nat
    decreases p,
{
    if p == 0 || p > s.len() {
        1
    } else if s[p - 1] == '\n' {
        line_at(s, (p - 1) as nat) + 1
    } else {
        line_at(s, (p - 1) as nat)
    }
}

/// The 1-based column of position `p`: one more than the characters since the
/// last newline before it.
pub open spec fn column_at(s: Seq<char>, p: nat) -> nat
    decreases p,
{
    if p == 0 || p > s.len() {
        1
    } else if s[p - 1] == '\n' {
        1
    } else {
        column_at(s, (p - 1) as nat) + 1
    }
}

/// The error for a problem found at position `q` of `s`.
pub open spec fn error_at(s: Seq<char>, problem: Problem, q: nat) -> ErrorView {
    ErrorView { reason: ReasonView::Parse(problem), line: line_at(s, q), column: column_at(s, q) }
}

/// Lines and columns never exceed one more than the position.
proof fn lemma_location_bounds(s: Seq<char>, p: nat)
    ensures
        line_at(s, p) <= p + 1,
        column_at(s, p) <= p + 1,
    decreases p,
{
    if p > 0 && p <= s.len() {
        lemma_location_bounds(s, (p - 1) as nat);
    }
}

struct Parser {
    chars: Vec<char>,
    pos: usize,
    line: usize,
    column: usize,
}

impl Parser {
    /// The position is within the input and the line and column are those of
    /// the position.
    spec fn wf(&self) -> bool {
        &&& self.pos <= self.chars@.len()
        &&& self.chars@.len() < usize::MAX
        &&& self.line == line_at(self.chars@, self.pos as nat)
        &&& self.column == column_at(self.chars@, self.pos as nat)
    }

    fn new(input: &str) -> (parser: Parser)
        requires
            input@.len() < usize::MAX,
        ensures
            parser.wf(),
            parser.chars@ == input@,
            parser.pos == 0,
    {
        Parser { chars: chars_of(input), pos: 0, line: 1, column: 1 }
    }

    fn peek(&self) -> (c: Option<char>)
        requires
            self.wf(),
        ensures
            c == (if self.pos < self.chars@.len() {
                Some(self.chars@[self.pos as int])
            } else {
                None
            }),
    {
        if self.pos < self.chars.len() {
            Some(self.chars[self.pos])
        } else {
            None
        }
    }

    fn peek_at(&self, ahead: usize) -> (c: Option<char>)
        requires
            self.wf(),
        ensures
            c == (if self.pos + ahead < self.chars@.len() {
                Some(self.chars@[self.pos + ahead])
            } else {
                None
            }),
    {
        if ahead < self.chars.len() - self.pos {
            Some(self.chars[self.pos + ahead])
        } else {
            None
        }
    }

    fn bump(&mut self) -> (c: Option<char>)
        requires
            old(self).wf(),
        ensures
            final(self).wf(),
            final(self).chars == old(self).chars,
            old(self).pos < old(self).chars@.len() ==> c == Some(
                old(self).chars@[old(self).pos as int],
            ) && final(self).pos == old(self).pos + 1,
            old(self).pos >= old(self).chars@.len() ==> c is None && final(self).pos
                == old(self).pos,
    {
        if self.pos < self.chars.len() {
            let c = self.chars[self.pos];
            proof {
                lemma_location_bounds(self.chars@, self.pos as nat);
            }
            self.pos += 1;
            if c == '\n' {
                self.line += 1;
                self.column = 1;
            } else {
                self.column += 1;
            }
            Some(c)
        } else {
            None
        }
    }

    fn error(&self, problem: Problem) -> (e: Error)
        requires
            self.wf(),
        ensures
            e@ == error_at(self.chars@, problem, self.pos as nat),
    {
        Error::at(self.line, self.column, problem)
    }

    /// Skips to the end of the line (the newline is not consumed).
    fn skip_line(&mut self)
        requires
            old(self).wf(),
        ensures
            final(self).wf(),
            final(self).chars == old(self).chars,
            final(self).pos == line_end(old(self).chars@, old(self).pos as nat),
    {
        while self.pos < self.chars.len() && self.chars[self.pos] != '\n'
            invariant
                self.wf(),
                self.chars == old(self).chars,
                line_end(self.chars@, old(self).pos as nat) == line_end(
                    self.chars@,
                    self.pos as nat,
                ),
            decreases self.chars@.len() - self.pos,
        {
            self.bump();
        }
    }

    /// Skips inline whitespace and line comments, but stops at a newline.
    fn skip_inline(&mut self)
        requires
            old(self).wf(),
        ensures
            final(self).wf(),
            final(self).chars == old(self).chars,
            final(self).pos == skip_inline(old(self).chars@, old(self).pos as nat),
    {
        loop
            invariant
                self.wf(),
                self.chars == old(self).chars,
                skip_inline(self.chars@, old(self).pos as nat) == skip_inline(
                    self.chars@,
                    self.pos as nat,
                ),
            decreases self.chars@.len() - self.pos,
        {
            let c = self.peek();
            if c == Some(' ') || c == Some('\t') || c == Some('\r') {
                self.bump();
            } else if c == Some('#') || (c == Some('/') && self.peek_at(1) == Some('/')) {
                self.skip_line();
                proof {
                    lemma_line_end(self.chars@, self.pos as nat);
                }
                return;
            } else {
                return;
            }
        }
    }

    /// Skips whitespace, newlines, commas and line comments between tokens.
    fn skip_separators(&mut self)
        requires
            old(self).wf(),
        ensures
            final(self).wf(),
            final(self).chars == old(self).chars,
            final(self).pos == skip_separators(old(self).chars@, old(self).pos as nat),
    {
        loop
            invariant
                self.wf(),
                self.chars == old(self).chars,
                skip_separators(self.chars@, old(self).pos as nat) == skip_separators(
                    self.chars@,
                    self.pos as nat,
                ),
            decreases self.chars@.len() - self.pos,
        {
            let c = self.peek();
            match c {
                Some(c) => {
                    if white_space(c) || c == ',' {
                        self.bump();
                    } else if c == '#' || (c == '/' && self.peek_at(1) == Some('/')) {
                        proof {
                            lemma_line_end(self.chars@, self.pos as nat);
                        }
                        self.skip_line();
                    } else {
                        return;
                    }
                },
                None => return,
            }
        }
    }
}


/// The value a trimmed unquoted text `chars[a..b]` denotes.
fn bare_text_value(chars: &Vec<char>, a: usize, b: usize) -> (v: Value)
    requires
        a <= b <= chars@.len(),
    ensures
        v@ == bare_value(chars@.subrange(a as int, b as int)),
{
    if same_chars(chars, a, b, &vec!['t', 'r', 'u', 'e']) {
        Value::Bool(true)
    } else if same_chars(chars, a, b, &vec!['f', 'a', 'l', 's', 'e']) {
        Value::Bool(false)
    } else if same_chars(chars, a, b, &vec!['n', 'u', 'l', 'l']) {
        Value::Null
    } else {
        match parse_int(chars, a, b) {
            Some(i) => Value::Integer(i),
            None => if is_float(chars, a, b) {
                Value::Float(string_of_range(chars, a, b))
            } else {
                Value::String(string_of_range(chars, a, b))
            },
        }
    }
}

/// Whether `chars[a..b]` is the word `w`.
fn same_chars(chars: &Vec<char>, a: usize, b: usize, w: &Vec<char>) -> (same: bool)
    requires
        a <= b <= chars@.len(),
    ensures
        same == (chars@.subrange(a as int, b as int) == w@),
{
    if b - a != w.len() {
        return false;
    }
    let mut i: usize = 0;
    while i < w.len()
        invariant
            b - a == w@.len(),
            a <= b <= chars@.len(),
            i <= w@.len(),
            forall|k: int| 0 <= k < i ==> chars@[a + k] == w@[k],
        decreases w.len() - i,
    {
        if chars[a + i] != w[i] {
            assert(chars@.subrange(a as int, b as int)[i as int] != w@[i as int]);
            return false;
        }
        i += 1;
    }
    assert(chars@.subrange(a as int, b as int) =~= w@);
    true
}

impl Parser {
    /// Reads a double-quoted string, starting at its opening quote, with the
    /// usual escapes replaced.
    fn parse_quoted(&mut self) -> (res: Result<String, Error>)
        requires
            old(self).wf(),
            old(self).pos < old(self).chars@.len(),
            old(self).chars@[old(self).pos as int] == '"',
        ensures
            final(self).wf(),
            final(self).chars == old(self).chars,
            match res {
                Ok(text) => quoted_from(old(self).chars@, (old(self).pos + 1) as nat) == Ok::<
                    (Seq<char>, nat),
                    (Problem, nat),
                >((text@, final(self).pos as nat)),
                Err(e) => quoted_from(old(self).chars@, (old(self).pos + 1) as nat) matches Err((p, q))
                    && e@ == error_at(old(self).chars@, p, q),
            },
    {
        self.bump();
        let mut out = String::new();
        proof {
            lemma_after(out@, out@, quoted_from(self.chars@, self.pos as nat));
        }
        loop
            invariant
                self.wf(),
                self.chars == old(self).chars,
                quoted_from(self.chars@, (old(self).pos + 1) as nat) == after(
                    out@,
                    quoted_from(self.chars@, self.pos as nat),
                ),
            decreases self.chars@.len() - self.pos,
        {
            let ghost here = self.pos as nat;
            let ghost before = out@;
            match self.bump() {
                None => return Err(self.error(Problem::UnterminatedString)),
                Some(c) => {
                    if c == '"' {
                        assert(out@ + Seq::<char>::empty() =~= out@);
                        return Ok(out);
                    } else if c == '\\' {
                        match self.bump() {
                            None => return Err(self.error(Problem::UnterminatedEscape)),
                            Some(e) => match escape(e) {
                                Some(x) => {
                                    push_char(&mut out, x);
                                    proof {
                                        lemma_after(before, seq![x], quoted_from(self.chars@, self.pos as nat));
                                        assert(before + seq![x] =~= out@);
                                    }
                                },
                                None => return Err(self.error(Problem::InvalidEscape(e))),
                            },
                        }
                    } else {
                        push_char(&mut out, c);
                        proof {
                            lemma_after(before, seq![c], quoted_from(self.chars@, self.pos as nat));
                            assert(before + seq![c] =~= out@);
                        }
                    }
                },
            }
        }
    }

    /// Reads a key: a quoted string, or the characters up to whitespace or
    /// one of `= : { } [ ] ,`.
    fn parse_key(&mut self) -> (res: Result<String, Error>)
        requires
            old(self).wf(),
        ensures
            final(self).wf(),
            final(self).chars == old(self).chars,
            match res {
                Ok(key) => read_key(old(self).chars@, old(self).pos as nat) == Ok::<
                    (Seq<char>, nat),
                    (Problem, nat),
                >((key@, final(self).pos as nat)),
                Err(e) => read_key(old(self).chars@, old(self).pos as nat) matches Err((p, q))
                    && e@ == error_at(old(self).chars@, p, q),
            },
    {
        if self.peek() == Some('"') {
            return self.parse_quoted();
        }
        let start = self.pos;
        while self.pos < self.chars.len() && !key_stop(self.chars[self.pos])
            invariant
                self.wf(),
                self.chars == old(self).chars,
                start == old(self).pos,
                start <= self.pos,
                key_end(self.chars@, start as nat) == key_end(self.chars@, self.pos as nat),
            decreases self.chars@.len() - self.pos,
        {
            self.bump();
        }
        if self.pos == start {
            return Err(self.error(Problem::ExpectedKey));
        }
        Ok(string_of_range(&self.chars, start, self.pos))
    }

    /// Reads an unquoted value up to the next newline, comma, comment or
    /// closing bracket, then interprets it as a bool, null, number or string.
    fn parse_bare_value(&mut self) -> (v: Value)
        requires
            old(self).wf(),
        ensures
            final(self).wf(),
            final(self).chars == old(self).chars,
            (v@, final(self).pos as nat) == read_bare(old(self).chars@, old(self).pos as nat),
    {
        let start = self.pos;
        while self.pos < self.chars.len() && !self.at_bare_end()
            invariant
                self.wf(),
                self.chars == old(self).chars,
                start == old(self).pos,
                start <= self.pos,
                bare_end(self.chars@, start as nat) == bare_end(self.chars@, self.pos as nat),
            decreases self.chars@.len() - self.pos,
        {
            self.bump();
        }
        let (a, b) = trimmed_bounds(&self.chars, start, self.pos);
        bare_text_value(&self.chars, a, b)
    }

    /// Whether an unquoted value ends at the current position.
    fn at_bare_end(&self) -> (b: bool)
        requires
            self.wf(),
            self.pos < self.chars@.len(),
        ensures
            b == ends_bare(self.chars@, self.pos as nat),
    {
        let c = self.chars[self.pos];
        c == '\n' || c == ',' || c == '}' || c == ']' || c == '#' || (c == '/' && self.peek_at(1)
            == Some('/'))
    }
}

impl Parser {
    /// Reads a value: an object, an array, a quoted string or an unquoted
    /// value, after inline white space.
    fn parse_value(&mut self) -> (res: Result<Value, Error>)
        requires
            old(self).wf(),
        ensures
            final(self).wf(),
            final(self).chars == old(self).chars,
            match res {
                Ok(v) => read_value(old(self).chars@, old(self).pos as nat) == Ok::<
                    (ValueView, nat),
                    (Problem, nat),
                >((v@, final(self).pos as nat)),
                Err(e) => read_value(old(self).chars@, old(self).pos as nat) matches Err((p, q))
                    && e@ == error_at(old(self).chars@, p, q),
            },
        decreases old(self).chars@.len() - old(self).pos, 3nat,
    {
        proof {
            lemma_skip_inline(self.chars@, self.pos as nat);
        }
        self.skip_inline();
        match self.peek() {
            Some(c) => {
                if c == '{' {
                    self.parse_object()
                } else if c == '[' {
                    self.parse_array()
                } else if c == '"' {
                    match self.parse_quoted() {
                        Ok(text) => Ok(Value::String(text)),
                        Err(e) => Err(e),
                    }
                } else {
                    Ok(self.parse_bare_value())
                }
            },
            None => Err(self.error(Problem::ExpectedValue)),
        }
    }

    /// Reads an object, starting at its `{`: its members, then `}`.
    fn parse_object(&mut self) -> (res: Result<Value, Error>)
        requires
            old(self).wf(),
            old(self).pos < old(self).chars@.len(),
            old(self).chars@[old(self).pos as int] == '{',
        ensures
            final(self).wf(),
            final(self).chars == old(self).chars,
            match res {
                Ok(v) => read_object(old(self).chars@, old(self).pos as nat) == Ok::<
                    (ValueView, nat),
                    (Problem, nat),
                >((v@, final(self).pos as nat)),
                Err(e) => read_object(old(self).chars@, old(self).pos as nat) matches Err((p, q))
                    && e@ == error_at(old(self).chars@, p, q),
            },
        decreases old(self).chars@.len() - old(self).pos, 2nat,
    {
        self.bump();
        let members = match self.parse_members(true) {
            Ok(members) => members,
            Err(e) => return Err(e),
        };
        if self.peek() == Some('}') {
            self.bump();
            Ok(Value::Object(members))
        } else {
            Err(self.error(Problem::UnterminatedObject))
        }
    }

    /// Reads an array, starting at its `[`: its items, then `]`.
    fn parse_array(&mut self) -> (res: Result<Value, Error>)
        requires
            old(self).wf(),
            old(self).pos < old(self).chars@.len(),
            old(self).chars@[old(self).pos as int] == '[',
        ensures
            final(self).wf(),
            final(self).chars == old(self).chars,
            match res {
                Ok(v) => read_array(old(self).chars@, old(self).pos as nat) == Ok::<
                    (ValueView, nat),
                    (Problem, nat),
                >((v@, final(self).pos as nat)),
                Err(e) => read_array(old(self).chars@, old(self).pos as nat) matches Err((p, q))
                    && e@ == error_at(old(self).chars@, p, q),
            },
        decreases old(self).chars@.len() - old(self).pos, 2nat,
    {
        let ghost start = self.pos as nat;
        self.bump();
        let mut items: Vec<Value> = Vec::new();
        proof {
            lemma_after(items_view(items@), items_view(items@), read_items(self.chars@, self.pos as nat));
            assert(items_view(items@) =~= Seq::<ValueView>::empty());
        }
        loop
            invariant
                self.wf(),
                self.chars == old(self).chars,
                start == old(self).pos,
                start < self.pos <= self.chars@.len(),
                read_items(self.chars@, start + 1) == after(
                    items_view(items@),
                    read_items(self.chars@, self.pos as nat),
                ),
            decreases self.chars@.len() - self.pos,
        {
            let ghost cur = self.pos as nat;
            let ghost s = self.chars@;
            proof {
                lemma_skip_separators(s, cur);
            }
            self.skip_separators();
            match self.peek() {
                None => return Err(self.error(Problem::UnterminatedArray)),
                Some(c) => {
                    if c == ']' {
                        self.bump();
                        assert(items_view(items@) + Seq::<ValueView>::empty() =~= items_view(items@));
                        return Ok(Value::Array(items));
                    } else if c == '}' {
                        return Err(self.error(Problem::BraceInArray));
                    } else {
                        let ghost q = self.pos as nat;
                        match self.parse_value() {
                            Ok(v) => {
                                proof {
                                    lemma_read_value(s, q);
                                    assert(!ends_bare(s, q));
                                    assert(cur < self.pos);
                                    assert(read_items(s, cur) == after(seq![v@], read_items(s, self.pos as nat)));
                                    lemma_after(items_view(items@), seq![v@], read_items(s, self.pos as nat));
                                    lemma_items_view_push(items@, v);
                                    assert(items_view(items@) + seq![v@] =~= items_view(items@).push(v@));
                                }
                                items.push(v);
                            },
                            Err(e) => return Err(e),
                        }
                    }
                },
            }
        }
    }

    /// Reads object members until `}` (when `braced`, not consumed) or the end
    /// of input.
    fn parse_members(&mut self, braced: bool) -> (res: Result<Vec<(String, Value)>, Error>)
        requires
            old(self).wf(),
        ensures
            final(self).wf(),
            final(self).chars == old(self).chars,
            match res {
                Ok(entries) => read_members(old(self).chars@, old(self).pos as nat, braced) == Ok::<
                    (Seq<(Seq<char>, ValueView)>, nat),
                    (Problem, nat),
                >((entries_view(entries@), final(self).pos as nat)),
                Err(e) => read_members(old(self).chars@, old(self).pos as nat, braced) matches Err(
                    (p, q),
                ) && e@ == error_at(old(self).chars@, p, q),
            },
        decreases old(self).chars@.len() - old(self).pos, 1nat,
    {
        let ghost start = self.pos as nat;
        let mut entries: Vec<(String, Value)> = Vec::new();
        proof {
            lemma_after(entries_view(entries@), entries_view(entries@), read_members(self.chars@, start, braced));
            assert(entries_view(entries@) =~= Seq::<(Seq<char>, ValueView)>::empty());
        }
        loop
            invariant
                self.wf(),
                self.chars == old(self).chars,
                start == old(self).pos,
                start <= self.pos <= self.chars@.len(),
                read_members(self.chars@, start, braced) == after(
                    entries_view(entries@),
                    read_members(self.chars@, self.pos as nat, braced),
                ),
            decreases self.chars@.len() - self.pos,
        {
            let ghost cur = self.pos as nat;
            let ghost s = self.chars@;
            proof {
                lemma_skip_separators(s, cur);
            }
            self.skip_separators();
            let ghost q = self.pos as nat;
            match self.peek() {
                None => {
                    assert(entries_view(entries@) + Seq::<(Seq<char>, ValueView)>::empty() =~= entries_view(entries@));
                    return Ok(entries);
                },
                Some(c) => {
                    if braced && c == '}' {
                        assert(entries_view(entries@) + Seq::<(Seq<char>, ValueView)>::empty() =~= entries_view(entries@));
                        return Ok(entries);
                    }
                },
            }
            let key = match self.parse_key() {
                Ok(key) => key,
                Err(e) => return Err(e),
            };
            let ghost r = self.pos as nat;
            proof {
                lemma_read_key(s, q);
                lemma_skip_inline(s, r);
            }
            self.skip_inline();
            let ghost t = self.pos as nat;
            proof {
                lemma_read_assigned(s, t);
            }
            let value = match self.peek() {
                Some(c) => {
                    if c == '{' {
                        match self.parse_object() {
                            Ok(v) => v,
                            Err(e) => return Err(e),
                        }
                    } else if c == '=' || c == ':' {
                        self.bump();
                        proof {
                            lemma_skip_separators(s, t + 1);
                        }
                        self.skip_separators();
                        match self.parse_value() {
                            Ok(v) => v,
                            Err(e) => return Err(e),
                        }
                    } else {
                        return Err(self.error(Problem::ExpectedAssignment(c)));
                    }
                },
                None => return Err(self.error(Problem::MissingValueAfterKey)),
            };
            assert(read_assigned(s, t) == Ok::<(ValueView, nat), (Problem, nat)>((value@, self.pos as nat)));
            assert(cur < self.pos);
            assert(read_key(s, q) == Ok::<(Seq<char>, nat), (Problem, nat)>((key@, r)));
            assert(read_members(s, cur, braced) == after(seq![(key@, value@)], read_members(s, self.pos as nat, braced)));
            proof {
                let entry = (key, value);
                lemma_after(entries_view(entries@), seq![(key@, value@)], read_members(s, self.pos as nat, braced));
                lemma_entries_view_push(entries@, entry);
                assert(entries_view(entries@) + seq![(key@, value@)] =~= entries_view(entries@).push((key@, value@)));
            }
            entries.push((key, value));
        }
    }
}

/// Parses a HOCON document into a [`Value`]: an object, written with or
/// without its outer braces.
pub fn parse(input: &str) -> (res: Result<Value, Error>)
    requires
        input@.len() < usize::MAX,
    ensures
        match res {
            Ok(v) => read_document(input@) == Ok::<ValueView, (Problem, nat)>(v@),
            Err(e) => read_document(input@) matches Err((p, q)) && e@ == error_at(input@, p, q),
        },
{
    let mut parser = Parser::new(input);
    parser.skip_separators();
    let value = if parser.peek() == Some('{') {
        match parser.parse_object() {
            Ok(v) => v,
            Err(e) => return Err(e),
        }
    } else {
        match parser.parse_members(false) {
            Ok(entries) => Value::Object(entries),
            Err(e) => return Err(e),
        }
    };
    parser.skip_separators();
    match parser.peek() {
        None => Ok(value),
        Some(c) => Err(parser.error(Problem::TrailingInput(c))),
    }
}

/// Whether `c` ends an unquoted key.
fn key_stop(c: char) -> (b: bool)
    ensures
        b == ends_key(c),
{
    white_space(c) || c == '=' || c == ':' || c == '{' || c == '}' || c == '[' || c == ']' || c
        == ','
}

/// The character an escape `\c` stands for.
fn escape(c: char) -> (e: Option<char>)
    ensures
        e == escaped_char(c),
{
    if c == '"' {
        Some('"')
    } else if c == '\\' {
        Some('\\')
    } else if c == '/' {
        Some('/')
    } else if c == 'n' {
        Some('\n')
    } else if c == 't' {
        Some('\t')
    } else if c == 'r' {
        Some('\r')
    } else if c == 'b' {
        Some('\u{8}')
    } else if c == 'f' {
        Some('\u{c}')
    } else {
        None
    }
}

} // verus!
