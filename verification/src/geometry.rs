//! The geometry mini-language: `w`/`h`/`x`/`y` followed by a length in pixels
//! or, with a trailing `%`, a proportion of the available area, and the bare
//! maximize flags `v` (vertical) and `m` (both directions).

use vstd::prelude::*;

use crate::matching::{compile, is_match, regex_compile_error, regex_is_match, CompiledRegex};
use crate::text::{
    ascii_lower, ascii_lowercase, chars_of, decimal, digits_value, is_digit, lemma_decimal_digits,
    lemma_digits_value_monotone, push_char, push_decimal, push_str, str_debug, str_debug_string,
    string_of_range, u32_parse_error, u32_parse_error_text,
};

verus! {

/// Window maximize state: `v` maximizes vertically while `m` maximizes in both
/// directions.
#[derive(Debug, Clone, Copy, PartialEq, Eq, Structural)]
pub enum Maximize {
    Vertical,
    Both,
}

/// A coordinate value, in pixels or as a percentage of the available area.
#[derive(Debug, Clone, Copy, PartialEq, Eq, Structural)]
pub enum Length {
    Pixels(u32),
    Percent(u32),
}

/// One token of the geometry mini-language.
#[derive(Debug, Clone, Copy, PartialEq, Eq, Structural)]
pub enum Geometry {
    Width(Length),
    Height(Length),
    Left(Length),
    Top(Length),
    Maximize(Maximize),
}

/// Why a geometry string was rejected.
#[derive(Debug, Clone, PartialEq, Eq)]
pub enum GeometryError {
    /// No token starts at the given remaining input.
    InvalidToken(String),
    /// A coordinate's digits are not a `u32`: too large, or not all ASCII.
    InvalidValue(String),
}

/// The abstract content of a [`GeometryError`].
pub enum GeometryFault {
    InvalidToken(Seq<char>),
    InvalidValue(Seq<char>),
}

impl View for GeometryError {
    type V = GeometryFault;

    open spec fn view(&self) -> GeometryFault {
        match self {
            GeometryError::InvalidToken(rest) => GeometryFault::InvalidToken(rest@),
            GeometryError::InvalidValue(digits) => GeometryFault::InvalidValue(digits@),
        }
    }
}

/// The message of a rejected geometry: the remaining input, or the digits
/// and why they are not a `u32`, each as `{:?}` writes it.
pub open spec fn geometry_error_text(fault: GeometryFault) -> Seq<char> {
    match fault {
        GeometryFault::InvalidToken(rest) => "invalid geometry token: "@ + str_debug(rest),
        GeometryFault::InvalidValue(digits) => "invalid geometry value "@ + str_debug(digits)
            + ": "@ + u32_parse_error(digits),
    }
}

impl GeometryError {
    /// The message of the error, as the command line and the configuration
    /// service report it.
    pub fn message(&self) -> (text: String)
        ensures
            text@ == geometry_error_text(self@),
    {
        let mut text = String::new();
        match self {
            GeometryError::InvalidToken(rest) => {
                push_str(&mut text, "invalid geometry token: ");
                let quoted = str_debug_string(rest.as_str());
                push_str(&mut text, quoted.as_str());
            },
            GeometryError::InvalidValue(digits) => {
                push_str(&mut text, "invalid geometry value ");
                let quoted = str_debug_string(digits.as_str());
                push_str(&mut text, quoted.as_str());
                push_str(&mut text, ": ");
                let reason = u32_parse_error_text(digits.as_str());
                push_str(&mut text, reason.as_str());
            },
        }
        text
    }
}

impl Maximize {
    /// How the flag is written: `v` or `m`.
    pub open spec fn text(self) -> Seq<char> {
        match self {
            Maximize::Vertical => seq!['v'],
            Maximize::Both => seq!['m'],
        }
    }

    /// Writes the flag as in the geometry mini-language.
    pub fn to_string(&self) -> (s: String)
        ensures
            s@ == self.text(),
    {
        let mut s = String::new();
        match self {
            Maximize::Vertical => push_char(&mut s, 'v'),
            Maximize::Both => push_char(&mut s, 'm'),
        }
        s
    }
}

impl Length {
    /// How the length is written: its decimal value, followed by `%` for a
    /// percentage.
    pub open spec fn text(self) -> Seq<char> {
        match self {
            Length::Pixels(v) => decimal(v as nat),
            Length::Percent(v) => decimal(v as nat).push('%'),
        }
    }

    fn push_to(&self, s: &mut String)
        ensures
            final(s)@ == old(s)@ + self.text(),
    {
        match self {
            Length::Pixels(v) => push_decimal(s, *v as u64),
            Length::Percent(v) => {
                push_decimal(s, *v as u64);
                push_char(s, '%');
                assert(final(s)@ =~= old(s)@ + self.text());
            },
        }
    }

    /// Writes the length as in the geometry mini-language.
    pub fn to_string(&self) -> (s: String)
        ensures
            s@ == self.text(),
    {
        let mut s = String::new();
        self.push_to(&mut s);
        assert(s@ =~= self.text());
        s
    }
}

impl Geometry {
    /// How the token is written: its letter followed by its length, or the
    /// maximize flag.
    pub open spec fn text(self) -> Seq<char> {
        match self {
            Geometry::Width(l) => seq!['w'] + l.text(),
            Geometry::Height(l) => seq!['h'] + l.text(),
            Geometry::Left(l) => seq!['x'] + l.text(),
            Geometry::Top(l) => seq!['y'] + l.text(),
            Geometry::Maximize(m) => m.text(),
        }
    }

    pub(crate) fn push_to(&self, s: &mut String)
        ensures
            final(s)@ == old(s)@ + self.text(),
    {
        let ghost start = s@;
        match self {
            Geometry::Width(l) => {
                push_char(s, 'w');
                l.push_to(s);
            },
            Geometry::Height(l) => {
                push_char(s, 'h');
                l.push_to(s);
            },
            Geometry::Left(l) => {
                push_char(s, 'x');
                l.push_to(s);
            },
            Geometry::Top(l) => {
                push_char(s, 'y');
                l.push_to(s);
            },
            Geometry::Maximize(Maximize::Vertical) => push_char(s, 'v'),
            Geometry::Maximize(Maximize::Both) => push_char(s, 'm'),
        }
        assert(s@ =~= start + self.text());
    }

    /// Writes the token as in the geometry mini-language.
    pub fn to_string(&self) -> (s: String)
        ensures
            s@ == self.text(),
    {
        let mut s = String::new();
        self.push_to(&mut s);
        assert(s@ =~= self.text());
        s
    }

    /// Parses the geometry mini-language, returning an error if any part of
    /// the string is not a valid token (e.g. an unknown coordinate like `a3`).
    pub fn parse(s: &str) -> (res: Result<Vec<Geometry>, GeometryError>)
        ensures
            match res {
                Ok(tokens) => parse_geometry(s@) == Ok::<Seq<Geometry>, GeometryFault>(tokens@),
                Err(e) => parse_geometry(s@) == Err::<Seq<Geometry>, GeometryFault>(e@),
            },
    {
        let chars = chars_of(s);
        let n = chars.len();
        let digit_class = compile("\\d");
        proof {
            reveal_strlit("\\d");
            assert("\\d"@ =~= digit_class_source());
        }
        let mut tokens: Vec<Geometry> = Vec::new();
        let mut i: usize = 0;
        proof {
            lemma_continue_with(tokens@, tokens@, parse_geometry(s@));
            assert(chars@.skip(0) =~= chars@);
        }
        while i < n
            invariant
                n == chars@.len(),
                chars@ == s@,
                i <= n,
                digit_class_ready(&digit_class),
                parse_geometry(s@) == continue_with(tokens@, parse_geometry(chars@.skip(i as int))),
            decreases n - i,
        {
            let ghost rest = chars@.skip(i as int);
            let c = chars[i];
            if is_coordinate_letter(c) {
                // the maximal run of decimal digits after the letter
                let mut j = i + 1;
                while j < n && is_decimal_char(chars[j], &digit_class)
                    invariant
                        i < j <= n,
                        n == chars@.len(),
                        digit_class_ready(&digit_class),
                        forall|k: int| i < k < j ==> is_decimal(#[trigger] chars@[k]),
                    decreases n - j,
                {
                    j += 1;
                }
                proof {
                    lemma_decimal_run_exact(rest.skip(1), (j - i - 1) as nat);
                    assert(rest.skip(1) =~= chars@.skip(i + 1));
                }
                if j == i + 1 {
                    let r = string_of_range(&chars, i, n);
                    assert(r@ =~= rest);
                    return Err(GeometryError::InvalidToken(r));
                }
                let ghost digits = rest.subrange(1, (j - i) as int);
                assert(digits =~= chars@.subrange(i + 1, j as int));
                match digits_to_u32(&chars, i + 1, j) {
                    None => {
                        let d = string_of_range(&chars, i + 1, j);
                        return Err(GeometryError::InvalidValue(d));
                    },
                    Some(v) => {
                        let percent = j < n && chars[j] == '%';
                        let length = if percent {
                            Length::Percent(v)
                        } else {
                            Length::Pixels(v)
                        };
                        let ghost before = tokens@;
                        let g = coordinate(c, length);
                        tokens.push(g);
                        let next = if percent {
                            j + 1
                        } else {
                            j
                        };
                        assert(rest.skip((next - i) as int) =~= chars@.skip(next as int));
                        proof {
                            lemma_continue_with(before, seq![g], parse_geometry(chars@.skip(next as int)));
                            assert(before + seq![g] =~= tokens@);
                        }
                        i = next;
                    },
                }
            } else if c == 'v' || c == 'V' || c == 'm' || c == 'M' {
                let flag = if c == 'v' || c == 'V' {
                    Maximize::Vertical
                } else {
                    Maximize::Both
                };
                let ghost before = tokens@;
                tokens.push(Geometry::Maximize(flag));
                assert(rest.skip(1) =~= chars@.skip(i + 1));
                proof {
                    lemma_continue_with(before, seq![Geometry::Maximize(flag)], parse_geometry(chars@.skip(i + 1)));
                    assert(before + seq![Geometry::Maximize(flag)] =~= tokens@);
                }
                i += 1;
            } else {
                let r = string_of_range(&chars, i, n);
                assert(r@ =~= rest);
                return Err(GeometryError::InvalidToken(r));
            }
        }
        assert(chars@.skip(n as int) =~= Seq::<char>::empty());
        assert(tokens@ + Seq::<Geometry>::empty() =~= tokens@);
        Ok(tokens)
    }
}

/// The text of a whole token list: each token written in turn.
pub open spec fn geometry_text(tokens: Seq<Geometry>) -> Seq<char>
    decreases tokens.len(),
{
    if tokens.len() == 0 {
        Seq::empty()
    } else {
        tokens[0].text() + geometry_text(tokens.drop_first())
    }
}

/// The source of the regex class of decimal digits.
pub open spec fn digit_class_source() -> Seq<char> {
    seq!['\\', 'd']
}

/// Whether `c` is a decimal digit beyond ASCII, as the `\d` class of the
/// `regex` crate decides (every Unicode decimal digit).
pub open spec fn other_decimal_digit(c: char) -> bool {
    (c as u32) >= 128 && regex_compile_error(digit_class_source()) is None && regex_is_match(
        digit_class_source(),
        seq![c],
    )
}

/// Whether `c` may stand among a coordinate's digits: an ASCII digit, or
/// another decimal digit.
pub open spec fn is_decimal(c: char) -> bool {
    is_digit(c) || other_decimal_digit(c)
}

/// The length of the run of decimal digits that starts `s`.
pub open spec fn decimal_run(s: Seq<char>) -> nat
    decreases s.len(),
{
    if s.len() > 0 && is_decimal(s[0]) {
        1 + decimal_run(s.drop_first())
    } else {
        0
    }
}

/// The decimal run never extends past the end.
pub proof fn lemma_decimal_run_bounded(s: Seq<char>)
    ensures
        decimal_run(s) <= s.len(),
    decreases s.len(),
{
    if s.len() > 0 && is_decimal(s[0]) {
        lemma_decimal_run_bounded(s.drop_first());
    }
}

/// A run of `n` decimal digits that ends the input or is followed by another
/// character is exactly the decimal run.
proof fn lemma_decimal_run_exact(s: Seq<char>, n: nat)
    requires
        n <= s.len(),
        forall|k: int| 0 <= k < n ==> is_decimal(#[trigger] s[k]),
        n == s.len() || !is_decimal(s[n as int]),
    ensures
        decimal_run(s) == n,
    decreases n,
{
    if n > 0 {
        lemma_decimal_run_exact(s.drop_first(), (n - 1) as nat);
    }
}

/// Every character of the decimal run is a decimal digit.
proof fn lemma_decimal_run_prefix(s: Seq<char>, k: int)
    requires
        0 <= k < decimal_run(s),
    ensures
        is_decimal(s[k]),
    decreases k,
{
    lemma_decimal_run_bounded(s);
    if k > 0 {
        lemma_decimal_run_prefix(s.drop_first(), k - 1);
        assert(s.drop_first()[k - 1] == s[k]);
    }
}

/// Whether all of `d` are ASCII digits.
pub open spec fn all_ascii_digits(d: Seq<char>) -> bool {
    forall|k: int| 0 <= k < d.len() ==> is_digit(#[trigger] d[k])
}

/// Whether `c` starts a coordinate token (`w`, `h`, `x` or `y`, in either
/// case).
pub open spec fn is_coordinate(c: char) -> bool {
    c == 'w' || c == 'W' || c == 'h' || c == 'H' || c == 'x' || c == 'X' || c == 'y' || c == 'Y'
}

/// Whether `c` is a maximize flag (`v` or `m`, in either case).
pub open spec fn is_maximize(c: char) -> bool {
    c == 'v' || c == 'V' || c == 'm' || c == 'M'
}

/// The coordinate token named by letter `c` with the given length.
pub open spec fn coordinate_token(c: char, length: Length) -> Geometry {
    if c == 'w' || c == 'W' {
        Geometry::Width(length)
    } else if c == 'h' || c == 'H' {
        Geometry::Height(length)
    } else if c == 'x' || c == 'X' {
        Geometry::Left(length)
    } else {
        Geometry::Top(length)
    }
}

/// The maximize token named by letter `c`.
pub open spec fn maximize_token(c: char) -> Geometry {
    if c == 'v' || c == 'V' {
        Geometry::Maximize(Maximize::Vertical)
    } else {
        Geometry::Maximize(Maximize::Both)
    }
}

/// `tokens` followed by the outcome of parsing the rest of the input.
pub open spec fn continue_with(
    tokens: Seq<Geometry>,
    rest: Result<Seq<Geometry>, GeometryFault>,
) -> Result<Seq<Geometry>, GeometryFault> {
    match rest {
        Ok(more) => Ok(tokens + more),
        Err(e) => Err(e),
    }
}

/// The meaning of a geometry string.  Tokens are read from the front; each is
///  * a coordinate letter (`w`, `h`, `x`, `y`, any case) followed by the longest
///    run of decimal digits (at least one), which must be ASCII digits whose
///    value fits in a `u32`, and an optional `%` that makes it a percentage, or
///  * a maximize flag (`v`, `m`, any case).
/// Input at which no token starts is rejected with the remaining input; digits
/// that are not a `u32` are rejected with those digits.
pub open spec fn parse_geometry(s: Seq<char>) -> Result<Seq<Geometry>, GeometryFault>
    decreases s.len(),
{
    if s.len() == 0 {
        Ok(Seq::empty())
    } else if is_coordinate(s[0]) {
        let n: int = decimal_run(s.drop_first()) as int;
        if n == 0 {
            Err(GeometryFault::InvalidToken(s))
        } else {
            let digits = s.subrange(1, n + 1);
            let value = digits_value(digits);
            if !all_ascii_digits(digits) || value > u32::MAX {
                Err(GeometryFault::InvalidValue(digits))
            } else {
                let percent = n + 1 < s.len() && s[n + 1] == '%';
                let length = if percent {
                    Length::Percent(value as u32)
                } else {
                    Length::Pixels(value as u32)
                };
                let used: int = if percent { n + 2 } else { n + 1 };
                proof {
                    lemma_decimal_run_bounded(s.drop_first());
                }
                continue_with(seq![coordinate_token(s[0], length)], parse_geometry(s.skip(used)))
            }
        }
    } else if is_maximize(s[0]) {
        continue_with(seq![maximize_token(s[0])], parse_geometry(s.skip(1)))
    } else {
        Err(GeometryFault::InvalidToken(s))
    }
}

/// Parsing after no tokens changes nothing, and two prefixes of tokens compose.
proof fn lemma_continue_with(
    a: Seq<Geometry>,
    b: Seq<Geometry>,
    r: Result<Seq<Geometry>, GeometryFault>,
)
    ensures
        continue_with(Seq::empty(), r) == r,
        continue_with(a, continue_with(b, r)) == continue_with(a + b, r),
{
    if let Ok(more) = r {
        assert(Seq::<Geometry>::empty() + more =~= more);
        assert(a + (b + more) =~= (a + b) + more);
    }
}

fn is_coordinate_letter(c: char) -> (b: bool)
    ensures
        b == is_coordinate(c),
{
    c == 'w' || c == 'W' || c == 'h' || c == 'H' || c == 'x' || c == 'X' || c == 'y' || c == 'Y'
}

/// Whether `digit_class` is what compiling the digit class gives.
spec fn digit_class_ready(digit_class: &Result<CompiledRegex, String>) -> bool {
    match digit_class {
        Ok(re) => re.source() == digit_class_source() && regex_compile_error(digit_class_source())
            is None,
        Err(_) => regex_compile_error(digit_class_source()) is Some,
    }
}

/// Whether `c` is a decimal digit: ASCII digits are decided here, other
/// characters by the compiled digit class.
fn is_decimal_char(c: char, digit_class: &Result<CompiledRegex, String>) -> (b: bool)
    requires
        digit_class_ready(digit_class),
    ensures
        b == is_decimal(c),
{
    if '0' <= c && c <= '9' {
        return true;
    }
    if (c as u32) < 128 {
        return false;
    }
    match digit_class {
        Ok(re) => {
            let mut text = String::new();
            push_char(&mut text, c);
            assert(text@ =~= seq![c]);
            is_match(re, text.as_str())
        },
        Err(_) => false,
    }
}

fn coordinate(c: char, length: Length) -> (g: Geometry)
    ensures
        g == coordinate_token(c, length),
{
    if c == 'w' || c == 'W' {
        Geometry::Width(length)
    } else if c == 'h' || c == 'H' {
        Geometry::Height(length)
    } else if c == 'x' || c == 'X' {
        Geometry::Left(length)
    } else {
        Geometry::Top(length)
    }
}

/// The value of the digits `chars[from..to]`, or `None` when they are not
/// all ASCII digits or their value exceeds `u32::MAX`.
fn digits_to_u32(chars: &Vec<char>, from: usize, to: usize) -> (res: Option<u32>)
    requires
        from <= to <= chars@.len(),
    ensures
        match res {
            Some(v) => all_ascii_digits(chars@.subrange(from as int, to as int)) && v
                == digits_value(chars@.subrange(from as int, to as int)),
            None => !all_ascii_digits(chars@.subrange(from as int, to as int)) || digits_value(
                chars@.subrange(from as int, to as int),
            ) > u32::MAX,
        },
{
    let mut k = from;
    while k < to
        invariant
            from <= k <= to <= chars@.len(),
            forall|m: int| from <= m < k ==> is_digit(#[trigger] chars@[m]),
        decreases to - k,
    {
        if !('0' <= chars[k] && chars[k] <= '9') {
            assert(!is_digit(chars@.subrange(from as int, to as int)[k - from]));
            return None;
        }
        k += 1;
    }
    assert(all_ascii_digits(chars@.subrange(from as int, to as int)));
    let mut value: u64 = 0;
    let mut i = from;
    while i < to
        invariant
            from <= i <= to <= chars@.len(),
            forall|k: int| from <= k < to ==> is_digit(#[trigger] chars@[k]),
            all_ascii_digits(chars@.subrange(from as int, to as int)),
            value == digits_value(chars@.subrange(from as int, i as int)),
            value <= u32::MAX,
        decreases to - i,
    {
        let d = (chars[i] as u32 - '0' as u32) as u64;
        let ghost prefix = chars@.subrange(from as int, i as int + 1);
        assert(prefix.drop_last() =~= chars@.subrange(from as int, i as int));
        let next = value * 10 + d;
        if next > 4294967295 {
            proof {
                lemma_digits_value_monotone(chars@.subrange(from as int, to as int), (i + 1 - from) as nat);
                assert(chars@.subrange(from as int, to as int).subrange(0, (i + 1 - from) as int) =~= prefix);
            }
            return None;
        }
        value = next;
        i += 1;
    }
    Some(value as u32)
}

/// The text of a token list is empty or starts with a token letter, never
/// with a digit or `%`.
proof fn lemma_text_starts_with_letter(tokens: Seq<Geometry>)
    ensures
        geometry_text(tokens).len() > 0 ==> !is_decimal(geometry_text(tokens)[0])
            && geometry_text(tokens)[0] != '%',
{
    if tokens.len() > 0 {
        let t = tokens[0];
        let rest = geometry_text(tokens.drop_first());
        match t {
            Geometry::Maximize(m) => {
                assert((t.text() + rest)[0] == t.text()[0]);
            },
            _ => {
                assert((t.text() + rest)[0] == t.text()[0]);
            },
        }
    }
}

/// Writing a token list and reading it back gives the same tokens: every
/// list of geometry tokens is parsed from its own text.
pub proof fn lemma_parse_of_text(tokens: Seq<Geometry>)
    ensures
        parse_geometry(geometry_text(tokens)) == Ok::<Seq<Geometry>, GeometryFault>(tokens),
    decreases tokens.len(),
{
    if tokens.len() == 0 {
        assert(geometry_text(tokens) =~= Seq::<char>::empty());
        assert(tokens =~= Seq::<Geometry>::empty());
    } else {
        let t = tokens[0];
        let tail = tokens.drop_first();
        let r = geometry_text(tail);
        let s = geometry_text(tokens);
        assert(s == t.text() + r);
        lemma_parse_of_text(tail);
        lemma_text_starts_with_letter(tail);
        assert(seq![t] + tail =~= tokens);
        assert(continue_with(seq![t], Ok::<Seq<Geometry>, GeometryFault>(tail)) == Ok::<
            Seq<Geometry>,
            GeometryFault,
        >(tokens));
        match t {
            Geometry::Maximize(m) => {
                assert(s[0] == t.text()[0]);
                assert(s.skip(1) =~= r);
                assert(maximize_token(s[0]) == t);
            },
            Geometry::Width(l) => {
                lemma_coordinate_token_parse(s, 'w', l, r);
                assert(coordinate_token('w', l) == t);
            },
            Geometry::Height(l) => {
                lemma_coordinate_token_parse(s, 'h', l, r);
                assert(coordinate_token('h', l) == t);
            },
            Geometry::Left(l) => {
                lemma_coordinate_token_parse(s, 'x', l, r);
                assert(coordinate_token('x', l) == t);
            },
            Geometry::Top(l) => {
                lemma_coordinate_token_parse(s, 'y', l, r);
                assert(coordinate_token('y', l) == t);
            },
        }
    }
}

/// One coordinate token, written before a text that does not start with a
/// digit or `%`, is read back whole.
proof fn lemma_coordinate_token_parse(s: Seq<char>, c: char, l: Length, r: Seq<char>)
    requires
        c == 'w' || c == 'h' || c == 'x' || c == 'y',
        s == seq![c] + l.text() + r,
        r.len() > 0 ==> !is_decimal(r[0]) && r[0] != '%',
    ensures
        parse_geometry(s) == continue_with(seq![coordinate_token(c, l)], parse_geometry(r)),
{
    let v: nat = match l {
        Length::Pixels(v) => v as nat,
        Length::Percent(v) => v as nat,
    };
    let d = decimal(v);
    lemma_decimal_digits(v);
    let tail = s.drop_first();
    let n = d.len();
    match l {
        Length::Pixels(_) => {
            assert(tail =~= d + r);
        },
        Length::Percent(_) => {
            assert(tail =~= d + (seq!['%'] + r));
        },
    }
    assert forall|k: int| 0 <= k < n implies is_decimal(#[trigger] tail[k]) by {
        assert(tail[k] == d[k]);
    }
    if n < tail.len() {
        assert(!is_decimal(tail[n as int]));
    }
    lemma_decimal_run_exact(tail, n);
    assert(s.subrange(1, n as int + 1) =~= d);
    assert(all_ascii_digits(d));
    match l {
        Length::Pixels(_) => {
            assert(s.skip(n as int + 1) =~= r);
        },
        Length::Percent(_) => {
            assert(s[n as int + 1] == '%');
            assert(s.skip(n as int + 2) =~= r);
        },
    }
}

/// Lowercasing keeps digits, `%` and every other non-letter as they are.
proof fn lemma_lower_keeps(c: char)
    ensures
        is_digit(ascii_lower(c)) == is_digit(c),
        is_digit(c) ==> ascii_lower(c) == c,
        is_decimal(ascii_lower(c)) == is_decimal(c),
        is_decimal(c) ==> ascii_lower(c) == c,
        (ascii_lower(c) == '%') == (c == '%'),
        is_coordinate(ascii_lower(c)) == is_coordinate(c),
        is_maximize(ascii_lower(c)) == is_maximize(c),
        is_coordinate(c) ==> forall|l: Length| coordinate_token(ascii_lower(c), l) == coordinate_token(c, l),
        is_maximize(c) ==> maximize_token(ascii_lower(c)) == maximize_token(c),
{
}

proof fn lemma_decimal_run_lower(s: Seq<char>)
    ensures
        decimal_run(ascii_lowercase(s)) == decimal_run(s),
    decreases s.len(),
{
    if s.len() > 0 {
        lemma_lower_keeps(s[0]);
        assert(ascii_lowercase(s).drop_first() =~= ascii_lowercase(s.drop_first()));
        lemma_decimal_run_lower(s.drop_first());
    }
}

/// The geometry language ignores the case of its letters: a text and its
/// lowercase form are accepted alike, and when accepted they give the same
/// tokens.
pub proof fn lemma_parse_ignores_case(s: Seq<char>)
    ensures
        parse_geometry(s) is Ok <==> parse_geometry(ascii_lowercase(s)) is Ok,
        parse_geometry(s) is Ok ==> parse_geometry(s) == parse_geometry(ascii_lowercase(s)),
    decreases s.len(),
{
    let t = ascii_lowercase(s);
    if s.len() > 0 {
        let c = s[0];
        lemma_lower_keeps(c);
        assert(t[0] == ascii_lower(c));
        if is_coordinate(c) {
            lemma_decimal_run_lower(s.drop_first());
            assert(t.drop_first() =~= ascii_lowercase(s.drop_first()));
            let n: int = decimal_run(s.drop_first()) as int;
            lemma_decimal_run_bounded(s.drop_first());
            if n > 0 {
                let digits = s.subrange(1, n + 1);
                assert forall|k: int| 0 <= k < n implies is_decimal(#[trigger] digits[k]) by {
                    lemma_decimal_run_prefix(s.drop_first(), k);
                }
                assert forall|k: int| 0 <= k < n implies t.subrange(1, n + 1)[k] == #[trigger] digits[k] by {
                    lemma_lower_keeps(digits[k]);
                }
                assert(t.subrange(1, n + 1) =~= digits);
                if n + 1 < s.len() {
                    lemma_lower_keeps(s[n + 1]);
                    assert(t[n + 1] == ascii_lower(s[n + 1]));
                }
                assert(t.skip(n + 1) =~= ascii_lowercase(s.skip(n + 1)));
                if n + 2 <= s.len() {
                    assert(t.skip(n + 2) =~= ascii_lowercase(s.skip(n + 2)));
                    lemma_parse_ignores_case(s.skip(n + 2));
                }
                lemma_parse_ignores_case(s.skip(n + 1));
            }
        } else if is_maximize(c) {
            assert(t.skip(1) =~= ascii_lowercase(s.skip(1)));
            lemma_parse_ignores_case(s.skip(1));
        }
    }
}

} // verus!
