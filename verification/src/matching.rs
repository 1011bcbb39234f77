//! Regular expressions, through the `regex` crate: escaping literal text,
//! compiling a pattern and matching it against a text.

use vstd::prelude::*;

verus! {

#[verifier::external_type_specification]
#[verifier::external_body]
pub struct ExRegex(regex::Regex);

/// Whether `c` has significance in a regex and is escaped by
/// [`escape_literal`].
pub open spec fn is_meta_character(c: char) -> bool {
    c == '\\' || c == '.' || c == '+' || c == '*' || c == '?' || c == '(' || c == ')' || c == '|'
        || c == '[' || c == ']' || c == '{' || c == '}' || c == '^' || c == '$' || c == '#'
        || c == '&' || c == '-' || c == '~'
}

/// `text` with a backslash put before every meta character.
pub open spec fn escaped(text: Seq<char>) -> Seq<char>
    decreases text.len(),
{
    if text.len() == 0 {
        Seq::empty()
    } else {
        (if is_meta_character(text[0]) {
            seq!['\\', text[0]]
        } else {
            seq![text[0]]
        }) + escaped(text.drop_first())
    }
}

/// Escapes the regex meta characters of `text`, so that the result matches
/// `text` literally.
///
/// Trusted: calls `regex::escape`, which (through `regex_syntax::escape_into`)
/// pushes a `\` before each character for which `is_meta_character` holds and
/// then the character itself, for every character of `text` in order.
#[verifier::external_body]
pub(crate) fn escape_literal(text: &str) -> (escaped_text: String)
    ensures
        escaped_text@ == escaped(text@),
{
    regex::escape(text)
}

/// The outcome of compiling `pattern` with `regex::Regex::new`: `None` when it
/// compiles, otherwise the text of the error it reports.
pub uninterp spec fn regex_compile_error(pattern: Seq<char>) -> Option<Seq<char>>;

/// Whether the regex compiled from `pattern` matches somewhere in `text`.
pub uninterp spec fn regex_is_match(pattern: Seq<char>, text: Seq<char>) -> bool;

/// A compiled regular expression, kept with the source it was compiled from.
pub(crate) struct CompiledRegex {
    source: String,
    regex: regex::Regex,
}

impl CompiledRegex {
    /// The pattern this regex was compiled from.
    pub(crate) closed spec fn source(&self) -> Seq<char> {
        self.source@
    }
}

/// Compiles `pattern`.
///
/// Trusted: calls `regex::Regex::new`, whose result depends on the pattern
/// alone; the contract says that it succeeds exactly when
/// `regex_compile_error(pattern)` is `None`, and otherwise returns the error's
/// text (its `Display`).  The compiled regex keeps a copy of `pattern`.
#[verifier::external_body]
pub(crate) fn compile(pattern: &str) -> (res: Result<CompiledRegex, String>)
    ensures
        match res {
            Ok(re) => regex_compile_error(pattern@) is None && re.source() == pattern@,
            Err(message) => regex_compile_error(pattern@) == Some(message@),
        },
{
    match regex::Regex::new(pattern) {
        Ok(regex) => Ok(CompiledRegex { source: pattern.to_string(), regex }),
        Err(error) => Err(format!("{error}")),
    }
}

/// Whether `re` matches anywhere in `text`.
///
/// Trusted: calls `regex::Regex::is_match` on the regex that [`compile`] built
/// from `re.source()` (the only way to make a `CompiledRegex`); the result is
/// named `regex_is_match(re.source(), text)`.
#[verifier::external_body]
pub(crate) fn is_match(re: &CompiledRegex, text: &str) -> (found: bool)
    ensures
        found == regex_is_match(re.source(), text@),
{
    re.regex.is_match(text)
}

} // verus!
