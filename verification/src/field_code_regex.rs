//! The regular expression that finds `Exec=` field codes, compiled and
//! applied by the regex crate. The compiled form is kept here, beside the
//! pattern it was compiled from, out of reach of other code.
use vstd::prelude::*;

verus! {

#[verifier::external_type_specification]
#[verifier::external_body]
pub struct ExRegex(regex::Regex);

/// Whether `regex::Regex::new` accepts `pattern`.
pub uninterp spec fn regex_compiles(pattern: Seq<char>) -> bool;

/// What `regex::Regex::replace_all` returns for the regex compiled from
/// `pattern`: `text` with every leftmost-first, non-overlapping match
/// replaced by `replacement`.
pub uninterp spec fn regex_replace_all(
    pattern: Seq<char>,
    text: Seq<char>,
    replacement: Seq<char>,
) -> Seq<char>;

/// The regular expression that matches one single-character field code:
/// `%` followed by one of `u U f F i c k`.
pub open spec fn field_code_pattern() -> Seq<char> {
    "%[uUfFick]"@
}

/// The letters of the single-character field codes.
pub open spec fn is_field_code_letter(c: char) -> bool {
    c == 'u' || c == 'U' || c == 'f' || c == 'F' || c == 'i' || c == 'c' || c == 'k'
}

/// `s` with every `%` that a field-code letter follows removed together
/// with that letter, read left to right without overlap: what replacing
/// the matches of [`field_code_pattern`] by nothing gives.
pub open spec fn without_field_codes(s: Seq<char>) -> Seq<char>
    decreases s.len(),
{
    if s.len() == 0 {
        s
    } else if s.len() >= 2 && s[0] == '%' && is_field_code_letter(s[1]) {
        without_field_codes(s.skip(2))
    } else {
        seq![s[0]] + without_field_codes(s.skip(1))
    }
}

/// A compiled regular expression together with the pattern it was
/// compiled from. Its fields are private to this module, where only
/// [`compile_pattern`] builds one.
pub struct CompiledPattern {
    source: String,
    regex: regex::Regex,
}

impl CompiledPattern {
    /// The pattern the regex was compiled from.
    pub closed spec fn source(&self) -> Seq<char> {
        self.source@
    }
}

/// Calls `regex::Regex::new`, which compiles `pattern` or reports why it
/// cannot; whether it succeeds depends on the pattern alone, named
/// [`regex_compiles`]. The pattern is kept beside the compiled form.
#[verifier::external_body]
pub(crate) fn compile_pattern(pattern: &str) -> (res: Option<CompiledPattern>)
    ensures
        res is Some <==> regex_compiles(pattern@),
        res matches Some(p) ==> p.source() == pattern@,
{
    match regex::Regex::new(pattern) {
        Ok(regex) => Some(CompiledPattern { source: pattern.to_string(), regex }),
        Err(_) => None,
    }
}

/// Calls `regex::Regex::replace_all`, which replaces every leftmost-first,
/// non-overlapping match in `text` by `replacement` (in which `$name`
/// refers to a capture group); the result is a function of the pattern the
/// regex was compiled from, the text and the replacement, named
/// [`regex_replace_all`]. For the field-code pattern, whose matches are
/// exactly a `%` and a field-code letter, and an empty replacement, this is
/// [`without_field_codes`].
#[verifier::external_body]
pub(crate) fn replace_all_matches(
    pattern: &CompiledPattern,
    text: &str,
    replacement: &str,
) -> (res: String)
    ensures
        res@ == regex_replace_all(pattern.source(), text@, replacement@),
        pattern.source() == field_code_pattern() && replacement@.len() == 0 ==> res@
            == without_field_codes(text@),
{
    pattern.regex.replace_all(text, replacement).into_owned()
}

} // verus!
