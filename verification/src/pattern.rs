//! Regular expressions over lines of text, as the `regex` crate has them.
use vstd::prelude::*;

verus! {

#[verifier::external_type_specification]
#[verifier::external_body]
pub struct ExRegex(regex::Regex);

#[verifier::external_type_specification]
#[verifier::external_body]
pub struct ExRegexError(regex::Error);

/// Why `regex` refuses to compile a pattern, or nothing where it compiles it.
/// The size limit counts bytes of the compiled program, which depend on the
/// width of a machine word.
pub uninterp spec fn refusal(
    pattern: Seq<char>,
    ignore_case: bool,
    size_limit: usize,
    word_bits: u32,
) -> Option<Seq<char>>;

/// Whether a pattern that compiles matches anywhere in a line.
pub uninterp spec fn matches_line(pattern: Seq<char>, ignore_case: bool, line: Seq<char>) -> bool;

/// The pattern that a compiled expression stands for, and whether it ignores
/// case.
pub uninterp spec fn compiled_from(re: regex::Regex) -> (Seq<char>, bool);

/// The message of an error.
pub uninterp spec fn error_text(e: regex::Error) -> Seq<char>;

/// `regex::RegexBuilder` on the pattern, with its options for case and size. It
/// gives an expression that stands for the pattern, or an error whose message
/// is why the pattern is refused.
#[verifier::external_body]
pub(crate) fn compile(pattern: &str, ignore_case: bool, size_limit: usize) -> (r: Result<
    regex::Regex,
    regex::Error,
>)
    ensures
        match r {
            Ok(re) => refusal(pattern@, ignore_case, size_limit, usize::BITS) is None
                && compiled_from(re) == (pattern@, ignore_case),
            Err(e) => refusal(pattern@, ignore_case, size_limit, usize::BITS) == Some(
                error_text(e),
            ),
        },
{
    regex::RegexBuilder::new(pattern).case_insensitive(ignore_case).size_limit(size_limit).build()
}

/// The message that `regex::Error` displays.
#[verifier::external_body]
pub(crate) fn error_message(e: &regex::Error) -> (r: String)
    ensures
        r@ == error_text(*e),
{
    e.to_string()
}

/// `regex::Regex::is_match`: whether the expression matches anywhere in the
/// line.
#[verifier::external_body]
pub(crate) fn is_match(re: &regex::Regex, line: &str) -> (r: bool)
    ensures
        r == matches_line(compiled_from(*re).0, compiled_from(*re).1, line@),
{
    re.is_match(line)
}

} // verus!
