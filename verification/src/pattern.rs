//! Pattern compilation and matching, backed by the `regex` crate.
//!
//! A `CompiledPattern` pairs an executable regex with the pattern text and
//! case flag it was built from. The fields are private and the only
//! constructor is [`compile`], so every value's regex really was built from
//! its recorded pattern text and flag; the trusted contracts below lean on
//! that. What the regex engine decides is named, not restated: the spec
//! functions [`pattern_compiles`] and [`regex_match`] stand for the outcome
//! of compilation and of matching, both functions of the pattern text, the
//! case flag, and (for matching) the line alone.

use vstd::prelude::*;

verus! {

/// Declares the `regex` crate's compiled-pattern type so it can stand in
/// fields and signatures; Verus treats its values as opaque.
#[verifier::external_type_specification]
#[verifier::external_body]
pub struct ExRegex(regex::Regex);

/// Whether `pattern`, compiled with the given case-insensitivity flag, is
/// accepted by the regex engine.
pub uninterp spec fn pattern_compiles(pattern: Seq<char>, insensitive: bool) -> bool;

/// Whether the pattern, compiled with the given case-insensitivity flag,
/// matches somewhere in `line`.
pub uninterp spec fn regex_match(pattern: Seq<char>, insensitive: bool, line: Seq<char>) -> bool;

/// A fatal configuration fault: the run must stop before any source is read.
#[derive(Debug, PartialEq, Eq, Structural, Clone, Copy)]
pub enum ConfigError {
    /// The pattern text is not a valid regular expression.
    InvalidPattern,
}

/// An executable matcher built once per run from the pattern text and the
/// case-insensitivity flag.
#[derive(Debug)]
pub struct CompiledPattern {
    re: regex::Regex,
    pattern: String,
    insensitive: bool,
}

impl CompiledPattern {
    /// The pattern text this matcher was built from.
    pub closed spec fn pattern_view(&self) -> Seq<char> {
        self.pattern@
    }

    /// Whether this matcher ignores letter case.
    pub closed spec fn is_insensitive(&self) -> bool {
        self.insensitive
    }

    /// Relies on `regex::RegexBuilder::{new, case_insensitive, build}`:
    /// building succeeds exactly when the engine accepts the pattern under
    /// this flag, and the returned value holds the regex built from exactly
    /// these arguments.
    #[verifier::external_body]
    fn build(pattern: &str, insensitive: bool) -> (r: Option<CompiledPattern>)
        ensures
            r is Some <==> pattern_compiles(pattern@, insensitive),
            r matches Some(p) ==> p.pattern_view() == pattern@ && p.is_insensitive()
                == insensitive,
    {
        match regex::RegexBuilder::new(pattern).case_insensitive(insensitive).build() {
            Ok(re) => Some(CompiledPattern { re, pattern: pattern.to_string(), insensitive }),
            Err(_) => None,
        }
    }

    /// Turns pattern text plus a case flag into an executable matcher.
    /// Invalid pattern text is a terminal configuration error.
    pub fn compile(pattern: &str, insensitive: bool) -> (r: Result<CompiledPattern, ConfigError>)
        ensures
            r is Ok <==> pattern_compiles(pattern@, insensitive),
            r matches Ok(p) ==> p.pattern_view() == pattern@ && p.is_insensitive()
                == insensitive,
            r matches Err(e) ==> e == ConfigError::InvalidPattern,
    {
        match Self::build(pattern, insensitive) {
            Some(p) => Ok(p),
            None => Err(ConfigError::InvalidPattern),
        }
    }

    /// Relies on `regex::Regex::is_match`: whether the compiled pattern
    /// matches anywhere in `line`, an outcome determined by the pattern
    /// text, the case flag, and the line alone.
    #[verifier::external_body]
    fn engine_match(&self, line: &str) -> (r: bool)
        ensures
            r == regex_match(self.pattern_view(), self.is_insensitive(), line@),
    {
        self.re.is_match(line)
    }

    /// Whether this pattern matches somewhere in `line`.
    pub fn is_match(&self, line: &str) -> (r: bool)
        ensures
            r == regex_match(self.pattern_view(), self.is_insensitive(), line@),
    {
        self.engine_match(line)
    }
}

/// The diagnostic the tool prints when the pattern text does not compile.
pub fn invalid_pattern_message(pattern: &str) -> (msg: String)
    ensures
        msg@ == "Invalid pattern \""@ + pattern@ + "\""@,
{
    let mut msg = String::from_str("Invalid pattern \"");
    msg.append(pattern);
    msg.append("\"");
    msg
}

} // verus!
