//! Compiling a search pattern, and the regular-expression engine behind it.
use vstd::prelude::*;
use vstd::string::StringExecFns;
use vstd::utf8::{encode_utf8, is_char_boundary};

verus! {

#[verifier::external_type_specification]
#[verifier::external_body]
pub struct ExRegex(regex::Regex);

#[verifier::external_type_specification]
#[verifier::external_body]
pub struct ExRegexError(regex::Error);

/// Whether the engine accepts `pattern` (with case folding when
/// `insensitive`).
pub uninterp spec fn regex_builds(pattern: Seq<char>, insensitive: bool) -> bool;

/// Whether the compiled `pattern` matches somewhere in `hay`.
pub uninterp spec fn regex_finds(pattern: Seq<char>, insensitive: bool, hay: Seq<char>) -> bool;

/// The byte spans of the successive non-overlapping matches of `pattern` in
/// `hay`.
pub uninterp spec fn regex_spans(pattern: Seq<char>, insensitive: bool, hay: Seq<char>) -> Seq<
    (usize, usize),
>;

/// Spans that lie within `bytes` on character boundaries, each starting no
/// earlier than the previous one ends.
pub open spec fn spans_fit(spans: Seq<(usize, usize)>, bytes: Seq<u8>) -> bool {
    &&& forall|i: int|
        0 <= i < spans.len() ==> {
            &&& #[trigger] spans[i].0 <= spans[i].1 <= bytes.len()
            &&& is_char_boundary(bytes, spans[i].0 as int)
            &&& is_char_boundary(bytes, spans[i].1 as int)
        }
    &&& forall|i: int| 0 <= i < spans.len() - 1 ==> #[trigger] spans[i].1 <= spans[i + 1].0
}

/// Relies on regex::RegexBuilder::build, with case_insensitive set as asked:
/// it succeeds exactly on the patterns the engine accepts, among them the
/// empty pattern.
#[verifier::external_body]
fn build_regex(pattern: &str, insensitive: bool) -> (r: Result<regex::Regex, regex::Error>)
    ensures
        r is Ok <==> regex_builds(pattern@, insensitive),
        pattern@.len() == 0 ==> r is Ok,
{
    regex::RegexBuilder::new(pattern).case_insensitive(insensitive).build()
}

/// Why a pattern could not be compiled.
#[derive(Debug, Clone, Copy, PartialEq, Eq, Structural)]
pub enum PatternError {
    /// The pattern is not a regular expression the engine accepts.
    InvalidPattern,
}

/// A pattern compiled once and applied to any number of lines. Its fields are
/// private and `compile` is its only constructor, so `regex` is always the
/// engine's compilation of `source` with case folding as `insensitive` says:
/// the wrappers below state their results over `source` and `insensitive`.
pub struct CompiledPattern {
    regex: regex::Regex,
    source: String,
    insensitive: bool,
}

impl View for CompiledPattern {
    /// The expression the engine was given, and whether it folds case.
    type V = (Seq<char>, bool);

    closed spec fn view(&self) -> (Seq<char>, bool) {
        (self.source@, self.insensitive)
    }
}

/// The expression searched for: the pattern itself, or the pattern between
/// word-boundary anchors in whole-word mode.
pub open spec fn expression(pattern: Seq<char>, whole_word: bool) -> Seq<char> {
    if whole_word {
        seq!['\\', 'b'] + pattern + seq!['\\', 'b']
    } else {
        pattern
    }
}

/// Relies on regex::Regex::is_match on the regex that `p` was compiled into.
#[verifier::external_body]
fn regex_is_match(p: &CompiledPattern, line: &str) -> (r: bool)
    ensures
        r == regex_finds(p@.0, p@.1, line@),
        p@.0.len() == 0 ==> r,
{
    p.regex.is_match(line)
}

/// Relies on regex::Regex::find_iter on the regex that `p` was compiled into:
/// the successive non-overlapping matches, as byte offsets on character
/// boundaries, of which there is one at least exactly when the line matches
/// (an empty expression matches every line).
#[verifier::external_body]
fn regex_find_spans(p: &CompiledPattern, line: &str) -> (r: Vec<(usize, usize)>)
    ensures
        r@ == regex_spans(p@.0, p@.1, line@),
        spans_fit(r@, encode_utf8(line@)),
        r@.len() > 0 <==> regex_finds(p@.0, p@.1, line@),
        p@.0.len() == 0 ==> r@.len() > 0,
{
    p.regex.find_iter(line).map(|m| (m.start(), m.end())).collect()
}

impl CompiledPattern {
    /// Compiles `pattern`, folding case when `case_insensitive`, and between
    /// word boundaries when `whole_word`.
    pub fn compile(pattern: &str, case_insensitive: bool, whole_word: bool) -> (r: Result<
        CompiledPattern,
        PatternError,
    >)
        ensures
            r is Ok <==> regex_builds(expression(pattern@, whole_word), case_insensitive),
            r matches Ok(c) ==> c@ == (expression(pattern@, whole_word), case_insensitive),
            pattern@.len() == 0 && !whole_word ==> r is Ok,
    {
        let mut source = String::new();
        if whole_word {
            source.append("\\b");
            source.append(pattern);
            source.append("\\b");
            proof {
                reveal_strlit("\\b");
            }
        } else {
            source.append(pattern);
        }
        assert(source@ =~= expression(pattern@, whole_word));
        match build_regex(source.as_str(), case_insensitive) {
            Ok(regex) => Ok(CompiledPattern { regex, source, insensitive: case_insensitive }),
            Err(_) => Err(PatternError::InvalidPattern),
        }
    }

    /// Whether the pattern matches somewhere in `line`.
    pub fn is_match(&self, line: &str) -> (r: bool)
        ensures
            r == regex_finds(self@.0, self@.1, line@),
            self@.0.len() == 0 ==> r,
    {
        regex_is_match(self, line)
    }

    /// The spans of the successive non-overlapping matches in `line`.
    pub fn find_spans(&self, line: &str) -> (r: Vec<(usize, usize)>)
        ensures
            r@ == regex_spans(self@.0, self@.1, line@),
            spans_fit(r@, encode_utf8(line@)),
            r@.len() > 0 <==> regex_finds(self@.0, self@.1, line@),
            self@.0.len() == 0 ==> r@.len() > 0,
    {
        regex_find_spans(self, line)
    }
}

} // verus!
