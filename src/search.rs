//! Finding and counting the lines that a compiled pattern matches.
use vstd::prelude::*;
use vstd::utf8::encode_utf8;
use crate::lines::{split_lines, strings_view, text_lines};
use crate::pattern::{
    expression, regex_finds, regex_spans, spans_fit, CompiledPattern, PatternError,
};

verus! {

/// The lines among `ls` that the pattern `pat` matches, in order.
pub open spec fn matching(pat: (Seq<char>, bool), ls: Seq<Seq<char>>) -> Seq<Seq<char>>
    decreases ls.len(),
{
    if ls.len() == 0 {
        Seq::empty()
    } else {
        let r = matching(pat, ls.drop_last());
        if regex_finds(pat.0, pat.1, ls.last()) {
            r.push(ls.last())
        } else {
            r
        }
    }
}

/// How many of the lines `ls` the pattern `pat` matches.
pub open spec fn match_count(pat: (Seq<char>, bool), ls: Seq<Seq<char>>) -> nat
    decreases ls.len(),
{
    if ls.len() == 0 {
        0
    } else {
        match_count(pat, ls.drop_last()) + if regex_finds(pat.0, pat.1, ls.last()) {
            1nat
        } else {
            0nat
        }
    }
}

/// One matched line: where it came from, its text as it stands, and the byte
/// spans of its matches in ascending order.
pub struct LineResult {
    pub source: Option<String>,
    pub text: String,
    pub spans: Vec<(usize, usize)>,
}

/// The characters of an optional string.
pub open spec fn opt_view(o: Option<String>) -> Option<Seq<char>> {
    match o {
        Some(s) => Some(s@),
        None => None,
    }
}

/// The model of a matched line: source, text and spans.
pub type LineModel = (Option<Seq<char>>, Seq<char>, Seq<(usize, usize)>);

impl View for LineResult {
    type V = LineModel;

    open spec fn view(&self) -> LineModel {
        (opt_view(self.source), self.text@, self.spans@)
    }
}

impl LineResult {
    /// The spans lie in the text, on character boundaries, without overlap.
    pub open spec fn wf(&self) -> bool {
        spans_fit(self.spans@, encode_utf8(self.text@))
    }
}

/// The models of a sequence of matched lines.
pub open spec fn results_view(v: Seq<LineResult>) -> Seq<LineModel> {
    v.map_values(|x: LineResult| x@)
}

/// The matched lines of the text `t` under `pat`, labelled with `source`,
/// each with all its match spans.
pub open spec fn found(pat: (Seq<char>, bool), source: Option<Seq<char>>, t: Seq<char>) -> Seq<
    LineModel,
> {
    matching(pat, text_lines(t)).map_values(
        |l: Seq<char>| (source, l, regex_spans(pat.0, pat.1, l)),
    )
}

/// The lines of `text` that `p` matches, labelled with `source`, each with
/// every match span.
pub fn find_labelled_lines(p: &CompiledPattern, source: &Option<String>, text: &str) -> (r: Vec<
    LineResult,
>)
    ensures
        results_view(r@) == found(p@, opt_view(*source), text@),
        forall|i: int| 0 <= i < r@.len() ==> (#[trigger] r@[i]).wf(),
        p@.0.len() == 0 ==> r@.len() == text_lines(text@).len(),
{
    let lines = split_lines(text);
    let ghost ls = strings_view(lines@);
    let ghost src = opt_view(*source);
    let mut out: Vec<LineResult> = Vec::new();
    for k in 0..lines.len()
        invariant
            ls == strings_view(lines@),
            ls == text_lines(text@),
            src == opt_view(*source),
            results_view(out@) == matching(p@, ls.subrange(0, k as int)).map_values(
                |l: Seq<char>| (src, l, regex_spans(p@.0, p@.1, l)),
            ),
            forall|i: int| 0 <= i < out@.len() ==> (#[trigger] out@[i]).wf(),
            p@.0.len() == 0 ==> out@.len() == k,
    {
        assert(ls.subrange(0, k + 1).drop_last() =~= ls.subrange(0, k as int));
        let line = lines[k].as_str();
        let spans = p.find_spans(line);
        if spans.len() > 0 {
            let label = match source {
                Some(s) => Some(s.clone()),
                None => None,
            };
            let ghost before = results_view(out@);
            out.push(LineResult { source: label, text: lines[k].clone(), spans });
            assert(results_view(out@) =~= before.push((src, ls[k as int], regex_spans(p@.0, p@.1, ls[k as int]))));
            assert(matching(p@, ls.subrange(0, k + 1)) == matching(p@, ls.subrange(0, k as int)).push(ls[k as int]));
            assert(results_view(out@) =~= matching(p@, ls.subrange(0, k + 1)).map_values(
                |l: Seq<char>| (src, l, regex_spans(p@.0, p@.1, l)),
            ));
        }
    }
    assert(ls.subrange(0, lines.len() as int) =~= ls);
    out
}

/// The lines of `text` that `p` matches, unlabelled, each with every match
/// span.
pub fn find_matching_lines(p: &CompiledPattern, text: &str) -> (r: Vec<LineResult>)
    ensures
        results_view(r@) == found(p@, None, text@),
        forall|i: int| 0 <= i < r@.len() ==> (#[trigger] r@[i]).wf(),
        p@.0.len() == 0 ==> r@.len() == text_lines(text@).len(),
{
    find_labelled_lines(p, &None, text)
}

/// The lines among `ls` whose mark in `marks` is set, in order.
pub open spec fn kept(ls: Seq<Seq<char>>, marks: Seq<bool>) -> Seq<Seq<char>>
    decreases ls.len(),
{
    if ls.len() == 0 || marks.len() == 0 {
        Seq::empty()
    } else {
        let r = kept(ls.drop_last(), marks.drop_last());
        if marks.last() {
            r.push(ls.last())
        } else {
            r
        }
    }
}

/// How many marks of `marks` are set.
pub open spec fn marked_count(marks: Seq<bool>) -> nat
    decreases marks.len(),
{
    if marks.len() == 0 {
        0
    } else {
        marked_count(marks.drop_last()) + if marks.last() {
            1nat
        } else {
            0nat
        }
    }
}

/// Whether `p` matches each of `lines`, in order.
pub fn mark_lines(p: &CompiledPattern, lines: &Vec<String>) -> (r: Vec<bool>)
    ensures
        r@.len() == lines@.len(),
        forall|i: int| 0 <= i < r@.len() ==> #[trigger] r@[i] == regex_finds(p@.0, p@.1, lines@[i]@),
        p@.0.len() == 0 ==> forall|i: int| 0 <= i < r@.len() ==> #[trigger] r@[i],
{
    let mut marks: Vec<bool> = Vec::new();
    for k in 0..lines.len()
        invariant
            marks@.len() == k,
            forall|i: int| 0 <= i < k ==> #[trigger] marks@[i] == regex_finds(p@.0, p@.1, lines@[i]@),
            p@.0.len() == 0 ==> forall|i: int| 0 <= i < k ==> #[trigger] marks@[i],
    {
        marks.push(p.is_match(lines[k].as_str()));
    }
    marks
}

/// The lines whose mark is set, in order.
pub fn keep_marked(lines: &Vec<String>, marks: &Vec<bool>) -> (r: Vec<String>)
    requires
        lines@.len() == marks@.len(),
    ensures
        strings_view(r@) == kept(strings_view(lines@), marks@),
{
    let ghost ls = strings_view(lines@);
    let mut out: Vec<String> = Vec::new();
    for k in 0..lines.len()
        invariant
            ls == strings_view(lines@),
            lines@.len() == marks@.len(),
            strings_view(out@) == kept(ls.subrange(0, k as int), marks@.subrange(0, k as int)),
    {
        assert(ls.subrange(0, k + 1).drop_last() =~= ls.subrange(0, k as int));
        assert(marks@.subrange(0, k + 1).drop_last() =~= marks@.subrange(0, k as int));
        if marks[k] {
            let ghost before = strings_view(out@);
            out.push(lines[k].clone());
            assert(strings_view(out@) =~= before.push(ls[k as int]));
        }
    }
    assert(ls.subrange(0, lines.len() as int) =~= ls);
    assert(marks@.subrange(0, lines.len() as int) =~= marks@);
    out
}

/// How many marks are set.
pub fn count_marked(marks: &Vec<bool>) -> (r: usize)
    ensures
        r == marked_count(marks@),
{
    let mut n: usize = 0;
    for k in 0..marks.len()
        invariant
            n == marked_count(marks@.subrange(0, k as int)),
            n <= k,
    {
        assert(marks@.subrange(0, k + 1).drop_last() =~= marks@.subrange(0, k as int));
        if marks[k] {
            n = n + 1;
        }
    }
    assert(marks@.subrange(0, marks.len() as int) =~= marks@);
    n
}

proof fn lemma_marks_select_matches(
    pat: (Seq<char>, bool),
    ls: Seq<Seq<char>>,
    marks: Seq<bool>,
)
    requires
        ls.len() == marks.len(),
        forall|i: int| 0 <= i < marks.len() ==> #[trigger] marks[i] == regex_finds(pat.0, pat.1, ls[i]),
    ensures
        kept(ls, marks) == matching(pat, ls),
        marked_count(marks) == match_count(pat, ls),
    decreases ls.len(),
{
    if ls.len() > 0 {
        assert(marks.last() == marks[marks.len() - 1]);
        lemma_marks_select_matches(pat, ls.drop_last(), marks.drop_last());
    }
}

proof fn lemma_all_marked(ls: Seq<Seq<char>>, marks: Seq<bool>)
    requires
        ls.len() == marks.len(),
        forall|i: int| 0 <= i < marks.len() ==> #[trigger] marks[i],
    ensures
        kept(ls, marks) == ls,
        marked_count(marks) == ls.len(),
    decreases ls.len(),
{
    if ls.len() > 0 {
        assert(marks.last() == marks[marks.len() - 1]);
        lemma_all_marked(ls.drop_last(), marks.drop_last());
        assert(ls.drop_last().push(ls.last()) =~= ls);
    }
}

/// The texts of the lines of `text` that `p` matches, in order.
pub fn matching_texts(p: &CompiledPattern, text: &str) -> (r: Vec<String>)
    ensures
        strings_view(r@) == matching(p@, text_lines(text@)),
        p@.0.len() == 0 ==> strings_view(r@) == text_lines(text@),
{
    let lines = split_lines(text);
    let marks = mark_lines(p, &lines);
    proof {
        lemma_marks_select_matches(p@, strings_view(lines@), marks@);
        if p@.0.len() == 0 {
            lemma_all_marked(strings_view(lines@), marks@);
        }
    }
    keep_marked(&lines, &marks)
}

/// How many lines of `text` the pattern `p` matches.
pub fn count(p: &CompiledPattern, text: &str) -> (r: usize)
    ensures
        r == match_count(p@, text_lines(text@)),
        p@.0.len() == 0 ==> r == text_lines(text@).len(),
{
    let lines = split_lines(text);
    let marks = mark_lines(p, &lines);
    proof {
        lemma_marks_select_matches(p@, strings_view(lines@), marks@);
        if p@.0.len() == 0 {
            lemma_all_marked(strings_view(lines@), marks@);
        }
    }
    count_marked(&marks)
}

/// The lines of `contents` that `query` matches with case kept, as whole
/// words when `whole_word`.
pub fn case_sensitive_line_matching(query: &str, contents: &str, whole_word: bool) -> (r: Result<
    Vec<String>,
    PatternError,
>)
    ensures
        r is Ok <==> crate::pattern::regex_builds(expression(query@, whole_word), false),
        r matches Ok(v) ==> strings_view(v@) == matching(
            (expression(query@, whole_word), false),
            text_lines(contents@),
        ),
{
    let p = CompiledPattern::compile(query, false, whole_word)?;
    Ok(matching_texts(&p, contents))
}

/// The lines of `contents` that `query` matches with case folded, as whole
/// words when `whole_word`; the lines keep their own case.
pub fn case_insensitive_line_matching(query: &str, contents: &str, whole_word: bool) -> (r: Result<
    Vec<String>,
    PatternError,
>)
    ensures
        r is Ok <==> crate::pattern::regex_builds(expression(query@, whole_word), true),
        r matches Ok(v) ==> strings_view(v@) == matching(
            (expression(query@, whole_word), true),
            text_lines(contents@),
        ),
        query@.len() == 0 && !whole_word ==> (r matches Ok(v) && strings_view(v@) == text_lines(
            contents@,
        )),
{
    let p = CompiledPattern::compile(query, true, whole_word)?;
    Ok(matching_texts(&p, contents))
}

/// Counting the matching lines of a text gives the number of lines that
/// finding them returns, for every pattern and text.
pub proof fn lemma_count_is_number_of_matches(pat: (Seq<char>, bool), t: Seq<char>)
    ensures
        match_count(pat, text_lines(t)) == matching(pat, text_lines(t)).len(),
        match_count(pat, text_lines(t)) == found(pat, None, t).len(),
{
    lemma_count_matching(pat, text_lines(t));
}

proof fn lemma_count_matching(pat: (Seq<char>, bool), ls: Seq<Seq<char>>)
    ensures
        match_count(pat, ls) == matching(pat, ls).len(),
    decreases ls.len(),
{
    if ls.len() > 0 {
        lemma_count_matching(pat, ls.drop_last());
    }
}

/// When every line that `narrow` matches is also matched by `wide`, every
/// line selected under `narrow` is selected under `wide`, and there are no
/// more of them. (Whether case folding or word anchors have that effect on a
/// line is up to the regular-expression engine.)
pub proof fn lemma_selection_follows_line_matching(
    narrow: (Seq<char>, bool),
    wide: (Seq<char>, bool),
    ls: Seq<Seq<char>>,
)
    requires
        forall|i: int|
            0 <= i < ls.len() && #[trigger] regex_finds(narrow.0, narrow.1, ls[i]) ==> regex_finds(
                wide.0,
                wide.1,
                ls[i],
            ),
    ensures
        forall|i: int|
            0 <= i < matching(narrow, ls).len() ==> matching(wide, ls).contains(
                #[trigger] matching(narrow, ls)[i],
            ),
        match_count(narrow, ls) <= match_count(wide, ls),
    decreases ls.len(),
{
    if ls.len() > 0 {
        let init = ls.drop_last();
        assert forall|i: int|
            0 <= i < init.len() && #[trigger] regex_finds(narrow.0, narrow.1, init[i]) implies regex_finds(
            wide.0,
            wide.1,
            init[i],
        ) by {
            assert(init[i] == ls[i]);
        }
        lemma_selection_follows_line_matching(narrow, wide, init);
        assert(ls.last() == ls[ls.len() - 1]);
        let mn = matching(narrow, ls);
        let mw = matching(wide, ls);
        let mw0 = matching(wide, init);
        assert forall|i: int| 0 <= i < mn.len() implies mw.contains(#[trigger] mn[i]) by {
            if i < matching(narrow, init).len() {
                let x = mn[i];
                assert(x == matching(narrow, init)[i]);
                assert(mw0.contains(x));
                let j = choose|j: int| 0 <= j < mw0.len() && mw0[j] == x;
                assert(mw[j] == x);
            } else {
                assert(mw[mw.len() - 1] == ls.last());
            }
        }
    }
}

/// An empty text has no lines, so no pattern matches any line of it.
pub proof fn lemma_empty_text_matches_nothing(pat: (Seq<char>, bool))
    ensures
        text_lines(Seq::empty()).len() == 0,
        matching(pat, text_lines(Seq::empty())).len() == 0,
        match_count(pat, text_lines(Seq::empty())) == 0,
{
    assert(text_lines(Seq::empty()) =~= Seq::empty());
}

} // verus!
