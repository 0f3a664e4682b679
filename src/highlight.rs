//! Rendering a matched line with its match spans marked.
use vstd::prelude::*;
use vstd::string::{StringExecFns, StringSliceAdditionalSpecFns};
use vstd::utf8::{
    encode_utf8, encode_utf8_valid_utf8, is_ascii_chars, is_ascii_chars_encode_utf8, is_char_boundary,
    is_char_boundary_iff_not_is_continuation_byte, is_char_boundary_start_end_of_seq, valid_utf8,
};
use crate::pattern::spans_fit;
use crate::search::LineResult;

verus! {

/// The terminal escape that opens a highlight (bold, red).
pub open spec fn open_marker() -> Seq<char> {
    seq!['\x1b', '[', '1', ';', '3', '1', 'm']
}

/// The terminal escape that closes a highlight.
pub open spec fn close_marker() -> Seq<char> {
    seq!['\x1b', '[', '0', 'm']
}

/// The bytes of `b` from `pos` on, with each span of `spans` wrapped in the
/// highlight markers.
#[verifier::opaque]
pub open spec fn highlighted(b: Seq<u8>, spans: Seq<(usize, usize)>, pos: int) -> Seq<u8>
    decreases spans.len(),
{
    if spans.len() == 0 {
        b.subrange(pos, b.len() as int)
    } else {
        b.subrange(pos, spans[0].0 as int) + encode_utf8(open_marker()) + b.subrange(
            spans[0].0 as int,
            spans[0].1 as int,
        ) + encode_utf8(close_marker()) + highlighted(b, spans.drop_first(), spans[0].1 as int)
    }
}

/// The bytes `x` with every highlight marker taken out.
pub open spec fn strip_markers(x: Seq<u8>) -> Seq<u8>
    decreases x.len(),
{
    if x.len() == 0 {
        x
    } else if x.len() >= 7 && x.subrange(0, 7) == encode_utf8(open_marker()) {
        strip_markers(x.subrange(7, x.len() as int))
    } else if x.len() >= 4 && x.subrange(0, 4) == encode_utf8(close_marker()) {
        strip_markers(x.subrange(4, x.len() as int))
    } else {
        seq![x[0]] + strip_markers(x.drop_first())
    }
}

/// The label put before a line found in a file of a larger scan.
pub open spec fn label(source: Option<String>) -> Seq<char> {
    match source {
        Some(s) => s@ + seq![':', ' '],
        None => Seq::empty(),
    }
}

proof fn lemma_marker_bytes()
    ensures
        encode_utf8(open_marker()) =~= seq![0x1bu8, 0x5bu8, 0x31u8, 0x3bu8, 0x33u8, 0x31u8, 0x6du8],
        encode_utf8(close_marker()) =~= seq![0x1bu8, 0x5bu8, 0x30u8, 0x6du8],
{
    assert(is_ascii_chars(open_marker()));
    assert(is_ascii_chars(close_marker()));
    is_ascii_chars_encode_utf8(open_marker());
    is_ascii_chars_encode_utf8(close_marker());
}

proof fn lemma_strip_plain(p: Seq<u8>, rest: Seq<u8>)
    requires
        forall|i: int| 0 <= i < p.len() ==> #[trigger] p[i] != 0x1bu8,
    ensures
        strip_markers(p + rest) == p + strip_markers(rest),
    decreases p.len(),
{
    if p.len() == 0 {
        assert(p + rest =~= rest);
    } else {
        lemma_marker_bytes();
        let x = p + rest;
        assert(x[0] == p[0]);
        assert(x.drop_first() =~= p.drop_first() + rest);
        lemma_strip_plain(p.drop_first(), rest);
        if x.len() >= 7 {
            assert(x.subrange(0, 7)[0] != encode_utf8(open_marker())[0]);
        }
        if x.len() >= 4 {
            assert(x.subrange(0, 4)[0] != encode_utf8(close_marker())[0]);
        }
        assert(seq![p[0]] + (p.drop_first() + strip_markers(rest)) =~= p + strip_markers(rest));
    }
}

proof fn lemma_strip_markers_at_front(rest: Seq<u8>)
    ensures
        strip_markers(encode_utf8(open_marker()) + rest) == strip_markers(rest),
        strip_markers(encode_utf8(close_marker()) + rest) == strip_markers(rest),
{
    lemma_marker_bytes();
    let o = encode_utf8(open_marker()) + rest;
    assert(o.subrange(0, 7) =~= encode_utf8(open_marker()));
    assert(o.subrange(7, o.len() as int) =~= rest);
    let c = encode_utf8(close_marker()) + rest;
    assert(c.subrange(0, 4) =~= encode_utf8(close_marker()));
    assert(c.subrange(4, c.len() as int) =~= rest);
    if c.len() >= 7 {
        assert(c.subrange(0, 7)[2] != encode_utf8(open_marker())[2]);
    }
}

/// Highlighting leaves the line itself alone: taking every marker out of the
/// highlighted bytes of a line gives back the bytes of the line, in order,
/// whenever the line holds no escape byte of its own.
pub proof fn lemma_stripping_markers_gives_line(b: Seq<u8>, spans: Seq<(usize, usize)>)
    requires
        spans_fit(spans, b),
        forall|i: int| 0 <= i < b.len() ==> #[trigger] b[i] != 0x1bu8,
    ensures
        strip_markers(highlighted(b, spans, 0)) == b,
{
    lemma_strip_highlighted(b, spans, 0);
    assert(b.subrange(0, b.len() as int) =~= b);
}

proof fn lemma_strip_highlighted(b: Seq<u8>, spans: Seq<(usize, usize)>, pos: int)
    requires
        spans_fit(spans, b),
        forall|i: int| 0 <= i < b.len() ==> #[trigger] b[i] != 0x1bu8,
        0 <= pos <= b.len(),
        spans.len() > 0 ==> pos <= spans[0].0,
    ensures
        strip_markers(highlighted(b, spans, pos)) == b.subrange(pos, b.len() as int),
    decreases spans.len(),
{
    reveal(highlighted);
    if spans.len() == 0 {
        let t = b.subrange(pos, b.len() as int);
        lemma_strip_plain(t, Seq::empty());
        assert(t + Seq::<u8>::empty() =~= t);
    } else {
        let s = spans[0].0 as int;
        let e = spans[0].1 as int;
        let rest = spans.drop_first();
        assert(spans[0].0 <= spans[0].1 <= b.len());
        if rest.len() > 0 {
            assert(spans[0].1 <= spans[1].0);
        }
        assert forall|i: int| 0 <= i < rest.len() implies {
            &&& #[trigger] rest[i].0 <= rest[i].1 <= b.len()
            &&& is_char_boundary(b, rest[i].0 as int)
            &&& is_char_boundary(b, rest[i].1 as int)
        } by {
            assert(rest[i] == spans[i + 1]);
        }
        assert forall|i: int| 0 <= i < rest.len() - 1 implies #[trigger] rest[i].1 <= rest[i
            + 1].0 by {
            assert(rest[i] == spans[i + 1]);
            assert(rest[i + 1] == spans[i + 2]);
        }
        lemma_strip_highlighted(b, rest, e);
        let a = b.subrange(pos, s);
        let m = b.subrange(s, e);
        let h = highlighted(b, rest, e);
        let ob = encode_utf8(open_marker());
        let cb = encode_utf8(close_marker());
        assert(highlighted(b, spans, pos) =~= a + (ob + (m + (cb + h))));
        lemma_strip_plain(a, ob + (m + (cb + h)));
        lemma_strip_markers_at_front(m + (cb + h));
        lemma_strip_plain(m, cb + h);
        lemma_strip_markers_at_front(h);
        assert(a + (m + b.subrange(e, b.len() as int)) =~= b.subrange(pos, b.len() as int));
    }
}

proof fn lemma_encode_concat(a: Seq<char>, c: Seq<char>)
    ensures
        encode_utf8(a + c) == encode_utf8(a) + encode_utf8(c),
    decreases a.len(),
{
    if a.len() == 0 {
        assert(a + c =~= c);
        assert(encode_utf8(a) =~= Seq::<u8>::empty());
        assert(encode_utf8(a) + encode_utf8(c) =~= encode_utf8(c));
    } else {
        assert((a + c).drop_first() =~= a.drop_first() + c);
        lemma_encode_concat(a.drop_first(), c);
        assert((a + c)[0] == a[0]);
        assert(encode_utf8(a + c) =~= encode_utf8(a) + encode_utf8(c));
    }
}

proof fn lemma_render_step(
    b: Seq<u8>,
    spans: Seq<(usize, usize)>,
    k: int,
    pos: int,
    out0: Seq<char>,
    before: Seq<char>,
    mid: Seq<char>,
)
    requires
        0 <= k < spans.len(),
        pos <= spans[k].0 <= spans[k].1 <= b.len(),
        encode_utf8(before) == b.subrange(pos, spans[k].0 as int),
        encode_utf8(mid) == b.subrange(spans[k].0 as int, spans[k].1 as int),
    ensures
        encode_utf8(out0 + before + open_marker() + mid + close_marker()) + highlighted(
            b,
            spans.skip(k + 1),
            spans[k].1 as int,
        ) == encode_utf8(out0) + highlighted(b, spans.skip(k), pos),
{
    let s = spans[k].0 as int;
    let e = spans[k].1 as int;
    reveal(highlighted);
    lemma_encode_concat(out0 + before + open_marker() + mid, close_marker());
    lemma_encode_concat(out0 + before + open_marker(), mid);
    lemma_encode_concat(out0 + before, open_marker());
    lemma_encode_concat(out0, before);
    let sk = spans.skip(k);
    assert(sk[0] == spans[k]);
    assert(sk.drop_first() =~= spans.skip(k + 1));
    assert(encode_utf8(out0 + before + open_marker() + mid + close_marker()) + highlighted(
        b,
        spans.skip(k + 1),
        e,
    ) =~= encode_utf8(out0) + highlighted(b, sk, pos));
}

proof fn lemma_span_boundaries(b: Seq<u8>, spans: Seq<(usize, usize)>, k: int, pos: int)
    requires
        spans_fit(spans, b),
        valid_utf8(b),
        0 <= k < spans.len(),
        k == 0 ==> pos == 0,
        k > 0 ==> pos == spans[k - 1].1,
    ensures
        pos <= spans[k].0 <= spans[k].1 <= b.len(),
        valid_utf8(b.subrange(pos, b.len() as int)) ==> is_char_boundary(
            b.subrange(pos, b.len() as int),
            spans[k].0 - pos,
        ),
        valid_utf8(b.subrange(spans[k].0 as int, b.len() as int)) ==> is_char_boundary(
            b.subrange(spans[k].0 as int, b.len() as int),
            spans[k].1 - spans[k].0,
        ),
{
    assert(spans[k].0 <= spans[k].1 <= b.len());
    if k > 0 {
        assert(spans[k - 1].1 <= spans[(k - 1) + 1].0);
    }
    if valid_utf8(b.subrange(pos, b.len() as int)) {
        lemma_boundary_in_suffix(b, pos, spans[k].0 as int);
    }
    if valid_utf8(b.subrange(spans[k].0 as int, b.len() as int)) {
        lemma_boundary_in_suffix(b, spans[k].0 as int, spans[k].1 as int);
    }
}

proof fn lemma_boundary_in_suffix(b: Seq<u8>, pos: int, x: int)
    requires
        valid_utf8(b),
        valid_utf8(b.subrange(pos, b.len() as int)),
        0 <= pos <= x <= b.len(),
        is_char_boundary(b, x),
    ensures
        is_char_boundary(b.subrange(pos, b.len() as int), x - pos),
{
    let sub = b.subrange(pos, b.len() as int);
    is_char_boundary_start_end_of_seq(sub);
    if x < b.len() && x > pos {
        is_char_boundary_iff_not_is_continuation_byte(b, x);
        is_char_boundary_iff_not_is_continuation_byte(sub, x - pos);
    }
}

/// The line's text with each match span wrapped in the highlight markers,
/// after the label `"{source}: "` when the line has a source.
pub fn render_highlighted(lr: &LineResult) -> (r: String)
    requires
        lr.wf(),
    ensures
        encode_utf8(r@) == encode_utf8(label(lr.source)) + highlighted(
            encode_utf8(lr.text@),
            lr.spans@,
            0,
        ),
{
    let text = lr.text.as_str();
    let ghost b = encode_utf8(text@);
    let ghost spans = lr.spans@;
    let mut out = String::new();
    match &lr.source {
        Some(s) => {
            out.append(s.as_str());
            out.append(": ");
            proof {
                reveal_strlit(": ");
            }
        },
        None => {},
    }
    assert(out@ =~= label(lr.source));
    let ghost prefix = encode_utf8(out@);
    let mut rest: &str = text;
    let mut pos: usize = 0;
    proof {
        encode_utf8_valid_utf8(text@);
        assert(b.subrange(0, b.len() as int) =~= b);
        assert(spans.skip(0) =~= spans);
        reveal(highlighted);
        assert(encode_utf8(out@) + highlighted(b, spans.skip(0), 0) =~= prefix + highlighted(
            b,
            spans,
            0,
        ));
    }
    for k in 0..lr.spans.len()
        invariant
            b == encode_utf8(text@),
            text@ == lr.text@,
            spans == lr.spans@,
            spans_fit(spans, b),
            valid_utf8(b),
            pos <= b.len(),
            rest.spec_bytes() == b.subrange(pos as int, b.len() as int),
            k == 0 ==> pos == 0,
            k > 0 ==> pos == spans[k - 1].1,
            encode_utf8(out@) + highlighted(b, spans.skip(k as int), pos as int) == prefix
                + highlighted(b, spans, 0),
    {
        let (s, e) = lr.spans[k];
        proof {
            encode_utf8_valid_utf8(rest@);
            lemma_span_boundaries(b, spans, k as int, pos as int);
        }
        let (before, after) = rest.split_at(s - pos);
        proof {
            encode_utf8_valid_utf8(after@);
            assert(after.spec_bytes() =~= b.subrange(s as int, b.len() as int));
        }
        let (mid, tail) = after.split_at(e - s);
        let ghost out0 = out@;
        out.append(before);
        out.append("\x1b[1;31m");
        out.append(mid);
        out.append("\x1b[0m");
        assert(out@ =~= out0 + before@ + open_marker() + mid@ + close_marker()) by {
            reveal_strlit("\x1b[1;31m");
            reveal_strlit("\x1b[0m");
        }
        proof {
            reveal_strlit("\x1b[1;31m");
            reveal_strlit("\x1b[0m");
            assert("\x1b[1;31m"@ =~= open_marker());
            assert("\x1b[0m"@ =~= close_marker());
            assert(before.spec_bytes() =~= b.subrange(pos as int, s as int));
            assert(mid.spec_bytes() =~= b.subrange(s as int, e as int));
            assert(tail.spec_bytes() =~= b.subrange(e as int, b.len() as int));
            lemma_render_step(b, spans, k as int, pos as int, out0, before@, mid@);
        }
        rest = tail;
        pos = e;
    }
    let ghost out0 = out@;
    out.append(rest);
    proof {
        lemma_encode_concat(out0, rest@);
        assert(spans.skip(spans.len() as int) =~= Seq::<(usize, usize)>::empty());
        reveal(highlighted);
        lemma_encode_concat(label(lr.source), Seq::empty());
    }
    out
}

} // verus!
