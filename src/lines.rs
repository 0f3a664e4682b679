//! Splitting a text into lines.
use vstd::prelude::*;

verus! {

/// The pieces of `t` between newline characters, the last one included even
/// when it is empty.
pub open spec fn pieces(t: Seq<char>) -> Seq<Seq<char>>
    decreases t.len(),
{
    if t.len() == 0 {
        seq![Seq::<char>::empty()]
    } else {
        let p = pieces(t.drop_last());
        if t.last() == '\n' {
            p.push(Seq::<char>::empty())
        } else {
            p.update(p.len() - 1, p.last().push(t.last()))
        }
    }
}

/// A terminated line loses one carriage return before its newline.
pub open spec fn strip_cr(l: Seq<char>) -> Seq<char> {
    if l.len() > 0 && l.last() == '\r' {
        l.drop_last()
    } else {
        l
    }
}

/// The lines of a text: every newline ends a line (and a carriage return
/// just before it is dropped); a final piece without a newline is a line
/// when it is not empty.
pub open spec fn text_lines(t: Seq<char>) -> Seq<Seq<char>> {
    let p = pieces(t);
    let body = p.drop_last().map_values(|l: Seq<char>| strip_cr(l));
    if p.last().len() == 0 {
        body
    } else {
        body.push(p.last())
    }
}

proof fn lemma_pieces_nonempty(t: Seq<char>)
    ensures
        pieces(t).len() >= 1,
    decreases t.len(),
{
    if t.len() > 0 {
        lemma_pieces_nonempty(t.drop_last());
    }
}

/// The view of a vector of strings: the sequence of their characters.
pub open spec fn strings_view(v: Seq<String>) -> Seq<Seq<char>> {
    v.map_values(|s: String| s@)
}

/// Relies on String::push: the character is appended.
#[verifier::external_body]
fn push_char(s: &mut String, c: char)
    ensures
        final(s)@ == old(s)@.push(c),
{
    s.push(c);
}

/// Splits `text` into its lines, in order.
pub fn split_lines(text: &str) -> (r: Vec<String>)
    ensures
        strings_view(r@) == text_lines(text@),
{
    let mut done: Vec<String> = Vec::new();
    let mut cur = String::new();
    let mut pending_cr = false;
    let ghost t = text@;
    proof {
        assert(t.subrange(0, 0) =~= Seq::<char>::empty());
    }
    for c in it: text.chars()
        invariant
            t == text@,
            it.seq() == t,
            ({
                let p = pieces(t.subrange(0, it.index() as int));
                &&& p.len() >= 1
                &&& strings_view(done@) =~= p.drop_last().map_values(|l: Seq<char>| strip_cr(l))
                &&& p.last() == (if pending_cr { cur@.push('\r') } else { cur@ })
            }),
            !pending_cr ==> cur@.len() == 0 || cur@.last() != '\r',
    {
        let ghost i = it.index();
        proof {
            assert(t.subrange(0, i + 1).drop_last() =~= t.subrange(0, i));
            lemma_pieces_nonempty(t.subrange(0, i));
        }
        if c == '\n' {
            let ghost p = pieces(t.subrange(0, i as int));
            if pending_cr {
                assert(cur@.push('\r').drop_last() =~= cur@);
            }
            assert(strip_cr(p.last()) == cur@);
            assert(pieces(t.subrange(0, i + 1)).drop_last() =~= p);
            assert(p.map_values(|l: Seq<char>| strip_cr(l)) =~= p.drop_last().map_values(
                |l: Seq<char>| strip_cr(l),
            ).push(strip_cr(p.last())));
            let ghost before = strings_view(done@);
            done.push(cur);
            assert(strings_view(done@) =~= before.push(strip_cr(p.last())));
            cur = String::new();
            pending_cr = false;
            assert(strings_view(done@) =~= pieces(t.subrange(0, i + 1)).drop_last().map_values(
                |l: Seq<char>| strip_cr(l),
            ));
        } else {
            if pending_cr {
                push_char(&mut cur, '\r');
            }
            if c == '\r' {
                pending_cr = true;
            } else {
                push_char(&mut cur, c);
                pending_cr = false;
            }
            assert(strings_view(done@) =~= pieces(t.subrange(0, i + 1)).drop_last().map_values(
                |l: Seq<char>| strip_cr(l),
            ));
        }
    }
    proof {
        assert(t.subrange(0, t.len() as int) =~= t);
    }
    if pending_cr {
        push_char(&mut cur, '\r');
    }
    if cur.as_str().unicode_len() > 0 {
        done.push(cur);
    }
    assert(strings_view(done@) =~= text_lines(t));
    done
}

} // verus!
