//! What holds of splitting text into lines and words and trimming it, over
//! all inputs.

use vstd::prelude::*;
use crate::text::{contains_text, starts_with, is_whitespace, word_len, words, lines, line_len, trim, leading_whitespace, trailing_whitespace};

verus! {

/// `c` is a printable ASCII character other than the space.
pub open spec fn is_visible_ascii(c: char) -> bool {
    0x21 <= (c as u32) <= 0x7E
}

/// `c` is a space, a tab, a line feed or a carriage return.
pub open spec fn is_blank(c: char) -> bool {
    c == ' ' || c == '\t' || c == '\n' || c == '\r'
}

proof fn lemma_visible_not_whitespace(c: char)
    requires
        is_visible_ascii(c),
    ensures
        !is_whitespace(c),
{
}

proof fn lemma_blank_is_whitespace(c: char)
    requires
        is_blank(c),
    ensures
        is_whitespace(c),
{
}

proof fn lemma_word_len_bound(s: Seq<char>)
    ensures
        word_len(s) <= s.len(),
    decreases s.len(),
{
    if s.len() > 0 && !is_whitespace(s[0]) {
        lemma_word_len_bound(s.drop_first());
    }
}

proof fn lemma_word_len_append(a: Seq<char>, x: Seq<char>)
    requires
        word_len(a) < a.len() || (x.len() > 0 && is_whitespace(x[0])),
    ensures
        word_len(a + x) == word_len(a),
    decreases a.len(),
{
    let s = a + x;
    if a.len() == 0 {
        assert(s =~= x);
    } else {
        assert(s[0] == a[0]);
        if !is_whitespace(a[0]) {
            assert(s.drop_first() =~= a.drop_first() + x);
            lemma_word_len_append(a.drop_first(), x);
        }
    }
}

/// A run of visible characters is a single word.
pub proof fn law_word_is_one_word(t: Seq<char>)
    requires
        t.len() > 0,
        forall|i: int| 0 <= i < t.len() ==> is_visible_ascii(#[trigger] t[i]),
    ensures
        words(t) == seq![t],
    decreases t.len(),
{
    lemma_visible_not_whitespace(t[0]);
    lemma_word_len_all(t);
    assert(t.take(t.len() as int) =~= t);
    assert(t.skip(t.len() as int) =~= Seq::<char>::empty());
    assert(words(Seq::<char>::empty()) =~= Seq::<Seq<char>>::empty());
    assert(words(t) == seq![t.take(t.len() as int)] + words(t.skip(t.len() as int)));
    assert(seq![t] + Seq::<Seq<char>>::empty() =~= seq![t]);
}

proof fn lemma_word_len_all(t: Seq<char>)
    requires
        forall|i: int| 0 <= i < t.len() ==> is_visible_ascii(#[trigger] t[i]),
    ensures
        word_len(t) == t.len(),
    decreases t.len(),
{
    if t.len() > 0 {
        lemma_visible_not_whitespace(t[0]);
        let r = t.drop_first();
        assert forall|i: int| 0 <= i < r.len() implies is_visible_ascii(#[trigger] r[i]) by {
            assert(r[i] == t[i + 1]);
        }
        lemma_word_len_all(r);
    }
}

/// A space, tab, line feed or carriage return ends a word: the words of the
/// text on either side of one are the words of the whole, in order.
pub proof fn law_words_split_at_blank(a: Seq<char>, c: char, b: Seq<char>)
    requires
        is_blank(c),
    ensures
        words(a + seq![c] + b) == words(a) + words(b),
    decreases a.len(),
{
    lemma_blank_is_whitespace(c);
    let s = a + seq![c] + b;
    if a.len() == 0 {
        assert(s[0] == c);
        assert(s.drop_first() =~= b);
        assert(words(a) + words(b) =~= words(b));
    } else if is_whitespace(a[0]) {
        assert(s[0] == a[0]);
        assert(s.drop_first() =~= a.drop_first() + seq![c] + b);
        law_words_split_at_blank(a.drop_first(), c, b);
    } else {
        assert(s[0] == a[0]);
        let n = word_len(a);
        lemma_word_len_bound(a);
        assert(s =~= a + (seq![c] + b));
        lemma_word_len_append(a, seq![c] + b);
        assert(word_len(s) == n);
        assert(n > 0);
        assert(s.take(n as int) =~= a.take(n as int));
        assert(s.skip(n as int) =~= a.skip(n as int) + seq![c] + b);
        law_words_split_at_blank(a.skip(n as int), c, b);
        assert(seq![a.take(n as int)] + (words(a.skip(n as int)) + words(b)) =~= (seq![a.take(n as int)]
            + words(a.skip(n as int))) + words(b));
    }
}

proof fn lemma_line_len_of(h: Seq<char>, x: Seq<char>)
    requires
        forall|i: int| 0 <= i < h.len() ==> #[trigger] h[i] != '\n',
        x.len() == 0 || x[0] == '\n',
    ensures
        line_len(h + x) == h.len(),
    decreases h.len(),
{
    let s = h + x;
    if h.len() == 0 {
        assert(s =~= x);
    } else {
        assert(s[0] == h[0]);
        assert(s.drop_first() =~= h.drop_first() + x);
        lemma_line_len_of(h.drop_first(), x);
    }
}

/// A line ended by `"\n"` or by `"\r\n"` is the first line, without its
/// ending, and the lines after it are those of the rest; text without a line
/// feed is one line (none if it is empty).
pub proof fn law_lines_split_at_line_end(h: Seq<char>, rest: Seq<char>)
    requires
        forall|i: int| 0 <= i < h.len() ==> #[trigger] h[i] != '\n' && h[i] != '\r',
    ensures
        lines(h + seq!['\n'] + rest) == seq![h] + lines(rest),
        lines(h + seq!['\r', '\n'] + rest) == seq![h] + lines(rest),
        lines(h) == (if h.len() == 0 {
            Seq::<Seq<char>>::empty()
        } else {
            seq![h]
        }),
{
    let s1 = h + seq!['\n'] + rest;
    lemma_line_len_of(h, seq!['\n'] + rest);
    assert(s1 =~= h + (seq!['\n'] + rest));
    assert(s1.take(h.len() as int) =~= h);
    assert(s1.skip(h.len() + 1int) =~= rest);
    let hc = h.push('\r');
    let s2 = h + seq!['\r', '\n'] + rest;
    assert forall|i: int| 0 <= i < hc.len() implies #[trigger] hc[i] != '\n' by {
        if i < h.len() {
            assert(hc[i] == h[i]);
        }
    }
    lemma_line_len_of(hc, seq!['\n'] + rest);
    assert(s2 =~= hc + (seq!['\n'] + rest));
    assert(s2.take(hc.len() as int) =~= hc);
    assert(s2.skip(hc.len() + 1int) =~= rest);
    assert(hc.drop_last() =~= h);
    if h.len() > 0 {
        assert(h.last() != '\r');
        lemma_line_len_of(h, Seq::empty());
        assert(h + Seq::<char>::empty() =~= h);
    }
}

proof fn lemma_leading_blanks(ws: Seq<char>, t: Seq<char>)
    requires
        forall|i: int| 0 <= i < ws.len() ==> is_blank(#[trigger] ws[i]),
        t.len() > 0,
        is_visible_ascii(t[0]),
    ensures
        leading_whitespace(ws + t) == ws.len(),
    decreases ws.len(),
{
    let s = ws + t;
    if ws.len() == 0 {
        assert(s =~= t);
        lemma_visible_not_whitespace(t[0]);
    } else {
        assert(s[0] == ws[0]);
        lemma_blank_is_whitespace(ws[0]);
        let r = ws.drop_first();
        assert forall|i: int| 0 <= i < r.len() implies is_blank(#[trigger] r[i]) by {
            assert(r[i] == ws[i + 1]);
        }
        assert(s.drop_first() =~= r + t);
        lemma_leading_blanks(r, t);
    }
}

proof fn lemma_trailing_blanks(t: Seq<char>, ws: Seq<char>)
    requires
        forall|i: int| 0 <= i < ws.len() ==> is_blank(#[trigger] ws[i]),
        t.len() > 0,
        is_visible_ascii(t.last()),
    ensures
        trailing_whitespace(t + ws) == ws.len(),
    decreases ws.len(),
{
    let s = t + ws;
    if ws.len() == 0 {
        assert(s =~= t);
        lemma_visible_not_whitespace(t.last());
    } else {
        assert(s.last() == ws.last());
        lemma_blank_is_whitespace(ws.last());
        let r = ws.drop_last();
        assert forall|i: int| 0 <= i < r.len() implies is_blank(#[trigger] r[i]) by {
            assert(r[i] == ws[i]);
        }
        assert(s.drop_last() =~= t + r);
        lemma_trailing_blanks(t, r);
    }
}

/// Trimming takes off exactly the blanks around text that starts and ends
/// with a visible character.
pub proof fn law_trim_removes_surrounding_blanks(before: Seq<char>, t: Seq<char>, after: Seq<char>)
    requires
        forall|i: int| 0 <= i < before.len() ==> is_blank(#[trigger] before[i]),
        forall|i: int| 0 <= i < after.len() ==> is_blank(#[trigger] after[i]),
        t.len() > 0,
        is_visible_ascii(t[0]),
        is_visible_ascii(t.last()),
    ensures
        trim(before + t + after) == t,
{
    let s = before + t + after;
    assert(s =~= before + (t + after));
    assert((t + after)[0] == t[0]);
    lemma_leading_blanks(before, t + after);
    assert(s =~= (before + t) + after);
    assert((before + t).last() == t.last());
    lemma_trailing_blanks(before + t, after);
    assert(s.subrange(before.len() as int, (s.len() - after.len()) as int) =~= t);
}

/// Text occurs in any text that has it somewhere.
pub proof fn law_contains_text_anywhere(a: Seq<char>, p: Seq<char>, b: Seq<char>)
    ensures
        contains_text(a + p + b, p),
{
    let s = a + p + b;
    assert(s.subrange(a.len() as int, (a.len() + p.len()) as int) =~= p);
}

/// Text longer than another does not occur in it.
pub proof fn law_contains_text_needs_room(s: Seq<char>, p: Seq<char>)
    requires
        p.len() > s.len(),
    ensures
        !contains_text(s, p),
{
}

/// Text starts with each of its prefixes, and with nothing longer than itself.
pub proof fn law_starts_with_prefix(p: Seq<char>, r: Seq<char>, s: Seq<char>)
    ensures
        starts_with(p + r, p),
        p.len() > s.len() ==> !starts_with(s, p),
        starts_with(s, p) ==> s == p + s.skip(p.len() as int),
{
    assert((p + r).take(p.len() as int) =~= p);
    if starts_with(s, p) {
        assert(s =~= s.take(p.len() as int) + s.skip(p.len() as int));
    }
}

} // verus!
