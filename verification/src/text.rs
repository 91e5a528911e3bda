//! Splitting text into lines and words, and reading hexadecimal numbers.

use vstd::prelude::*;

verus! {

/// Unicode white space, as `char::is_whitespace` sees it.
pub open spec fn is_whitespace(c: char) -> bool {
    let u = c as u32;
    ||| 0x09 <= u <= 0x0D
    ||| u == 0x20
    ||| u == 0x85
    ||| u == 0xA0
    ||| u == 0x1680
    ||| 0x2000 <= u <= 0x200A
    ||| u == 0x2028
    ||| u == 0x2029
    ||| u == 0x202F
    ||| u == 0x205F
    ||| u == 0x3000
}

pub fn is_whitespace_char(c: char) -> (r: bool)
    ensures
        r == is_whitespace(c),
{
    let u = c as u32;
    (0x09 <= u && u <= 0x0D) || u == 0x20 || u == 0x85 || u == 0xA0 || u == 0x1680 || (0x2000 <= u
        && u <= 0x200A) || u == 0x2028 || u == 0x2029 || u == 0x202F || u == 0x205F || u == 0x3000
}

/// Length of the run of non-white-space characters that `s` starts with.
pub open spec fn word_len(s: Seq<char>) -> nat
    decreases s.len(),
{
    if s.len() == 0 || is_whitespace(s[0]) {
        0
    } else {
        1 + word_len(s.drop_first())
    }
}

/// The maximal runs of non-white-space characters of `s`, in order.
pub open spec fn words(s: Seq<char>) -> Seq<Seq<char>>
    decreases s.len(),
{
    if s.len() == 0 {
        Seq::empty()
    } else if is_whitespace(s[0]) {
        words(s.drop_first())
    } else {
        let n = word_len(s);
        if 0 < n <= s.len() {
            seq![s.take(n as int)] + words(s.skip(n as int))
        } else {
            Seq::empty()
        }
    }
}

/// Length of the line that `s` starts with: up to the first `'\n'`, or all of `s`.
pub open spec fn line_len(s: Seq<char>) -> nat
    decreases s.len(),
{
    if s.len() == 0 || s[0] == '\n' {
        0
    } else {
        1 + line_len(s.drop_first())
    }
}

/// A line without the `'\r'` of a `"\r\n"` ending.
pub open spec fn strip_cr(line: Seq<char>) -> Seq<char> {
    if line.len() > 0 && line.last() == '\r' {
        line.drop_last()
    } else {
        line
    }
}

/// The lines of `s`, as `str::lines` gives them: split at `"\n"` and
/// `"\r\n"`, with no empty line after a final line ending.
pub open spec fn lines(s: Seq<char>) -> Seq<Seq<char>>
    decreases s.len(),
{
    if s.len() == 0 {
        Seq::empty()
    } else {
        let n = line_len(s);
        if n >= s.len() {
            seq![s]
        } else {
            seq![strip_cr(s.take(n as int))] + lines(s.skip(n + 1 as int))
        }
    }
}

/// `s` without white space at either end.
pub open spec fn trim(s: Seq<char>) -> Seq<char> {
    let start = leading_whitespace(s);
    let end = s.len() - trailing_whitespace(s);
    if start < end {
        s.subrange(start as int, end as int)
    } else {
        Seq::empty()
    }
}

/// Number of white-space characters that `s` starts with.
pub open spec fn leading_whitespace(s: Seq<char>) -> nat
    decreases s.len(),
{
    if s.len() > 0 && is_whitespace(s[0]) {
        1 + leading_whitespace(s.drop_first())
    } else {
        0
    }
}

/// Number of white-space characters that `s` ends with.
pub open spec fn trailing_whitespace(s: Seq<char>) -> nat
    decreases s.len(),
{
    if s.len() > 0 && is_whitespace(s.last()) {
        1 + trailing_whitespace(s.drop_last())
    } else {
        0
    }
}

/// `s` begins with `prefix`.
pub open spec fn starts_with(s: Seq<char>, prefix: Seq<char>) -> bool {
    prefix.len() <= s.len() && s.take(prefix.len() as int) == prefix
}

/// `pattern` occurs somewhere in `s`.
pub open spec fn contains_text(s: Seq<char>, pattern: Seq<char>) -> bool {
    exists|i: int| 0 <= i && i + pattern.len() <= s.len() && #[trigger] s.subrange(i, i + pattern.len()) == pattern
}

/// Value of a hexadecimal digit.
pub open spec fn hex_digit_value(c: char) -> Option<nat> {
    let u = c as u32;
    if 0x30 <= u <= 0x39 {
        Some((u - 0x30) as nat)
    } else if 0x61 <= u <= 0x66 {
        Some((u - 0x61 + 10) as nat)
    } else if 0x41 <= u <= 0x46 {
        Some((u - 0x41 + 10) as nat)
    } else {
        None
    }
}

/// Value of a string of hexadecimal digits, most significant first, if every
/// character is one.
pub open spec fn hex_digits_value(digits: Seq<char>) -> Option<nat>
    decreases digits.len(),
{
    if digits.len() == 0 {
        Some(0)
    } else {
        match (hex_digits_value(digits.drop_last()), hex_digit_value(digits.last())) {
            (Some(high), Some(low)) => Some(high * 16 + low),
            _ => None,
        }
    }
}

/// What `u32::from_str_radix(s, 16)` accepts: an optional `'+'`, then at least
/// one hexadecimal digit, with a value that fits in a `u32`.
pub open spec fn parse_hex_u32(s: Seq<char>) -> Option<u32> {
    let digits = if s.len() > 0 && s[0] == '+' {
        s.drop_first()
    } else {
        s
    };
    if digits.len() == 0 {
        None
    } else {
        match hex_digits_value(digits) {
            Some(v) => if v <= u32::MAX {
                Some(v as u32)
            } else {
                None
            },
            None => None,
        }
    }
}

/// The character sequences held by a list of character vectors.
pub open spec fn views(v: Seq<Vec<char>>) -> Seq<Seq<char>> {
    v.map_values(|w: Vec<char>| w@)
}

proof fn lemma_views_push(v: Seq<Vec<char>>, w: Vec<char>)
    ensures
        views(v.push(w)) == views(v).push(w@),
{
    assert(views(v.push(w)) =~= views(v).push(w@));
}

proof fn lemma_word_len_exact(t: Seq<char>, k: int)
    requires
        0 <= k <= t.len(),
        forall|j: int| 0 <= j < k ==> !is_whitespace(#[trigger] t[j]),
        k == t.len() || is_whitespace(t[k]),
    ensures
        word_len(t) == k,
    decreases k,
{
    if k > 0 {
        let rest = t.drop_first();
        assert forall|j: int| 0 <= j < k - 1 implies !is_whitespace(#[trigger] rest[j]) by {
            assert(rest[j] == t[j + 1]);
        }
        if k < t.len() {
            assert(rest[k - 1] == t[k]);
        }
        lemma_word_len_exact(rest, k - 1);
    }
}

proof fn lemma_words_at_whitespace(s: Seq<char>, i: int)
    requires
        0 <= i < s.len(),
        is_whitespace(s[i]),
    ensures
        words(s.skip(i)) == words(s.skip(i + 1)),
{
    let t = s.skip(i);
    assert(t[0] == s[i]);
    assert(t.drop_first() =~= s.skip(i + 1));
}

proof fn lemma_words_at_word(s: Seq<char>, start: int, end: int)
    requires
        0 <= start < end <= s.len(),
        forall|k: int| start <= k < end ==> !is_whitespace(#[trigger] s[k]),
        end == s.len() || is_whitespace(s[end]),
    ensures
        words(s.skip(start)) == seq![s.subrange(start, end)] + words(s.skip(end)),
{
    let t = s.skip(start);
    assert forall|j: int| 0 <= j < end - start implies !is_whitespace(#[trigger] t[j]) by {
        assert(t[j] == s[start + j]);
    }
    if end < s.len() {
        assert(t[end - start] == s[end]);
    }
    lemma_word_len_exact(t, end - start);
    assert(t[0] == s[start]);
    assert(t.take(end - start) =~= s.subrange(start, end));
    assert(t.skip(end - start) =~= s.skip(end));
}

/// The words of `s`: its maximal runs of non-white-space characters.
pub fn split_whitespace(s: &Vec<char>) -> (r: Vec<Vec<char>>)
    ensures
        views(r@) == words(s@),
{
    let mut r: Vec<Vec<char>> = Vec::new();
    let mut i: usize = 0;
    assert(s@.skip(0) =~= s@);
    assert(views(r@) =~= Seq::<Seq<char>>::empty());
    while i < s.len()
        invariant
            i <= s.len(),
            views(r@) + words(s@.skip(i as int)) == words(s@),
        decreases s.len() - i,
    {
        if is_whitespace_char(s[i]) {
            proof {
                lemma_words_at_whitespace(s@, i as int);
            }
            i = i + 1;
        } else {
            let start = i;
            let mut word: Vec<char> = Vec::new();
            while i < s.len() && !is_whitespace_char(s[i])
                invariant
                    start < s.len(),
                    !is_whitespace(s@[start as int]),
                    start <= i <= s.len(),
                    word@ == s@.subrange(start as int, i as int),
                    forall|k: int| start <= k < i ==> !is_whitespace(#[trigger] s@[k]),
                decreases s.len() - i,
            {
                word.push(s[i]);
                i = i + 1;
                assert(word@ =~= s@.subrange(start as int, i as int));
            }
            if i == start {
                assert(false);
            }
            proof {
                lemma_words_at_word(s@, start as int, i as int);
                lemma_views_push(r@, word);
                let ws = words(s@.skip(i as int));
                assert(views(r@) + seq![word@] + ws =~= views(r@) + (seq![word@] + ws));
            }
            r.push(word);
        }
    }
    assert(s@.skip(i as int) =~= Seq::<char>::empty());
    assert(views(r@) + Seq::<Seq<char>>::empty() =~= views(r@));
    r
}

proof fn lemma_line_len_exact(t: Seq<char>, k: int)
    requires
        0 <= k <= t.len(),
        forall|j: int| 0 <= j < k ==> #[trigger] t[j] != '\n',
        k == t.len() || t[k] == '\n',
    ensures
        line_len(t) == k,
    decreases k,
{
    if k > 0 {
        let rest = t.drop_first();
        assert forall|j: int| 0 <= j < k - 1 implies #[trigger] rest[j] != '\n' by {
            assert(rest[j] == t[j + 1]);
        }
        if k < t.len() {
            assert(rest[k - 1] == t[k]);
        }
        lemma_line_len_exact(rest, k - 1);
    }
}

/// The lines of `s`, as `str::lines` gives them.
pub fn split_lines(s: &Vec<char>) -> (r: Vec<Vec<char>>)
    ensures
        views(r@) == lines(s@),
{
    let mut r: Vec<Vec<char>> = Vec::new();
    let mut i: usize = 0;
    assert(s@.skip(0) =~= s@);
    assert(views(r@) =~= Seq::<Seq<char>>::empty());
    while i < s.len()
        invariant
            i <= s.len(),
            views(r@) + lines(s@.skip(i as int)) == lines(s@),
        decreases s.len() - i,
    {
        let start = i;
        let mut line: Vec<char> = Vec::new();
        while i < s.len() && s[i] != '\n'
            invariant
                start <= i <= s.len(),
                line@ == s@.subrange(start as int, i as int),
                forall|k: int| start <= k < i ==> #[trigger] s@[k] != '\n',
            decreases s.len() - i,
        {
            line.push(s[i]);
            i = i + 1;
            assert(line@ =~= s@.subrange(start as int, i as int));
        }
        let ghost t = s@.skip(start as int);
        proof {
            assert forall|j: int| 0 <= j < i - start implies #[trigger] t[j] != '\n' by {
                assert(t[j] == s@[start + j]);
            }
            if i < s.len() {
                assert(t[i - start] == s@[i as int]);
            }
            lemma_line_len_exact(t, i - start);
            assert(t.take(i - start) =~= line@);
        }
        if i < s.len() {
            let n = line.len();
            if n > 0 && line[n - 1] == '\r' {
                line.pop();
            }
            proof {
                assert(line@ == strip_cr(t.take(i - start)));
                assert(t.skip(i - start + 1) =~= s@.skip(i + 1));
                lemma_views_push(r@, line);
                let ls = lines(s@.skip(i + 1));
                assert(views(r@) + seq![line@] + ls =~= views(r@) + (seq![line@] + ls));
            }
            r.push(line);
            i = i + 1;
        } else {
            proof {
                assert(line@ =~= t);
                lemma_views_push(r@, line);
                assert(s@.skip(i as int) =~= Seq::<char>::empty());
                assert(views(r@) + seq![line@] =~= views(r@) + seq![line@] + lines(s@.skip(i as int)));
            }
            r.push(line);
        }
    }
    assert(s@.skip(i as int) =~= Seq::<char>::empty());
    assert(views(r@) + Seq::<Seq<char>>::empty() =~= views(r@));
    r
}

proof fn lemma_leading_whitespace_exact(t: Seq<char>, k: int)
    requires
        0 <= k <= t.len(),
        forall|j: int| 0 <= j < k ==> is_whitespace(#[trigger] t[j]),
        k == t.len() || !is_whitespace(t[k]),
    ensures
        leading_whitespace(t) == k,
    decreases k,
{
    if k > 0 {
        let rest = t.drop_first();
        assert forall|j: int| 0 <= j < k - 1 implies is_whitespace(#[trigger] rest[j]) by {
            assert(rest[j] == t[j + 1]);
        }
        if k < t.len() {
            assert(rest[k - 1] == t[k]);
        }
        lemma_leading_whitespace_exact(rest, k - 1);
    }
}

proof fn lemma_trailing_whitespace_exact(t: Seq<char>, k: int)
    requires
        0 <= k <= t.len(),
        forall|j: int| t.len() - k <= j < t.len() ==> is_whitespace(#[trigger] t[j]),
        k == t.len() || !is_whitespace(t[t.len() - k - 1]),
    ensures
        trailing_whitespace(t) == k,
    decreases k,
{
    if k > 0 {
        let rest = t.drop_last();
        assert forall|j: int| rest.len() - (k - 1) <= j < rest.len() implies is_whitespace(#[trigger] rest[j]) by {
            assert(rest[j] == t[j]);
        }
        if k < t.len() {
            assert(rest[rest.len() - (k - 1) - 1] == t[t.len() - k - 1]);
        }
        lemma_trailing_whitespace_exact(rest, k - 1);
    }
}

/// `s` without white space at either end.
pub fn trim_text(s: &Vec<char>) -> (r: Vec<char>)
    ensures
        r@ == trim(s@),
{
    let n = s.len();
    let mut start: usize = 0;
    while start < n && is_whitespace_char(s[start])
        invariant
            n == s.len(),
            start <= n,
            forall|j: int| 0 <= j < start ==> is_whitespace(#[trigger] s@[j]),
        decreases n - start,
    {
        start = start + 1;
    }
    proof {
        lemma_leading_whitespace_exact(s@, start as int);
    }
    let mut trailing: usize = 0;
    while trailing < n && is_whitespace_char(s[n - 1 - trailing])
        invariant
            n == s.len(),
            trailing <= n,
            forall|j: int| n - trailing <= j < n ==> is_whitespace(#[trigger] s@[j]),
        decreases n - trailing,
    {
        trailing = trailing + 1;
    }
    proof {
        lemma_trailing_whitespace_exact(s@, trailing as int);
    }
    let mut r: Vec<char> = Vec::new();
    if start < n - trailing {
        let end = n - trailing;
        let mut i = start;
        while i < end
            invariant
                n == s.len(),
                start <= i <= end <= n,
                r@ == s@.subrange(start as int, i as int),
            decreases end - i,
        {
            r.push(s[i]);
            i = i + 1;
            assert(r@ =~= s@.subrange(start as int, i as int));
        }
    } else {
        assert(r@ =~= Seq::<char>::empty());
    }
    r
}

/// Whether `s` begins with `prefix`.
pub fn starts_with_text(s: &Vec<char>, prefix: &Vec<char>) -> (r: bool)
    ensures
        r == starts_with(s@, prefix@),
{
    if prefix.len() > s.len() {
        return false;
    }
    let mut i: usize = 0;
    while i < prefix.len()
        invariant
            prefix.len() <= s.len(),
            i <= prefix.len(),
            forall|j: int| 0 <= j < i ==> s@[j] == prefix@[j],
        decreases prefix.len() - i,
    {
        if s[i] != prefix[i] {
            assert(s@.take(prefix.len() as int)[i as int] != prefix@[i as int]);
            return false;
        }
        i = i + 1;
    }
    assert(s@.take(prefix.len() as int) =~= prefix@);
    true
}

/// Whether `pattern` matches `s` at position `at`.
fn matches_at(s: &Vec<char>, pattern: &Vec<char>, at: usize) -> (r: bool)
    requires
        at + pattern.len() <= s.len(),
    ensures
        r == (s@.subrange(at as int, at + pattern.len()) == pattern@),
{
    let mut i: usize = 0;
    while i < pattern.len()
        invariant
            at + pattern.len() <= s.len(),
            i <= pattern.len(),
            forall|j: int| 0 <= j < i ==> s@[at + j] == pattern@[j],
        decreases pattern.len() - i,
    {
        if s[at + i] != pattern[i] {
            assert(s@.subrange(at as int, at + pattern.len())[i as int] != pattern@[i as int]);
            return false;
        }
        i = i + 1;
    }
    assert(s@.subrange(at as int, at + pattern.len()) =~= pattern@);
    true
}

/// Whether `pattern` occurs in `s`.
pub fn contains_text_in(s: &Vec<char>, pattern: &Vec<char>) -> (r: bool)
    ensures
        r == contains_text(s@, pattern@),
{
    if pattern.len() > s.len() {
        return false;
    }
    let last = s.len() - pattern.len();
    let mut at: usize = 0;
    loop
        invariant
            last + pattern.len() == s.len(),
            at <= last,
            forall|i: int| 0 <= i < at ==> #[trigger] s@.subrange(i, i + pattern.len()) != pattern@,
        decreases last - at,
    {
        if matches_at(s, pattern, at) {
            return true;
        }
        if at == last {
            return false;
        }
        at = at + 1;
    }
}

/// Value of a hexadecimal digit.
pub fn hex_digit(c: char) -> (r: Option<u32>)
    ensures
        match hex_digit_value(c) {
            Some(v) => r == Some(v as u32),
            None => r is None,
        },
{
    let u = c as u32;
    if 0x30 <= u && u <= 0x39 {
        Some(u - 0x30)
    } else if 0x61 <= u && u <= 0x66 {
        Some(u - 0x61 + 10)
    } else if 0x41 <= u && u <= 0x46 {
        Some(u - 0x41 + 10)
    } else {
        None
    }
}

/// A prefix of a valid string of digits is valid and has no larger value.
pub proof fn lemma_hex_prefix(digits: Seq<char>, k: int)
    requires
        0 <= k <= digits.len(),
        hex_digits_value(digits) is Some,
    ensures
        hex_digits_value(digits.take(k)) is Some,
        hex_digits_value(digits.take(k))->0 <= hex_digits_value(digits)->0,
    decreases digits.len(),
{
    if k == digits.len() {
        assert(digits.take(k) =~= digits);
    } else {
        let shorter = digits.drop_last();
        lemma_hex_prefix(shorter, k);
        assert(shorter.take(k) =~= digits.take(k));
    }
}

/// `u32::from_str_radix(s, 16)`: an optional `'+'`, then hexadecimal digits.
pub fn parse_hex(s: &Vec<char>) -> (r: Option<u32>)
    ensures
        r == parse_hex_u32(s@),
{
    let n = s.len();
    let mut i: usize = 0;
    if n > 0 && s[0] == '+' {
        i = 1;
    }
    let first = i;
    let ghost digits = if first == 1 { s@.drop_first() } else { s@ };
    assert(digits =~= s@.skip(first as int));
    if i == n {
        return None;
    }
    let mut value: u64 = 0;
    assert(digits.take(0) =~= Seq::<char>::empty());
    while i < n
        invariant
            n == s.len(),
            first <= i <= n,
            first < n,
            digits == s@.skip(first as int),
            digits == (if s@.len() > 0 && s@[0] == '+' { s@.drop_first() } else { s@ }),
            hex_digits_value(digits.take(i - first)) == Some(value as nat),
            value <= u32::MAX,
        decreases n - i,
    {
        let ghost before = digits.take(i - first);
        let ghost after = digits.take(i - first + 1);
        assert(after =~= before.push(s@[i as int]));
        assert(after.drop_last() =~= before);
        assert(after.last() == s@[i as int]);
        match hex_digit(s[i]) {
            None => {
                proof {
                    assert(hex_digits_value(after) is None);
                    if hex_digits_value(digits) is Some {
                        lemma_hex_prefix(digits, i - first + 1);
                    }
                }
                return None;
            },
            Some(d) => {
                value = value * 16 + d as u64;
                if value > 0xFFFF_FFFF {
                    proof {
                        assert(hex_digits_value(after) == Some(value as nat));
                        if hex_digits_value(digits) is Some {
                            lemma_hex_prefix(digits, i - first + 1);
                        }
                    }
                    return None;
                }
            },
        }
        i = i + 1;
    }
    assert(digits.take(n - first) =~= digits);
    Some(value as u32)
}

} // verus!
