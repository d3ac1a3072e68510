use vstd::prelude::*;
use vstd::string::StringSliceAdditionalSpecFns;

verus! {

/// Whether `c` has the Unicode `White_Space` property, which is what
/// `char::is_whitespace` tests.
pub open spec fn is_whitespace(c: char) -> bool {
    ||| c == '\t' || c == '\n' || c == '\u{0B}' || c == '\u{0C}' || c == '\r' || c == ' '
    ||| c == '\u{85}' || c == '\u{A0}' || c == '\u{1680}'
    ||| ('\u{2000}' <= c && c <= '\u{200A}')
    ||| c == '\u{2028}' || c == '\u{2029}' || c == '\u{202F}' || c == '\u{205F}'
    ||| c == '\u{3000}'
}

/// Executable test for [`is_whitespace`].
pub fn char_is_whitespace(c: char) -> (r: bool)
    ensures
        r == is_whitespace(c),
{
    c == '\t' || c == '\n' || c == '\u{0B}' || c == '\u{0C}' || c == '\r' || c == ' '
        || c == '\u{85}' || c == '\u{A0}' || c == '\u{1680}'
        || ('\u{2000}' <= c && c <= '\u{200A}')
        || c == '\u{2028}' || c == '\u{2029}' || c == '\u{202F}' || c == '\u{205F}'
        || c == '\u{3000}'
}

/// Checks a string as `std::str::from_utf8` does.
///
/// Trusted: `std::str::from_utf8`.  The contract states that it succeeds
/// exactly on valid UTF-8, and that the text it gives back is made of
/// these bytes.
#[verifier::external_body]
pub(crate) fn utf8_text(bytes: &[u8]) -> (r: Option<&str>)
    ensures
        r is Some <==> vstd::utf8::valid_utf8(bytes@),
        r matches Some(s) ==> s.spec_bytes() == bytes@,
{
    std::str::from_utf8(bytes).ok()
}

/// Collects the characters of `s`, in order.
pub fn chars_of(s: &str) -> (out: Vec<char>)
    ensures
        out@ == s@,
{
    let mut out: Vec<char> = Vec::new();
    for c in it: s.chars()
        invariant
            out@ == it.seq().take(it.index() as int),
    {
        out.push(c);
    }
    out
}


/// The position of the first `c` in `s`, or `s.len()` when there is none.
pub open spec fn first_index_of(s: Seq<char>, c: char) -> nat
    decreases s.len(),
{
    if s.len() == 0 {
        0
    } else if s[0] == c {
        0
    } else {
        1 + first_index_of(s.drop_first(), c)
    }
}

/// The position of the first whitespace character in `s`, or `s.len()`.
pub open spec fn first_whitespace(s: Seq<char>) -> nat
    decreases s.len(),
{
    if s.len() == 0 {
        0
    } else if is_whitespace(s[0]) {
        0
    } else {
        1 + first_whitespace(s.drop_first())
    }
}

pub proof fn lemma_first_index_of(s: Seq<char>, c: char)
    ensures
        first_index_of(s, c) <= s.len(),
        forall|i: int| 0 <= i < first_index_of(s, c) ==> s[i] != c,
        first_index_of(s, c) < s.len() ==> s[first_index_of(s, c) as int] == c,
    decreases s.len(),
{
    if s.len() > 0 && s[0] != c {
        lemma_first_index_of(s.drop_first(), c);
        assert forall|i: int| 0 <= i < first_index_of(s, c) implies s[i] != c by {
            if i > 0 {
                assert(s[i] == s.drop_first()[i - 1]);
            }
        }
    }
}

/// `k` is the first position of `c` in `s` when nothing before it is `c`
/// and it is either the end or a `c`.
pub proof fn lemma_first_index_of_unique(s: Seq<char>, c: char, k: int)
    requires
        0 <= k <= s.len(),
        forall|i: int| 0 <= i < k ==> s[i] != c,
        k < s.len() ==> s[k] == c,
    ensures
        first_index_of(s, c) == k,
{
    lemma_first_index_of(s, c);
}

pub proof fn lemma_first_whitespace(s: Seq<char>)
    ensures
        first_whitespace(s) <= s.len(),
        forall|i: int| 0 <= i < first_whitespace(s) ==> !is_whitespace(s[i]),
        first_whitespace(s) < s.len() ==> is_whitespace(s[first_whitespace(s) as int]),
    decreases s.len(),
{
    if s.len() > 0 && !is_whitespace(s[0]) {
        lemma_first_whitespace(s.drop_first());
        assert forall|i: int| 0 <= i < first_whitespace(s) implies !is_whitespace(s[i]) by {
            if i > 0 {
                assert(s[i] == s.drop_first()[i - 1]);
            }
        }
    }
}

pub proof fn lemma_first_whitespace_unique(s: Seq<char>, k: int)
    requires
        0 <= k <= s.len(),
        forall|i: int| 0 <= i < k ==> !is_whitespace(s[i]),
        k < s.len() ==> is_whitespace(s[k]),
    ensures
        first_whitespace(s) == k,
{
    lemma_first_whitespace(s);
}

/// `t` without one trailing carriage return.
pub open spec fn strip_cr(t: Seq<char>) -> Seq<char> {
    if t.len() > 0 && t.last() == '\r' {
        t.drop_last()
    } else {
        t
    }
}

/// The lines of `s` as `str::lines` yields them: split at each `\n`, each
/// line that a `\n` ends loses one `\r` before it, and a final `\n` opens
/// no further line.
pub open spec fn lines(s: Seq<char>) -> Seq<Seq<char>>
    decreases s.len(),
{
    if s.len() == 0 {
        seq![]
    } else {
        let n = first_index_of(s, '\n');
        if n < s.len() {
            seq![strip_cr(s.take(n as int))] + lines(s.skip(n + 1 as int))
        } else {
            seq![s]
        }
    }
}

/// Splitting off the first line of `c[pos..]`.
pub proof fn lemma_lines_step(c: Seq<char>, pos: int, e: int)
    requires
        0 <= pos < c.len(),
        pos <= e <= c.len(),
        e - pos == first_index_of(c.subrange(pos, c.len() as int), '\n'),
    ensures
        e < c.len() ==> lines(c.subrange(pos, c.len() as int)) == seq![
            strip_cr(c.subrange(pos, e)),
        ] + lines(c.subrange(e + 1, c.len() as int)),
        e == c.len() ==> lines(c.subrange(pos, c.len() as int)) == seq![c.subrange(pos, e)],
{
    let t = c.subrange(pos, c.len() as int);
    if e < c.len() {
        assert(t.take(e - pos) =~= c.subrange(pos, e));
        assert(t.skip(e - pos + 1) =~= c.subrange(e + 1, c.len() as int));
    } else {
        assert(t =~= c.subrange(pos, e));
    }
}

/// The words of `s` as `str::split_whitespace` yields them: the maximal
/// runs of characters that are not whitespace.
pub open spec fn words(s: Seq<char>) -> Seq<Seq<char>>
    decreases s.len(),
{
    if s.len() == 0 {
        seq![]
    } else if is_whitespace(s[0]) {
        words(s.drop_first())
    } else {
        let n = first_whitespace(s);
        proof {
            lemma_first_whitespace(s);
        }
        seq![s.take(n as int)] + words(s.skip(n as int))
    }
}

/// No line holds a newline; and a text without newlines is one line,
/// whole.
pub proof fn law_lines_split_at_newlines(s: Seq<char>)
    ensures
        forall|i: int, k: int|
            0 <= i < lines(s).len() && 0 <= k < lines(s)[i].len() ==> #[trigger] lines(s)[i][k]
                != '\n',
        s.len() > 0 && (forall|k: int| 0 <= k < s.len() ==> s[k] != '\n') ==> lines(s) == seq![s],
    decreases s.len(),
{
    if s.len() > 0 {
        let n = first_index_of(s, '\n');
        lemma_first_index_of(s, '\n');
        if n < s.len() {
            let rest = s.skip(n + 1 as int);
            law_lines_split_at_newlines(rest);
            let head = strip_cr(s.take(n as int));
            assert forall|i: int, k: int|
                0 <= i < lines(s).len() && 0 <= k < lines(s)[i].len() implies #[trigger] lines(
                s,
            )[i][k] != '\n' by {
                if i == 0 {
                    assert(lines(s)[0] == head);
                    assert(head[k] == s[k]);
                } else {
                    assert(lines(s)[i] == lines(rest)[i - 1]);
                }
            }
        } else {
            assert(lines(s) == seq![s]);
        }
    }
}

/// Every word is non-empty and holds no whitespace.
pub proof fn law_words_are_nonempty_runs(s: Seq<char>)
    ensures
        forall|i: int| 0 <= i < words(s).len() ==> #[trigger] words(s)[i].len() > 0,
        forall|i: int, k: int|
            0 <= i < words(s).len() && 0 <= k < words(s)[i].len() ==> !is_whitespace(
                #[trigger] words(s)[i][k],
            ),
    decreases s.len(),
{
    if s.len() == 0 {
        assert(words(s) == Seq::<Seq<char>>::empty());
    } else {
        if is_whitespace(s[0]) {
            law_words_are_nonempty_runs(s.drop_first());
            assert(words(s) == words(s.drop_first()));
        } else {
            let n = first_whitespace(s);
            lemma_first_whitespace(s);
            let rest = s.skip(n as int);
            law_words_are_nonempty_runs(rest);
            assert(words(s) == seq![s.take(n as int)] + words(rest));
            assert(n > 0);
            assert forall|i: int| 0 <= i < words(s).len() implies #[trigger] words(s)[i].len()
                > 0 by {
                if i > 0 {
                    assert(words(s)[i] == words(rest)[i - 1]);
                }
            }
            assert forall|i: int, k: int|
                0 <= i < words(s).len() && 0 <= k < words(s)[i].len() implies !is_whitespace(
                #[trigger] words(s)[i][k],
            ) by {
                if i == 0 {
                    assert(words(s)[0] == s.take(n as int));
                    assert(words(s)[0][k] == s[k]);
                } else {
                    assert(words(s)[i] == words(rest)[i - 1]);
                }
            }
        }
    }
}

/// Finds the first `c` in `chars[start..end]`; returns `end` when there is none.
pub fn find_char(chars: &Vec<char>, start: usize, end: usize, c: char) -> (k: usize)
    requires
        start <= end <= chars.len(),
    ensures
        start <= k <= end,
        k - start == first_index_of(chars@.subrange(start as int, end as int), c),
{
    let mut k = start;
    while k < end && chars[k] != c
        invariant
            start <= k <= end <= chars.len(),
            forall|i: int| start <= i < k ==> chars@[i] != c,
        decreases end - k,
    {
        k = k + 1;
    }
    proof {
        let sub = chars@.subrange(start as int, end as int);
        lemma_first_index_of_unique(sub, c, k - start);
    }
    k
}

/// Finds the first whitespace character in `chars[start..end]`; returns `end`
/// when there is none.
pub fn find_whitespace(chars: &Vec<char>, start: usize, end: usize) -> (k: usize)
    requires
        start <= end <= chars.len(),
    ensures
        start <= k <= end,
        k - start == first_whitespace(chars@.subrange(start as int, end as int)),
{
    let mut k = start;
    while k < end && !char_is_whitespace(chars[k])
        invariant
            start <= k <= end <= chars.len(),
            forall|i: int| start <= i < k ==> !is_whitespace(chars@[i]),
        decreases end - k,
    {
        k = k + 1;
    }
    proof {
        let sub = chars@.subrange(start as int, end as int);
        lemma_first_whitespace_unique(sub, k - start);
    }
    k
}


proof fn lemma_words_skip_whitespace(c: Seq<char>, i: int, end: int)
    requires
        0 <= i < end <= c.len(),
        is_whitespace(c[i]),
    ensures
        words(c.subrange(i, end)) == words(c.subrange(i + 1, end)),
{
    let t = c.subrange(i, end);
    assert(t[0] == c[i]);
    assert(t.drop_first() =~= c.subrange(i + 1, end));
}

proof fn lemma_words_take_word(c: Seq<char>, i: int, j: int, end: int)
    requires
        0 <= i < j <= end <= c.len(),
        forall|k: int| i <= k < j ==> !is_whitespace(c[k]),
        j < end ==> is_whitespace(c[j]),
    ensures
        words(c.subrange(i, end)) == seq![c.subrange(i, j)] + words(c.subrange(j, end)),
{
    let t = c.subrange(i, end);
    assert(t[0] == c[i]);
    lemma_first_whitespace_unique(t, j - i);
    assert(t.take(j - i) =~= c.subrange(i, j));
    assert(t.skip(j - i) =~= c.subrange(j, end));
}

/// The bounds of the words of `chars[start..end]`, in order.
pub fn word_bounds(chars: &Vec<char>, start: usize, end: usize) -> (v: Vec<(usize, usize)>)
    requires
        start <= end <= chars.len(),
    ensures
        v.len() == words(chars@.subrange(start as int, end as int)).len(),
        forall|k: int|
            0 <= k < v.len() ==> {
                &&& start <= (#[trigger] v@[k]).0 <= v@[k].1 <= end
                &&& chars@.subrange(v@[k].0 as int, v@[k].1 as int) == words(
                    chars@.subrange(start as int, end as int),
                )[k]
            },
{
    let ghost whole = words(chars@.subrange(start as int, end as int));
    let mut v: Vec<(usize, usize)> = Vec::new();
    let ghost mut acc: Seq<Seq<char>> = seq![];
    let mut i = start;
    while i < end
        invariant
            start <= i <= end <= chars.len(),
            whole == words(chars@.subrange(start as int, end as int)),
            whole == acc + words(chars@.subrange(i as int, end as int)),
            acc.len() == v.len(),
            forall|k: int|
                0 <= k < v.len() ==> {
                    &&& start <= (#[trigger] v@[k]).0 <= v@[k].1 <= end
                    &&& chars@.subrange(v@[k].0 as int, v@[k].1 as int) == acc[k]
                },
        decreases end - i,
    {
        if char_is_whitespace(chars[i]) {
            proof {
                lemma_words_skip_whitespace(chars@, i as int, end as int);
            }
            i = i + 1;
        } else {
            let j = find_whitespace(chars, i, end);
            proof {
                let t = chars@.subrange(i as int, end as int);
                lemma_first_whitespace(t);
                assert(t[0] == chars@[i as int]);
                assert forall|k: int| i <= k < j implies !is_whitespace(chars@[k]) by {
                    assert(chars@[k] == t[k - i]);
                }
                if j < end {
                    assert(chars@[j as int] == t[j - i]);
                }
                lemma_words_take_word(chars@, i as int, j as int, end as int);
                acc = acc.push(chars@.subrange(i as int, j as int));
                assert(whole =~= acc + words(chars@.subrange(j as int, end as int)));
            }
            v.push((i, j));
            i = j;
        }
    }
    proof {
        assert(words(chars@.subrange(end as int, end as int)) =~= seq![]);
        assert(whole =~= acc);
    }
    v
}

/// The value of a hexadecimal digit, if `c` is one.
pub open spec fn hex_digit_value(c: char) -> Option<int> {
    if '0' <= c && c <= '9' {
        Some(c as int - '0' as int)
    } else if 'a' <= c && c <= 'f' {
        Some(c as int - 'a' as int + 10)
    } else if 'A' <= c && c <= 'F' {
        Some(c as int - 'A' as int + 10)
    } else {
        None
    }
}

/// The value of a string of hexadecimal digits (0 for the empty string), if
/// every character is one.
pub open spec fn hex_digits_value(s: Seq<char>) -> Option<int>
    decreases s.len(),
{
    if s.len() == 0 {
        Some(0)
    } else {
        match (hex_digits_value(s.drop_last()), hex_digit_value(s.last())) {
            (Some(v), Some(d)) => Some(16 * v + d),
            _ => None,
        }
    }
}

/// What `usize::from_str_radix(s, 16)` returns: an optional `+`, then at
/// least one hexadecimal digit and nothing else, of a value that fits.
pub open spec fn parse_hex_usize(s: Seq<char>) -> Option<usize> {
    let digits = if s.len() > 0 && s[0] == '+' {
        s.drop_first()
    } else {
        s
    };
    if digits.len() == 0 {
        None
    } else {
        match hex_digits_value(digits) {
            Some(v) => if v <= usize::MAX {
                Some(v as usize)
            } else {
                None
            },
            None => None,
        }
    }
}

proof fn lemma_hex_digits_nonnegative(s: Seq<char>)
    ensures
        hex_digits_value(s) matches Some(v) ==> v >= 0,
    decreases s.len(),
{
    if s.len() > 0 {
        lemma_hex_digits_nonnegative(s.drop_last());
    }
}

/// A string of digits is worth at least as much as any of its prefixes.
proof fn lemma_hex_digits_prefix(s: Seq<char>, k: int)
    requires
        0 <= k <= s.len(),
        hex_digits_value(s) is Some,
    ensures
        hex_digits_value(s.take(k)) is Some,
        hex_digits_value(s.take(k))->0 <= hex_digits_value(s)->0,
    decreases s.len(),
{
    if k == s.len() {
        assert(s.take(k) =~= s);
    } else {
        lemma_hex_digits_prefix(s.drop_last(), k);
        lemma_hex_digits_nonnegative(s.drop_last());
        assert(s.drop_last().take(k) =~= s.take(k));
    }
}

fn hex_digit(c: char) -> (r: Option<usize>)
    ensures
        match hex_digit_value(c) {
            Some(d) => r == Some(d as usize),
            None => r is None,
        },
{
    if '0' <= c && c <= '9' {
        Some((c as u32 - '0' as u32) as usize)
    } else if 'a' <= c && c <= 'f' {
        Some((c as u32 - 'a' as u32 + 10) as usize)
    } else if 'A' <= c && c <= 'F' {
        Some((c as u32 - 'A' as u32 + 10) as usize)
    } else {
        None
    }
}

/// Parses `chars[start..end]` as `usize::from_str_radix` does in base 16.
pub fn parse_hex(chars: &Vec<char>, start: usize, end: usize) -> (r: Option<usize>)
    requires
        start <= end <= chars.len(),
    ensures
        r == parse_hex_usize(chars@.subrange(start as int, end as int)),
{
    let ghost s = chars@.subrange(start as int, end as int);
    let first = if start < end && chars[start] == '+' {
        start + 1
    } else {
        start
    };
    let ghost digits = chars@.subrange(first as int, end as int);
    assert(digits =~= (if s.len() > 0 && s[0] == '+' {
        s.drop_first()
    } else {
        s
    }));
    if first == end {
        return None;
    }
    let mut v: usize = 0;
    let mut i = first;
    assert(digits.take(0) =~= seq![]);
    while i < end
        invariant
            first <= i <= end <= chars.len(),
            digits == chars@.subrange(first as int, end as int),
            s == chars@.subrange(start as int, end as int),
            digits == (if s.len() > 0 && s[0] == '+' {
                s.drop_first()
            } else {
                s
            }),
            digits.len() > 0,
            hex_digits_value(digits.take(i - first)) == Some(v as int),
        decreases end - i,
    {
        let d = match hex_digit(chars[i]) {
            Some(d) => d,
            None => {
                proof {
                    if hex_digits_value(digits) is Some {
                        lemma_hex_digits_prefix(digits, i - first + 1);
                        assert(digits.take(i - first + 1).drop_last() =~= digits.take(i - first));
                    }
                }
                return None;
            },
        };
        proof {
            assert(digits.take(i - first + 1).drop_last() =~= digits.take(i - first));
            assert(digits.take(i - first + 1).last() == chars@[i as int]);
        }
        if v > (usize::MAX - d) / 16 {
            proof {
                assert(16 * v + d > usize::MAX) by (nonlinear_arith)
                    requires
                        v > (usize::MAX - d) / 16,
                        d <= usize::MAX,
                ;
                if hex_digits_value(digits) is Some {
                    lemma_hex_digits_prefix(digits, i - first + 1);
                }
            }
            return None;
        }
        assert(16 * v + d <= usize::MAX) by (nonlinear_arith)
            requires
                v <= (usize::MAX - d) / 16,
                d <= usize::MAX,
        ;
        v = 16 * v + d;
        i = i + 1;
    }
    assert(digits.take(end - first) =~= digits);
    Some(v)
}

} // verus!
