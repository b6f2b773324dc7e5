//! Characters, whitespace-delimited tokens and string comparison.

use vstd::prelude::*;

verus! {

/// The characters with the Unicode `White_Space` property.
pub open spec fn is_space(c: char) -> bool {
    let u = c as u32;
    ||| 0x09 <= u <= 0x0d
    ||| u == 0x20
    ||| u == 0x85
    ||| u == 0xa0
    ||| u == 0x1680
    ||| 0x2000 <= u <= 0x200a
    ||| u == 0x2028
    ||| u == 0x2029
    ||| u == 0x202f
    ||| u == 0x205f
    ||| u == 0x3000
}

/// The ASCII digits `0` to `9`.
pub open spec fn is_digit(c: char) -> bool {
    0x30 <= c as u32 <= 0x39
}

/// The value of a hexadecimal digit, in either case.
pub open spec fn hex_digit_value(c: char) -> Option<u8> {
    let u = c as u32;
    if 0x30 <= u <= 0x39 {
        Some((u - 0x30) as u8)
    } else if 0x41 <= u <= 0x46 {
        Some((u - 0x41 + 10) as u8)
    } else if 0x61 <= u <= 0x66 {
        Some((u - 0x61 + 10) as u8)
    } else {
        None
    }
}

/// The position just behind the run of non-space characters that starts at `i`.
pub open spec fn word_end(s: Seq<char>, i: int) -> int
    decreases s.len() - i,
{
    if 0 <= i < s.len() && !is_space(s[i]) {
        word_end(s, i + 1)
    } else {
        i
    }
}

/// The maximal runs of non-space characters of `s` from position `i` on, in order.
pub open spec fn tokens_from(s: Seq<char>, i: int) -> Seq<Seq<char>>
    decreases s.len() - i,
{
    if 0 <= i < s.len() {
        if is_space(s[i]) {
            tokens_from(s, i + 1)
        } else {
            proof {
                lemma_word_end_bounds(s, i);
            }
            seq![s.subrange(i, word_end(s, i))] + tokens_from(s, word_end(s, i))
        }
    } else {
        Seq::empty()
    }
}

/// The whitespace-delimited tokens of `s`: its maximal runs of non-space characters.
pub open spec fn tokens(s: Seq<char>) -> Seq<Seq<char>> {
    tokens_from(s, 0)
}

/// A word ends inside the text, behind its first character, and holds no space.
pub proof fn lemma_word_end_bounds(s: Seq<char>, i: int)
    requires
        0 <= i < s.len(),
        !is_space(s[i]),
    ensures
        i < word_end(s, i) <= s.len(),
        forall|k: int| i <= k < word_end(s, i) ==> !is_space(#[trigger] s[k]),
        i < word_end(s, i) < s.len() ==> is_space(s[word_end(s, i)]),
    decreases s.len() - i,
{
    assert(word_end(s, i) == word_end(s, i + 1));
    if i + 1 < s.len() && !is_space(s[i + 1]) {
        lemma_word_end_bounds(s, i + 1);
    } else {
        assert(word_end(s, i + 1) == i + 1);
    }
}

/// A word: a non-empty run of characters without white space.
pub open spec fn is_word(t: Seq<char>) -> bool {
    t.len() > 0 && forall|j: int| 0 <= j < t.len() ==> !is_space(#[trigger] t[j])
}

/// Every token is a word.
pub proof fn lemma_tokens_are_words(s: Seq<char>, i: int)
    requires
        0 <= i,
    ensures
        forall|k: int| 0 <= k < tokens_from(s, i).len() ==> is_word(#[trigger] tokens_from(s, i)[k]),
    decreases s.len() - i,
{
    if i < s.len() {
        if is_space(s[i]) {
            lemma_tokens_are_words(s, i + 1);
            assert(tokens_from(s, i) == tokens_from(s, i + 1));
        } else {
            lemma_word_end_bounds(s, i);
            let j = word_end(s, i);
            let word = s.subrange(i, j);
            let rest = tokens_from(s, j);
            lemma_tokens_are_words(s, j);
            assert(tokens_from(s, i) == seq![word] + rest);
            assert forall|k: int| 0 <= k < tokens_from(s, i).len() implies is_word(
                #[trigger] tokens_from(s, i)[k],
            ) by {
                if k == 0 {
                    assert(tokens_from(s, i)[0] == word);
                    assert forall|x: int| 0 <= x < word.len() implies !is_space(
                        #[trigger] word[x],
                    ) by {
                        assert(word[x] == s[i + x]);
                    }
                } else {
                    assert(tokens_from(s, i)[k] == rest[k - 1]);
                }
            }
        }
    } else {
        assert(tokens_from(s, i).len() == 0);
    }
}

/// Whether `c` is white space.
pub fn space(c: char) -> (r: bool)
    ensures
        r == is_space(c),
{
    let u: u32 = c as u32;
    (0x09 <= u && u <= 0x0d) || u == 0x20 || u == 0x85 || u == 0xa0 || u == 0x1680 || (0x2000 <= u
        && u <= 0x200a) || u == 0x2028 || u == 0x2029 || u == 0x202f || u == 0x205f || u == 0x3000
}

/// Whether `c` is an ASCII digit.
pub fn digit(c: char) -> (r: bool)
    ensures
        r == is_digit(c),
{
    let u: u32 = c as u32;
    0x30 <= u && u <= 0x39
}

/// The value of `c` as a hexadecimal digit, if it is one.
pub fn hex_digit(c: char) -> (r: Option<u8>)
    ensures
        r == hex_digit_value(c),
{
    let u: u32 = c as u32;
    if 0x30 <= u && u <= 0x39 {
        Some((u - 0x30) as u8)
    } else if 0x41 <= u && u <= 0x46 {
        Some((u - 0x41 + 10) as u8)
    } else if 0x61 <= u && u <= 0x66 {
        Some((u - 0x61 + 10) as u8)
    } else {
        None
    }
}

/// The characters of `s`, in order.
pub fn chars_of(s: &str) -> (v: Vec<char>)
    ensures
        v@ == s@,
{
    let mut v: Vec<char> = Vec::new();
    for c in it: s.chars()
        invariant
            it.seq() == s@,
            v@ == s@.take(it.index() as int),
    {
        v.push(c);
    }
    v
}

/// Whether `a`, from position `from` on, holds the same characters as `b`.
pub(crate) fn same_from(a: &Vec<char>, from: usize, b: &Vec<char>) -> (r: bool)
    requires
        from <= a.len(),
    ensures
        r == (a@.skip(from as int) == b@),
{
    if a.len() - from != b.len() {
        return false;
    }
    let mut i: usize = 0;
    while i < b.len()
        invariant
            i <= b.len(),
            from <= a.len(),
            a.len() - from == b.len(),
            forall|k: int| 0 <= k < i ==> a@[from + k] == b@[k],
        decreases b.len() - i,
    {
        if a[from + i] != b[i] {
            assert(a@.skip(from as int)[i as int] != b@[i as int]);
            return false;
        }
        i += 1;
    }
    assert(a@.skip(from as int) =~= b@);
    true
}

/// Whether two strings hold the same characters.
pub fn same_text(a: &str, b: &str) -> (r: bool)
    ensures
        r == (a@ == b@),
{
    let x = chars_of(a);
    let y = chars_of(b);
    assert(x@.skip(0) =~= x@);
    same_from(&x, 0, &y)
}

/// The pieces that a list of spans cuts out of a text; a span gives the
/// position of its first character and the position behind its last.
pub open spec fn cut(s: Seq<char>, spans: Seq<(usize, usize)>) -> Seq<Seq<char>> {
    Seq::new(spans.len(), |k: int| s.subrange(spans[k].0 as int, spans[k].1 as int))
}

/// Whether every span lies within a text of `len` characters.
pub open spec fn spans_within(spans: Seq<(usize, usize)>, len: nat) -> bool {
    forall|k: int| 0 <= k < spans.len() ==> (#[trigger] spans[k]).0 <= spans[k].1 <= len
}

/// Splits `s` at white space: the spans of its tokens, in order.
pub(crate) fn split(s: &Vec<char>) -> (r: Vec<(usize, usize)>)
    ensures
        spans_within(r@, s@.len()),
        cut(s@, r@) == tokens(s@),
{
    let mut r: Vec<(usize, usize)> = Vec::new();
    let mut i: usize = 0;
    assert(cut(s@, r@) =~= Seq::empty());
    while i < s.len()
        invariant
            i <= s.len(),
            spans_within(r@, s@.len()),
            tokens(s@) == cut(s@, r@) + tokens_from(s@, i as int),
        decreases s.len() - i,
    {
        if space(s[i]) {
            i += 1;
        } else {
            let start = i;
            proof {
                lemma_word_end_bounds(s@, start as int);
            }
            while i < s.len() && !space(s[i])
                invariant
                    start <= i <= s.len(),
                    word_end(s@, i as int) == word_end(s@, start as int),
                decreases s.len() - i,
            {
                i += 1;
            }
            let ghost before = r@;
            r.push((start, i));
            proof {
                let t = s@.subrange(start as int, i as int);
                assert(word_end(s@, i as int) == i);
                assert(tokens_from(s@, start as int) == seq![t] + tokens_from(s@, i as int));
                assert(cut(s@, r@) =~= cut(s@, before).push(t));
                assert(cut(s@, before) + (seq![t] + tokens_from(s@, i as int)) =~= cut(
                    s@,
                    before,
                ).push(t) + tokens_from(s@, i as int));
            }
        }
    }
    assert(tokens(s@) =~= cut(s@, r@));
    r
}

/// Whether `c` is a digit of the given radix.
pub open spec fn is_digit_of(c: char, radix: nat) -> bool {
    let d = hex_digit_value(c);
    d is Some && d->0 < radix
}

/// Whether `t` holds nothing but digits of the given radix.
pub open spec fn is_digits(t: Seq<char>, radix: nat) -> bool {
    forall|i: int| 0 <= i < t.len() ==> is_digit_of(#[trigger] t[i], radix)
}

/// Whether `t` is a numeral in the given radix: a non-empty run of its digits.
pub open spec fn is_numeral(t: Seq<char>, radix: nat) -> bool {
    t.len() > 0 && is_digits(t, radix)
}

/// The number that the digits of `t` denote in the given radix, the first digit
/// being the most significant.
pub open spec fn numeral_value(t: Seq<char>, radix: nat) -> nat
    decreases t.len(),
{
    if t.len() == 0 {
        0
    } else {
        numeral_value(t.drop_last(), radix) * radix + hex_digit_value(t.last()).unwrap_or(0) as nat
    }
}

/// Whether the first `n` characters of `t` are the digits that it begins with:
/// all of them digits, and behind them the end or a character that is none.
pub open spec fn is_digit_run(t: Seq<char>, radix: nat, n: int) -> bool {
    &&& 0 <= n <= t.len()
    &&& is_digits(t.take(n), radix)
    &&& n < t.len() ==> !is_digit_of(t[n], radix)
}

/// Whether the digits that `t` begins with, read from the left, come to denote
/// more than `limit` before anything but a digit is met.
pub open spec fn exceeds(t: Seq<char>, radix: nat, limit: nat) -> bool {
    exists|n: int|
        0 <= n <= t.len() && is_digits(#[trigger] t.take(n), radix) && numeral_value(
            t.take(n),
            radix,
        ) > limit
}

/// A number that was read: `Some` of its value where that fits, `None` where it
/// is larger than any value of the type.
pub open spec fn stands_for(v: Option<u128>, n: nat) -> bool {
    match v {
        Some(x) => n == x,
        None => n > u128::MAX,
    }
}

/// Reading on never makes the value smaller.
pub proof fn lemma_value_grows(t: Seq<char>, radix: nat, m: int, n: int)
    requires
        radix >= 1,
        0 <= m <= n <= t.len(),
    ensures
        numeral_value(t.take(m), radix) <= numeral_value(t.take(n), radix),
    decreases n - m,
{
    if m < n {
        lemma_value_grows(t, radix, m, n - 1);
        assert(t.take(n).drop_last() =~= t.take(n - 1));
        let before = numeral_value(t.take(n - 1), radix);
        assert(before * radix >= before) by (nonlinear_arith)
            requires
                radix >= 1,
                before >= 0,
        ;
    }
}

/// The leading digits exceed a limit at some point exactly when all of them
/// together do.
pub proof fn lemma_exceeds(t: Seq<char>, radix: nat, limit: nat, n: int)
    requires
        radix >= 1,
        is_digit_run(t, radix, n),
    ensures
        exceeds(t, radix, limit) <==> numeral_value(t.take(n), radix) > limit,
{
    if exceeds(t, radix, limit) {
        let m = choose|m: int|
            0 <= m <= t.len() && is_digits(#[trigger] t.take(m), radix) && numeral_value(
                t.take(m),
                radix,
            ) > limit;
        if m > n {
            assert(t.take(m)[n] == t[n]);
        }
        lemma_value_grows(t, radix, m, n);
    }
}

/// Reads the digits that the characters of `t` from position `from` up to
/// position `to` begin with: the position behind the last of them, and the
/// number that they denote in the given radix.
pub(crate) fn read_numeral(t: &Vec<char>, from: usize, to: usize, radix: u8) -> (r: (
    usize,
    Option<u128>,
))
    requires
        from <= to <= t.len(),
        1 <= radix <= 16,
    ensures
        from <= r.0 <= to,
        is_digit_run(t@.subrange(from as int, to as int), radix as nat, r.0 - from),
        stands_for(
            r.1,
            numeral_value(t@.subrange(from as int, to as int).take(r.0 - from), radix as nat),
        ),
        (from < to && r.0 == to) == is_numeral(t@.subrange(from as int, to as int), radix as nat),
{
    let ghost body = t@.subrange(from as int, to as int);
    let mut acc: u128 = 0;
    let mut huge = false;
    let mut i: usize = from;
    while i < to
        invariant
            from <= i <= to <= t.len(),
            1 <= radix <= 16,
            body == t@.subrange(from as int, to as int),
            is_digits(body.take(i - from), radix as nat),
            !huge ==> acc == numeral_value(body.take(i - from), radix as nat),
            huge ==> numeral_value(body.take(i - from), radix as nat) > u128::MAX,
        ensures
            from <= i <= to,
            is_digit_run(body, radix as nat, i - from),
            !huge ==> acc == numeral_value(body.take(i - from), radix as nat),
            huge ==> numeral_value(body.take(i - from), radix as nat) > u128::MAX,
        decreases to - i,
    {
        let d = match hex_digit(t[i]) {
            Some(d) => d,
            None => {
                assert(hex_digit_value(body[i - from]) is None);
                break ;
            },
        };
        if d >= radix {
            assert(hex_digit_value(body[i - from]) == Some(d));
            break ;
        }
        proof {
            let next = body.take(i - from + 1);
            assert(next.drop_last() =~= body.take(i - from));
            assert(next.last() == body[i - from]);
            let before = numeral_value(body.take(i - from), radix as nat);
            assert(numeral_value(next, radix as nat) == before * radix + d);
            assert(before * radix >= before) by (nonlinear_arith)
                requires
                    radix >= 1,
                    before >= 0,
            ;
            assert forall|k: int| 0 <= k < next.len() implies is_digit_of(
                #[trigger] next[k],
                radix as nat,
            ) by {
                if k < i - from {
                    assert(next[k] == body.take(i - from)[k]);
                }
            }
        }
        if !huge {
            if acc > (u128::MAX - d as u128) / (radix as u128) {
                proof {
                    let lim = (u128::MAX - d) / (radix as int);
                    assert(acc * radix + d > u128::MAX) by (nonlinear_arith)
                        requires
                            acc >= lim + 1,
                            lim == (u128::MAX - d) / (radix as int),
                            radix >= 1,
                    ;
                }
                huge = true;
            } else {
                proof {
                    let lim = (u128::MAX - d) / (radix as int);
                    assert(acc * radix + d <= u128::MAX) by (nonlinear_arith)
                        requires
                            0 <= acc <= lim,
                            lim == (u128::MAX - d) / (radix as int),
                            radix >= 1,
                    ;
                }
                acc = acc * (radix as u128) + d as u128;
            }
        }
        i += 1;
    }
    proof {
        if i == to {
            assert(body.take(i - from) =~= body);
        } else {
            assert(!is_digits(body, radix as nat));
        }
    }
    if huge {
        (i, None)
    } else {
        (i, Some(acc))
    }
}

} // verus!
