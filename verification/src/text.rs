//! Character-level helpers shared by the argument grammars: splitting a text
//! at a separator and reading unsigned decimal numbers.

use vstd::prelude::*;
use vstd::slice::slice_subrange;
use vstd::string::StringExecFns;

verus! {

/// Position of the first `sep` in `s`, or `s.len()` when `s` holds none.
pub open spec fn first_index(s: Seq<char>, sep: char) -> int
    decreases s.len(),
{
    if s.len() == 0 || s[0] == sep {
        0
    } else {
        1 + first_index(s.drop_first(), sep)
    }
}

/// The pieces of `s` that lie between occurrences of `sep`, in order.
/// A text without `sep` is a single piece; `k` separators give `k + 1`
/// pieces, some of which may be empty.
pub open spec fn split(s: Seq<char>, sep: char) -> Seq<Seq<char>>
    decreases s.len(),
{
    let i = first_index(s, sep);
    if 0 <= i < s.len() {
        seq![s.subrange(0, i)] + split(s.subrange(i + 1, s.len() as int), sep)
    } else {
        seq![s]
    }
}

/// `first_index` stays within the text, nothing before it is the separator,
/// and the character at it, if any, is the separator.
pub proof fn lemma_first_index(s: Seq<char>, sep: char)
    ensures
        0 <= first_index(s, sep) <= s.len(),
        forall|k: int| 0 <= k < first_index(s, sep) ==> s[k] != sep,
        first_index(s, sep) < s.len() ==> s[first_index(s, sep)] == sep,
        first_index(s, sep) < s.len() <==> s.contains(sep),
    decreases s.len(),
{
    if s.len() == 0 || s[0] == sep {
    } else {
        let t = s.drop_first();
        lemma_first_index(t, sep);
        assert forall|k: int| 0 <= k < first_index(s, sep) implies s[k] != sep by {
            if k > 0 {
                assert(s[k] == t[k - 1]);
            }
        }
        let i = first_index(s, sep);
        if i < s.len() {
            assert(s[i] == t[i - 1]);
        }
    }
    let i = first_index(s, sep);
    if s.contains(sep) {
        let k = choose|k: int| 0 <= k < s.len() && s[k] == sep;
        assert(i <= k);
    }
}

/// A position with the properties of `first_index` is `first_index`.
pub proof fn lemma_first_index_is(s: Seq<char>, sep: char, j: int)
    requires
        0 <= j <= s.len(),
        forall|k: int| 0 <= k < j ==> s[k] != sep,
        j < s.len() ==> s[j] == sep,
    ensures
        first_index(s, sep) == j,
{
    lemma_first_index(s, sep);
}

/// A text always has at least one piece, and the first piece holds no
/// separator.
pub proof fn lemma_split_first(s: Seq<char>, sep: char)
    ensures
        split(s, sep).len() >= 1,
        split(s, sep)[0] == s.subrange(0, first_index(s, sep)),
        !s.contains(sep) ==> split(s, sep) == seq![s],
{
    lemma_first_index(s, sep);
    let i = first_index(s, sep);
    if i == s.len() {
        assert(s.subrange(0, i) == s);
    }
}

/// `tokens` written one after the other with `sep` between neighbours.
pub open spec fn join(tokens: Seq<Seq<char>>, sep: char) -> Seq<char>
    decreases tokens.len(),
{
    if tokens.len() == 0 {
        Seq::empty()
    } else if tokens.len() == 1 {
        tokens[0]
    } else {
        tokens[0] + seq![sep] + join(tokens.drop_first(), sep)
    }
}

/// Splitting two texts joined by a separator gives the pieces of the first
/// followed by the pieces of the second.
pub proof fn lemma_split_concat(a: Seq<char>, b: Seq<char>, sep: char)
    ensures
        split(a + seq![sep] + b, sep) == split(a, sep) + split(b, sep),
    decreases a.len(),
{
    let s = a + seq![sep] + b;
    let i = first_index(a, sep);
    lemma_first_index(a, sep);
    if i < a.len() {
        lemma_first_index_is(s, sep, i);
        let a2 = a.subrange(i + 1, a.len() as int);
        assert(s.subrange(0, i) == a.subrange(0, i));
        assert(s.subrange(i + 1, s.len() as int) == a2 + seq![sep] + b);
        lemma_split_concat(a2, b, sep);
        assert(seq![a.subrange(0, i)] + (split(a2, sep) + split(b, sep)) == (seq![
            a.subrange(0, i),
        ] + split(a2, sep)) + split(b, sep));
    } else {
        lemma_first_index_is(s, sep, a.len() as int);
        assert(s.subrange(0, a.len() as int) == a);
        assert(s.subrange(a.len() as int + 1, s.len() as int) == b);
    }
}

/// The pieces of a text hold no separator, and joined again they give the
/// text back.
pub proof fn lemma_join_split(s: Seq<char>, sep: char)
    ensures
        forall|i: int| 0 <= i < split(s, sep).len() ==> !(#[trigger] split(s, sep)[i]).contains(sep),
        join(split(s, sep), sep) == s,
    decreases s.len(),
{
    lemma_first_index(s, sep);
    let i = first_index(s, sep);
    if i < s.len() {
        let head = s.subrange(0, i);
        let tail = s.subrange(i + 1, s.len() as int);
        let later = split(tail, sep);
        lemma_join_split(tail, sep);
        lemma_split_first(tail, sep);
        let all = seq![head] + later;
        assert(all.drop_first() == later);
        assert(all[0] == head);
        assert(head + seq![sep] + tail == s);
        assert forall|k: int| 0 <= k < all.len() implies !(#[trigger] all[k]).contains(sep) by {
            if k > 0 {
                assert(all[k] == later[k - 1]);
            }
        }
    }
}

/// Splitting undoes joining: tokens that hold no separator come back as
/// they were.
pub proof fn lemma_split_join(tokens: Seq<Seq<char>>, sep: char)
    requires
        tokens.len() >= 1,
        forall|i: int| 0 <= i < tokens.len() ==> !(#[trigger] tokens[i]).contains(sep),
    ensures
        split(join(tokens, sep), sep) == tokens,
    decreases tokens.len(),
{
    lemma_first_index(tokens[0], sep);
    if tokens.len() == 1 {
        assert(seq![tokens[0]] == tokens);
    } else {
        let rest = tokens.drop_first();
        assert forall|i: int| 0 <= i < rest.len() implies !(#[trigger] rest[i]).contains(sep) by {
            assert(rest[i] == tokens[i + 1]);
        }
        lemma_split_join(rest, sep);
        lemma_split_concat(tokens[0], join(rest, sep), sep);
        assert(seq![tokens[0]] + rest == tokens);
    }
}

/// The characters of `s` as a vector.
pub fn chars_of(s: &str) -> (out: Vec<char>)
    ensures
        out@ == s@,
{
    let mut out: Vec<char> = Vec::new();
    for c in it: s.chars()
        invariant
            it.seq() == s@,
            out@ == s@.take(it.index()),
    {
        out.push(c);
    }
    out
}

/// Position of the first `sep` in `s`, or `s.len()`.
pub fn find(s: &[char], sep: char) -> (i: usize)
    ensures
        i == first_index(s@, sep),
{
    let mut i: usize = 0;
    while i < s.len() && s[i] != sep
        invariant
            i <= s.len(),
            forall|k: int| 0 <= k < i ==> s@[k] != sep,
        decreases s.len() - i,
    {
        i += 1;
    }
    proof {
        lemma_first_index_is(s@, sep, i as int);
    }
    i
}

/// What `split` yields once the first piece and the text after the first
/// separator are known.
pub open spec fn pieces(head: Seq<char>, rest: Option<Seq<char>>, sep: char) -> Seq<Seq<char>> {
    match rest {
        Some(r) => seq![head] + split(r, sep),
        None => seq![head],
    }
}

/// Cuts `s` at its first `sep`: the piece before it, and the text after it
/// when there is a separator at all.
pub fn cut<'a>(s: &'a [char], sep: char) -> (r: (&'a [char], Option<&'a [char]>))
    ensures
        r.0@ == s@.subrange(0, first_index(s@, sep)),
        !r.0@.contains(sep),
        r.1 is Some <==> s@.contains(sep),
        r.1 is None ==> r.0@ == s@,
        r.1 matches Some(t) ==> t@ == s@.subrange(first_index(s@, sep) + 1, s@.len() as int),
        split(s@, sep) == pieces(
            r.0@,
            match r.1 {
                Some(t) => Some(t@),
                None => None,
            },
            sep,
        ),
{
    let i: usize = find(s, sep);
    proof {
        lemma_first_index(s@, sep);
    }
    let head = slice_subrange(s, 0, i);
    if i < s.len() {
        let rest = slice_subrange(s, i + 1, s.len());
        (head, Some(rest))
    } else {
        assert(s@.subrange(0, i as int) == s@);
        (head, None)
    }
}

/// An ASCII decimal digit.
pub open spec fn is_digit(c: char) -> bool {
    '0' <= c <= '9'
}

/// The number a decimal digit stands for.
pub open spec fn digit_value(c: char) -> nat {
    (c as int - '0' as int) as nat
}

/// Every character of `s` is a decimal digit.
pub open spec fn all_digits(s: Seq<char>) -> bool {
    forall|i: int| 0 <= i < s.len() ==> is_digit(#[trigger] s[i])
}

/// The number that a run of decimal digits denotes, most significant first.
pub open spec fn digits_value(s: Seq<char>) -> nat
    decreases s.len(),
{
    if s.len() == 0 {
        0
    } else {
        digits_value(s.drop_last()) * 10 + digit_value(s.last())
    }
}

/// `s` without its leading plus sign, if it has one.
pub open spec fn unsigned_part(s: Seq<char>) -> Seq<char> {
    if s.len() > 0 && s[0] == '+' {
        s.drop_first()
    } else {
        s
    }
}

/// The value of an unsigned decimal number: an optional plus sign followed
/// by one or more decimal digits. Leading zeros are allowed. Any other text
/// has no value.
pub open spec fn decimal_value(s: Seq<char>) -> Option<nat> {
    let d = unsigned_part(s);
    if d.len() > 0 && all_digits(d) {
        Some(digits_value(d))
    } else {
        None
    }
}

/// The value of `s` as an unsigned decimal number no greater than `max`.
pub open spec fn decimal_within(s: Seq<char>, max: nat) -> Option<nat> {
    match decimal_value(s) {
        Some(v) => if v <= max {
            Some(v)
        } else {
            None
        },
        None => None,
    }
}

/// Adding digits at the end never makes the value smaller.
pub proof fn lemma_digits_value_prefix(s: Seq<char>, k: int)
    requires
        0 <= k <= s.len(),
    ensures
        digits_value(s.subrange(0, k)) <= digits_value(s),
    decreases s.len() - k,
{
    if k == s.len() {
        assert(s.subrange(0, k) == s);
    } else {
        lemma_digits_value_prefix(s.drop_last(), k);
        assert(s.drop_last().subrange(0, k) == s.subrange(0, k));
    }
}

/// Reads `s` as an unsigned decimal number no greater than `max`.
pub fn parse_number(s: &[char], max: u64) -> (r: Option<u64>)
    ensures
        match r {
            Some(v) => decimal_within(s@, max as nat) == Some(v as nat),
            None => decimal_within(s@, max as nat) is None,
        },
{
    let n: usize = s.len();
    let start: usize = if n > 0 && s[0] == '+' {
        1
    } else {
        0
    };
    if start == n {
        return None;
    }
    let ghost d = unsigned_part(s@);
    assert(d == s@.subrange(start as int, n as int));
    let mut acc: u64 = 0;
    let mut i: usize = start;
    while i < n
        invariant
            start <= i <= n,
            n == s@.len(),
            d == unsigned_part(s@),
            d == s@.subrange(start as int, n as int),
            all_digits(d.subrange(0, i - start)),
            acc == digits_value(d.subrange(0, i - start)),
            acc <= max,
        decreases n - i,
    {
        let c: char = s[i];
        let ghost p = d.subrange(0, i - start + 1);
        proof {
            assert(p.drop_last() == d.subrange(0, i - start));
            assert(p.last() == c);
        }
        if !(c >= '0' && c <= '9') {
            assert(!is_digit(d[i - start]));
            return None;
        }
        let v: u64 = (c as u32 - '0' as u32) as u64;
        proof {
            lemma_digits_value_prefix(d, i - start + 1);
        }
        if max < v || acc > (max - v) / 10 {
            return None;
        }
        acc = acc * 10 + v;
        i += 1;
        proof {
            assert forall|k: int| 0 <= k < p.len() implies is_digit(#[trigger] p[k]) by {
                if k < p.len() - 1 {
                    assert(p[k] == d.subrange(0, i - start - 1)[k]);
                }
            }
        }
    }
    assert(d.subrange(0, n - start) == d);
    Some(acc)
}

/// The character that stands for the digit `d`.
pub open spec fn digit_char(d: nat) -> char {
    ('0' as nat + d) as char
}

/// `n` written in decimal digits, without leading zeros.
pub open spec fn decimal_text(n: nat) -> Seq<char>
    decreases n,
{
    if n < 10 {
        seq![digit_char(n)]
    } else {
        decimal_text(n / 10).push(digit_char(n % 10))
    }
}

/// A number written in decimal digits reads back as itself.
pub proof fn lemma_decimal_text_value(n: nat)
    ensures
        decimal_text(n).len() >= 1,
        all_digits(decimal_text(n)),
        digits_value(decimal_text(n)) == n,
        decimal_value(decimal_text(n)) == Some(n),
    decreases n,
{
    let text = decimal_text(n);
    if n < 10 {
        assert(text.drop_last() =~= Seq::<char>::empty());
        assert(digits_value(text.drop_last()) == 0);
        assert(text.last() == digit_char(n));
    } else {
        let front = decimal_text(n / 10);
        lemma_decimal_text_value(n / 10);
        assert(text.drop_last() =~= front);
        assert(text.last() == digit_char(n % 10));
        assert forall|i: int| 0 <= i < text.len() implies is_digit(#[trigger] text[i]) by {
            if i < front.len() {
                assert(text[i] == front[i]);
            }
        }
    }
    assert(is_digit(text[0]));
    assert(unsigned_part(text) == text);
}

/// The text of one decimal digit.
fn digit_str(d: u8) -> (text: &'static str)
    requires
        d < 10,
    ensures
        text@ == seq![digit_char(d as nat)],
{
    proof {
        reveal_strlit("0");
        reveal_strlit("1");
        reveal_strlit("2");
        reveal_strlit("3");
        reveal_strlit("4");
        reveal_strlit("5");
        reveal_strlit("6");
        reveal_strlit("7");
        reveal_strlit("8");
        reveal_strlit("9");
    }
    let text = match d {
        0 => "0",
        1 => "1",
        2 => "2",
        3 => "3",
        4 => "4",
        5 => "5",
        6 => "6",
        7 => "7",
        8 => "8",
        _ => "9",
    };
    assert(text@ =~= seq![digit_char(d as nat)]);
    text
}

/// Appends `n` in decimal digits to `out`.
pub fn append_decimal(out: &mut String, n: u64)
    ensures
        final(out)@ == old(out)@ + decimal_text(n as nat),
    decreases n,
{
    if n >= 10 {
        append_decimal(out, n / 10);
    }
    out.append(digit_str((n % 10) as u8));
    proof {
        if n >= 10 {
            let front = decimal_text((n / 10) as nat);
            let last = seq![digit_char((n % 10) as nat)];
            assert(old(out)@ + front + last == old(out)@ + front.push(digit_char((n % 10) as nat)));
        }
    }
}

} // verus!
