//! What the text functions do to texts that are put together from known parts.

use crate::text::{
    all_digits, chars_of, contains_text, decimal_text, decimal_value, find_blank,
    find_char, halves, has_prefix, has_text, is_white_space, join_from, joined, lemma_decimal_text,
    lemma_find_blank, lemma_find_char, lemma_joined_front, nth_word, number, pieces, read_number,
    same_text, split_once, split_text, starts_with, texts, white_space, word, write_number,
};
use vstd::prelude::*;

verus! {

/// The texts of `list` in a row, with `sep` between each two, from the front.
pub open spec fn strung(list: Seq<Seq<char>>, sep: Seq<char>) -> Seq<char>
    decreases list.len(),
{
    if list.len() == 0 {
        Seq::empty()
    } else if list.len() == 1 {
        list[0]
    } else {
        list[0] + sep + strung(list.skip(1), sep)
    }
}

/// None of `list` holds `c`.
pub open spec fn free_of(list: Seq<Seq<char>>, c: char) -> bool {
    forall|k: int, m: int|
        0 <= k < list.len() && 0 <= m < list[k].len() ==> #[trigger] list[k][m] != c
}

/// The characters of a text come one by one, in order.
pub proof fn law_characters_in_order(s: &str, v: Vec<char>)
    requires
        call_ensures(chars_of, (s,), v),
    ensures
        v@.len() == s@.len(),
        forall|k: int| 0 <= k < s@.len() ==> #[trigger] v@[k] == s@[k],
        call_requires(chars_of, (s,)),
{
}

/// Two texts are the same exactly where they are of one length and agree at every place.
pub proof fn law_same_text_agrees_everywhere(s: &str, t: &str, b: bool)
    requires
        call_ensures(same_text, (s, t), b),
    ensures
        b <==> s@.len() == t@.len() && forall|k: int|
            0 <= k < s@.len() ==> #[trigger] s@[k] == t@[k],
        call_requires(same_text, (s, t)),
{
    if s@.len() == t@.len() && forall|k: int| 0 <= k < s@.len() ==> #[trigger] s@[k] == t@[k] {
        assert(s@ =~= t@);
    }
}

/// A text holds another exactly where it is that other with something, or nothing, before and
/// behind.
pub proof fn law_text_is_held_between_parts(
    s: &str,
    needle: &str,
    before: Seq<char>,
    behind: Seq<char>,
    b: bool,
)
    requires
        call_ensures(has_text, (s, needle), b),
    ensures
        s@ == before + needle@ + behind ==> b,
        b ==> exists|x: Seq<char>, y: Seq<char>| s@ == #[trigger] (x + needle@ + y),
        call_requires(has_text, (s, needle)),
{
    lemma_text_is_held(s@, needle@, before, behind);
}

/// A text holds another exactly where it can be taken apart around it.
pub proof fn lemma_text_is_held(
    s: Seq<char>,
    needle: Seq<char>,
    before: Seq<char>,
    behind: Seq<char>,
)
    ensures
        s == before + needle + behind ==> contains_text(s, needle),
        contains_text(s, needle) ==> exists|x: Seq<char>, y: Seq<char>|
            s == #[trigger] (x + needle + y),
{
    if s == before + needle + behind {
        let i = before.len() as int;
        assert(s.subrange(i, i + needle.len()) =~= needle);
    }
    if contains_text(s, needle) {
        let i = choose|i: int|
            0 <= i <= s.len() - needle.len() && #[trigger] s.subrange(i, i + needle.len())
                == needle;
        let x = s.take(i);
        let y = s.skip(i + needle.len());
        assert(s =~= x + needle + y);
    }
}

/// A text starts with another exactly where it is that other with something, or nothing, behind.
pub proof fn law_prefix_is_the_front(s: &str, prefix: &str, rest: Seq<char>, b: bool)
    requires
        call_ensures(has_prefix, (s, prefix), b),
    ensures
        s@ == prefix@ + rest ==> b,
        b ==> exists|x: Seq<char>| s@ == #[trigger] (prefix@ + x),
        call_requires(has_prefix, (s, prefix)),
{
    lemma_prefix_is_the_front(s@, prefix@, rest);
}

/// A text starts with another exactly where it can be taken apart behind it.
pub proof fn lemma_prefix_is_the_front(s: Seq<char>, prefix: Seq<char>, rest: Seq<char>)
    ensures
        s == prefix + rest ==> starts_with(s, prefix),
        starts_with(s, prefix) ==> exists|x: Seq<char>| s == #[trigger] (prefix + x),
{
    if s == prefix + rest {
        assert(s.take(prefix.len() as int) =~= prefix);
    }
    if starts_with(s, prefix) {
        assert(s =~= prefix + s.skip(prefix.len() as int));
    }
}

/// A text that is put together from parts without the separator, with the separator between each
/// two, is split into these parts.
pub proof fn law_split_undoes_stringing(
    s: &str,
    sep: char,
    parts: Seq<Seq<char>>,
    out: Vec<String>,
)
    requires
        parts.len() > 0,
        free_of(parts, sep),
        s@ == strung(parts, seq![sep]),
        call_ensures(split_text, (s, sep), out),
    ensures
        out@.len() == parts.len(),
        forall|k: int| 0 <= k < parts.len() ==> (#[trigger] out@[k])@ == parts[k],
        call_requires(split_text, (s, sep)),
{
    lemma_pieces_of_strung(s@, sep, parts);
    assert forall|k: int| 0 <= k < parts.len() implies (#[trigger] out@[k])@ == parts[k] by {
        assert(texts(out@)[k] == out@[k]@);
    }
    assert(texts(out@).len() == out@.len());
}

/// The pieces of a text are the parts that it was put together from.
pub proof fn lemma_pieces_of_strung(s: Seq<char>, sep: char, parts: Seq<Seq<char>>)
    requires
        parts.len() > 0,
        free_of(parts, sep),
        s == strung(parts, seq![sep]),
    ensures
        pieces(s, sep, 0) == parts,
{
    assert(s.skip(0) =~= s);
    lemma_pieces_from(s, sep, 0, parts);
}

proof fn lemma_pieces_from(s: Seq<char>, sep: char, from: int, parts: Seq<Seq<char>>)
    requires
        0 <= from <= s.len(),
        parts.len() > 0,
        free_of(parts, sep),
        s.skip(from) == strung(parts, seq![sep]),
    ensures
        pieces(s, sep, from) == parts,
    decreases parts.len(),
{
    let end = find_char(s, sep, from);
    lemma_find_char(s, sep, from);
    let first = parts[0];
    let n = first.len() as int;
    let rest = s.skip(from);
    assert(n <= rest.len() && rest.take(n) =~= first) by {
        if parts.len() > 1 {
            assert(rest == first + seq![sep] + strung(parts.skip(1), seq![sep]));
        }
    }
    assert forall|k: int| from <= k < from + n implies #[trigger] s[k] != sep by {
        assert(parts[0][k - from] != sep);
        assert(rest.take(n)[k - from] == first[k - from]);
    }
    if parts.len() == 1 {
        assert(end == s.len()) by {
            if end < s.len() {
                assert(s[end] != sep);
            }
        }
        assert(s.subrange(from, s.len() as int) =~= first);
        assert(pieces(s, sep, from) =~= parts);
    } else {
        assert(rest[n] == sep);
        assert(s[from + n] == sep);
        assert(end == from + n) by {
            if end < from + n {
                assert(s[end] != sep);
            }
        }
        let others = parts.skip(1);
        assert forall|k: int, m: int|
            0 <= k < others.len() && 0 <= m < others[k].len() implies #[trigger] others[k][m]
            != sep by {
            assert(parts[k + 1][m] != sep);
        }
        assert(s.skip(end + 1) =~= strung(others, seq![sep])) by {
            assert(rest == first + seq![sep] + strung(others, seq![sep]));
            assert(s.skip(end + 1) =~= rest.skip(n + 1));
            assert(rest.skip(n + 1) =~= strung(others, seq![sep]));
        }
        lemma_pieces_from(s, sep, end + 1, others);
        assert(s.subrange(from, end) =~= first);
        assert(pieces(s, sep, from) =~= parts);
    }
}

/// Splitting at the first separator undoes putting it between two texts of which the first does
/// not hold it; a text that does not hold it is not split.
pub proof fn law_split_once_undoes_pairing(
    s: &str,
    sep: char,
    left: Seq<char>,
    right: Seq<char>,
    res: Option<(String, String)>,
)
    requires
        call_ensures(split_once, (s, sep), res),
    ensures
        !left.contains(sep) && s@ == left + seq![sep] + right ==> (res matches Some(pair)
            && pair.0@ == left && pair.1@ == right),
        !s@.contains(sep) ==> res is None,
        call_requires(split_once, (s, sep)),
{
    lemma_halves_of_pair(s@, sep, left, right);
}

/// The halves of a text are the two that it was put together from.
pub proof fn lemma_halves_of_pair(s: Seq<char>, sep: char, left: Seq<char>, right: Seq<char>)
    ensures
        !left.contains(sep) && s == left + seq![sep] + right ==> halves(s, sep) == Some(
            (left, right),
        ),
        !s.contains(sep) ==> halves(s, sep) is None,
{
    let end = find_char(s, sep, 0);
    lemma_find_char(s, sep, 0);
    if !left.contains(sep) && s == left + seq![sep] + right {
        let n = left.len() as int;
        assert(s[n] == sep);
        assert(end == n) by {
            if end < n {
                assert(left[end] == sep);
            }
        }
        assert(s.take(end) =~= left);
        assert(s.skip(end + 1) =~= right);
    }
}

/// Texts are joined in order with the separator between each two, from the given one on.
pub proof fn law_join_strings_together(list: &[String], from: usize, sep: &str, out: String)
    requires
        from <= list@.len(),
        call_ensures(join_from, (list, from, sep), out),
    ensures
        out@ == strung(Seq::new((list@.len() - from) as nat, |k: int| list@[from + k]@), sep@),
        call_requires(join_from, (list, from, sep)),
{
    let all = Seq::new((list@.len() - from) as nat, |k: int| list@[from + k]@);
    assert(texts(list@.skip(from as int)) =~= all);
    lemma_joined_is_strung(all, sep@);
}

/// Joining from the back and stringing from the front give one text.
pub proof fn lemma_joined_is_strung(list: Seq<Seq<char>>, sep: Seq<char>)
    ensures
        joined(list, sep) == strung(list, sep),
    decreases list.len(),
{
    if list.len() > 1 {
        let rest = list.skip(1);
        lemma_joined_is_strung(rest, sep);
        lemma_joined_front(list[0], rest, sep);
        assert(seq![list[0]] + rest =~= list);
    }
}

/// The code points that Unicode gives the property White_Space.
pub open spec fn white_code_point(p: int) -> bool {
    ||| 9 <= p <= 13
    ||| p == 32
    ||| p == 133
    ||| p == 160
    ||| p == 5760
    ||| 8192 <= p <= 8202
    ||| p == 8232 || p == 8233
    ||| p == 8239
    ||| p == 8287
    ||| p == 12288
}

/// White space is what Unicode counts as such.
pub proof fn law_white_space_by_code_point(c: char, b: bool)
    requires
        call_ensures(is_white_space, (c,), b),
    ensures
        b <==> white_code_point(c as int),
        call_requires(is_white_space, (c,)),
{
}

/// Every character of `s` is white space.
pub open spec fn blank(s: Seq<char>) -> bool {
    forall|k: int| 0 <= k < s.len() ==> white_code_point(#[trigger] s[k] as int)
}

/// `s` is not empty and none of its characters is white space.
pub open spec fn solid(s: Seq<char>) -> bool {
    s.len() > 0 && forall|k: int| 0 <= k < s.len() ==> !white_code_point(#[trigger] s[k] as int)
}

/// Words with gaps before, between and behind them.
pub open spec fn spaced(gaps: Seq<Seq<char>>, words: Seq<Seq<char>>) -> Seq<char>
    decreases words.len(),
{
    if words.len() == 0 {
        gaps[0]
    } else {
        gaps[0] + words[0] + spaced(gaps.skip(1), words.skip(1))
    }
}

/// `gaps` can stand around `words`: white space only, and some of it between each two words.
pub open spec fn gaps_fit(gaps: Seq<Seq<char>>, words: Seq<Seq<char>>) -> bool {
    &&& gaps.len() == words.len() + 1
    &&& forall|k: int| 0 <= k < words.len() ==> solid(#[trigger] words[k])
    &&& forall|k: int| 0 <= k < gaps.len() ==> blank(#[trigger] gaps[k])
    &&& forall|k: int| 0 < k < words.len() ==> (#[trigger] gaps[k]).len() > 0
}

/// The words of a text are counted from 0, whatever white space stands around them; a text has no
/// further words.
pub proof fn law_words_are_counted(
    s: &str,
    n: usize,
    gaps: Seq<Seq<char>>,
    words: Seq<Seq<char>>,
    res: Option<String>,
)
    requires
        gaps_fit(gaps, words),
        s@ == spaced(gaps, words),
        call_ensures(nth_word, (s, n), res),
    ensures
        n < words.len() ==> (res matches Some(w) && w@ == words[n as int]),
        words.len() <= n ==> res is None,
        call_requires(nth_word, (s, n)),
{
    lemma_word_of_spaced(s@, n as nat, gaps, words);
}

/// The words of a text are the ones that it was put together from.
pub proof fn lemma_word_of_spaced(
    s: Seq<char>,
    n: nat,
    gaps: Seq<Seq<char>>,
    words: Seq<Seq<char>>,
)
    requires
        gaps_fit(gaps, words),
        s == spaced(gaps, words),
    ensures
        n < words.len() ==> word(s, 0, n) == Some(words[n as int]),
        words.len() <= n ==> word(s, 0, n) is None,
{
    assert(s.skip(0) =~= s);
    lemma_word_from(s, 0, n, gaps, words);
}

proof fn lemma_word_from(
    s: Seq<char>,
    from: int,
    n: nat,
    gaps: Seq<Seq<char>>,
    words: Seq<Seq<char>>,
)
    requires
        0 <= from <= s.len(),
        gaps_fit(gaps, words),
        s.skip(from) == spaced(gaps, words),
    ensures
        n < words.len() ==> word(s, from, n) == Some(words[n as int]),
        words.len() <= n ==> word(s, from, n) is None,
    decreases words.len(),
{
    let rest = s.skip(from);
    let start = find_blank(s, false, from);
    lemma_find_blank(s, false, from);
    let gap = gaps[0];
    let g = gap.len() as int;
    assert(blank(gaps[0]));
    assert(g <= rest.len() && rest.take(g) =~= gap) by {
        if words.len() > 0 {
            assert(rest == gap + words[0] + spaced(gaps.skip(1), words.skip(1)));
        }
    }
    assert forall|k: int| from <= k < from + g implies white_space(#[trigger] s[k]) by {
        assert(rest.take(g)[k - from] == gap[k - from]);
        assert(white_code_point(gap[k - from] as int));
    }
    if words.len() == 0 {
        assert(start == s.len());
    } else {
        let first = words[0];
        let w = first.len() as int;
        let more = spaced(gaps.skip(1), words.skip(1));
        assert(solid(words[0]));
        assert(rest == gap + first + more);
        assert forall|k: int| from + g <= k < from + g + w implies !white_space(
            #[trigger] s[k],
        ) by {
            assert(rest[k - from] == first[k - from - g]);
            assert(!white_code_point(first[k - from - g] as int));
        }
        assert(start == from + g) by {
            assert(!white_space(s[from + g]));
            if start < from + g {
                assert(white_space(s[start]));
            }
        }
        let end = find_blank(s, true, start);
        lemma_find_blank(s, true, start);
        lemma_gaps_rest(gaps, words);
        assert(end == start + w) by {
            if end < start + w {
                assert(!white_space(s[end]));
            }
            if start + w < end {
                if words.len() == 1 {
                    assert(blank(gaps[1]));
                    assert(more == gaps[1]);
                    assert(rest[g + w] == gaps[1][0]);
                    assert(white_code_point(gaps[1][0] as int));
                } else {
                    assert(gaps[1].len() > 0 && blank(gaps[1]));
                    assert(more == gaps[1] + words[1] + spaced(
                        gaps.skip(1).skip(1),
                        words.skip(1).skip(1),
                    ));
                    assert(rest[g + w] == gaps[1][0]);
                    assert(white_code_point(gaps[1][0] as int));
                }
                assert(white_space(s[start + w]));
            }
        }
        if n == 0 {
            assert(s.subrange(start, end) =~= rest.subrange(g, g + w));
            assert(rest.subrange(g, g + w) =~= first);
        } else {
            assert(s.skip(end) =~= more) by {
                assert(s.skip(end) =~= rest.skip(g + w));
                assert(rest.skip(g + w) =~= more);
            }
            lemma_word_from(s, end, (n - 1) as nat, gaps.skip(1), words.skip(1));
        }
    }
}

proof fn lemma_gaps_rest(gaps: Seq<Seq<char>>, words: Seq<Seq<char>>)
    requires
        gaps_fit(gaps, words),
        words.len() > 0,
    ensures
        gaps_fit(gaps.skip(1), words.skip(1)),
{
    let gs = gaps.skip(1);
    let ws = words.skip(1);
    assert forall|k: int| 0 <= k < ws.len() implies solid(#[trigger] ws[k]) by {
        assert(solid(words[k + 1]));
    }
    assert forall|k: int| 0 <= k < gs.len() implies blank(#[trigger] gs[k]) by {
        assert(blank(gaps[k + 1]));
    }
    assert forall|k: int| 0 < k < ws.len() implies (#[trigger] gs[k]).len() > 0 by {
        assert(gaps[k + 1].len() > 0);
    }
}

/// Ten to the power `n`.
pub open spec fn tens(n: nat) -> nat
    decreases n,
{
    if n == 0 {
        1
    } else {
        10 * tens((n - 1) as nat)
    }
}

/// What a row of digits is worth: each digit counts ten to the number of digits behind it.
pub open spec fn worth(digits: Seq<char>) -> int
    decreases digits.len(),
{
    if digits.len() == 0 {
        0
    } else {
        (digits[0] as int - 48) * tens((digits.len() - 1) as nat) + worth(digits.skip(1))
    }
}

/// One digit or more, each of code point 48 to 57.
pub open spec fn digits_only(s: Seq<char>) -> bool {
    s.len() > 0 && forall|k: int| 0 <= k < s.len() ==> 48 <= #[trigger] s[k] as int <= 57
}

/// The number that a text spells: digits, behind one plus sign or none.
pub open spec fn spelled(s: Seq<char>) -> Option<int> {
    if digits_only(s) {
        Some(worth(s))
    } else if s.len() > 0 && s[0] == '+' && digits_only(s.skip(1)) {
        Some(worth(s.skip(1)))
    } else {
        None
    }
}

/// A text is read as the number that its digits are worth. One that is worth more than the bound,
/// and one that spells no number, is not read.
pub proof fn law_numbers_are_worth_their_digits(s: &str, max: u64, res: Option<u64>)
    requires
        call_ensures(read_number, (s, max), res),
    ensures
        res matches Some(v) ==> spelled(s@) == Some(v as int) && v <= max,
        res is None ==> (spelled(s@) matches Some(v) ==> max < v),
        call_requires(read_number, (s, max)),
{
    lemma_number_is_spelled(s@, max as int);
}

/// The library's numbers are what the digits are worth.
pub proof fn lemma_number_is_spelled(s: Seq<char>, max: int)
    ensures
        number(s, max) == match spelled(s) {
            Some(v) => if v <= max {
                Some(v)
            } else {
                None
            },
            None => None,
        },
{
    let digits = if s.len() > 0 && s[0] == '+' {
        s.skip(1)
    } else {
        s
    };
    assert(all_digits(digits) && digits.len() > 0 <==> digits_only(digits)) by {
        if all_digits(digits) {
            assert forall|k: int| 0 <= k < digits.len() implies 48 <= #[trigger] digits[k] as int
                <= 57 by {
                assert('0' <= digits[k] <= '9');
            }
        }
        if digits_only(digits) {
            assert forall|k: int| 0 <= k < digits.len() implies '0' <= #[trigger] digits[k]
                <= '9' by {
                assert(48 <= digits[k] as int <= 57);
            }
        }
    }
    if s.len() > 0 && s[0] == '+' {
        assert(!digits_only(s)) by {
            assert(s[0] as int == 43);
        }
    }
    lemma_decimal_is_worth(digits);
}

proof fn lemma_decimal_is_worth(s: Seq<char>)
    ensures
        decimal_value(s) == worth(s),
    decreases s.len(),
{
    if s.len() > 0 {
        lemma_decimal_is_worth(s.drop_last());
        lemma_worth_of_push(s.drop_last(), s.last());
        assert(s.drop_last().push(s.last()) =~= s);
    }
}

proof fn lemma_worth_of_push(s: Seq<char>, c: char)
    ensures
        worth(s.push(c)) == 10 * worth(s) + (c as int - 48),
    decreases s.len(),
{
    let t = s.push(c);
    if s.len() == 0 {
        assert(t.skip(1) =~= Seq::<char>::empty());
        assert(worth(t.skip(1)) == 0);
        assert(tens(0) == 1);
    } else {
        lemma_worth_of_push(s.skip(1), c);
        assert(t.skip(1) =~= s.skip(1).push(c));
        let n = (s.len() - 1) as nat;
        let x = s[0] as int - 48;
        let p = tens(n) as int;
        assert(tens(s.len()) == 10 * p);
        assert(x * (10 * p) == 10 * (x * p)) by (nonlinear_arith);
    }
}

/// A number is written in digits that are worth it, without a sign and without a leading zero.
pub proof fn law_written_number_is_worth_itself(n: u64, s: String)
    requires
        call_ensures(write_number, (n,), s),
    ensures
        digits_only(s@),
        worth(s@) == n,
        s@.len() > 1 ==> s@[0] != '0',
        call_requires(write_number, (n,)),
{
    lemma_decimal_text_is_plain(n as nat);
}

/// The digits of a number are worth it and have no leading zero.
pub proof fn lemma_decimal_text_is_plain(n: nat)
    ensures
        digits_only(decimal_text(n)),
        worth(decimal_text(n)) == n,
        decimal_text(n).len() > 1 ==> decimal_text(n)[0] != '0',
{
    let s = decimal_text(n);
    lemma_decimal_text(n);
    lemma_decimal_is_worth(s);
    lemma_no_leading_zero(n);
    assert forall|k: int| 0 <= k < s.len() implies 48 <= #[trigger] s[k] as int <= 57 by {
        assert('0' <= s[k] <= '9');
    }
}

proof fn lemma_no_leading_zero(n: nat)
    ensures
        decimal_text(n).len() > 0,
        n > 0 ==> decimal_text(n)[0] != '0',
        n < 10 ==> decimal_text(n).len() == 1,
    decreases n,
{
    if n >= 10 {
        lemma_no_leading_zero(n / 10);
        assert(decimal_text(n)[0] == decimal_text(n / 10)[0]);
    }
}

} // verus!
