//! Text: comparing, splitting, joining, and decimal numbers.

use vstd::prelude::*;

verus! {

/// The texts of a list.
pub open spec fn texts(list: Seq<String>) -> Seq<Seq<char>> {
    list.map_values(|t: String| t@)
}

/// The characters of a text, one by one.
pub fn chars_of(s: &str) -> (v: Vec<char>)
    ensures
        v@ == s@,
{
    let mut v: Vec<char> = Vec::new();
    for c in it: s.chars()
        invariant
            v@ == it.seq().take(it.index()),
            it.seq() == s@,
    {
        v.push(c);
    }
    v
}

/// Whether two texts are the same.
pub fn same_text(s: &str, t: &str) -> (b: bool)
    ensures
        b == (s@ == t@),
{
    let a: Vec<char> = chars_of(s);
    let b: Vec<char> = chars_of(t);
    if a.len() != b.len() {
        return false;
    }
    let mut i: usize = 0;
    while i < a.len()
        invariant
            a@ == s@,
            b@ == t@,
            i <= a@.len() == b@.len(),
            forall|k: int| 0 <= k < i ==> a@[k] == b@[k],
        decreases a@.len() - i,
    {
        if a[i] != b[i] {
            return false;
        }
        i = i + 1;
    }
    assert(a@ =~= b@);
    true
}

/// `needle` stands somewhere in `s`.
pub open spec fn contains_text(s: Seq<char>, needle: Seq<char>) -> bool {
    exists|i: int|
        0 <= i <= s.len() - needle.len() && #[trigger] s.subrange(i, i + needle.len()) == needle
}

/// `needle` stands in `s` at `i`.
fn stands_at(s: &Vec<char>, needle: &Vec<char>, i: usize) -> (b: bool)
    requires
        i + needle@.len() <= s@.len(),
    ensures
        b == (s@.subrange(i as int, i + needle@.len()) == needle@),
{
    let ghost sub = s@.subrange(i as int, i + needle@.len());
    let mut k: usize = 0;
    while k < needle.len()
        invariant
            k <= needle@.len(),
            i + needle@.len() <= s@.len(),
            sub == s@.subrange(i as int, i + needle@.len()),
            forall|m: int| 0 <= m < k ==> sub[m] == needle@[m],
        decreases needle@.len() - k,
    {
        assert(s.len() == s@.len());
        if s[i + k] != needle[k] {
            assert(sub[k as int] != needle@[k as int]);
            return false;
        }
        k = k + 1;
    }
    assert(sub =~= needle@);
    true
}

/// Whether `needle` stands somewhere in `s`.
pub fn has_text(s: &str, needle: &str) -> (b: bool)
    ensures
        b == contains_text(s@, needle@),
{
    let a: Vec<char> = chars_of(s);
    let n: Vec<char> = chars_of(needle);
    if a.len() < n.len() {
        return false;
    }
    let last: usize = a.len() - n.len();
    let mut i: usize = 0;
    while i <= last
        invariant
            a@ == s@,
            n@ == needle@,
            last == a@.len() - n@.len(),
            i <= last + 1,
            forall|k: int|
                0 <= k < i ==> #[trigger] s@.subrange(k, k + needle@.len()) != needle@,
        decreases last + 1 - i,
    {
        if stands_at(&a, &n, i) {
            return true;
        }
        if i == last {
            return false;
        }
        i = i + 1;
    }
    false
}

/// `s` starts with `prefix`.
pub open spec fn starts_with(s: Seq<char>, prefix: Seq<char>) -> bool {
    prefix.len() <= s.len() && s.take(prefix.len() as int) == prefix
}

/// Whether `s` starts with `prefix`.
pub fn has_prefix(s: &str, prefix: &str) -> (b: bool)
    ensures
        b == starts_with(s@, prefix@),
{
    let a: Vec<char> = chars_of(s);
    let p: Vec<char> = chars_of(prefix);
    p.len() <= a.len() && stands_at(&a, &p, 0)
}

/// The first place from `from` on where `c` stands in `s`; the length of `s` where it does not.
pub open spec fn find_char(s: Seq<char>, c: char, from: int) -> int
    decreases s.len() - from,
{
    if from >= s.len() {
        s.len() as int
    } else if s[from] == c {
        from
    } else {
        find_char(s, c, from + 1)
    }
}

/// `find_char` gives the first place of `c`.
pub proof fn lemma_find_char(s: Seq<char>, c: char, from: int)
    requires
        0 <= from <= s.len(),
    ensures
        from <= find_char(s, c, from) <= s.len(),
        forall|k: int| from <= k < find_char(s, c, from) ==> s[k] != c,
        find_char(s, c, from) < s.len() ==> s[find_char(s, c, from)] == c,
    decreases s.len() - from,
{
    if from < s.len() && s[from] != c {
        lemma_find_char(s, c, from + 1);
    }
}

/// The pieces of `s`, from `from` on, between the separators `sep`.
pub open spec fn pieces(s: Seq<char>, sep: char, from: int) -> Seq<Seq<char>>
    decreases s.len() - from,
    when 0 <= from <= s.len()
{
    let end = find_char(s, sep, from);
    proof {
        lemma_find_char(s, sep, from);
    }
    if end < s.len() {
        seq![s.subrange(from, end)] + pieces(s, sep, end + 1)
    } else {
        seq![s.subrange(from, s.len() as int)]
    }
}

/// Finds the first place of `c` from `from` on.
fn index_of(s: &Vec<char>, c: char, from: usize) -> (i: usize)
    requires
        from <= s@.len(),
    ensures
        i == find_char(s@, c, from as int),
        from <= i <= s@.len(),
{
    let mut i: usize = from;
    while i < s.len() && s[i] != c
        invariant
            from <= i <= s@.len(),
            find_char(s@, c, from as int) == find_char(s@, c, i as int),
        decreases s@.len() - i,
    {
        i = i + 1;
    }
    i
}

/// Splits a text at every `sep`; a text without `sep` is one piece.
pub fn split_text(s: &str, sep: char) -> (list: Vec<String>)
    ensures
        texts(list@) == pieces(s@, sep, 0),
{
    let a: Vec<char> = chars_of(s);
    let mut list: Vec<String> = Vec::new();
    let mut from: usize = 0;
    loop
        invariant
            a@ == s@,
            from <= a@.len(),
            texts(list@) + pieces(s@, sep, from as int) == pieces(s@, sep, 0),
        decreases a@.len() - from,
    {
        let end: usize = index_of(&a, sep, from);
        let piece: String = s.substring_char(from, end).to_owned();
        let ghost before = list@;
        list.push(piece);
        assert(texts(list@) =~= texts(before).push(s@.subrange(from as int, end as int)));
        if end < a.len() {
            assert(texts(list@) + pieces(s@, sep, end + 1) =~= texts(before) + pieces(
                s@,
                sep,
                from as int,
            ));
            from = end + 1;
        } else {
            assert(texts(list@) =~= texts(before) + pieces(s@, sep, from as int));
            return list;
        }
    }
}

/// What stands before and after the first `sep` of `s`; `None` where `s` has no `sep`.
pub open spec fn halves(s: Seq<char>, sep: char) -> Option<(Seq<char>, Seq<char>)> {
    let end = find_char(s, sep, 0);
    if end < s.len() {
        Some((s.take(end), s.skip(end + 1)))
    } else {
        None
    }
}

/// Splits a text at its first `sep`.
pub fn split_once(s: &str, sep: char) -> (res: Option<(String, String)>)
    ensures
        match res {
            Some(pair) => halves(s@, sep) == Some((pair.0@, pair.1@)),
            None => halves(s@, sep) is None,
        },
{
    let a: Vec<char> = chars_of(s);
    let end: usize = index_of(&a, sep, 0);
    if end < a.len() {
        let left: String = s.substring_char(0, end).to_owned();
        let right: String = s.substring_char(end + 1, a.len()).to_owned();
        assert(left@ =~= s@.take(end as int));
        assert(right@ =~= s@.skip(end + 1));
        Some((left, right))
    } else {
        None
    }
}

/// The texts of `list` in a row, with `sep` between each two.
pub open spec fn joined(list: Seq<Seq<char>>, sep: Seq<char>) -> Seq<char>
    decreases list.len(),
{
    if list.len() == 0 {
        Seq::empty()
    } else if list.len() == 1 {
        list[0]
    } else {
        joined(list.drop_last(), sep) + sep + list.last()
    }
}

/// Joins the texts from `list[from]` on with `sep` between each two.
pub fn join_from(list: &[String], from: usize, sep: &str) -> (s: String)
    requires
        from <= list@.len(),
    ensures
        s@ == joined(texts(list@.skip(from as int)), sep@),
{
    let mut s: String = String::new();
    let n: usize = list.len();
    let mut i: usize = from;
    let ghost all = texts(list@.skip(from as int));
    assert(all.take(0) =~= Seq::<Seq<char>>::empty());
    while i < n
        invariant
            from <= i <= n,
            n == list@.len(),
            all == texts(list@.skip(from as int)),
            s@ == joined(all.take(i - from), sep@),
        decreases n - i,
    {
        assert(all[i - from] == list@[i as int]@);
        assert(all.take(i - from + 1).drop_last() =~= all.take(i - from));
        if i > from {
            s.append(sep);
        }
        s.append(list[i].as_str());
        i = i + 1;
    }
    assert(all.take(n - from) =~= all);
    s
}

/// A character that Unicode counts as white space.
pub open spec fn white_space(c: char) -> bool {
    ||| '\u{9}' <= c <= '\u{d}'
    ||| c == ' '
    ||| c == '\u{85}'
    ||| c == '\u{a0}'
    ||| c == '\u{1680}'
    ||| '\u{2000}' <= c <= '\u{200a}'
    ||| c == '\u{2028}'
    ||| c == '\u{2029}'
    ||| c == '\u{202f}'
    ||| c == '\u{205f}'
    ||| c == '\u{3000}'
}

/// Whether Unicode counts a character as white space.
pub fn is_white_space(c: char) -> (b: bool)
    ensures
        b == white_space(c),
{
    ('\u{9}' <= c && c <= '\u{d}') || c == ' ' || c == '\u{85}' || c == '\u{a0}' || c == '\u{1680}'
        || ('\u{2000}' <= c && c <= '\u{200a}') || c == '\u{2028}' || c == '\u{2029}' || c
        == '\u{202f}' || c == '\u{205f}' || c == '\u{3000}'
}

/// The first place from `from` on where white space stands (`blank`) or does not; the length of
/// `s` where there is none.
pub open spec fn find_blank(s: Seq<char>, blank: bool, from: int) -> int
    decreases s.len() - from,
{
    if from >= s.len() {
        s.len() as int
    } else if white_space(s[from]) == blank {
        from
    } else {
        find_blank(s, blank, from + 1)
    }
}

/// The word with number `n`, counted from 0, among the words of `s` from `from` on. Words are
/// the stretches without white space.
pub open spec fn word(s: Seq<char>, from: int, n: nat) -> Option<Seq<char>>
    decreases n,
{
    let start = find_blank(s, false, from);
    let end = find_blank(s, true, start);
    if start >= s.len() {
        None
    } else if n == 0 {
        Some(s.subrange(start, end))
    } else {
        word(s, end, (n - 1) as nat)
    }
}

/// Finds the first place from `from` on where white space stands (`blank`) or does not.
fn index_of_blank(s: &Vec<char>, blank: bool, from: usize) -> (i: usize)
    requires
        from <= s@.len(),
    ensures
        i == find_blank(s@, blank, from as int),
        from <= i <= s@.len(),
{
    let mut i: usize = from;
    while i < s.len() && is_white_space(s[i]) != blank
        invariant
            from <= i <= s@.len(),
            find_blank(s@, blank, from as int) == find_blank(s@, blank, i as int),
        decreases s@.len() - i,
    {
        i = i + 1;
    }
    i
}

/// The word with number `n`, counted from 0.
pub fn nth_word(s: &str, n: usize) -> (res: Option<String>)
    ensures
        match res {
            Some(w) => word(s@, 0, n as nat) == Some(w@),
            None => word(s@, 0, n as nat) is None,
        },
{
    let a: Vec<char> = chars_of(s);
    let mut from: usize = 0;
    let mut left: usize = n;
    loop
        invariant
            a@ == s@,
            from <= a@.len(),
            left <= n,
            word(s@, 0, n as nat) == word(s@, from as int, left as nat),
        decreases left,
    {
        let start: usize = index_of_blank(&a, false, from);
        if start >= a.len() {
            return None;
        }
        let end: usize = index_of_blank(&a, true, start);
        if left == 0 {
            return Some(s.substring_char(start, end).to_owned());
        }
        from = end;
        left = left - 1;
    }
}

/// The value of a decimal digit.
pub open spec fn digit_value(c: char) -> int {
    c as int - '0' as int
}

/// Every character of `s` is one of the digits 0 to 9.
pub open spec fn all_digits(s: Seq<char>) -> bool {
    forall|i: int| 0 <= i < s.len() ==> '0' <= #[trigger] s[i] <= '9'
}

/// The number that a row of decimal digits spells.
pub open spec fn decimal_value(s: Seq<char>) -> int
    decreases s.len(),
{
    if s.len() == 0 {
        0
    } else {
        10 * decimal_value(s.drop_last()) + digit_value(s.last())
    }
}

/// The number that a text spells in decimal: one digit or more, behind a plus sign or not, and
/// no larger than `max`. Any other text spells none.
pub open spec fn number(s: Seq<char>, max: int) -> Option<int> {
    let digits = if s.len() > 0 && s[0] == '+' {
        s.skip(1)
    } else {
        s
    };
    if digits.len() > 0 && all_digits(digits) && decimal_value(digits) <= max {
        Some(decimal_value(digits))
    } else {
        None
    }
}

/// More digits never make a number smaller.
proof fn lemma_decimal_grows(s: Seq<char>, i: int)
    requires
        all_digits(s),
        0 <= i <= s.len(),
    ensures
        0 <= decimal_value(s.take(i)) <= decimal_value(s),
    decreases s.len(),
{
    if i == s.len() {
        assert(s.take(i) =~= s);
        if s.len() > 0 {
            lemma_decimal_grows(s.drop_last(), s.len() - 1);
            assert(s.drop_last().take(s.len() - 1) =~= s.drop_last());
            assert('0' <= s[s.len() - 1]);
        }
    } else {
        lemma_decimal_grows(s.drop_last(), i);
        assert(s.drop_last().take(i) =~= s.take(i));
        assert('0' <= s[s.len() - 1]);
    }
}

/// Reads a decimal number of at most `max`.
pub fn read_number(s: &str, max: u64) -> (res: Option<u64>)
    ensures
        match res {
            Some(v) => number(s@, max as int) == Some(v as int),
            None => number(s@, max as int) is None,
        },
{
    let a: Vec<char> = chars_of(s);
    let first: usize = if a.len() > 0 && a[0] == '+' {
        1
    } else {
        0
    };
    let ghost digits = s@.skip(first as int);
    assert(first == 0 ==> digits =~= s@);
    if a.len() == first {
        return None;
    }
    let mut v: u64 = 0;
    let mut i: usize = first;
    assert(digits.take(0) =~= Seq::<char>::empty());
    while i < a.len()
        invariant
            a@ == s@,
            digits == s@.skip(first as int),
            number(s@, max as int) == if all_digits(digits) && decimal_value(digits) <= max {
                Some(decimal_value(digits))
            } else {
                None
            },
            first <= i <= a@.len(),
            forall|k: int| 0 <= k < i - first ==> '0' <= #[trigger] digits[k] <= '9',
            v == decimal_value(digits.take(i - first)),
            v <= max,
        decreases a@.len() - i,
    {
        let c: char = a[i];
        assert(c == digits[i - first]);
        if c < '0' || c > '9' {
            return None;
        }
        let value: u64 = c as u64 - '0' as u64;
        assert(digits.take(i - first + 1).drop_last() =~= digits.take(i - first));
        assert(decimal_value(digits.take(i - first + 1)) == 10 * v + value);
        if value > max || v > (max - value) / 10 {
            proof {
                if all_digits(digits) {
                    lemma_decimal_grows(digits, i - first + 1);
                }
            }
            return None;
        }
        v = 10 * v + value;
        i = i + 1;
    }
    assert(digits.take(i - first) =~= digits);
    Some(v)
}

/// The digits of `n` in decimal, without leading zeros.
pub open spec fn decimal_text(n: nat) -> Seq<char>
    decreases n,
{
    let digit = seq![(('0' as int + n % 10) as char)];
    if n < 10 {
        digit
    } else {
        decimal_text(n / 10) + digit
    }
}

/// Writes a number in decimal.
pub fn write_number(n: u64) -> (s: String)
    ensures
        s@ == decimal_text(n as nat),
    decreases n,
{
    let mut s: String = if n < 10 {
        String::new()
    } else {
        write_number(n / 10)
    };
    let digit: &str = match n % 10 {
        0 => "0",
        1 => "1",
        2 => "2",
        3 => "3",
        4 => "4",
        5 => "5",
        6 => "6",
        7 => "7",
        8 => "8",
        _ => "9",
    };
    proof {
        reveal_strlit("0");
        reveal_strlit("1");
        reveal_strlit("2");
        reveal_strlit("3");
        reveal_strlit("4");
        reveal_strlit("5");
        reveal_strlit("6");
        reveal_strlit("7");
        reveal_strlit("8");
        reveal_strlit("9");
        assert(digit@ =~= seq![(('0' as int + (n as nat) % 10) as char)]);
    }
    s.append(digit);
    s
}

/// The first of several texts comes first, with a separator behind it.
pub proof fn lemma_joined_front(first: Seq<char>, rest: Seq<Seq<char>>, sep: Seq<char>)
    requires
        rest.len() > 0,
    ensures
        joined(seq![first] + rest, sep) == first + sep + joined(rest, sep),
    decreases rest.len(),
{
    let all = seq![first] + rest;
    assert(all.last() == rest.last());
    if rest.len() == 1 {
        assert(all.drop_last() =~= seq![first]);
        assert(joined(all.drop_last(), sep) == first);
        assert(joined(all, sep) == joined(all.drop_last(), sep) + sep + all.last());
    } else {
        assert(all.drop_last() =~= seq![first] + rest.drop_last());
        lemma_joined_front(first, rest.drop_last(), sep);
        assert(joined(all, sep) =~= first + sep + joined(rest, sep));
    }
}

/// Splitting loses nothing: the pieces, joined by the separator, are the text again. There is at
/// least one, and none holds the separator.
pub proof fn law_pieces_join_back(s: Seq<char>, sep: char)
    ensures
        pieces(s, sep, 0).len() >= 1,
        joined(pieces(s, sep, 0), seq![sep]) == s,
        forall|k: int|
            0 <= k < pieces(s, sep, 0).len() ==> !(#[trigger] pieces(s, sep, 0)[k]).contains(sep),
{
    lemma_pieces_join_back(s, sep, 0);
    assert(s.skip(0) =~= s);
}

proof fn lemma_pieces_join_back(s: Seq<char>, sep: char, from: int)
    requires
        0 <= from <= s.len(),
    ensures
        pieces(s, sep, from).len() >= 1,
        joined(pieces(s, sep, from), seq![sep]) == s.skip(from),
        forall|k: int|
            0 <= k < pieces(s, sep, from).len() ==> !(#[trigger] pieces(s, sep, from)[k]).contains(
                sep,
            ),
    decreases s.len() - from,
{
    let end = find_char(s, sep, from);
    lemma_find_char(s, sep, from);
    let first = s.subrange(from, end);
    assert(!first.contains(sep));
    if end < s.len() {
        lemma_pieces_join_back(s, sep, end + 1);
        let rest = pieces(s, sep, end + 1);
        lemma_joined_front(first, rest, seq![sep]);
        assert(s.skip(from) =~= first + seq![sep] + s.skip(end + 1));
        assert forall|k: int| 0 <= k < pieces(s, sep, from).len() implies !(#[trigger] pieces(
            s,
            sep,
            from,
        )[k]).contains(sep) by {
            if k > 0 {
                assert(pieces(s, sep, from)[k] == rest[k - 1]);
            }
        }
    } else {
        assert(first =~= s.skip(from));
        assert(pieces(s, sep, from) =~= seq![first]);
    }
}

/// Splitting at the first separator loses nothing: what stands before it, which holds none, the
/// separator, and what stands after it are the text again.
pub proof fn law_halves_join_back(s: Seq<char>, sep: char, left: Seq<char>, right: Seq<char>)
    requires
        halves(s, sep) == Some((left, right)),
    ensures
        left + seq![sep] + right == s,
        !left.contains(sep),
{
    lemma_find_char(s, sep, 0);
    assert(left + seq![sep] + right =~= s);
}

/// A text has halves exactly where it holds the separator.
pub proof fn law_separator_gives_halves(s: Seq<char>, sep: char)
    ensures
        halves(s, sep) is Some <==> s.contains(sep),
{
    let end = find_char(s, sep, 0);
    lemma_find_char(s, sep, 0);
    if s.contains(sep) {
        let k = choose|k: int| 0 <= k < s.len() && s[k] == sep;
        assert(end <= k);
    } else if end < s.len() {
        assert(s[end] == sep);
    }
}

/// A word is not empty and holds no white space.
pub proof fn law_word_is_solid(s: Seq<char>, n: nat, w: Seq<char>)
    requires
        word(s, 0, n) == Some(w),
    ensures
        w.len() > 0,
        forall|k: int| 0 <= k < w.len() ==> !white_space(#[trigger] w[k]),
{
    lemma_word_is_solid(s, 0, n);
}

/// `find_blank` gives the first place.
pub proof fn lemma_find_blank(s: Seq<char>, blank: bool, from: int)
    requires
        0 <= from <= s.len(),
    ensures
        from <= find_blank(s, blank, from) <= s.len(),
        forall|k: int| from <= k < find_blank(s, blank, from) ==> white_space(#[trigger] s[k])
            != blank,
        find_blank(s, blank, from) < s.len() ==> white_space(s[find_blank(s, blank, from)])
            == blank,
    decreases s.len() - from,
{
    if from < s.len() && white_space(s[from]) != blank {
        lemma_find_blank(s, blank, from + 1);
    }
}

proof fn lemma_word_is_solid(s: Seq<char>, from: int, n: nat)
    requires
        0 <= from <= s.len(),
    ensures
        word(s, from, n) matches Some(w) ==> w.len() > 0 && forall|k: int|
            0 <= k < w.len() ==> !white_space(#[trigger] w[k]),
    decreases n,
{
    let start = find_blank(s, false, from);
    lemma_find_blank(s, false, from);
    if start < s.len() {
        let end = find_blank(s, true, start);
        lemma_find_blank(s, true, start);
        if n > 0 {
            lemma_word_is_solid(s, end, (n - 1) as nat);
        }
    }
}

/// A number that is written in decimal reads back as itself.
pub proof fn law_number_reads_back(n: nat, max: int)
    requires
        n <= max,
    ensures
        number(decimal_text(n), max) == Some(n as int),
{
    lemma_decimal_text(n);
}

/// The digits of a number are digits and spell it.
pub proof fn lemma_decimal_text(n: nat)
    ensures
        decimal_text(n).len() > 0,
        all_digits(decimal_text(n)),
        decimal_value(decimal_text(n)) == n,
    decreases n,
{
    let digit = ('0' as int + n % 10) as char;
    let s = decimal_text(n);
    if n < 10 {
        assert(s =~= seq![digit]);
        assert(s.drop_last() =~= Seq::<char>::empty());
        assert(decimal_value(s.drop_last()) == 0);
    } else {
        lemma_decimal_text(n / 10);
        assert(s.drop_last() =~= decimal_text(n / 10));
    }
}

} // verus!
