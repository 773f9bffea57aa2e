//! Writing numbers and joining text.

use vstd::prelude::*;

verus! {

/// The digit `d` (0 to 9) as a character.
pub open spec fn digit(d: int) -> char {
    if d == 0 {
        '0'
    } else if d == 1 {
        '1'
    } else if d == 2 {
        '2'
    } else if d == 3 {
        '3'
    } else if d == 4 {
        '4'
    } else if d == 5 {
        '5'
    } else if d == 6 {
        '6'
    } else if d == 7 {
        '7'
    } else if d == 8 {
        '8'
    } else {
        '9'
    }
}

/// `n` in decimal, without leading zeros.
pub open spec fn decimal(n: nat) -> Seq<char>
    decreases n,
{
    if n < 10 {
        seq![digit(n as int)]
    } else {
        decimal(n / 10).push(digit((n % 10) as int))
    }
}

/// `n` in decimal, with a minus sign where it is negative.
pub open spec fn signed_decimal(n: int) -> Seq<char> {
    if n < 0 {
        seq!['-'] + decimal((-n) as nat)
    } else {
        decimal(n as nat)
    }
}

fn digit_text(d: u64) -> (s: &'static str)
    requires
        d < 10,
    ensures
        s@ == seq![digit(d as int)],
{
    proof {
        reveal_strlit("0");
        reveal_strlit("1");
        reveal_strlit("2");
        reveal_strlit("3");
        reveal_strlit("4");
        reveal_strlit("5");
        reveal_strlit("6");
        reveal_strlit("7");
        reveal_strlit("8");
        reveal_strlit("9");
    }
    match d {
        0 => "0",
        1 => "1",
        2 => "2",
        3 => "3",
        4 => "4",
        5 => "5",
        6 => "6",
        7 => "7",
        8 => "8",
        _ => "9",
    }
}

/// Appends `n` in decimal.
pub fn push_decimal(s: &mut String, n: u64)
    ensures
        final(s)@ == old(s)@ + decimal(n as nat),
    decreases n,
{
    if n >= 10 {
        push_decimal(s, n / 10);
    }
    s.append(digit_text(n % 10));
    assert(s@ =~= old(s)@ + decimal(n as nat));
}

/// Appends `n` in decimal, with a minus sign where it is negative.
pub fn push_signed(s: &mut String, n: i64)
    requires
        n > i64::MIN,
    ensures
        final(s)@ == old(s)@ + signed_decimal(n as int),
{
    if n < 0 {
        proof {
            reveal_strlit("-");
        }
        s.append("-");
        push_decimal(s, (-n) as u64);
        assert(s@ =~= old(s)@ + signed_decimal(n as int));
    } else {
        push_decimal(s, n as u64);
    }
}

/// `n` in decimal.
pub fn number(n: u64) -> (s: String)
    ensures
        s@ == decimal(n as nat),
{
    let mut s = String::new();
    push_decimal(&mut s, n);
    assert(s@ =~= decimal(n as nat));
    s
}

/// Appends `n` in decimal with its sign, plus or minus.
pub fn push_plus(s: &mut String, n: i64)
    requires
        n > i64::MIN,
    ensures
        final(s)@ == old(s)@ + plus_decimal(n as int),
{
    if n >= 0 {
        proof {
            reveal_strlit("+");
        }
        s.append("+");
        push_decimal(s, n as u64);
        assert(s@ =~= old(s)@ + plus_decimal(n as int));
    } else {
        push_signed(s, n);
    }
}

/// `n` in decimal, always with a sign.
pub open spec fn plus_decimal(n: int) -> Seq<char> {
    if n >= 0 {
        seq!['+'] + decimal(n as nat)
    } else {
        signed_decimal(n)
    }
}

/// The two texts are the same.
pub fn same(a: &str, b: &str) -> (r: bool)
    ensures
        r == (a@ == b@),
{
    a.to_owned() == b.to_owned()
}

/// `c` has the Unicode property White_Space.
pub open spec fn white(c: char) -> bool {
    ||| '\u{9}' <= c <= '\u{d}'
    ||| c == ' '
    ||| c == '\u{85}'
    ||| c == '\u{a0}'
    ||| c == '\u{1680}'
    ||| '\u{2000}' <= c <= '\u{200a}'
    ||| c == '\u{2028}'
    ||| c == '\u{2029}'
    ||| c == '\u{202f}'
    ||| c == '\u{205f}'
    ||| c == '\u{3000}'
}

fn is_white(c: char) -> (r: bool)
    ensures
        r == white(c),
{
    ('\u{9}' <= c && c <= '\u{d}') || c == ' ' || c == '\u{85}' || c == '\u{a0}' || c
        == '\u{1680}' || ('\u{2000}' <= c && c <= '\u{200a}') || c == '\u{2028}' || c
        == '\u{2029}' || c == '\u{202f}' || c == '\u{205f}' || c == '\u{3000}'
}

/// `s` from its first character that is not white space.
pub open spec fn trimmed_front(s: Seq<char>) -> Seq<char>
    decreases s.len(),
{
    if s.len() > 0 && white(s[0]) {
        trimmed_front(s.skip(1))
    } else {
        s
    }
}

/// `s` up to its last character that is not white space.
pub open spec fn trimmed_back(s: Seq<char>) -> Seq<char>
    decreases s.len(),
{
    if s.len() > 0 && white(s.last()) {
        trimmed_back(s.drop_last())
    } else {
        s
    }
}

/// `s` without white space at either end.
pub open spec fn trimmed(s: Seq<char>) -> Seq<char> {
    trimmed_back(trimmed_front(s))
}

/// The text without white space at either end.
pub fn trim(s: &str) -> (t: &str)
    ensures
        t@ == trimmed(s@),
{
    let n: usize = s.unicode_len();
    let mut from: usize = 0;
    assert(s@.skip(0) =~= s@);
    while from < n && is_white(s.get_char(from))
        invariant
            from <= n == s@.len(),
            trimmed_front(s@) == trimmed_front(s@.skip(from as int)),
        decreases n - from,
    {
        assert(s@.skip(from as int).skip(1) =~= s@.skip(from + 1));
        from = from + 1;
    }
    assert(trimmed_front(s@) == s@.skip(from as int));
    let mut to: usize = n;
    assert(s@.subrange(from as int, n as int) =~= s@.skip(from as int));
    while to > from && is_white(s.get_char(to - 1))
        invariant
            from <= to <= n == s@.len(),
            trimmed(s@) == trimmed_back(s@.subrange(from as int, to as int)),
        decreases to,
    {
        assert(s@.subrange(from as int, to as int).drop_last() =~= s@.subrange(
            from as int,
            to - 1,
        ));
        to = to - 1;
    }
    s.substring_char(from, to)
}

/// Where white space first stands in `s`, or the length of `s`.
pub open spec fn first_white(s: Seq<char>) -> int
    decreases s.len(),
{
    if s.len() == 0 || white(s[0]) {
        0
    } else {
        1 + first_white(s.skip(1))
    }
}

/// Splits at the first white space: what stands before it, and what after.
pub fn split_white(s: &str) -> (parts: (&str, Option<&str>))
    ensures
        parts.0@ == s@.take(first_white(s@)),
        match parts.1 {
            Some(rest) => first_white(s@) < s@.len() && rest@ == s@.skip(first_white(s@) + 1),
            None => first_white(s@) == s@.len(),
        },
{
    let n: usize = s.unicode_len();
    let mut i: usize = 0;
    assert(s@.skip(0) =~= s@);
    while i < n && !is_white(s.get_char(i))
        invariant
            i <= n == s@.len(),
            first_white(s@) == i + first_white(s@.skip(i as int)),
        decreases n - i,
    {
        assert(s@.skip(i as int).skip(1) =~= s@.skip(i + 1));
        i = i + 1;
    }
    let before = s.substring_char(0, i);
    assert(before@ =~= s@.take(i as int));
    if i < n {
        let after = s.substring_char(i + 1, n);
        assert(after@ =~= s@.skip(i + 1));
        (before, Some(after))
    } else {
        (before, None)
    }
}

/// Where `c` first stands in `s`, or the length of `s`.
pub open spec fn first_of(s: Seq<char>, c: char) -> int
    decreases s.len(),
{
    if s.len() == 0 || s[0] == c {
        0
    } else {
        1 + first_of(s.skip(1), c)
    }
}

/// `s` cut at every `c`.
pub open spec fn cut(s: Seq<char>, c: char) -> Seq<Seq<char>>
    decreases s.len(),
{
    let i = first_of(s, c);
    if 0 <= i < s.len() {
        seq![s.take(i)] + cut(s.skip(i + 1), c)
    } else {
        seq![s]
    }
}

/// Splits at the first `c`: what stands before it, and what after.
pub fn split_once(s: &str, c: char) -> (parts: (&str, Option<&str>))
    ensures
        0 <= first_of(s@, c) <= s@.len(),
        parts.0@ == s@.take(first_of(s@, c)),
        match parts.1 {
            Some(rest) => first_of(s@, c) < s@.len() && rest@ == s@.skip(first_of(s@, c) + 1),
            None => first_of(s@, c) == s@.len(),
        },
{
    let n: usize = s.unicode_len();
    let mut i: usize = 0;
    assert(s@.skip(0) =~= s@);
    while i < n && s.get_char(i) != c
        invariant
            i <= n == s@.len(),
            first_of(s@, c) == i + first_of(s@.skip(i as int), c),
        decreases n - i,
    {
        assert(s@.skip(i as int).skip(1) =~= s@.skip(i + 1));
        i = i + 1;
    }
    let before = s.substring_char(0, i);
    assert(before@ =~= s@.take(i as int));
    if i < n {
        let after = s.substring_char(i + 1, n);
        assert(after@ =~= s@.skip(i + 1));
        (before, Some(after))
    } else {
        (before, None)
    }
}

/// The texts one by one.
pub open spec fn texts(parts: Seq<&str>) -> Seq<Seq<char>> {
    Seq::new(parts.len(), |i: int| parts[i]@)
}

/// Splits at every `c`.
pub fn split<'a>(s: &'a str, c: char) -> (parts: Vec<&'a str>)
    ensures
        texts(parts@) == cut(s@, c),
        parts@.len() >= 1,
{
    let mut parts: Vec<&'a str> = Vec::new();
    let mut rest: &'a str = s;
    assert(texts(parts@) + cut(rest@, c) =~= cut(s@, c));
    loop
        invariant_except_break
            texts(parts@) + cut(rest@, c) == cut(s@, c),
        ensures
            texts(parts@) == cut(s@, c),
            parts@.len() >= 1,
        decreases rest@.len(),
    {
        let (head, tail) = split_once(rest, c);
        let ghost before = parts@;
        parts.push(head);
        assert(texts(parts@) =~= texts(before).push(head@));
        match tail {
            Some(t) => {
                assert(cut(rest@, c) =~= seq![head@] + cut(t@, c));
                assert(texts(parts@) + cut(t@, c) =~= texts(before) + cut(rest@, c));
                rest = t;
            },
            None => {
                assert(head@ =~= rest@);
                assert(cut(rest@, c) =~= seq![rest@]);
                assert(texts(parts@) =~= texts(before) + cut(rest@, c));
                break;
            },
        }
    }
    parts
}

/// The value of a digit.
pub open spec fn digit_value(c: char) -> Option<nat> {
    if '0' <= c <= '9' {
        Some((c as int - '0' as int) as nat)
    } else {
        None
    }
}

/// The number that a run of digits stands for.
pub open spec fn digits_value(s: Seq<char>) -> Option<nat>
    decreases s.len(),
{
    if s.len() == 0 {
        Some(0)
    } else {
        match (digits_value(s.drop_last()), digit_value(s.last())) {
            (Some(n), Some(d)) => Some(10 * n + d),
            _ => None,
        }
    }
}

/// The number that `s` stands for: digits, at least one, after an optional plus
/// sign.
pub open spec fn number_in(s: Seq<char>) -> Option<nat> {
    let digits = if s.len() > 0 && s[0] == '+' {
        s.skip(1)
    } else {
        s
    };
    if digits.len() == 0 {
        None
    } else {
        digits_value(digits)
    }
}

fn digit_of(c: char) -> (d: Option<u64>)
    ensures
        match d {
            Some(v) => v < 10 && digit_value(c) == Some(v as nat),
            None => digit_value(c) is None,
        },
{
    if '0' <= c && c <= '9' {
        Some((c as u32 - '0' as u32) as u64)
    } else {
        None
    }
}

/// A run of digits whose first part is no number, or too large, stays so.
proof fn long_digits_grow(s: Seq<char>, i: int, max: u64)
    requires
        0 <= i <= s.len(),
        match digits_value(s.take(i)) {
            Some(n) => n > max,
            None => true,
        },
    ensures
        match digits_value(s) {
            Some(n) => n > max,
            None => true,
        },
    decreases s.len() - i,
{
    if i == s.len() {
        assert(s.take(i) =~= s);
    } else {
        assert(s.take(i + 1).drop_last() =~= s.take(i));
        long_digits_grow(s, i + 1, max);
    }
}

/// Reads a number of at most `max`.
pub fn parse_number(s: &str, max: u64) -> (r: Option<u64>)
    ensures
        match r {
            Some(n) => number_in(s@) == Some(n as nat) && n <= max,
            None => number_in(s@) matches Some(n) ==> n > max,
        },
{
    let n: usize = s.unicode_len();
    let from: usize = if n > 0 && s.get_char(0) == '+' {
        1
    } else {
        0
    };
    if from == n {
        return None;
    }
    let ghost digits = s@.skip(from as int);
    assert(s@.skip(0) =~= s@);
    let mut value: u64 = 0;
    let mut i: usize = from;
    assert(digits.take(0) =~= Seq::<char>::empty());
    while i < n
        invariant
            from <= i <= n == s@.len(),
            digits == s@.skip(from as int),
            value <= max,
            digits_value(digits.take(i - from)) == Some(value as nat),
            number_in(s@) == digits_value(digits),
        decreases n - i,
    {
        let c = s.get_char(i);
        proof {
            assert(digits.take(i - from + 1).drop_last() =~= digits.take(i - from));
            assert(digits.take(i - from + 1).last() == c);
        }
        match digit_of(c) {
            Some(d) => {
                if value as u128 * 10 + d as u128 > max as u128 {
                    proof {
                        long_digits_grow(digits, i - from + 1, max);
                    }
                    return None;
                }
                value = value * 10 + d;
            },
            None => {
                proof {
                    long_digits_grow(digits, i - from + 1, max);
                }
                return None;
            },
        }
        i = i + 1;
    }
    assert(digits.take(n - from) =~= digits);
    Some(value)
}

/// A number that was written out reads back as itself.
pub proof fn numbers_read_back(n: nat)
    ensures
        number_in(decimal(n)) == Some(n),
    decreases n,
{
    digits_read_back(n);
}

/// A written number has a digit at each end: nothing of it is white space.
pub proof fn decimal_is_digits(n: nat)
    ensures
        decimal(n).len() > 0,
        !white(decimal(n)[0]),
        !white(decimal(n).last()),
    decreases n,
{
    if n >= 10 {
        decimal_is_digits(n / 10);
    }
}

proof fn digits_read_back(n: nat)
    ensures
        decimal(n).len() > 0,
        decimal(n)[0] != '+',
        digits_value(decimal(n)) == Some(n),
    decreases n,
{
    if n < 10 {
        assert(decimal(n).drop_last() =~= Seq::<char>::empty());
        reveal_with_fuel(digits_value, 2);
    } else {
        digits_read_back(n / 10);
        assert(decimal(n).drop_last() =~= decimal(n / 10));
    }
}

/// `s` right-aligned in a field of `width` characters.
pub open spec fn right(s: Seq<char>, width: int) -> Seq<char> {
    if s.len() < width {
        Seq::new((width - s.len()) as nat, |i: int| ' ') + s
    } else {
        s
    }
}

/// `s` left-aligned in a field of `width` characters.
pub open spec fn left(s: Seq<char>, width: int) -> Seq<char> {
    if s.len() < width {
        s + Seq::new((width - s.len()) as nat, |i: int| ' ')
    } else {
        s
    }
}

fn push_spaces(s: &mut String, n: usize)
    ensures
        final(s)@ == old(s)@ + Seq::new(n as nat, |i: int| ' '),
{
    let ghost before = s@;
    let mut k: usize = 0;
    assert(before + Seq::new(0, |i: int| ' ') =~= before);
    while k < n
        invariant
            k <= n,
            s@ == before + Seq::new(k as nat, |i: int| ' '),
        decreases n - k,
    {
        proof {
            reveal_strlit(" ");
        }
        s.append(" ");
        k = k + 1;
        assert(s@ =~= before + Seq::new(k as nat, |i: int| ' '));
    }
}

/// Appends `t`, right-aligned in a field of `width` characters.
pub fn push_right(s: &mut String, t: &str, width: usize)
    ensures
        final(s)@ == old(s)@ + right(t@, width as int),
{
    let n: usize = t.unicode_len();
    if n < width {
        push_spaces(s, width - n);
    }
    s.append(t);
    assert(s@ =~= old(s)@ + right(t@, width as int));
}

/// Appends `t`, left-aligned in a field of `width` characters.
pub fn push_left(s: &mut String, t: &str, width: usize)
    ensures
        final(s)@ == old(s)@ + left(t@, width as int),
{
    let n: usize = t.unicode_len();
    s.append(t);
    if n < width {
        push_spaces(s, width - n);
    }
    assert(s@ =~= old(s)@ + left(t@, width as int));
}

/// `parts` in a row, with `sep` between them.
pub open spec fn joined(parts: Seq<Seq<char>>, sep: Seq<char>) -> Seq<char>
    decreases parts.len(),
{
    if parts.len() == 0 {
        Seq::empty()
    } else if parts.len() == 1 {
        parts[0]
    } else {
        joined(parts.drop_last(), sep) + sep + parts.last()
    }
}

/// `t` written `n` times.
pub open spec fn repeated(t: Seq<char>, n: int) -> Seq<char>
    decreases n,
{
    if n <= 0 {
        Seq::empty()
    } else {
        repeated(t, n - 1) + t
    }
}

/// Appends `t` `n` times.
pub fn push_repeated(s: &mut String, t: &str, n: usize)
    ensures
        final(s)@ == old(s)@ + repeated(t@, n as int),
{
    let ghost before = s@;
    let mut k: usize = 0;
    assert(before + repeated(t@, 0) =~= before);
    while k < n
        invariant
            k <= n,
            s@ == before + repeated(t@, k as int),
        decreases n - k,
    {
        s.append(t);
        k = k + 1;
        assert(s@ =~= before + repeated(t@, k as int));
    }
}

/// The text in lower case, as [`str::to_lowercase`] gives it.
pub uninterp spec fn lowercased(s: Seq<char>) -> Seq<char>;

/// Calls `str::to_lowercase`. The result is a function of the text alone.
#[verifier::external_body]
pub(crate) fn to_lowercase(s: &str) -> (t: String)
    ensures
        t@ == lowercased(s@),
{
    s.to_lowercase()
}

/// The lines one by one.
pub open spec fn lines(log: Seq<String>) -> Seq<Seq<char>> {
    Seq::new(log.len(), |i: int| log[i]@)
}

/// Appends a line.
pub fn push_line(log: &mut Vec<String>, line: String)
    ensures
        lines(final(log)@) == lines(old(log)@).push(line@),
{
    log.push(line);
    assert(lines(log@) =~= lines(old(log)@).push(line@));
}

/// White space first stands where [`first_white`] says: there is none before.
pub proof fn white_is_found(s: Seq<char>)
    ensures
        0 <= first_white(s) <= s.len(),
        forall|i: int| 0 <= i < first_white(s) ==> !white(#[trigger] s[i]),
        first_white(s) < s.len() ==> white(s[first_white(s)]),
    decreases s.len(),
{
    if s.len() > 0 && !white(s[0]) {
        white_is_found(s.skip(1));
        assert forall|i: int| 0 <= i < first_white(s) implies !white(#[trigger] s[i]) by {
            if i > 0 {
                assert(s.skip(1)[i - 1] == s[i]);
            }
        }
        if first_white(s) < s.len() {
            assert(s.skip(1)[first_white(s) - 1] == s[first_white(s)]);
        }
    }
}

/// A text without white space is one word.
pub proof fn words_have_no_white(s: Seq<char>)
    requires
        forall|i: int| 0 <= i < s.len() ==> !white(#[trigger] s[i]),
    ensures
        first_white(s) == s.len(),
        s.take(first_white(s)) == s,
{
    white_is_found(s);
    assert(s.take(s.len() as int) =~= s);
}

/// A word, a space and the rest come apart again.
pub proof fn word_before_space(word: Seq<char>, rest: Seq<char>)
    requires
        forall|i: int| 0 <= i < word.len() ==> !white(#[trigger] word[i]),
    ensures
        ({
            let s = word + seq![' '] + rest;
            &&& first_white(s) == word.len()
            &&& s.take(word.len() as int) == word
            &&& s.skip(word.len() as int + 1) == rest
        }),
{
    let s = word + seq![' '] + rest;
    white_is_found(s);
    assert(s[word.len() as int] == ' ');
    assert(forall|i: int| 0 <= i < word.len() ==> #[trigger] s[i] == word[i]);
    assert(s.take(word.len() as int) =~= word);
    assert(s.skip(word.len() as int + 1) =~= rest);
}

/// Trimming takes away white space at the ends, all of it and nothing else: what is left
/// stands in the text, begins and ends with something else, and has only white space
/// around it. Returns where it stands.
pub proof fn trimming_takes_white_space(s: Seq<char>) -> (from: int)
    ensures
        0 <= from <= from + trimmed(s).len() <= s.len(),
        trimmed(s) == s.subrange(from, from + trimmed(s).len()),
        forall|i: int| 0 <= i < from ==> white(#[trigger] s[i]),
        forall|i: int| from + trimmed(s).len() <= i < s.len() ==> white(#[trigger] s[i]),
        trimmed(s).len() > 0 ==> !white(trimmed(s)[0]) && !white(trimmed(s).last()),
{
    let from = front_trimmed(s);
    let f = trimmed_front(s);
    back_trimmed(f);
    assert(trimmed(s) =~= s.subrange(from, from + trimmed(s).len()));
    assert forall|i: int| from + trimmed(s).len() <= i < s.len() implies white(
        #[trigger] s[i],
    ) by {
        assert(f[i - from] == s[i]);
    }
    from
}

proof fn front_trimmed(s: Seq<char>) -> (from: int)
    ensures
        0 <= from <= s.len(),
        trimmed_front(s) == s.skip(from),
        forall|i: int| 0 <= i < from ==> white(#[trigger] s[i]),
        from < s.len() ==> !white(s[from]),
    decreases s.len(),
{
    if s.len() > 0 && white(s[0]) {
        let t = s.skip(1);
        let from = front_trimmed(t);
        assert(t.skip(from) =~= s.skip(from + 1));
        assert forall|i: int| 0 <= i < from + 1 implies white(#[trigger] s[i]) by {
            if i > 0 {
                assert(t[i - 1] == s[i]);
            }
        }
        from + 1
    } else {
        assert(s.skip(0) =~= s);
        0
    }
}

proof fn back_trimmed(s: Seq<char>)
    ensures
        trimmed_back(s).len() <= s.len(),
        trimmed_back(s) == s.take(trimmed_back(s).len() as int),
        forall|i: int| trimmed_back(s).len() <= i < s.len() ==> white(#[trigger] s[i]),
        trimmed_back(s).len() > 0 ==> !white(trimmed_back(s).last()),
    decreases s.len(),
{
    if s.len() > 0 && white(s.last()) {
        let t = s.drop_last();
        back_trimmed(t);
        assert(t.take(trimmed_back(t).len() as int) =~= s.take(trimmed_back(t).len() as int));
        assert forall|i: int| trimmed_back(s).len() <= i < s.len() implies white(
            #[trigger] s[i],
        ) by {
            if i < s.len() - 1 {
                assert(t[i] == s[i]);
            }
        }
    } else {
        assert(s.take(s.len() as int) =~= s);
    }
}

/// A text with neither end white stays as it is.
pub proof fn nothing_to_trim(s: Seq<char>)
    requires
        s.len() > 0 ==> !white(s[0]) && !white(s.last()),
    ensures
        trimmed(s) == s,
{
}

/// There is nothing to trim at a written number.
pub proof fn number_is_trimmed(n: nat)
    ensures
        trimmed(decimal(n)) == decimal(n),
{
    decimal_is_digits(n);
    nothing_to_trim(decimal(n));
}

/// A written number has no leading zero but in zero itself, and its digits are those of
/// the number: the last one is its remainder by ten, the others are the rest.
pub proof fn decimals_are_positional(n: nat)
    ensures
        decimal(n).len() > 0,
        decimal(n).last() as int == '0' as int + n % 10,
        n < 10 ==> decimal(n).len() == 1,
        n >= 10 ==> decimal(n).drop_last() == decimal(n / 10),
        n > 0 ==> decimal(n)[0] != '0',
    decreases n,
{
    if n >= 10 {
        decimals_are_positional(n / 10);
        assert(decimal(n).drop_last() =~= decimal(n / 10));
        assert(decimal(n)[0] == decimal(n / 10)[0]);
    }
}

/// A written number holds digits alone.
pub proof fn digits_have_no(n: nat, c: char)
    requires
        !('0' <= c <= '9'),
    ensures
        forall|i: int| 0 <= i < decimal(n).len() ==> #[trigger] decimal(n)[i] != c,
    decreases n,
{
    if n >= 10 {
        digits_have_no(n / 10, c);
        assert forall|i: int| 0 <= i < decimal(n).len() implies #[trigger] decimal(n)[i] != c by {
            if i < decimal(n / 10).len() {
                assert(decimal(n)[i] == decimal(n / 10)[i]);
            }
        }
    }
}

/// `c` first stands where [`first_of`] says: not before.
pub proof fn character_is_found(s: Seq<char>, c: char)
    ensures
        0 <= first_of(s, c) <= s.len(),
        forall|i: int| 0 <= i < first_of(s, c) ==> #[trigger] s[i] != c,
        first_of(s, c) < s.len() ==> s[first_of(s, c)] == c,
    decreases s.len(),
{
    if s.len() > 0 && s[0] != c {
        character_is_found(s.skip(1), c);
        assert forall|i: int| 0 <= i < first_of(s, c) implies #[trigger] s[i] != c by {
            if i > 0 {
                assert(s.skip(1)[i - 1] == s[i]);
            }
        }
        if first_of(s, c) < s.len() {
            assert(s.skip(1)[first_of(s, c) - 1] == s[first_of(s, c)]);
        }
    }
}

/// A piece without `c`, then `c`, then the rest: they come apart again.
pub proof fn piece_before(piece: Seq<char>, c: char, rest: Seq<char>)
    requires
        forall|i: int| 0 <= i < piece.len() ==> #[trigger] piece[i] != c,
    ensures
        ({
            let s = piece + seq![c] + rest;
            &&& first_of(s, c) == piece.len()
            &&& s.take(piece.len() as int) == piece
            &&& s.skip(piece.len() as int + 1) == rest
        }),
{
    let s = piece + seq![c] + rest;
    character_is_found(s, c);
    assert(s[piece.len() as int] == c);
    assert(forall|i: int| 0 <= i < piece.len() ==> #[trigger] s[i] == piece[i]);
    assert(s.take(piece.len() as int) =~= piece);
    assert(s.skip(piece.len() as int + 1) =~= rest);
}

/// Cutting a text at every `c` gives pieces without `c` that make up the text again when
/// they are joined with it.
pub proof fn pieces_join_again(s: Seq<char>, c: char)
    ensures
        cut(s, c).len() > 0,
        joined(cut(s, c), seq![c]) == s,
        forall|k: int, i: int|
            0 <= k < cut(s, c).len() && 0 <= i < cut(s, c)[k].len() ==> #[trigger] cut(s, c)[k][i]
                != c,
    decreases s.len(),
{
    let i = first_of(s, c);
    character_is_found(s, c);
    if i < s.len() {
        let rest = s.skip(i + 1);
        let pieces = cut(rest, c);
        pieces_join_again(rest, c);
        joined_from_the_front(s.take(i), pieces, seq![c]);
        assert(s.take(i) + seq![c] + rest =~= s);
        assert(cut(s, c) =~= seq![s.take(i)] + pieces);
        assert forall|k: int, m: int|
            0 <= k < cut(s, c).len() && 0 <= m < cut(s, c)[k].len() implies #[trigger] cut(
            s,
            c,
        )[k][m] != c by {
            if k > 0 {
                assert(cut(s, c)[k] == pieces[k - 1]);
                assert(pieces[k - 1][m] != c);
            }
        }
    }
}

/// Joining can begin at the front as well.
proof fn joined_from_the_front(first: Seq<char>, rest: Seq<Seq<char>>, sep: Seq<char>)
    requires
        rest.len() > 0,
    ensures
        joined(seq![first] + rest, sep) == first + sep + joined(rest, sep),
    decreases rest.len(),
{
    let all = seq![first] + rest;
    if rest.len() == 1 {
        assert(all.drop_last() =~= seq![first]);
        assert(joined(all.drop_last(), sep) == first);
        assert(all.last() == rest[0]);
    } else {
        joined_from_the_front(first, rest.drop_last(), sep);
        assert(all.drop_last() =~= seq![first] + rest.drop_last());
        assert(joined(all, sep) =~= first + sep + joined(rest, sep));
    }
}

/// A field is as wide as asked for, or as its text where that is wider. The text stands at
/// its left or right end, and the rest is blank.
pub proof fn fields_are_filled(s: Seq<char>, width: int)
    requires
        0 <= width,
    ensures
        left(s, width).len() == right(s, width).len() == if s.len() < width {
            width
        } else {
            s.len() as int
        },
        left(s, width).take(s.len() as int) == s,
        right(s, width).skip(right(s, width).len() - s.len()) == s,
        forall|i: int| s.len() <= i < left(s, width).len() ==> #[trigger] left(s, width)[i] == ' ',
        forall|i: int|
            0 <= i < right(s, width).len() - s.len() ==> #[trigger] right(s, width)[i] == ' ',
{
    assert(left(s, width).take(s.len() as int) =~= s);
    assert(right(s, width).skip(right(s, width).len() - s.len()) =~= s);
}

} // verus!
