//! Small verified building blocks for text: numerals, whitespace trimming and
//! joining, all stated over `Seq<char>`.
use vstd::prelude::*;

verus! {

/// `String::push` appends the character to the end of the string.
pub assume_specification[ String::push ](s: &mut String, c: char)
    ensures
        final(s)@ == old(s)@.push(c),
;

/// The views of a sequence of strings, in order.
pub open spec fn texts(v: Seq<String>) -> Seq<Seq<char>> {
    Seq::new(v.len(), |i: int| v[i]@)
}

/// The digit for a value below sixteen, lower case; `f` for any other.
pub open spec fn hex_digit(d: int) -> char {
    if d == 0 {
        '0'
    } else if d == 1 {
        '1'
    } else if d == 2 {
        '2'
    } else if d == 3 {
        '3'
    } else if d == 4 {
        '4'
    } else if d == 5 {
        '5'
    } else if d == 6 {
        '6'
    } else if d == 7 {
        '7'
    } else if d == 8 {
        '8'
    } else if d == 9 {
        '9'
    } else if d == 10 {
        'a'
    } else if d == 11 {
        'b'
    } else if d == 12 {
        'c'
    } else if d == 13 {
        'd'
    } else if d == 14 {
        'e'
    } else {
        'f'
    }
}

/// The decimal numeral of a natural number, without leading zeros.
pub open spec fn decimal(n: nat) -> Seq<char>
    decreases n,
{
    if n < 10 {
        seq![hex_digit(n as int)]
    } else {
        decimal(n / 10).push(hex_digit((n % 10) as int))
    }
}

/// The decimal numeral of an integer: a minus sign before a negative one.
pub open spec fn signed_decimal(i: int) -> Seq<char> {
    if i < 0 {
        seq!['-'] + decimal((-i) as nat)
    } else {
        decimal(i as nat)
    }
}

/// The digit character for `d`; `f` for a value of sixteen or more.
pub fn digit_char(d: u8) -> (c: char)
    ensures
        c == hex_digit(d as int),
{
    if d == 0 {
        '0'
    } else if d == 1 {
        '1'
    } else if d == 2 {
        '2'
    } else if d == 3 {
        '3'
    } else if d == 4 {
        '4'
    } else if d == 5 {
        '5'
    } else if d == 6 {
        '6'
    } else if d == 7 {
        '7'
    } else if d == 8 {
        '8'
    } else if d == 9 {
        '9'
    } else if d == 10 {
        'a'
    } else if d == 11 {
        'b'
    } else if d == 12 {
        'c'
    } else if d == 13 {
        'd'
    } else if d == 14 {
        'e'
    } else {
        'f'
    }
}

/// Appends the decimal numeral of `n` to `out`.
pub fn push_decimal(out: &mut String, n: u64)
    ensures
        final(out)@ == old(out)@ + decimal(n as nat),
{
    let mut digits: Vec<char> = Vec::new();
    let mut rest: u64 = n / 10;
    digits.push(digit_char((n % 10) as u8));
    while rest > 0
        invariant
            digits@.len() >= 1,
            rest == 0 ==> decimal(n as nat) == digits@.reverse(),
            rest > 0 ==> decimal(n as nat) == decimal(rest as nat) + digits@.reverse(),
        decreases rest,
    {
        let ghost before = digits@;
        digits.push(digit_char((rest % 10) as u8));
        proof {
            let d = hex_digit((rest % 10) as int);
            assert(digits@.reverse() =~= seq![d] + before.reverse());
            if rest < 10 {
                assert(decimal(rest as nat) =~= seq![d]);
            } else {
                assert(decimal(rest as nat) == decimal((rest / 10) as nat).push(d));
                assert(decimal((rest / 10) as nat).push(d) + before.reverse() =~= decimal(
                    (rest / 10) as nat,
                ) + (seq![d] + before.reverse()));
            }
        }
        rest = rest / 10;
    }
    let mut i: usize = digits.len();
    while i > 0
        invariant
            i <= digits@.len(),
            out@ == old(out)@ + digits@.reverse().take(digits@.len() - i),
        decreases i,
    {
        i = i - 1;
        out.push(digits[i]);
        proof {
            let r = digits@.reverse();
            let k = digits@.len() - i;
            assert(r.take(k) =~= r.take(k - 1).push(digits@[i as int]));
        }
    }
    proof {
        assert(digits@.reverse().take(digits@.len() as int) =~= digits@.reverse());
    }
}

/// Appends the decimal numeral of `i` to `out`, with a minus sign if negative.
pub fn push_signed_decimal(out: &mut String, i: i64)
    ensures
        final(out)@ == old(out)@ + signed_decimal(i as int),
{
    if i < 0 {
        let below: u64 = (-(i + 1)) as u64;
        out.push('-');
        push_decimal(out, below + 1);
        proof {
            assert(old(out)@.push('-') + decimal((below + 1) as nat) =~= old(out)@ + (seq!['-']
                + decimal((-i) as nat)));
        }
    } else {
        push_decimal(out, i as u64);
    }
}

/// The decimal numeral of `n`.
pub fn decimal_string(n: u64) -> (s: String)
    ensures
        s@ == decimal(n as nat),
{
    let mut s = String::new();
    push_decimal(&mut s, n);
    s
}

/// The characters that the query language of the store reads as operators
/// or separators, and that no tag may hold.
pub open spec fn is_reserved(c: char) -> bool {
    c == ' ' || c == '+' || c == '!' || c == '|' || c == '(' || c == ')'
}

/// Whether `text` holds no reserved character.
pub open spec fn unreserved(text: Seq<char>) -> bool {
    forall|i: int| 0 <= i < text.len() ==> !is_reserved(#[trigger] text[i])
}

/// A tag is valid when it is not empty and holds no reserved character.
pub open spec fn valid_tag(tag: Seq<char>) -> bool {
    tag.len() > 0 && unreserved(tag)
}

/// Whether `c` is a reserved character.
pub fn reserved(c: char) -> (b: bool)
    ensures
        b == is_reserved(c),
{
    c == ' ' || c == '+' || c == '!' || c == '|' || c == '(' || c == ')'
}

/// Whether `text` holds no reserved character.
pub fn check_unreserved(text: &str) -> (ok: bool)
    ensures
        ok == unreserved(text@),
{
    let mut clean: bool = true;
    for c in it: text.chars()
        invariant
            it.seq() == text@,
            clean == forall|i: int| 0 <= i < it.index() ==> !is_reserved(#[trigger] text@[i]),
    {
        if reserved(c) {
            clean = false;
        }
    }
    clean
}

/// Whether `tag` is not empty and free of reserved characters.
pub fn check_tag(tag: &str) -> (ok: bool)
    ensures
        ok == valid_tag(tag@),
{
    check_unreserved(tag) && !tag.is_empty()
}

/// The characters with the Unicode property `White_Space`.
pub open spec fn is_white_space(c: char) -> bool {
    let u = c as u32;
    (0x09 <= u <= 0x0D) || u == 0x20 || u == 0x85 || u == 0xA0 || u == 0x1680 || (0x2000 <= u
        <= 0x200A) || u == 0x2028 || u == 0x2029 || u == 0x202F || u == 0x205F || u == 0x3000
}

/// Whether `c` has the Unicode property `White_Space`.
pub fn white_space(c: char) -> (b: bool)
    ensures
        b == is_white_space(c),
{
    let u: u32 = c as u32;
    (0x09 <= u && u <= 0x0D) || u == 0x20 || u == 0x85 || u == 0xA0 || u == 0x1680 || (0x2000 <= u
        && u <= 0x200A) || u == 0x2028 || u == 0x2029 || u == 0x202F || u == 0x205F || u == 0x3000
}

/// How many white space characters `s` begins with.
pub open spec fn leading_space(s: Seq<char>) -> nat
    decreases s.len(),
{
    if s.len() > 0 && is_white_space(s[0]) {
        1 + leading_space(s.drop_first())
    } else {
        0
    }
}

/// How many white space characters `s` ends with.
pub open spec fn trailing_space(s: Seq<char>) -> nat
    decreases s.len(),
{
    if s.len() > 0 && is_white_space(s.last()) {
        1 + trailing_space(s.drop_last())
    } else {
        0
    }
}

/// `s` without the white space at its two ends.
pub open spec fn trimmed(s: Seq<char>) -> Seq<char> {
    let a = leading_space(s);
    if a == s.len() {
        Seq::empty()
    } else {
        s.subrange(a as int, s.len() - trailing_space(s))
    }
}

proof fn lemma_leading_space(s: Seq<char>, a: int)
    requires
        0 <= a <= s.len(),
        forall|i: int| 0 <= i < a ==> is_white_space(#[trigger] s[i]),
        a == s.len() || !is_white_space(s[a]),
    ensures
        leading_space(s) == a,
    decreases a,
{
    if a > 0 {
        let rest = s.drop_first();
        assert forall|i: int| 0 <= i < a - 1 implies is_white_space(#[trigger] rest[i]) by {
            assert(rest[i] == s[i + 1]);
        }
        lemma_leading_space(rest, a - 1);
    }
}

proof fn lemma_trailing_space(s: Seq<char>, b: int)
    requires
        0 <= b <= s.len(),
        forall|i: int| b <= i < s.len() ==> is_white_space(#[trigger] s[i]),
        b == 0 || !is_white_space(s[b - 1]),
    ensures
        trailing_space(s) == s.len() - b,
    decreases s.len() - b,
{
    if b < s.len() {
        let rest = s.drop_last();
        assert forall|i: int| b <= i < rest.len() implies is_white_space(#[trigger] rest[i]) by {
            assert(rest[i] == s[i]);
        }
        lemma_trailing_space(rest, b);
    }
}

/// `s` without the white space at its two ends, as `str::trim` gives it.
pub fn trim(s: &str) -> (r: &str)
    ensures
        r@ == trimmed(s@),
{
    let total: usize = s.unicode_len();
    let mut n: usize = 0;
    let mut seen: bool = false;
    let mut first: usize = 0;
    let mut end: usize = 0;
    for c in it: s.chars()
        invariant
            it.seq() == s@,
            total == s@.len(),
            n == it.index(),
            n <= total,
            !seen ==> forall|i: int| 0 <= i < n ==> is_white_space(#[trigger] s@[i]),
            seen ==> first < end <= n,
            seen ==> forall|i: int| 0 <= i < first ==> is_white_space(#[trigger] s@[i]),
            seen ==> !is_white_space(s@[first as int]),
            seen ==> !is_white_space(s@[end - 1]),
            seen ==> forall|i: int| end <= i < n ==> is_white_space(#[trigger] s@[i]),
    {
        if !white_space(c) {
            if !seen {
                seen = true;
                first = n;
            }
            end = n + 1;
        }
        n = n + 1;
    }
    if seen {
        proof {
            lemma_leading_space(s@, first as int);
            lemma_trailing_space(s@, end as int);
        }
        s.substring_char(first, end)
    } else {
        proof {
            lemma_leading_space(s@, total as int);
            assert(s@.subrange(0, 0) =~= Seq::<char>::empty());
        }
        s.substring_char(0, 0)
    }
}

/// The parts in order, with `sep` between each two.
pub open spec fn joined(parts: Seq<Seq<char>>, sep: char) -> Seq<char>
    decreases parts.len(),
{
    if parts.len() == 0 {
        Seq::empty()
    } else if parts.len() == 1 {
        parts[0]
    } else {
        joined(parts.drop_last(), sep) + seq![sep] + parts.last()
    }
}

/// The parts in order, with `sep` behind each one.
pub open spec fn terminated(parts: Seq<Seq<char>>, sep: char) -> Seq<char>
    decreases parts.len(),
{
    if parts.len() == 0 {
        Seq::empty()
    } else {
        terminated(parts.drop_last(), sep) + parts.last() + seq![sep]
    }
}

/// The place of the first `sep` at or after `from`; the length of `text`
/// if there is none.
pub open spec fn sep_from(text: Seq<char>, from: int, sep: char) -> int
    decreases text.len() - from,
{
    if from < 0 || from >= text.len() {
        text.len() as int
    } else if text[from] == sep {
        from
    } else {
        sep_from(text, from + 1, sep)
    }
}

/// The pieces that `sep` cuts `text` into. Behind the last `sep` a piece
/// is counted only if it is not empty.
pub open spec fn pieces(text: Seq<char>, sep: char) -> Seq<Seq<char>>
    decreases text.len(),
{
    if text.len() == 0 {
        Seq::empty()
    } else {
        let k = sep_from(text, 0, sep);
        if k < 0 || k >= text.len() {
            seq![text]
        } else {
            seq![text.take(k)] + pieces(text.skip(k + 1), sep)
        }
    }
}

/// Whether `text` holds no `sep`.
pub open spec fn free_of(text: Seq<char>, sep: char) -> bool {
    forall|i: int| 0 <= i < text.len() ==> #[trigger] text[i] != sep
}

/// Whether none of `parts` holds `sep`.
pub open spec fn all_free_of(parts: Seq<Seq<char>>, sep: char) -> bool {
    forall|k: int| 0 <= k < parts.len() ==> free_of(#[trigger] parts[k], sep)
}

/// The first `sep` behind a stretch without one is found at its end.
proof fn lemma_sep_from(text: Seq<char>, from: int, end: int, sep: char)
    requires
        0 <= from <= end < text.len(),
        forall|i: int| from <= i < end ==> #[trigger] text[i] != sep,
        text[end] == sep,
    ensures
        sep_from(text, from, sep) == end,
    decreases end - from,
{
    if from < end {
        lemma_sep_from(text, from + 1, end, sep);
    }
}

/// Parts with `sep` behind each begin with the first part and `sep`.
proof fn lemma_terminated_front(parts: Seq<Seq<char>>, sep: char)
    requires
        parts.len() > 0,
    ensures
        terminated(parts, sep) == parts[0] + seq![sep] + terminated(parts.drop_first(), sep),
    decreases parts.len(),
{
    if parts.len() == 1 {
        assert(terminated(parts.drop_last(), sep) =~= Seq::<char>::empty());
        assert(terminated(parts.drop_first(), sep) =~= Seq::<char>::empty());
        assert(parts.last() == parts[0]);
        assert(terminated(parts, sep) =~= parts[0] + seq![sep] + Seq::<char>::empty());
    } else {
        let front = parts.drop_last();
        lemma_terminated_front(front, sep);
        assert(front.drop_first() =~= parts.drop_first().drop_last());
        assert(parts.drop_first().last() == parts.last());
        assert(terminated(parts, sep) =~= parts[0] + seq![sep] + terminated(
            parts.drop_first(),
            sep,
        ));
    }
}

/// Parts that hold no `sep` come back when the text that lists them with
/// `sep` behind each is cut at `sep`.
pub proof fn lemma_pieces_of_terminated(parts: Seq<Seq<char>>, sep: char)
    requires
        all_free_of(parts, sep),
    ensures
        pieces(terminated(parts, sep), sep) == parts,
    decreases parts.len(),
{
    if parts.len() > 0 {
        let text = terminated(parts, sep);
        let first = parts[0];
        let rest = parts.drop_first();
        lemma_terminated_front(parts, sep);
        let end = first.len() as int;
        assert(free_of(parts[0], sep));
        assert forall|i: int| 0 <= i < end implies #[trigger] text[i] != sep by {
            assert(text[i] == first[i]);
        }
        assert(text[end] == sep);
        lemma_sep_from(text, 0, end, sep);
        assert(text.take(end) =~= first);
        assert(text.skip(end + 1) =~= terminated(rest, sep));
        assert forall|k: int| 0 <= k < rest.len() implies free_of(#[trigger] rest[k], sep) by {
            assert(rest[k] == parts[k + 1]);
        }
        lemma_pieces_of_terminated(rest, sep);
        assert(seq![first] + rest =~= parts);
    }
}

/// The value of a decimal digit; `None` for any other character.
pub open spec fn digit_value(c: char) -> Option<int> {
    if c == '0' {
        Some(0int)
    } else if c == '1' {
        Some(1int)
    } else if c == '2' {
        Some(2int)
    } else if c == '3' {
        Some(3int)
    } else if c == '4' {
        Some(4int)
    } else if c == '5' {
        Some(5int)
    } else if c == '6' {
        Some(6int)
    } else if c == '7' {
        Some(7int)
    } else if c == '8' {
        Some(8int)
    } else if c == '9' {
        Some(9int)
    } else {
        None
    }
}

/// The number that decimal digits spell; `None` for a text that is empty
/// or holds anything but digits.
pub open spec fn digits_value(text: Seq<char>) -> Option<int>
    decreases text.len(),
{
    if text.len() == 0 {
        None
    } else if text.len() == 1 {
        digit_value(text[0])
    } else {
        match (digits_value(text.drop_last()), digit_value(text.last())) {
            (Some(front), Some(digit)) => Some(front * 10 + digit),
            _ => None,
        }
    }
}

/// The size that a text spells: decimal digits, with a plus sign in front
/// of them or without, for a number that the machine can count to.
pub open spec fn parsed_size(text: Seq<char>) -> Option<usize> {
    let digits = if text.len() > 0 && text[0] == '+' {
        text.skip(1)
    } else {
        text
    };
    match digits_value(digits) {
        Some(value) => if value <= usize::MAX {
            Some(value as usize)
        } else {
            None
        },
        None => None,
    }
}

/// The value of the digit `c`.
pub fn digit_of(c: char) -> (r: Option<usize>)
    ensures
        match r {
            Some(d) => digit_value(c) == Some(d as int) && d < 10,
            None => digit_value(c) is None,
        },
{
    if c == '0' {
        Some(0)
    } else if c == '1' {
        Some(1)
    } else if c == '2' {
        Some(2)
    } else if c == '3' {
        Some(3)
    } else if c == '4' {
        Some(4)
    } else if c == '5' {
        Some(5)
    } else if c == '6' {
        Some(6)
    } else if c == '7' {
        Some(7)
    } else if c == '8' {
        Some(8)
    } else if c == '9' {
        Some(9)
    } else {
        None
    }
}

/// A text that begins with what spells no number spells none, and one
/// that begins with a number spells no smaller one.
proof fn lemma_digits_prefix(text: Seq<char>, n: int)
    requires
        1 <= n <= text.len(),
    ensures
        digits_value(text.take(n)) is None ==> digits_value(text) is None,
        digits_value(text.take(n)) is Some && digits_value(text) is Some ==> digits_value(
            text.take(n),
        )->0 <= digits_value(text)->0,
        digits_value(text) is Some ==> digits_value(text)->0 >= 0,
    decreases text.len() - n,
{
    if n < text.len() {
        lemma_digits_prefix(text, n + 1);
        assert(text.take(n + 1).drop_last() =~= text.take(n));
        lemma_digits_least(text.take(n));
    } else {
        assert(text.take(n) =~= text);
        lemma_digits_least(text);
    }
}

/// Digits spell no negative number.
proof fn lemma_digits_least(text: Seq<char>)
    ensures
        digits_value(text) is Some ==> digits_value(text)->0 >= 0,
    decreases text.len(),
{
    if text.len() > 1 {
        lemma_digits_least(text.drop_last());
    }
}

/// The size that `text` spells, as `str::parse` reads one.
pub fn parse_size(text: &str) -> (r: Option<usize>)
    ensures
        r == parsed_size(text@),
{
    let total: usize = text.unicode_len();
    let mut value: usize = 0;
    let mut n: usize = 0;
    let mut read: usize = 0;
    let ghost digits: Seq<char> = if text@.len() > 0 && text@[0] == '+' {
        text@.skip(1)
    } else {
        text@
    };
    let ghost lead: int = text@.len() - digits.len();
    for c in it: text.chars()
        invariant
            it.seq() == text@,
            total == text@.len(),
            n == it.index(),
            n <= total,
            lead == text@.len() - digits.len(),
            0 <= lead <= 1,
            digits == if text@.len() > 0 && text@[0] == '+' {
                text@.skip(1)
            } else {
                text@
            },
            lead == 1 <==> (text@.len() > 0 && text@[0] == '+'),
            n <= lead ==> read == 0 && value == 0,
            n > lead ==> read == n - lead,
            read > 0 ==> digits_value(digits.take(read as int)) == Some(value as int),
    {
        if n == 0 && c == '+' {
        } else {
            let ghost upto = digits.take(read + 1);
            proof {
                assert(digits[read as int] == text@[n as int]);
                assert(upto.len() == read + 1);
                assert(upto.last() == c);
                assert(upto[0] == digits[0]);
                assert(upto.drop_last() =~= digits.take(read as int));
                lemma_digits_prefix(digits, read + 1);
            }
            let digit: usize = match digit_of(c) {
                Some(d) => d,
                None => {
                    assert(digits_value(upto) is None);
                    return None;
                },
            };
            assert(digits_value(upto) == Some(value * 10 + digit));
            let next: Option<usize> = match value.checked_mul(10) {
                Some(tens) => tens.checked_add(digit),
                None => None,
            };
            value = match next {
                Some(v) => v,
                None => {
                    return None;
                },
            };
            read = read + 1;
        }
        n = n + 1;
    }
    if read == 0 {
        assert(digits.len() == 0);
        None
    } else {
        assert(digits.take(read as int) =~= digits);
        Some(value)
    }
}

} // verus!
