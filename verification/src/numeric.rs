//! Decimal integer parsing, as the configuration reads its numeric values.
use vstd::prelude::*;

verus! {

/// Whether a character is an ASCII decimal digit.
pub open spec fn is_digit(c: char) -> bool {
    48 <= (c as u32) && (c as u32) <= 57
}

/// The value of a decimal digit character.
pub open spec fn digit_value(c: char) -> int {
    (c as u32) - 48
}

/// Whether every character of `s` is a decimal digit.
pub open spec fn all_digits(s: Seq<char>) -> bool {
    forall|i: int| 0 <= i < s.len() ==> is_digit(#[trigger] s[i])
}

/// The number that a run of decimal digits spells, most significant first.
pub open spec fn digits_value(s: Seq<char>) -> int
    decreases s.len(),
{
    if s.len() == 0 {
        0
    } else {
        10 * digits_value(s.drop_last()) + digit_value(s.last())
    }
}

/// The integer a string denotes in the syntax of Rust's `FromStr` for signed integers:
/// an optional `+` or `-` followed by one or more decimal digits, nothing else.
pub open spec fn decimal_value(s: Seq<char>) -> Option<int> {
    if s.len() > 0 && (s[0] == '+' || s[0] == '-') {
        let body = s.drop_first();
        if body.len() > 0 && all_digits(body) {
            Some(if s[0] == '-' { -digits_value(body) } else { digits_value(body) })
        } else {
            None
        }
    } else if s.len() > 0 && all_digits(s) {
        Some(digits_value(s))
    } else {
        None
    }
}

/// The value `s` parses to as an integer of the range `lo..=hi`, if any.
pub open spec fn parsed_in_range(s: Seq<char>, lo: int, hi: int) -> Option<int> {
    match decimal_value(s) {
        Some(v) => if lo <= v && v <= hi { Some(v) } else { None },
        None => None,
    }
}

/// The syntax that parses: nothing reads from an empty text or a lone sign; a `+` in
/// front changes nothing and a `-` negates; and any character other than a digit,
/// except a sign in front, makes the text unreadable.
pub proof fn lemma_decimal_syntax(s: Seq<char>, digits: Seq<char>)
    ensures
        decimal_value(Seq::empty()) is None,
        decimal_value(seq!['+']) is None && decimal_value(seq!['-']) is None,
        (digits.len() > 0 && all_digits(digits)) ==> {
            &&& decimal_value(digits) == Some(digits_value(digits))
            &&& decimal_value(seq!['+'] + digits) == Some(digits_value(digits))
            &&& decimal_value(seq!['-'] + digits) == Some(-digits_value(digits))
        },
        (exists|i: int| 0 < i < s.len() && !is_digit(#[trigger] s[i])) ==> decimal_value(s) is None,
        (s.len() > 0 && !is_digit(s[0]) && s[0] != '+' && s[0] != '-') ==> decimal_value(s) is None,
        digits_value(seq!['4', '2']) == 42,
{
    assert((seq!['+'] + digits).drop_first() =~= digits);
    assert((seq!['-'] + digits).drop_first() =~= digits);
    assert(seq!['+'].drop_first() =~= Seq::<char>::empty());
    assert(seq!['-'].drop_first() =~= Seq::<char>::empty());
    if exists|i: int| 0 < i < s.len() && !is_digit(#[trigger] s[i]) {
        let i = choose|i: int| 0 < i < s.len() && !is_digit(#[trigger] s[i]);
        assert(s.drop_first()[i - 1] == s[i]);
        assert(!all_digits(s));
        assert(!all_digits(s.drop_first()));
    }
    assert(seq!['4', '2'].drop_last() =~= seq!['4']);
    assert(seq!['4'].drop_last() =~= Seq::<char>::empty());
    assert(digits_value(Seq::<char>::empty()) == 0);
    assert(digit_value('4') == 4 && digit_value('2') == 2);
    assert(digits_value(seq!['4']) == 4);
    assert(seq!['4', '2'].last() == '2');
}

/// Above this magnitude no value fits the ranges parsed here.
const MAGNITUDE_CAP: u64 = 0x1_0000_0000;

/// Parses `s` as a decimal integer in `lo..=hi`, the way Rust's `str::parse` does for a
/// signed integer type of that range. `None` when the text is not such an integer or
/// lies outside the range.
pub fn parse_decimal(s: &str, lo: i64, hi: i64) -> (r: Option<i64>)
    requires
        -0x1_0000_0000 < lo <= hi < 0x1_0000_0000,
    ensures
        match r {
            Some(v) => parsed_in_range(s@, lo as int, hi as int) == Some(v as int),
            None => parsed_in_range(s@, lo as int, hi as int) is None,
        },
{
    let n = s.unicode_len();
    if n == 0 {
        return None;
    }
    let first = s.get_char(0);
    let negative = first == '-';
    let start: usize = if first == '+' || first == '-' { 1 } else { 0 };
    if start == n {
        return None;
    }
    let ghost text = s@;
    let mut acc: u64 = 0;
    let mut i: usize = start;
    while i < n
        invariant
            n == text.len(),
            text == s@,
            start <= i <= n,
            start <= 1,
            start < n,
            start == 1 <==> (text[0] == '+' || text[0] == '-'),
            negative <==> text[0] == '-',
            all_digits(text.subrange(start as int, i as int)),
            digits_value(text.subrange(start as int, i as int)) >= 0,
            acc as int == if digits_value(text.subrange(start as int, i as int)) < MAGNITUDE_CAP {
                digits_value(text.subrange(start as int, i as int))
            } else {
                MAGNITUDE_CAP as int
            },
        decreases n - i,
    {
        let c = s.get_char(i);
        if !('0' <= c && c <= '9') {
            proof {
                let body = text.subrange(start as int, n as int);
                assert(body[i - start] == c);
                if start == 1 {
                    assert(body =~= text.drop_first());
                } else {
                    assert(body =~= text);
                }
                assert(!all_digits(body));
            }
            return None;
        }
        let d: u64 = ((c as u32) - 48) as u64;
        let ghost prev = text.subrange(start as int, i as int);
        let ghost next = text.subrange(start as int, i + 1);
        assert(next.drop_last() =~= prev);
        assert(next.last() == c);
        if acc >= MAGNITUDE_CAP {
            acc = MAGNITUDE_CAP;
        } else {
            let t = acc * 10 + d;
            acc = if t > MAGNITUDE_CAP { MAGNITUDE_CAP } else { t };
        }
        i = i + 1;
    }
    let ghost body = text.subrange(start as int, n as int);
    proof {
        if start == 1 {
            assert(body =~= text.drop_first());
        } else {
            assert(body =~= text);
        }
    }
    if acc >= MAGNITUDE_CAP {
        return None;
    }
    let v: i64 = if negative { -(acc as i64) } else { acc as i64 };
    if lo <= v && v <= hi {
        Some(v)
    } else {
        None
    }
}

/// Parses `s` as an `i16`, as `s.parse::<i16>().ok()` does.
pub fn parse_i16(s: &str) -> (r: Option<i16>)
    ensures
        match r {
            Some(v) => parsed_in_range(s@, i16::MIN as int, i16::MAX as int) == Some(v as int),
            None => parsed_in_range(s@, i16::MIN as int, i16::MAX as int) is None,
        },
{
    match parse_decimal(s, i16::MIN as i64, i16::MAX as i64) {
        Some(v) => Some(v as i16),
        None => None,
    }
}

/// Parses `s` as an `i32`, as `s.parse::<i32>().ok()` does.
pub fn parse_i32(s: &str) -> (r: Option<i32>)
    ensures
        match r {
            Some(v) => parsed_in_range(s@, i32::MIN as int, i32::MAX as int) == Some(v as int),
            None => parsed_in_range(s@, i32::MIN as int, i32::MAX as int) is None,
        },
{
    match parse_decimal(s, i32::MIN as i64, i32::MAX as i64) {
        Some(v) => Some(v as i32),
        None => None,
    }
}

} // verus!

verus! {

/// The character of a decimal digit.
pub open spec fn digit_char(d: nat) -> char {
    ((48 + d) as u32) as char
}

/// The decimal text of a natural number, without leading zeros ("0" for zero).
pub open spec fn natural_text(n: nat) -> Seq<char>
    decreases n,
{
    if n < 10 {
        seq![digit_char(n)]
    } else {
        natural_text(n / 10).push(digit_char(n % 10))
    }
}

/// The decimal text of an integer, as `Display` writes it: a `-` before negative numbers.
pub open spec fn integer_text(v: int) -> Seq<char> {
    if v < 0 {
        seq!['-'] + natural_text((-v) as nat)
    } else {
        natural_text(v as nat)
    }
}

/// The decimal text of a natural number is a run of digits spelling it.
proof fn lemma_natural_text(n: nat)
    ensures
        natural_text(n).len() > 0,
        all_digits(natural_text(n)),
        digits_value(natural_text(n)) == n,
    decreases n,
{
    if n < 10 {
        let t = natural_text(n);
        assert(t.drop_last() =~= Seq::<char>::empty());
        assert(digit_value(digit_char(n)) == n);
        assert(digits_value(Seq::<char>::empty()) == 0);
        assert(t.last() == digit_char(n));
    } else {
        lemma_natural_text(n / 10);
        let t = natural_text(n);
        assert(t.drop_last() =~= natural_text(n / 10));
        assert(digit_value(digit_char(n % 10)) == n % 10);
        assert(t.last() == digit_char(n % 10));
        assert(10 * (n / 10) + n % 10 == n);
        assert(forall|i: int| 0 <= i < t.len() ==> is_digit(#[trigger] t[i])) by {
            assert forall|i: int| 0 <= i < t.len() implies is_digit(#[trigger] t[i]) by {
                if i < t.len() - 1 {
                    assert(t[i] == natural_text(n / 10)[i]);
                }
            }
        }
    }
}

/// Every integer of a range, written in decimal, reads back as itself.
pub proof fn lemma_text_round_trip(v: int, lo: int, hi: int)
    requires
        lo <= v <= hi,
    ensures
        parsed_in_range(integer_text(v), lo, hi) == Some(v),
{
    if v < 0 {
        let n = (-v) as nat;
        lemma_natural_text(n);
        let t = integer_text(v);
        assert(t.drop_first() =~= natural_text(n));
        assert(t[0] == '-');
    } else {
        let n = v as nat;
        lemma_natural_text(n);
        let t = natural_text(n);
        assert(is_digit(t[0]));
    }
}

} // verus!
