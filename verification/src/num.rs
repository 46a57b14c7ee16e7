//! Decimal rendering and parsing of integers, as the shell prints and reads them.
use vstd::prelude::*;
use crate::text::push_char;

verus! {

/// `true` for the ASCII digits `'0'..='9'`.
pub open spec fn is_digit(c: char) -> bool {
    '0' <= c && c <= '9'
}

/// The value of an ASCII digit.
pub open spec fn digit_value(c: char) -> nat {
    (c as int - '0' as int) as nat
}

/// The ASCII digit of a value below ten.
pub open spec fn digit_char(d: nat) -> char {
    ((d + '0' as int) as u32) as char
}

/// The shortest decimal spelling of a natural number (no sign, no leading zeros).
pub open spec fn decimal(n: nat) -> Seq<char>
    decreases n,
{
    if n < 10 {
        seq![digit_char(n)]
    } else {
        decimal(n / 10).push(digit_char(n % 10))
    }
}

/// Decimal spelling of an integer, with a leading `-` when negative.
pub open spec fn signed_decimal(i: int) -> Seq<char> {
    if i < 0 {
        seq!['-'] + decimal((-i) as nat)
    } else {
        decimal(i as nat)
    }
}

/// Every character is an ASCII digit.
pub open spec fn all_digits(s: Seq<char>) -> bool {
    forall|i: int| 0 <= i < s.len() ==> #[trigger] is_digit(s[i])
}

/// The number spelled by a string of digits, most significant first.
pub open spec fn digits_value(s: Seq<char>) -> nat
    decreases s.len(),
{
    if s.len() == 0 {
        0
    } else {
        digits_value(s.drop_last()) * 10 + digit_value(s.last())
    }
}

/// The digits that follow an optional leading `+`.
pub open spec fn unsigned_body(s: Seq<char>) -> Seq<char> {
    if s.len() > 0 && s[0] == '+' {
        s.drop_first()
    } else {
        s
    }
}

/// What std's `u32::from_str` accepts: an optional `+`, then one or more ASCII
/// digits whose value fits in a `u32`.
pub open spec fn spec_parse_u32(s: Seq<char>) -> Option<u32> {
    let body = unsigned_body(s);
    if body.len() > 0 && all_digits(body) && digits_value(body) <= u32::MAX {
        Some(digits_value(body) as u32)
    } else {
        None
    }
}

/// What std's `i32::from_str` accepts: an optional `+` or `-`, then one or more
/// ASCII digits whose signed value fits in an `i32`.
pub open spec fn spec_parse_i32(s: Seq<char>) -> Option<i32> {
    if s.len() > 0 && s[0] == '-' {
        let body = s.drop_first();
        if body.len() > 0 && all_digits(body) && digits_value(body) <= 0x8000_0000 {
            Some((-digits_value(body)) as i32)
        } else {
            None
        }
    } else {
        let body = unsigned_body(s);
        if body.len() > 0 && all_digits(body) && digits_value(body) <= i32::MAX {
            Some(digits_value(body) as i32)
        } else {
            None
        }
    }
}

proof fn lemma_digit_char(d: nat)
    requires
        d < 10,
    ensures
        is_digit(digit_char(d)),
        digit_value(digit_char(d)) == d,
{
}

/// The decimal spelling is made of digits and spells its number back.
pub proof fn lemma_decimal_digits(n: nat)
    ensures
        decimal(n).len() > 0,
        all_digits(decimal(n)),
        digits_value(decimal(n)) == n,
        decimal(n)[0] != '+',
        decimal(n)[0] != '-',
    decreases n,
{
    if n < 10 {
        lemma_digit_char(n);
        assert(decimal(n).drop_last() =~= Seq::<char>::empty());
        assert(digits_value(Seq::<char>::empty()) == 0);
        assert(digits_value(decimal(n)) == digits_value(decimal(n).drop_last()) * 10 + digit_value(decimal(n).last()));
    } else {
        lemma_decimal_digits(n / 10);
        lemma_digit_char(n % 10);
        let s = decimal(n);
        assert(s.drop_last() =~= decimal(n / 10));
        assert forall|i: int| 0 <= i < s.len() implies #[trigger] is_digit(s[i]) by {
            if i < s.len() - 1 {
                assert(s[i] == decimal(n / 10)[i]);
            }
        }
        assert(s[0] == decimal(n / 10)[0]);
        assert(s.last() == digit_char(n % 10));
        assert((n / 10) * 10 + n % 10 == n) by (nonlinear_arith);
        assert(digits_value(s) == digits_value(s.drop_last()) * 10 + digit_value(s.last()));
    }
}

/// A longer run of digits spells at least as large a number as its prefix.
proof fn lemma_digits_value_prefix(s: Seq<char>, k: int)
    requires
        0 <= k <= s.len(),
        all_digits(s),
    ensures
        digits_value(s.take(k)) <= digits_value(s),
    decreases s.len() - k,
{
    if k < s.len() {
        lemma_digits_value_prefix(s, k + 1);
        assert(s.take(k + 1).drop_last() =~= s.take(k));
    } else {
        assert(s.take(k) =~= s);
    }
}

/// Appends the decimal spelling of `n`.
pub fn push_decimal(s: &mut String, n: u64)
    ensures
        final(s)@ == old(s)@ + decimal(n as nat),
    decreases n,
{
    if n >= 10 {
        push_decimal(s, n / 10);
    }
    let d: u8 = (n % 10) as u8;
    let c: char = (d + 48u8) as char;
    assert(c == digit_char((n % 10) as nat));
    push_char(s, c);
}

/// Appends the decimal spelling of a signed number.
pub fn push_signed_decimal(s: &mut String, n: i64)
    ensures
        final(s)@ == old(s)@ + signed_decimal(n as int),
{
    if n < 0 {
        push_char(s, '-');
        let m: u64 = ((-(n + 1)) as u64) + 1;
        push_decimal(s, m);
        assert(final(s)@ =~= old(s)@ + signed_decimal(n as int));
    } else {
        push_decimal(s, n as u64);
    }
}

/// The decimal spelling of an unsigned number, as `u64::to_string` gives it.
pub fn u64_to_string(n: u64) -> (res: String)
    ensures
        res@ == decimal(n as nat),
{
    let mut s = String::new();
    push_decimal(&mut s, n);
    assert(s@ =~= decimal(n as nat));
    s
}

/// The decimal spelling of a signed number, as `i64::to_string` gives it.
pub fn i64_to_string(n: i64) -> (res: String)
    ensures
        res@ == signed_decimal(n as int),
{
    let mut s = String::new();
    push_signed_decimal(&mut s, n);
    assert(s@ =~= signed_decimal(n as int));
    s
}

/// Reads a run of ASCII digits, giving up once the value passes `bound`.
fn digits_up_to(s: &Vec<char>, start: usize, bound: u64) -> (res: Option<u64>)
    requires
        start <= s.len(),
        bound <= u32::MAX + 1,
    ensures
        ({
            let body = s@.skip(start as int);
            match res {
                Some(v) => body.len() > 0 && all_digits(body) && digits_value(body) <= bound
                    && v == digits_value(body),
                None => !(body.len() > 0 && all_digits(body) && digits_value(body) <= bound),
            }
        }),
{
    let ghost body = s@.skip(start as int);
    if start == s.len() {
        return None;
    }
    let mut acc: u64 = 0;
    let mut i: usize = start;
    while i < s.len()
        invariant
            start <= i <= s.len(),
            body == s@.skip(start as int),
            all_digits(body.take(i - start)),
            acc == digits_value(body.take(i - start)),
            acc <= bound,
            bound <= u32::MAX + 1,
        decreases s.len() - i,
    {
        let c = s[i];
        if !('0' <= c && c <= '9') {
            assert(!is_digit(body[i - start]));
            return None;
        }
        let d: u64 = ((c as u32) - 48) as u64;
        let next = acc * 10 + d;
        proof {
            assert(body.take(i - start + 1).drop_last() =~= body.take(i - start));
            assert(body.take(i - start + 1).last() == c);
            assert forall|j: int| 0 <= j < body.take(i - start + 1).len() implies #[trigger] is_digit(
                body.take(i - start + 1)[j],
            ) by {
                if j < i - start {
                    assert(body.take(i - start + 1)[j] == body.take(i - start)[j]);
                }
            }
        }
        if next > bound {
            proof {
                if all_digits(body) {
                    lemma_digits_value_prefix(body, i - start + 1);
                }
            }
            return None;
        }
        acc = next;
        i = i + 1;
    }
    assert(body.take(i - start) =~= body);
    Some(acc)
}

/// Parses a `u32` the way std's `str::parse::<u32>` does.
pub fn parse_u32(s: &str) -> (res: Option<u32>)
    ensures
        res == spec_parse_u32(s@),
{
    let cs = crate::text::chars_of(s);
    let start: usize = if cs.len() > 0 && cs[0] == '+' { 1 } else { 0 };
    assert(cs@.skip(start as int) =~= unsigned_body(s@));
    match digits_up_to(&cs, start, 0xffff_ffff) {
        Some(v) => Some(v as u32),
        None => None,
    }
}

/// Parses an `i32` the way std's `str::parse::<i32>` does.
pub fn parse_i32(s: &str) -> (res: Option<i32>)
    ensures
        res == spec_parse_i32(s@),
{
    let cs = crate::text::chars_of(s);
    if cs.len() > 0 && cs[0] == '-' {
        assert(cs@.skip(1) =~= s@.drop_first());
        match digits_up_to(&cs, 1, 0x8000_0000) {
            Some(v) => {
                let r: i64 = -(v as i64);
                Some(r as i32)
            },
            None => None,
        }
    } else {
        let start: usize = if cs.len() > 0 && cs[0] == '+' { 1 } else { 0 };
        assert(cs@.skip(start as int) =~= unsigned_body(s@));
        match digits_up_to(&cs, start, 0x7fff_ffff) {
            Some(v) => Some(v as i32),
            None => None,
        }
    }
}

/// Law: reading back the decimal spelling of a `u32` gives the same number.
pub proof fn law_u32_decimal_round_trip(n: u32)
    ensures
        spec_parse_u32(decimal(n as nat)) == Some(n),
{
    lemma_decimal_digits(n as nat);
}

/// Law: reading back the signed decimal spelling of an `i32` gives the same number.
pub proof fn law_i32_decimal_round_trip(n: i32)
    ensures
        spec_parse_i32(signed_decimal(n as int)) == Some(n),
{
    if n < 0 {
        lemma_decimal_digits((-n) as nat);
        let s = signed_decimal(n as int);
        assert(s.drop_first() =~= decimal((-n) as nat));
    } else {
        lemma_decimal_digits(n as nat);
    }
}

/// Law: the decimal spelling has no leading zero: only zero itself starts
/// with `0`, and every spelling is one digit longer than that of the number
/// divided by ten.
pub proof fn law_decimal_shortest(n: nat)
    ensures
        decimal(n)[0] == '0' <==> n == 0,
        n >= 10 ==> decimal(n).len() == decimal(n / 10).len() + 1,
        n < 10 ==> decimal(n).len() == 1,
    decreases n,
{
    if n >= 10 {
        law_decimal_shortest(n / 10);
        lemma_decimal_digits(n / 10);
        assert(decimal(n)[0] == decimal(n / 10)[0]);
    }
}

} // verus!
