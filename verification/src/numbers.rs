use vstd::prelude::*;
use crate::text::{chars_of, push_char};

verus! {

/// `c` is one of the ASCII digits `0` to `9`.
pub open spec fn is_ascii_digit(c: char) -> bool {
    '0' <= c && c <= '9'
}

/// The value of an ASCII digit.
pub open spec fn digit_value(c: char) -> int {
    c as int - '0' as int
}

/// Every character of `s` is an ASCII digit.
pub open spec fn all_ascii_digits(s: Seq<char>) -> bool {
    forall|i: int| 0 <= i < s.len() ==> is_ascii_digit(#[trigger] s[i])
}

/// The number written by the decimal digits `s`, most significant first.
pub open spec fn digits_value(s: Seq<char>) -> int
    decreases s.len(),
{
    if s.len() == 0 {
        0
    } else {
        digits_value(s.drop_last()) * 10 + digit_value(s.last())
    }
}

/// The digits that follow an optional leading `+`.
pub open spec fn unsigned_digits(s: Seq<char>) -> Seq<char> {
    if s.len() > 0 && s[0] == '+' {
        s.skip(1)
    } else {
        s
    }
}

/// What `str::parse` gives for an unsigned integer type whose largest value is `max`: an
/// optional `+`, then at least one ASCII digit and nothing else, with a value of at most `max`.
pub open spec fn spec_parse_unsigned(s: Seq<char>, max: int) -> Option<int> {
    let d = unsigned_digits(s);
    if d.len() > 0 && all_ascii_digits(d) && digits_value(d) <= max {
        Some(digits_value(d))
    } else {
        None
    }
}

/// What `str::parse::<i32>` gives: an optional sign, then at least one ASCII digit and nothing
/// else, with a value in the range of `i32`.
pub open spec fn spec_parse_i32(s: Seq<char>) -> Option<int> {
    if s.len() > 0 && s[0] == '-' {
        let d = s.skip(1);
        if d.len() > 0 && all_ascii_digits(d) && digits_value(d) <= 0x8000_0000 {
            Some(-digits_value(d))
        } else {
            None
        }
    } else {
        spec_parse_unsigned(s, i32::MAX as int)
    }
}

proof fn lemma_digits_value_nonneg(s: Seq<char>)
    requires
        all_ascii_digits(s),
    ensures
        digits_value(s) >= 0,
    decreases s.len(),
{
    if s.len() > 0 {
        assert(is_ascii_digit(s[s.len() - 1]));
        lemma_digits_value_nonneg(s.drop_last());
    }
}

/// A parsed unsigned value lies between 0 and the type's largest value.
pub proof fn lemma_parse_unsigned_range(s: Seq<char>, max: int)
    ensures
        spec_parse_unsigned(s, max) matches Some(v) ==> 0 <= v <= max,
{
    let d = unsigned_digits(s);
    if d.len() > 0 && all_ascii_digits(d) {
        lemma_digits_value_nonneg(d);
    }
}

/// A prefix of a digit string never has a larger value than the whole.
proof fn lemma_digits_value_prefix(s: Seq<char>, k: int)
    requires
        all_ascii_digits(s),
        0 <= k <= s.len(),
    ensures
        digits_value(s.take(k)) <= digits_value(s),
    decreases s.len(),
{
    if k < s.len() {
        assert(is_ascii_digit(s[s.len() - 1]));
        assert(s.drop_last().take(k) =~= s.take(k));
        lemma_digits_value_prefix(s.drop_last(), k);
        lemma_digits_value_nonneg(s.drop_last());
    } else {
        assert(s.take(k) =~= s);
    }
}

/// Reads the ASCII digits `d[lo..]` as a number of at most `max`.
fn parse_digits(d: &Vec<char>, lo: usize, max: u64) -> (r: Option<u64>)
    requires
        lo <= d.len(),
        max >= 9,
    ensures
        r matches Some(v) ==> {
            let ds = d@.skip(lo as int);
            &&& ds.len() > 0
            &&& all_ascii_digits(ds)
            &&& digits_value(ds) == v
            &&& v <= max
        },
        r is None ==> {
            let ds = d@.skip(lo as int);
            !(ds.len() > 0 && all_ascii_digits(ds) && digits_value(ds) <= max)
        },
{
    let ghost ds = d@.skip(lo as int);
    if lo == d.len() {
        return None;
    }
    let mut v: u64 = 0;
    let mut i = lo;
    while i < d.len()
        invariant
            lo <= i <= d.len(),
            ds == d@.skip(lo as int),
            all_ascii_digits(ds.take(i - lo)),
            v == digits_value(ds.take(i - lo)),
            v <= max,
            max >= 9,
        decreases d.len() - i,
    {
        let c = d[i];
        if !('0' <= c && c <= '9') {
            assert(ds[i - lo] == c);
            return None;
        }
        let dv = (c as u32 - '0' as u32) as u64;
        assert(dv <= 9);
        assert(ds.take(i - lo + 1).drop_last() =~= ds.take(i - lo));
        assert(ds.take(i - lo + 1).last() == c);
        let next = if v <= (max - dv) / 10 {
            Some(v * 10 + dv)
        } else {
            None
        };
        match next {
            Some(n) => {
                assert(v * 10 + dv <= max) by (nonlinear_arith)
                    requires
                        v <= (max - dv) / 10,
                        dv <= max,
                ;
                v = n;
            },
            None => {
                proof {
                    assert(v * 10 + dv > max) by (nonlinear_arith)
                        requires
                            v > (max - dv) / 10,
                            dv <= max,
                    ;
                    assert(all_ascii_digits(ds.take(i - lo + 1)));
                    if all_ascii_digits(ds) {
                        lemma_digits_value_prefix(ds, i - lo + 1);
                    }
                }
                return None;
            },
        }
        i = i + 1;
    }
    assert(ds.take(i - lo) =~= ds);
    Some(v)
}

/// `str::parse::<u64>`.
pub fn parse_u64(s: &str) -> (r: Option<u64>)
    ensures
        r matches Some(v) ==> spec_parse_unsigned(s@, u64::MAX as int) == Some(v as int),
        r is None ==> spec_parse_unsigned(s@, u64::MAX as int) is None,
{
    let cs = chars_of(s);
    let lo: usize = if cs.len() > 0 && cs[0] == '+' { 1 } else { 0 };
    assert(unsigned_digits(s@) =~= cs@.skip(lo as int));
    parse_digits(&cs, lo, u64::MAX)
}

/// `str::parse::<u32>`.
pub fn parse_u32(s: &str) -> (r: Option<u32>)
    ensures
        r matches Some(v) ==> spec_parse_unsigned(s@, u32::MAX as int) == Some(v as int),
        r is None ==> spec_parse_unsigned(s@, u32::MAX as int) is None,
{
    let cs = chars_of(s);
    let lo: usize = if cs.len() > 0 && cs[0] == '+' { 1 } else { 0 };
    assert(unsigned_digits(s@) =~= cs@.skip(lo as int));
    match parse_digits(&cs, lo, u32::MAX as u64) {
        Some(v) => Some(v as u32),
        None => None,
    }
}

/// `str::parse::<i32>`.
pub fn parse_i32(s: &str) -> (r: Option<i32>)
    ensures
        r matches Some(v) ==> spec_parse_i32(s@) == Some(v as int),
        r is None ==> spec_parse_i32(s@) is None,
{
    let cs = chars_of(s);
    if cs.len() > 0 && cs[0] == '-' {
        match parse_digits(&cs, 1, 0x8000_0000) {
            Some(v) => {
                if v == 0x8000_0000 {
                    Some(i32::MIN)
                } else {
                    Some(-(v as i32))
                }
            },
            None => None,
        }
    } else {
        let lo: usize = if cs.len() > 0 && cs[0] == '+' { 1 } else { 0 };
        assert(unsigned_digits(s@) =~= cs@.skip(lo as int));
        match parse_digits(&cs, lo, i32::MAX as u64) {
            Some(v) => Some(v as i32),
            None => None,
        }
    }
}

/// The ASCII digit for `d < 10`.
pub open spec fn digit_char(d: int) -> char {
    ('0' as int + d) as char
}

/// The decimal digits of `n`, most significant first, without leading zeros (`{}` on an
/// unsigned integer).
pub open spec fn spec_decimal(n: nat) -> Seq<char>
    decreases n,
{
    if n < 10 {
        seq![digit_char(n as int)]
    } else {
        spec_decimal(n / 10) + seq![digit_char((n % 10) as int)]
    }
}

/// The decimal digits of `n`, with a leading `0` when there is only one (`{:02}`).
pub open spec fn spec_decimal_pad2(n: nat) -> Seq<char> {
    if n < 10 {
        seq!['0'] + spec_decimal(n)
    } else {
        spec_decimal(n)
    }
}

fn digit(d: u64) -> (c: char)
    requires
        d < 10,
    ensures
        c == digit_char(d as int),
{
    let c = ((d as u8) + 48) as char;
    assert(c == digit_char(d as int)) by {
        assert(48 <= (d as u8) + 48 <= 57);
    }
    c
}

/// Appends the decimal digits of `n` to `out`.
pub fn push_decimal(out: &mut String, n: u64)
    ensures
        final(out)@ == old(out)@ + spec_decimal(n as nat),
    decreases n,
{
    if n >= 10 {
        push_decimal(out, n / 10);
        push_char(out, digit(n % 10));
        assert(final(out)@ =~= old(out)@ + spec_decimal(n as nat)) by {
            assert(spec_decimal(n as nat) == spec_decimal((n / 10) as nat) + seq![digit_char((n % 10) as int)]);
        }
    } else {
        push_char(out, digit(n));
    }
}

/// The decimal digits of `n` (`n.to_string()`).
pub fn decimal(n: u64) -> (r: String)
    ensures
        r@ == spec_decimal(n as nat),
{
    let mut out = String::new();
    push_decimal(&mut out, n);
    assert(out@ =~= spec_decimal(n as nat));
    out
}

/// The decimal digits of `n` padded to two characters with `0` (`format!("{:02}", n)`).
pub fn decimal_pad2(n: u64) -> (r: String)
    ensures
        r@ == spec_decimal_pad2(n as nat),
{
    let mut out = String::new();
    if n < 10 {
        push_char(&mut out, '0');
    }
    push_decimal(&mut out, n);
    assert(out@ =~= spec_decimal_pad2(n as nat));
    out
}

/// The digits of a number are all ASCII digits, there is at least one, and they read back as
/// the number.
pub proof fn lemma_decimal_digits(n: nat)
    ensures
        spec_decimal(n).len() > 0,
        all_ascii_digits(spec_decimal(n)),
        digits_value(spec_decimal(n)) == n,
    decreases n,
{
    if n < 10 {
        let s = spec_decimal(n);
        assert(digit_value(digit_char(n as int)) == n);
        assert(s.drop_last() =~= Seq::<char>::empty());
        assert(digits_value(s) == digits_value(s.drop_last()) * 10 + digit_value(s.last()));
    } else {
        lemma_decimal_digits(n / 10);
        let s = spec_decimal(n);
        assert(digit_value(s.last()) == n % 10);
        assert(n == (n / 10) * 10 + n % 10);
        assert(digits_value(s) == digits_value(s.drop_last()) * 10 + digit_value(s.last()));
        assert(s.drop_last() =~= spec_decimal(n / 10));
        assert forall|i: int| 0 <= i < s.len() implies is_ascii_digit(#[trigger] s[i]) by {
            if i < s.len() - 1 {
                assert(s[i] == spec_decimal(n / 10)[i]);
            }
        }
    }
}

/// Writing a number in decimal and parsing it back gives the number.
pub proof fn law_parse_decimal_roundtrip(n: u64)
    ensures
        spec_parse_unsigned(spec_decimal(n as nat), u64::MAX as int) == Some(n as int),
{
    lemma_decimal_digits(n as nat);
    let s = spec_decimal(n as nat);
    assert(is_ascii_digit(s[0]));
    assert(unsigned_digits(s) == s);
}

/// The decimal digits of a positive number do not start with `0`.
pub proof fn lemma_decimal_no_leading_zero(n: nat)
    ensures
        n > 0 ==> spec_decimal(n)[0] != '0',
    decreases n,
{
    if n >= 10 {
        lemma_decimal_no_leading_zero(n / 10);
        lemma_decimal_digits(n / 10);
        assert(spec_decimal(n)[0] == spec_decimal(n / 10)[0]);
    }
}

/// A number written with at least two digits (`{:02}`) reads back as the number; it has
/// exactly two digits below 100, and only a number below 10 gets a leading `0`.
pub proof fn law_decimal_pad2(n: u64)
    ensures
        spec_parse_unsigned(spec_decimal_pad2(n as nat), u64::MAX as int) == Some(n as int),
        spec_decimal_pad2(n as nat).len() >= 2,
        n < 100 ==> spec_decimal_pad2(n as nat).len() == 2,
        spec_decimal_pad2(n as nat)[0] == '0' <==> n < 10,
{
    let d = spec_decimal(n as nat);
    law_parse_decimal_roundtrip(n);
    lemma_decimal_digits(n as nat);
    lemma_decimal_no_leading_zero(n as nat);
    if n < 10 {
        let p = seq!['0'] + d;
        assert(d.len() == 1);
        assert(p.drop_last() =~= seq!['0']);
        assert(seq!['0'].drop_last() =~= Seq::<char>::empty());
        let z = seq!['0'];
        assert(z.last() == '0');
        assert(digit_value('0') == 0);
        assert(digits_value(z) == digits_value(z.drop_last()) * 10 + digit_value(z.last()));
        assert(digits_value(z.drop_last()) == 0);
        assert(digits_value(z) == 0);
        assert(digits_value(p) == digits_value(p.drop_last()) * 10 + digit_value(p.last()));
        assert(p.last() == d[0]);
        assert(digits_value(d) == digits_value(d.drop_last()) * 10 + digit_value(d.last()));
        assert(d.drop_last() =~= Seq::<char>::empty());
        assert(is_ascii_digit(d[0]));
        assert(is_ascii_digit(p[0]) && is_ascii_digit(p[1]));
        assert(unsigned_digits(p) == p);
    } else {
        lemma_decimal_digits((n / 10) as nat);
        assert(d.len() == spec_decimal((n / 10) as nat).len() + 1);
        if n < 100 {
            assert(spec_decimal((n / 10) as nat).len() == 1);
        }
    }
}

} // verus!
