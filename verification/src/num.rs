//! Integer text: parsing as `str::parse` and `from_str_radix` do, and decimal formatting.
use vstd::prelude::*;
use crate::text::push_char;

verus! {

/// The value of digit `c` in base `radix` (at most 36), as `char::to_digit` gives it.
pub open spec fn digit_value(c: char, radix: nat) -> Option<nat> {
    let v: int = if '0' <= c && c <= '9' {
        c as int - '0' as int
    } else if 'a' <= c && c <= 'z' {
        c as int - 'a' as int + 10
    } else if 'A' <= c && c <= 'Z' {
        c as int - 'A' as int + 10
    } else {
        radix as int
    };
    if v < radix {
        Some(v as nat)
    } else {
        None
    }
}

fn digit_exec(c: char, radix: u32) -> (r: Option<u32>)
    requires
        2 <= radix <= 36,
    ensures
        match r {
            Some(d) => digit_value(c, radix as nat) == Some(d as nat) && d < radix,
            None => digit_value(c, radix as nat) is None,
        },
{
    let u = c as u32;
    let v: u32 = if '0' <= c && c <= '9' {
        u - 48
    } else if 'a' <= c && c <= 'z' {
        u - 97 + 10
    } else if 'A' <= c && c <= 'Z' {
        u - 65 + 10
    } else {
        radix
    };
    if v < radix {
        Some(v)
    } else {
        None
    }
}

/// The value of the digit string `s` in base `radix`; `None` if a character is not a digit.
pub open spec fn digits_value(s: Seq<char>, radix: nat) -> Option<nat>
    decreases s.len(),
{
    if s.len() == 0 {
        Some(0)
    } else {
        match digits_value(s.drop_last(), radix) {
            None => None,
            Some(v) => match digit_value(s.last(), radix) {
                None => None,
                Some(d) => Some(v * radix + d),
            },
        }
    }
}

/// An unsigned number in base `radix` no larger than `max`, with an optional leading `+`
/// (`from_str_radix` / `str::parse` for unsigned types).
pub open spec fn parse_unsigned(s: Seq<char>, radix: nat, max: nat) -> Option<nat> {
    let t = if s.len() > 0 && s[0] == '+' {
        s.drop_first()
    } else {
        s
    };
    if t.len() == 0 {
        None
    } else {
        match digits_value(t, radix) {
            Some(v) => if v <= max {
                Some(v)
            } else {
                None
            },
            None => None,
        }
    }
}

/// `str::parse::<i32>`: an optional sign then decimal digits, in range.
pub open spec fn parse_i32_text(s: Seq<char>) -> Option<i32> {
    if s.len() > 0 && s[0] == '-' {
        let t = s.drop_first();
        if t.len() == 0 {
            None
        } else {
            match digits_value(t, 10) {
                Some(v) => if v <= 0x8000_0000 {
                    Some((-v) as i32)
                } else {
                    None
                },
                None => None,
            }
        }
    } else {
        match parse_unsigned(s, 10, 0x7FFF_FFFF) {
            Some(v) => Some(v as i32),
            None => None,
        }
    }
}

proof fn lemma_digits_grow(t: Seq<char>, radix: nat, k: int, j: int)
    requires
        0 <= k <= j <= t.len(),
        radix >= 1,
        digits_value(t.take(k), radix) is Some,
    ensures
        digits_value(t.take(j), radix) matches Some(w) ==> w >= digits_value(t.take(k), radix).unwrap(),
    decreases j - k,
{
    if j > k {
        lemma_digits_grow(t, radix, k, j - 1);
        assert(t.take(j).drop_last() =~= t.take(j - 1));
        if let Some(w) = digits_value(t.take(j), radix) {
            let v = digits_value(t.take(j - 1), radix).unwrap();
            assert(v * radix >= v) by (nonlinear_arith)
                requires
                    radix >= 1,
                    v >= 0,
            ;
        }
    }
}

/// The value of the digits `v[from..]` in base `radix`, if it is at most `max`.
fn digits_upto(v: &[char], from: usize, radix: u32, max: u64) -> (r: Option<u64>)
    requires
        2 <= radix <= 36,
        from <= v@.len(),
    ensures
        match r {
            Some(x) => digits_value(v@.skip(from as int), radix as nat) == Some(x as nat) && x <= max,
            None => !(digits_value(v@.skip(from as int), radix as nat) matches Some(x) && x <= max),
        },
{
    let ghost t = v@.skip(from as int);
    let mut acc: u64 = 0;
    let mut i = from;
    assert(t.take(0) =~= Seq::<char>::empty());
    while i < v.len()
        invariant
            from <= i <= v@.len(),
            2 <= radix <= 36,
            t == v@.skip(from as int),
            acc <= max,
            digits_value(t.take(i - from), radix as nat) == Some(acc as nat),
        decreases v@.len() - i,
    {
        let ghost k = i - from;
        assert(t.take(k + 1).drop_last() =~= t.take(k));
        assert(t.take(k + 1).last() == v@[i as int]);
        let d = match digit_exec(v[i], radix) {
            None => {
                proof {
                    lemma_none_stays(t, radix as nat, k + 1, t.len() as int);
                    assert(t.take(t.len() as int) =~= t);
                }
                return None;
            },
            Some(d) => d,
        };
        assert((acc as u128) * (radix as u128) <= 0xFFFF_FFFF_FFFF_FFFFu128 * 36) by (nonlinear_arith)
            requires
                acc <= u64::MAX,
                radix <= 36,
        ;
        let next = acc as u128 * radix as u128 + d as u128;
        assert(next == acc * radix + d) by (nonlinear_arith)
            requires
                next == (acc as u128) * (radix as u128) + d,
                acc <= u64::MAX,
                radix <= 36,
        ;
        if next > max as u128 {
            proof {
                lemma_digits_grow(t, radix as nat, k + 1, t.len() as int);
                assert(t.take(t.len() as int) =~= t);
            }
            return None;
        }
        acc = next as u64;
        i = i + 1;
    }
    assert(t.take(i - from) =~= t);
    Some(acc)
}

proof fn lemma_none_stays(t: Seq<char>, radix: nat, k: int, j: int)
    requires
        0 <= k <= j <= t.len(),
        digits_value(t.take(k), radix) is None,
    ensures
        digits_value(t.take(j), radix) is None,
    decreases j - k,
{
    if j > k {
        lemma_none_stays(t, radix, k, j - 1);
        assert(t.take(j).drop_last() =~= t.take(j - 1));
    }
}

/// Parses an unsigned number in base `radix` no larger than `max`, with an optional `+`.
pub fn parse_unsigned_exec(v: &[char], radix: u32, max: u64) -> (r: Option<u64>)
    requires
        2 <= radix <= 36,
    ensures
        match r {
            Some(x) => parse_unsigned(v@, radix as nat, max as nat) == Some(x as nat),
            None => parse_unsigned(v@, radix as nat, max as nat) is None,
        },
{
    let from: usize = if v.len() > 0 && v[0] == '+' {
        1
    } else {
        0
    };
    if from == v.len() {
        return None;
    }
    assert(from == 1 ==> v@.skip(1) =~= v@.drop_first());
    assert(v@.skip(0) =~= v@);
    digits_upto(v, from, radix, max)
}

/// Parses a decimal `i32` as `str::parse::<i32>` does.
pub fn parse_i32(v: &[char]) -> (r: Option<i32>)
    ensures
        r == parse_i32_text(v@),
{
    if v.len() > 0 && v[0] == '-' {
        if v.len() == 1 {
            return None;
        }
        assert(v@.skip(1) =~= v@.drop_first());
        match digits_upto(v, 1, 10, 0x8000_0000) {
            Some(x) => Some((0 - x as i64) as i32),
            None => None,
        }
    } else {
        match parse_unsigned_exec(v, 10, 0x7FFF_FFFF) {
            Some(x) => Some(x as i32),
            None => None,
        }
    }
}

/// The decimal digit character for `d < 10`.
pub open spec fn digit_char(d: int) -> char {
    (48 + d) as char
}

/// The decimal representation of `n`, without leading zeros.
pub open spec fn decimal(n: nat) -> Seq<char>
    decreases n,
{
    if n < 10 {
        seq![digit_char(n as int)]
    } else {
        decimal(n / 10).push(digit_char((n % 10) as int))
    }
}

/// The decimal representation of a signed `n`, with a leading `-` when negative.
pub open spec fn signed_decimal(n: int) -> Seq<char> {
    if n < 0 {
        seq!['-'] + decimal((-n) as nat)
    } else {
        decimal(n as nat)
    }
}

/// Appends the decimal representation of `n` to `s`.
pub fn push_decimal(s: &mut String, n: u64)
    ensures
        final(s)@ == old(s)@ + decimal(n as nat),
    decreases n,
{
    if n >= 10 {
        push_decimal(s, n / 10);
    }
    let d = (n % 10) as u8;
    push_char(s, (48 + d) as char);
    proof {
        if n < 10 {
            assert(old(s)@ + decimal(n as nat) =~= old(s)@.push(digit_char(n as int)));
        } else {
            assert(old(s)@ + decimal(n as nat) =~= (old(s)@ + decimal((n / 10) as nat)).push(
                digit_char((n % 10) as int),
            ));
        }
    }
}

/// Appends the decimal representation of a signed `n` to `s`.
pub fn push_signed(s: &mut String, n: i64)
    requires
        n > i64::MIN,
    ensures
        final(s)@ == old(s)@ + signed_decimal(n as int),
{
    if n < 0 {
        push_char(s, '-');
        let ghost mid = s@;
        push_decimal(s, (0 - n) as u64);
        assert(old(s)@ + signed_decimal(n as int) =~= mid + decimal((-n) as nat));
    } else {
        push_decimal(s, n as u64);
    }
}

/// The lowercase hexadecimal digit for `d < 16`.
pub open spec fn hex_char(d: int) -> char {
    if d < 10 {
        (48 + d) as char
    } else {
        (87 + d) as char
    }
}

/// The lowercase hexadecimal representation of `n`, without leading zeros (`{:x}`).
pub open spec fn hex(n: nat) -> Seq<char>
    decreases n,
{
    if n < 16 {
        seq![hex_char(n as int)]
    } else {
        hex(n / 16).push(hex_char((n % 16) as int))
    }
}

/// Appends the lowercase hexadecimal representation of `n` to `s`.
pub fn push_hex(s: &mut String, n: u64)
    ensures
        final(s)@ == old(s)@ + hex(n as nat),
    decreases n,
{
    if n >= 16 {
        push_hex(s, n / 16);
    }
    let d = (n % 16) as u8;
    let c = if d < 10 {
        (48 + d) as char
    } else {
        (87 + d) as char
    };
    push_char(s, c);
    proof {
        if n < 16 {
            assert(old(s)@ + hex(n as nat) =~= old(s)@.push(hex_char(n as int)));
        } else {
            assert(old(s)@ + hex(n as nat) =~= (old(s)@ + hex((n / 16) as nat)).push(
                hex_char((n % 16) as int),
            ));
        }
    }
}


/// Every character of `decimal(n)` is an ASCII digit, and there is at least one.
pub proof fn lemma_decimal_chars(n: nat)
    ensures
        decimal(n).len() >= 1,
        forall|i: int| 0 <= i < decimal(n).len() ==> '0' <= #[trigger] decimal(n)[i] <= '9',
    decreases n,
{
    if n >= 10 {
        lemma_decimal_chars(n / 10);
        let d = (n % 10) as int;
        assert('0' <= digit_char(d) <= '9');
    }
}

/// Decimal text reads back as the number it was made from.
pub proof fn lemma_decimal_value(n: nat)
    ensures
        digits_value(decimal(n), 10) == Some(n),
    decreases n,
{
    if n < 10 {
        let s = decimal(n);
        assert(s.drop_last() =~= Seq::<char>::empty());
        assert(digit_value(digit_char(n as int), 10) == Some(n));
        assert(s.last() == digit_char(n as int));
        assert(digits_value(s.drop_last(), 10) == Some(0nat));
    } else {
        lemma_decimal_value(n / 10);
        let s = decimal(n);
        assert(s.drop_last() =~= decimal(n / 10));
        let d = (n % 10) as int;
        assert(s.last() == digit_char(d));
        assert(digit_value(digit_char(d), 10) == Some(d as nat));
        assert((n / 10) * 10 + n % 10 == n) by (nonlinear_arith);
        assert(digits_value(s, 10) == Some(((n / 10) * 10 + d) as nat));
    }
}

/// `str::parse` of a number's decimal text gives the number back, when it is in range.
pub proof fn lemma_parse_decimal(n: nat, max: nat)
    requires
        n <= max,
    ensures
        parse_unsigned(decimal(n), 10, max) == Some(n),
{
    lemma_decimal_chars(n);
    lemma_decimal_value(n);
    assert(decimal(n)[0] != '+');
}

/// `str::parse::<i32>` of an `i32`'s decimal text gives it back.
pub proof fn lemma_parse_signed_decimal(p: i32)
    ensures
        parse_i32_text(signed_decimal(p as int)) == Some(p),
{
    if p < 0 {
        let v = (-p) as nat;
        let s = signed_decimal(p as int);
        assert(s.drop_first() =~= decimal(v));
        lemma_decimal_value(v);
        lemma_decimal_chars(v);
    } else {
        lemma_parse_decimal(p as nat, 0x7FFF_FFFF);
        lemma_decimal_chars(p as nat);
        assert(signed_decimal(p as int)[0] != '-');
    }
}

} // verus!
