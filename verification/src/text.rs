//! Numbers as the UI writes them.

use vstd::prelude::*;

verus! {

/// The character of a decimal digit.
pub open spec fn digit_char(d: nat) -> char {
    (48 + d) as char
}

/// `n` in decimal, most significant digit first, with no leading zeros.
pub open spec fn decimal(n: nat) -> Seq<char>
    decreases n,
{
    if n < 10 {
        seq![digit_char(n)]
    } else {
        decimal(n / 10).push(digit_char(n % 10))
    }
}

fn digit_str(d: u64) -> (s: &'static str)
    requires
        d < 10,
    ensures
        s@ == seq![digit_char(d as nat)],
{
    let s = match d {
        0 => "0",
        1 => "1",
        2 => "2",
        3 => "3",
        4 => "4",
        5 => "5",
        6 => "6",
        7 => "7",
        8 => "8",
        _ => "9",
    };
    proof {
        reveal_strlit("0");
        reveal_strlit("1");
        reveal_strlit("2");
        reveal_strlit("3");
        reveal_strlit("4");
        reveal_strlit("5");
        reveal_strlit("6");
        reveal_strlit("7");
        reveal_strlit("8");
        reveal_strlit("9");
        assert(s@ =~= seq![digit_char(d as nat)]);
    }
    s
}

/// Appends `n` in decimal.
pub fn push_decimal(s: &mut String, n: u64)
    ensures
        final(s)@ == old(s)@ + decimal(n as nat),
    decreases n,
{
    if n >= 10 {
        push_decimal(s, n / 10);
    }
    s.append(digit_str(n % 10));
    proof {
        if n >= 10 {
            assert(old(s)@ + decimal((n / 10) as nat) + seq![digit_char((n % 10) as nat)] =~= old(s)@ + decimal(n as nat));
        } else {
            assert(old(s)@ + seq![digit_char(n as nat)] =~= old(s)@ + decimal(n as nat));
        }
    }
}

/// `n` in decimal.
pub fn decimal_text(n: u64) -> (s: String)
    ensures
        s@ == decimal(n as nat),
{
    let mut s = String::new();
    push_decimal(&mut s, n);
    proof {
        assert(s@ =~= decimal(n as nat));
    }
    s
}

/// `n` in decimal, with a leading minus sign when negative.
pub open spec fn signed_decimal(n: int) -> Seq<char> {
    if n < 0 {
        seq!['-'] + decimal((-n) as nat)
    } else {
        decimal(n as nat)
    }
}

pub fn signed_decimal_text(n: i64) -> (s: String)
    ensures
        s@ == signed_decimal(n as int),
{
    let mut s = String::new();
    if n < 0 {
        s.append("-");
        proof {
            reveal_strlit("-");
        }
        let m: u64 = if n == i64::MIN {
            0x8000_0000_0000_0000u64
        } else {
            (-n) as u64
        };
        push_decimal(&mut s, m);
        proof {
            assert(s@ =~= signed_decimal(n as int));
        }
    } else {
        push_decimal(&mut s, n as u64);
        proof {
            assert(s@ =~= signed_decimal(n as int));
        }
    }
    s
}

/// Tenths of a second, rounded up, as the cooldown overlay shows them.
pub open spec fn tenths_up(ns: nat) -> nat {
    ((ns + 99_999_999) / 100_000_000) as nat
}

/// A remaining time as `seconds.tenth`, rounded up to the tenth: 1.2 s shows as
/// `1.2`, 1.21 s as `1.3`.
pub fn timer_label(remaining_ns: u64) -> (s: String)
    ensures
        s@ == decimal(tenths_up(remaining_ns as nat) / 10) + seq!['.'] + decimal(
            tenths_up(remaining_ns as nat) % 10,
        ),
{
    let tenths: u64 = remaining_ns / 100_000_000 + if remaining_ns % 100_000_000 == 0 {
        0
    } else {
        1
    };
    assert(tenths == tenths_up(remaining_ns as nat)) by (nonlinear_arith)
        requires
            tenths == remaining_ns / 100_000_000 + if remaining_ns % 100_000_000 == 0 {
                0int
            } else {
                1int
            },
    ;
    let mut s = String::new();
    push_decimal(&mut s, tenths / 10);
    s.append(".");
    proof {
        reveal_strlit(".");
    }
    push_decimal(&mut s, tenths % 10);
    proof {
        assert(s@ =~= decimal(tenths_up(remaining_ns as nat) / 10) + seq!['.'] + decimal(
            tenths_up(remaining_ns as nat) % 10,
        ));
    }
    s
}

/// Whether two strings hold the same characters, compared byte by byte.
pub fn text_eq(a: &str, b: &str) -> (eq: bool)
    ensures
        eq == (a@ == b@),
{
    let x = a.as_bytes();
    let y = b.as_bytes();
    if x.len() != y.len() {
        return false;
    }
    let mut i: usize = 0;
    while i < x.len()
        invariant
            x@ == vstd::utf8::encode_utf8(a@),
            y@ == vstd::utf8::encode_utf8(b@),
            x@.len() == y@.len(),
            i <= x@.len(),
            forall|k: int| 0 <= k < i ==> x@[k] == y@[k],
        decreases x@.len() - i,
    {
        if x[i] != y[i] {
            return false;
        }
        i = i + 1;
    }
    proof {
        assert(x@ =~= y@);
        vstd::utf8::encode_utf8_decode_utf8(a@);
        vstd::utf8::encode_utf8_decode_utf8(b@);
    }
    true
}

/// A resource as the top panel shows it: `current/max`.
pub fn amount_label(current: u32, max: u32) -> (s: String)
    ensures
        s@ == decimal(current as nat) + seq!['/'] + decimal(max as nat),
{
    let mut s = String::new();
    push_decimal(&mut s, current as u64);
    s.append("/");
    proof {
        reveal_strlit("/");
    }
    push_decimal(&mut s, max as u64);
    proof {
        assert(s@ =~= decimal(current as nat) + seq!['/'] + decimal(max as nat));
    }
    s
}

/// The round trip time as the corner of the screen shows it: `Ping: 42ms`.
pub fn ping_label(ms: u64) -> (s: String)
    ensures
        s@ == seq!['P', 'i', 'n', 'g', ':', ' '] + decimal(ms as nat) + seq!['m', 's'],
{
    let mut s = String::from_str("Ping: ");
    proof {
        reveal_strlit("Ping: ");
    }
    push_decimal(&mut s, ms);
    s.append("ms");
    proof {
        reveal_strlit("ms");
        assert(s@ =~= seq!['P', 'i', 'n', 'g', ':', ' '] + decimal(ms as nat) + seq!['m', 's']);
    }
    s
}

/// The value of a run of ASCII digits.
pub open spec fn digits_value(s: Seq<char>) -> int
    decreases s.len(),
{
    if s.len() == 0 {
        0
    } else {
        digits_value(s.drop_last()) * 10 + (s.last() as int - 48)
    }
}

pub open spec fn all_digits(s: Seq<char>) -> bool {
    forall|i: int| 0 <= i < s.len() ==> '0' <= #[trigger] s[i] <= '9'
}

/// Whether a text spells an integer the way the standard library reads an
/// `i64`: an optional sign, then at least one ASCII digit.
pub open spec fn is_integer_text(s: Seq<char>) -> bool {
    if s.len() > 0 && (s[0] == '-' || s[0] == '+') {
        s.len() > 1 && all_digits(s.drop_first())
    } else {
        s.len() > 0 && all_digits(s)
    }
}

/// The integer such a text spells.
pub open spec fn integer_value(s: Seq<char>) -> int {
    if s.len() > 0 && s[0] == '-' {
        -digits_value(s.drop_first())
    } else if s.len() > 0 && s[0] == '+' {
        digits_value(s.drop_first())
    } else {
        digits_value(s)
    }
}

/// What reading `s` as an `i64` gives: its value when it spells one in range.
pub open spec fn read_i64(s: Seq<char>) -> Option<i64> {
    if is_integer_text(s) && i64::MIN <= integer_value(s) <= i64::MAX {
        Some(integer_value(s) as i64)
    } else {
        None
    }
}

proof fn lemma_digits_value_grows(s: Seq<char>)
    requires
        all_digits(s),
    ensures
        digits_value(s) >= 0,
        s.len() > 0 ==> digits_value(s) >= digits_value(s.drop_last()) * 10,
    decreases s.len(),
{
    if s.len() > 0 {
        assert(all_digits(s.drop_last()));
        lemma_digits_value_grows(s.drop_last());
    }
}

/// Once the first `k` digits of a run already pass 2^64, the whole run does.
proof fn lemma_digits_prefix_bound(d: Seq<char>, k: int)
    requires
        0 < k <= d.len(),
        all_digits(d),
        digits_value(d.take(k)) > 0x1_0000_0000_0000_0000,
    ensures
        digits_value(d) > 0x1_0000_0000_0000_0000,
    decreases d.len() - k,
{
    if k < d.len() {
        assert(d.take(k + 1).drop_last() =~= d.take(k));
        assert(all_digits(d.take(k + 1)));
        lemma_digits_value_grows(d.take(k + 1));
        lemma_digits_prefix_bound(d, k + 1);
    } else {
        assert(d.take(k) =~= d);
    }
}

/// Reads `s` as an `i64`: an optional sign and at least one digit, in range.
pub fn parse_i64(s: &str) -> (v: Option<i64>)
    ensures
        v == read_i64(s@),
{
    let len = s.unicode_len();
    if len == 0 {
        return None;
    }
    let first = s.get_char(0);
    let signed = first == '-' || first == '+';
    let start: usize = if signed {
        1
    } else {
        0
    };
    if start == len {
        return None;
    }
    let ghost d = s@.subrange(start as int, len as int);
    proof {
        if signed {
            assert(s@.drop_first() =~= d);
        } else {
            assert(s@ =~= d);
        }
    }
    let mut i: usize = start;
    let mut acc: i128 = 0;
    while i < len
        invariant
            start <= i <= len,
            len == s@.len(),
            start < len,
            d == s@.subrange(start as int, len as int),
            first == s@[0],
            signed == (first == '-' || first == '+'),
            signed ==> start == 1 && s@.drop_first() == d,
            !signed ==> start == 0 && s@ == d,
            0 <= acc <= 0x1_0000_0000_0000_0000,
            all_digits(d.take(i - start)),
            acc == digits_value(d.take(i - start)),
        decreases len - i,
    {
        let c = s.get_char(i);
        if !('0' <= c && c <= '9') {
            proof {
                assert(d[i - start] == c);
                assert(!all_digits(d));
            }
            return None;
        }
        proof {
            assert(d.take(i - start + 1).drop_last() =~= d.take(i - start));
            assert(d.take(i - start + 1).last() == c);
            assert(all_digits(d.take(i - start + 1)));
        }
        let digit = (c as u32 - 48) as i128;
        let next = acc * 10 + digit;
        if next > 0x1_0000_0000_0000_0000 {
            proof {
                if all_digits(d) {
                    lemma_digits_prefix_bound(d, i - start + 1);
                }
            }
            return None;
        }
        acc = next;
        i = i + 1;
    }
    proof {
        assert(d.take(i - start) =~= d);
    }
    let n: i128 = if first == '-' {
        -acc
    } else {
        acc
    };
    if n < -0x8000_0000_0000_0000i128 || n > 0x7fff_ffff_ffff_ffffi128 {
        return None;
    }
    Some(n as i64)
}


/// Whether a text spells an unsigned integer the way the standard library reads
/// one: an optional `+`, then at least one ASCII digit.
pub open spec fn is_unsigned_text(s: Seq<char>) -> bool {
    if s.len() > 0 && s[0] == '+' {
        s.len() > 1 && all_digits(s.drop_first())
    } else {
        s.len() > 0 && all_digits(s)
    }
}

/// The value such a text spells.
pub open spec fn unsigned_value(s: Seq<char>) -> int {
    if s.len() > 0 && s[0] == '+' {
        digits_value(s.drop_first())
    } else {
        digits_value(s)
    }
}

/// What reading `s` as an unsigned integer of at most `max` gives.
pub open spec fn read_unsigned(s: Seq<char>, max: int) -> Option<int> {
    if is_unsigned_text(s) && unsigned_value(s) <= max {
        Some(unsigned_value(s))
    } else {
        None
    }
}

/// A run of digits is worth at least any of its prefixes.
proof fn lemma_digits_prefix_le(d: Seq<char>, k: int)
    requires
        0 <= k <= d.len(),
        all_digits(d),
    ensures
        digits_value(d.take(k)) <= digits_value(d),
    decreases d.len() - k,
{
    if k < d.len() {
        assert(d.take(k + 1).drop_last() =~= d.take(k));
        assert(all_digits(d.take(k + 1)));
        lemma_digits_value_grows(d.take(k + 1));
        lemma_digits_prefix_le(d, k + 1);
    } else {
        assert(d.take(k) =~= d);
    }
}

/// Reads `s` as an unsigned integer of at most `max`.
fn parse_unsigned(s: &str, max: u64) -> (v: Option<u64>)
    ensures
        v is None <==> read_unsigned(s@, max as int) is None,
        v matches Some(x) ==> read_unsigned(s@, max as int) == Some(x as int),
{
    let len = s.unicode_len();
    if len == 0 {
        return None;
    }
    let signed = s.get_char(0) == '+';
    let start: usize = if signed {
        1
    } else {
        0
    };
    if start == len {
        return None;
    }
    let ghost d = s@.subrange(start as int, len as int);
    proof {
        if signed {
            assert(s@.drop_first() =~= d);
        } else {
            assert(s@ =~= d);
        }
    }
    let mut i: usize = start;
    let mut acc: u128 = 0;
    while i < len
        invariant
            start <= i <= len,
            len == s@.len(),
            start < len,
            d == s@.subrange(start as int, len as int),
            signed == (s@[0] == '+'),
            signed ==> start == 1 && s@.drop_first() == d,
            !signed ==> start == 0 && s@ == d,
            acc <= max,
            all_digits(d.take(i - start)),
            acc == digits_value(d.take(i - start)),
        decreases len - i,
    {
        let c = s.get_char(i);
        if !('0' <= c && c <= '9') {
            proof {
                assert(d[i - start] == c);
                assert(!all_digits(d));
            }
            return None;
        }
        proof {
            assert(d.take(i - start + 1).drop_last() =~= d.take(i - start));
            assert(d.take(i - start + 1).last() == c);
            assert(all_digits(d.take(i - start + 1)));
        }
        let digit = (c as u32 - 48) as u128;
        let next = acc * 10 + digit;
        if next > max as u128 {
            proof {
                if all_digits(d) {
                    lemma_digits_prefix_le(d, i - start + 1);
                }
            }
            return None;
        }
        acc = next;
        i = i + 1;
    }
    proof {
        assert(d.take(i - start) =~= d);
    }
    Some(acc as u64)
}

/// Reads `s` as a `u8`, as the standard library does.
pub fn parse_u8(s: &str) -> (v: Option<u8>)
    ensures
        v is None <==> read_unsigned(s@, u8::MAX as int) is None,
        v matches Some(x) ==> read_unsigned(s@, u8::MAX as int) == Some(x as int),
{
    match parse_unsigned(s, 255) {
        Some(x) => Some(x as u8),
        None => None,
    }
}

/// Reads `s` as a `u16`, as the standard library does.
pub fn parse_u16(s: &str) -> (v: Option<u16>)
    ensures
        v is None <==> read_unsigned(s@, u16::MAX as int) is None,
        v matches Some(x) ==> read_unsigned(s@, u16::MAX as int) == Some(x as int),
{
    match parse_unsigned(s, 65535) {
        Some(x) => Some(x as u16),
        None => None,
    }
}


/// Writing a number in decimal and reading the digits back gives the number.
pub proof fn lemma_decimal_reads_back(n: nat)
    ensures
        decimal(n).len() > 0,
        all_digits(decimal(n)),
        digits_value(decimal(n)) == n,
        decimal(n)[0] != '+',
    decreases n,
{
    let d = decimal(n);
    if n >= 10 {
        lemma_decimal_reads_back(n / 10);
        assert(d.drop_last() =~= decimal(n / 10));
        assert(d[0] == decimal(n / 10)[0]);
        assert(d.last() == digit_char(n % 10));
        assert(digit_char(n % 10) as int == 48 + n % 10);
        assert(digits_value(d) == digits_value(d.drop_last()) * 10 + (d.last() as int - 48));
        assert(n == (n / 10) * 10 + n % 10);
    } else {
        assert(d.last() == digit_char(n));
        assert(digit_char(n) as int == 48 + n);
        assert(d.drop_last() =~= Seq::<char>::empty());
        assert(digits_value(d) == digits_value(d.drop_last()) * 10 + (d.last() as int - 48));
    }
}
} // verus!
