//! Numbers as text and as bytes.

use vstd::prelude::*;
use vstd::string::*;

use crate::text::chars_of;

verus! {

// ------------------------------------------------------------------
// Digits
// ------------------------------------------------------------------

/// The lowercase digit for `d` in bases up to sixteen.
pub open spec fn digit(d: int) -> char {
    if d < 10 {
        ('0' as int + d) as char
    } else {
        ('a' as int + d - 10) as char
    }
}

fn digit_char(d: u8) -> (r: char)
    requires
        d < 16,
    ensures
        r == digit(d as int),
{
    if d < 10 {
        (48u8 + d) as char
    } else {
        (87u8 + d) as char
    }
}

/// The decimal form of `n`, without leading zeros.
pub open spec fn decimal(n: nat) -> Seq<char>
    decreases n,
{
    if n < 10 {
        seq![digit(n as int)]
    } else {
        decimal(n / 10).push(digit((n % 10) as int))
    }
}

/// The decimal form of an integer, with `-` before a negative one.
pub open spec fn decimal_int(n: int) -> Seq<char> {
    if n < 0 {
        seq!['-'] + decimal((-n) as nat)
    } else {
        decimal(n as nat)
    }
}

/// The decimal form of `n`.
pub fn dec_u64(n: u64) -> (r: String)
    ensures
        r@ == decimal(n as nat),
    decreases n,
{
    if n < 10 {
        let mut s = String::new();
        s.push(digit_char(n as u8));
        assert(s@ == decimal(n as nat));
        s
    } else {
        let mut s = dec_u64(n / 10);
        s.push(digit_char((n % 10) as u8));
        s
    }
}

/// The decimal form of `n`.
pub fn dec_i64(n: i64) -> (r: String)
    ensures
        r@ == decimal_int(n as int),
{
    if n < 0 {
        let magnitude: u64 = (-(n + 1)) as u64 + 1;
        let digits = dec_u64(magnitude);
        let mut s = String::new();
        s.push('-');
        s.append(digits.as_str());
        assert(s@ == decimal_int(n as int));
        s
    } else {
        dec_u64(n as u64)
    }
}

/// The hexadecimal form of `n`, without leading zeros.
pub open spec fn hexadecimal(n: nat) -> Seq<char>
    decreases n,
{
    if n < 16 {
        seq![digit(n as int)]
    } else {
        hexadecimal(n / 16).push(digit((n % 16) as int))
    }
}

/// The last `width` hexadecimal digits of `n`, leading zeros kept.
pub open spec fn hexadecimal_fixed(n: nat, width: nat) -> Seq<char>
    decreases width,
{
    if width == 0 {
        Seq::<char>::empty()
    } else {
        hexadecimal_fixed(n / 16, (width - 1) as nat).push(digit((n % 16) as int))
    }
}

/// The hexadecimal form of `n`.
pub fn hex_u64(n: u64) -> (r: String)
    ensures
        r@ == hexadecimal(n as nat),
    decreases n,
{
    if n < 16 {
        let mut s = String::new();
        s.push(digit_char(n as u8));
        assert(s@ == hexadecimal(n as nat));
        s
    } else {
        let mut s = hex_u64(n / 16);
        s.push(digit_char((n % 16) as u8));
        s
    }
}

/// The last `width` hexadecimal digits of `n`.
pub fn hex_fixed(n: u64, width: usize) -> (r: String)
    ensures
        r@ == hexadecimal_fixed(n as nat, width as nat),
    decreases width,
{
    if width == 0 {
        String::new()
    } else {
        let mut s = hex_fixed(n / 16, width - 1);
        s.push(digit_char((n % 16) as u8));
        s
    }
}

/// Two hexadecimal digits for each byte.
pub open spec fn hex_of_bytes(bytes: Seq<u8>) -> Seq<char>
    decreases bytes.len(),
{
    if bytes.len() == 0 {
        Seq::<char>::empty()
    } else {
        hex_of_bytes(bytes.drop_last()) + hexadecimal_fixed(bytes.last() as nat, 2)
    }
}

/// Whether a text is made of lowercase hexadecimal digits.
pub open spec fn all_hex(s: Seq<char>) -> bool {
    forall|i: int| 0 <= i < s.len() ==> '0' <= #[trigger] s[i] <= '9' || 'a' <= s[i] <= 'f'
}

/// The form of bytes has two lowercase hexadecimal digits for each.
pub proof fn lemma_hex_of_bytes(bytes: Seq<u8>)
    ensures
        hex_of_bytes(bytes).len() == 2 * bytes.len(),
        all_hex(hex_of_bytes(bytes)),
    decreases bytes.len(),
{
    if bytes.len() > 0 {
        lemma_hex_of_bytes(bytes.drop_last());
        lemma_two_digits(bytes.last());
    }
}

proof fn lemma_two_digits(b: u8)
    ensures
        hexadecimal_fixed(b as nat, 2) == seq![digit(b as int / 16), digit(b as int % 16)],
        all_hex(hexadecimal_fixed(b as nat, 2)),
{
    reveal_with_fuel(hexadecimal_fixed, 3);
    assert(hexadecimal_fixed(b as nat, 2) =~= seq![digit(b as int / 16), digit(b as int % 16)]);
}

/// Different bytes have different forms.
pub proof fn lemma_hex_injective(a: Seq<u8>, b: Seq<u8>)
    requires
        hex_of_bytes(a) == hex_of_bytes(b),
    ensures
        a == b,
    decreases a.len(),
{
    lemma_hex_of_bytes(a);
    lemma_hex_of_bytes(b);
    assert(a.len() == b.len());
    if a.len() > 0 {
        let n = a.len() as int;
        let x = hex_of_bytes(a);
        let y = hex_of_bytes(b);
        lemma_hex_of_bytes(a.drop_last());
        lemma_hex_of_bytes(b.drop_last());
        lemma_two_digits(a.last());
        lemma_two_digits(b.last());
        assert(x.take(2 * n - 2) =~= hex_of_bytes(a.drop_last()));
        assert(y.take(2 * n - 2) =~= hex_of_bytes(b.drop_last()));
        assert(x[2 * n - 2] == digit(a.last() as int / 16));
        assert(y[2 * n - 2] == digit(b.last() as int / 16));
        assert(x[2 * n - 1] == digit(a.last() as int % 16));
        assert(y[2 * n - 1] == digit(b.last() as int % 16));
        lemma_hex_injective(a.drop_last(), b.drop_last());
        assert(a =~= a.drop_last().push(a.last()));
        assert(b =~= b.drop_last().push(b.last()));
    } else {
        assert(a =~= b);
    }
}

/// Two hexadecimal digits for each byte.
pub fn hex_bytes(bytes: &Vec<u8>) -> (r: String)
    ensures
        r@ == hex_of_bytes(bytes@),
{
    let mut out = String::new();
    let mut i: usize = 0;
    while i < bytes.len()
        invariant
            i <= bytes.len(),
            out@ == hex_of_bytes(bytes@.take(i as int)),
        decreases bytes.len() - i,
    {
        let two = hex_fixed(bytes[i] as u64, 2);
        out.append(two.as_str());
        i = i + 1;
        assert(bytes@.take(i as int).drop_last() == bytes@.take(i - 1));
    }
    assert(bytes@.take(i as int) == bytes@);
    out
}

// ------------------------------------------------------------------
// Reading decimal numbers
// ------------------------------------------------------------------

/// Whether `c` is one of `0` to `9`.
pub open spec fn is_digit(c: char) -> bool {
    '0' <= c <= '9'
}

/// Whether every character of `s` is a decimal digit.
pub open spec fn all_digits(s: Seq<char>) -> bool {
    forall|i: int| 0 <= i < s.len() ==> is_digit(#[trigger] s[i])
}

/// The value of a run of decimal digits.
pub open spec fn digits_value(s: Seq<char>) -> nat
    decreases s.len(),
{
    if s.len() == 0 {
        0
    } else {
        digits_value(s.drop_last()) * 10 + ((s.last() as int - '0' as int) as nat)
    }
}

/// The value of `s` as an unsigned number of at most `max`: one or more
/// digits, an optional `+` before them.
pub open spec fn unsigned_value(s: Seq<char>, max: nat) -> Option<nat> {
    let body = if s.len() > 0 && s[0] == '+' {
        s.drop_first()
    } else {
        s
    };
    if body.len() > 0 && all_digits(body) && digits_value(body) <= max {
        Some(digits_value(body))
    } else {
        None
    }
}

/// The value of `s` as a 64-bit signed number: one or more digits, an
/// optional sign before them.
pub open spec fn signed_value(s: Seq<char>) -> Option<int> {
    let negative = s.len() > 0 && s[0] == '-';
    let body = if s.len() > 0 && (s[0] == '-' || s[0] == '+') {
        s.drop_first()
    } else {
        s
    };
    if body.len() == 0 || !all_digits(body) {
        None
    } else if negative && digits_value(body) <= 0x8000_0000_0000_0000 {
        Some(-(digits_value(body) as int))
    } else if !negative && digits_value(body) <= 0x7fff_ffff_ffff_ffff {
        Some(digits_value(body) as int)
    } else {
        None
    }
}

proof fn lemma_digits_value_grows(s: Seq<char>, n: int)
    requires
        0 <= n <= s.len(),
        all_digits(s),
    ensures
        digits_value(s.take(n)) <= digits_value(s),
    decreases s.len() - n,
{
    if n < s.len() {
        lemma_digits_value_grows(s, n + 1);
        assert(s.take(n + 1).drop_last() == s.take(n));
    } else {
        assert(s.take(n) == s);
    }
}

/// The value of the digits from `from` on, where there is at least one, all
/// are digits, and the value is at most `max`.
fn read_digits(v: &Vec<char>, from: usize, max: u64) -> (r: Option<u64>)
    requires
        from <= v.len(),
    ensures
        ({
            let body = v@.skip(from as int);
            match r {
                Some(n) => body.len() > 0 && all_digits(body) && n == digits_value(body) && n <= max,
                None => body.len() == 0 || !all_digits(body) || digits_value(body) > max,
            }
        }),
{
    let ghost body = v@.skip(from as int);
    if from == v.len() {
        return None;
    }
    let mut k: usize = from;
    while k < v.len()
        invariant
            from <= k <= v.len(),
            body == v@.skip(from as int),
            forall|j: int| 0 <= j < k - from ==> is_digit(#[trigger] body[j]),
        decreases v.len() - k,
    {
        if v[k] < '0' || v[k] > '9' {
            assert(!is_digit(body[k - from]));
            return None;
        }
        assert(is_digit(body[k - from]));
        k = k + 1;
    }
    assert(all_digits(body));
    let mut value: u64 = 0;
    let mut i: usize = from;
    while i < v.len()
        invariant
            from <= i <= v.len(),
            body == v@.skip(from as int),
            all_digits(body),
            value <= max,
            value == digits_value(body.take(i - from)),
        decreases v.len() - i,
    {
        assert(is_digit(body[i - from]));
        let d: u64 = (v[i] as u32 - '0' as u32) as u64;
        proof {
            lemma_digits_value_grows(body, i - from + 1);
            assert(body.take(i - from + 1).drop_last() == body.take(i - from));
        }
        if value > (u64::MAX - d) / 10 || value * 10 + d > max {
            return None;
        }
        value = value * 10 + d;
        i = i + 1;
    }
    assert(body.take(i - from) == body);
    Some(value)
}

/// Reads an unsigned number of at most `max`.
pub fn parse_unsigned(s: &str, max: u64) -> (r: Option<u64>)
    ensures
        match r {
            Some(n) => unsigned_value(s@, max as nat) == Some(n as nat),
            None => unsigned_value(s@, max as nat) is None,
        },
{
    let v = chars_of(s);
    if v.len() > 0 && v[0] == '+' {
        assert(v@.skip(1) == v@.drop_first());
        read_digits(&v, 1, max)
    } else {
        assert(v@.skip(0) == v@);
        read_digits(&v, 0, max)
    }
}

/// Reads a 64-bit signed number.
pub fn parse_i64(s: &str) -> (r: Option<i64>)
    ensures
        match r {
            Some(n) => signed_value(s@) == Some(n as int),
            None => signed_value(s@) is None,
        },
{
    let v = chars_of(s);
    if v.len() > 0 && v[0] == '-' {
        assert(v@.skip(1) == v@.drop_first());
        match read_digits(&v, 1, 0x8000_0000_0000_0000) {
            Some(n) => {
                if n == 0x8000_0000_0000_0000 {
                    Some(i64::MIN)
                } else {
                    Some(-(n as i64))
                }
            },
            None => None,
        }
    } else if v.len() > 0 && v[0] == '+' {
        assert(v@.skip(1) == v@.drop_first());
        match read_digits(&v, 1, 0x7fff_ffff_ffff_ffff) {
            Some(n) => Some(n as i64),
            None => None,
        }
    } else {
        assert(v@.skip(0) == v@);
        match read_digits(&v, 0, 0x7fff_ffff_ffff_ffff) {
            Some(n) => Some(n as i64),
            None => None,
        }
    }
}

/// A decimal form is one or more digits.
pub proof fn lemma_decimal_digits(n: nat)
    ensures
        decimal(n).len() > 0,
        all_digits(decimal(n)),
    decreases n,
{
    if n < 10 {
        assert(decimal(n) == seq![digit(n as int)]);
    } else {
        lemma_decimal_digits(n / 10);
        let head = decimal(n / 10);
        assert(decimal(n) == head.push(digit((n % 10) as int)));
        assert forall|i: int| 0 <= i < decimal(n).len() implies is_digit(#[trigger] decimal(n)[i]) by {
            if i < head.len() {
                assert(is_digit(head[i]));
            }
        }
    }
}

/// Different numbers have different decimal forms.
pub proof fn lemma_decimal_injective(m: nat, n: nat)
    requires
        decimal(m) == decimal(n),
    ensures
        m == n,
    decreases m,
{
    lemma_decimal_digits(m / 10);
    lemma_decimal_digits(n / 10);
    if m < 10 {
        assert(decimal(m) == seq![digit(m as int)]);
        assert(decimal(m).len() == 1);
        if n < 10 {
            assert(decimal(n) == seq![digit(n as int)]);
            assert(decimal(m)[0] == digit(m as int));
            assert(decimal(n)[0] == digit(n as int));
        } else {
            assert(decimal(n) == decimal(n / 10).push(digit((n % 10) as int)));
            assert(decimal(n).len() >= 2);
        }
    } else {
        let dm = decimal(m / 10).push(digit((m % 10) as int));
        assert(decimal(m) == dm);
        assert(dm.len() >= 2);
        if n < 10 {
            assert(decimal(n) == seq![digit(n as int)]);
            assert(decimal(n).len() == 1);
        } else {
            let dn = decimal(n / 10).push(digit((n % 10) as int));
            assert(decimal(n) == dn);
            assert(dm.drop_last() == decimal(m / 10));
            assert(dn.drop_last() == decimal(n / 10));
            lemma_decimal_injective(m / 10, n / 10);
            assert(dm.last() == digit((m % 10) as int));
            assert(dn.last() == digit((n % 10) as int));
        }
    }
}

// ------------------------------------------------------------------
// Little-endian bytes
// ------------------------------------------------------------------

/// The `width` low bytes of `n`, lowest first.
pub open spec fn little_endian(n: nat, width: nat) -> Seq<u8>
    decreases width,
{
    if width == 0 {
        Seq::<u8>::empty()
    } else {
        seq![(n % 256) as u8] + little_endian(n / 256, (width - 1) as nat)
    }
}

/// The number whose bytes, lowest first, are `bytes`.
pub open spec fn little_endian_value(bytes: Seq<u8>) -> nat
    decreases bytes.len(),
{
    if bytes.len() == 0 {
        0
    } else {
        bytes[0] as nat + 256 * little_endian_value(bytes.drop_first())
    }
}

/// Appends the `width` low bytes of `n`, lowest first.
pub fn push_le(out: &mut Vec<u8>, n: u64, width: usize)
    ensures
        final(out)@ == old(out)@ + little_endian(n as nat, width as nat),
{
    let mut rest: u64 = n;
    let mut left: usize = width;
    assert(out@ + little_endian(n as nat, width as nat) == old(out)@ + little_endian(n as nat, width as nat));
    while left > 0
        invariant
            left <= width,
            out@ + little_endian(rest as nat, left as nat) == old(out)@ + little_endian(
                n as nat,
                width as nat,
            ),
        decreases left,
    {
        let ghost before = out@;
        out.push((rest % 256) as u8);
        assert(before + little_endian(rest as nat, left as nat) == out@ + little_endian(
            rest as nat / 256,
            (left - 1) as nat,
        ));
        rest = rest / 256;
        left = left - 1;
    }
    assert(out@ + little_endian(rest as nat, 0) == out@);
}

/// The number in the four bytes from `from` on, lowest first.
pub fn read_le_u32(bytes: &[u8], from: usize) -> (r: u32)
    requires
        from + 4 <= bytes@.len(),
    ensures
        r == little_endian_value(bytes@.subrange(from as int, from + 4)),
{
    let b0: u32 = bytes[from] as u32;
    let b1: u32 = bytes[from + 1] as u32;
    let b2: u32 = bytes[from + 2] as u32;
    let b3: u32 = bytes[from + 3] as u32;
    proof {
        let s = bytes@.subrange(from as int, from + 4);
        reveal_with_fuel(little_endian_value, 5);
        assert(s.drop_first().len() == 3);
        assert(s.drop_first()[0] == s[1]);
        assert(s.drop_first().drop_first()[0] == s[2]);
        assert(s.drop_first().drop_first().drop_first()[0] == s[3]);
    }
    b0 + 256 * (b1 + 256 * (b2 + 256 * b3))
}

/// Writing a number and reading it back gives the number.
pub proof fn law_little_endian_round_trip(n: nat, width: nat)
    requires
        n < vstd::arithmetic::power::pow(256, width),
    ensures
        little_endian(n, width).len() == width,
        little_endian_value(little_endian(n, width)) == n,
    decreases width,
{
    vstd::arithmetic::power::lemma_pow0(256);
    if width > 0 {
        vstd::arithmetic::power::lemma_pow1(256);
        vstd::arithmetic::power::lemma_pow_adds(256, 1, (width - 1) as nat);
        let p = vstd::arithmetic::power::pow(256, (width - 1) as nat);
        assert(vstd::arithmetic::power::pow(256, width) == 256 * p);
        assert(n / 256 < p);
        law_little_endian_round_trip(n / 256, (width - 1) as nat);
        let bytes = little_endian(n, width);
        assert(bytes.drop_first() == little_endian(n / 256, (width - 1) as nat));
        assert(bytes[0] as nat == n % 256);
    }
}

/// The encoding of a number has the given width.
pub proof fn lemma_little_endian_len(n: nat, width: nat)
    ensures
        little_endian(n, width).len() == width,
    decreases width,
{
    if width > 0 {
        lemma_little_endian_len(n / 256, (width - 1) as nat);
    }
}

// ------------------------------------------------------------------
// Laws
// ------------------------------------------------------------------

/// The digits are those of the decimal and hexadecimal systems.
pub proof fn law_digits_are_the_usual_ones(d: int)
    requires
        0 <= d < 16,
    ensures
        d < 10 ==> digit(d) as int == '0' as int + d,
        d >= 10 ==> digit(d) as int == 'a' as int + (d - 10),
{
}

/// The value of a run of digits is ten times that of the run without the last
/// one, and the last one.
pub proof fn law_each_digit_counts_ten_times_the_next(s: Seq<char>, c: char)
    requires
        '0' <= c <= '9',
    ensures
        digits_value(Seq::<char>::empty()) == 0,
        digits_value(s.push(c)) == 10 * digits_value(s) + (c as int - '0' as int),
{
    assert(s.push(c).drop_last() =~= s);
}

/// The decimal form of a number stands for the number and has no zero before
/// it; read where it is not too large it gives the number.
pub proof fn law_decimal_reads_back(n: nat, max: nat)
    ensures
        digits_value(decimal(n)) == n,
        all_digits(decimal(n)),
        decimal(n).len() > 0,
        decimal(n)[0] == '0' ==> n == 0,
        unsigned_value(decimal(n), max) == (if n <= max {
            Some(n)
        } else {
            None
        }),
        unsigned_value(seq!['+'] + decimal(n), max) == (if n <= max {
            Some(n)
        } else {
            None
        }),
{
    lemma_decimal_value(n);
    lemma_decimal_digits(n);
    assert(is_digit(decimal(n)[0]));
    let s = seq!['+'] + decimal(n);
    assert(s.drop_first() =~= decimal(n));
}

proof fn lemma_decimal_value(n: nat)
    ensures
        digits_value(decimal(n)) == n,
        decimal(n).len() > 0,
        decimal(n)[0] == '0' ==> n == 0,
    decreases n,
{
    if n < 10 {
        let s = decimal(n);
        assert(s.drop_last() =~= Seq::<char>::empty());
        assert(digits_value(s.drop_last()) == 0);
        assert(s.last() == digit(n as int));
    } else {
        lemma_decimal_value(n / 10);
        let head = decimal(n / 10);
        let s = decimal(n);
        assert(s.drop_last() =~= head);
        assert(s.last() == digit((n % 10) as int));
        assert(s[0] == head[0]);
    }
}

/// The decimal form of a signed number, read back, gives the number.
pub proof fn law_signed_decimal_reads_back(n: int)
    requires
        i64::MIN <= n <= i64::MAX,
    ensures
        signed_value(decimal_int(n)) == Some(n),
{
    if n < 0 {
        let m = (-n) as nat;
        law_decimal_reads_back(m, m);
        assert(decimal_int(n).drop_first() =~= decimal(m));
    } else {
        law_decimal_reads_back(n as nat, n as nat);
        assert(is_digit(decimal(n as nat)[0]));
    }
}

/// What is no run of digits behind at most one sign is no number.
pub proof fn law_only_digits_are_numbers(s: Seq<char>, max: nat, i: int)
    requires
        s.len() == 0 || (0 <= i < s.len() && !('0' <= s[i] <= '9') && (i > 0 || (s[0] != '+'
            && s[0] != '-'))),
    ensures
        unsigned_value(s, max) is None,
        signed_value(s) is None,
{
    if s.len() > 0 {
        assert(!is_digit(s[i]));
        let body = s.drop_first();
        if i > 0 {
            assert(body[i - 1] == s[i]);
            assert(!all_digits(body));
        }
        assert(!all_digits(s));
    }
}

/// The value of lowercase hexadecimal digits.
pub open spec fn hex_value(s: Seq<char>) -> nat
    decreases s.len(),
{
    if s.len() == 0 {
        0
    } else {
        let c = s.last() as int;
        hex_value(s.drop_last()) * 16 + (if c <= '9' as int {
            (c - '0' as int) as nat
        } else {
            (c - 'a' as int + 10) as nat
        })
    }
}

/// The hexadecimal form of a number stands for the number.
pub proof fn law_hexadecimal_reads_back(n: nat)
    ensures
        hex_value(hexadecimal(n)) == n,
    decreases n,
{
    let s = hexadecimal(n);
    if n < 16 {
        assert(s.drop_last() =~= Seq::<char>::empty());
        assert(hex_value(s.drop_last()) == 0);
        assert(s.last() == digit(n as int));
    } else {
        law_hexadecimal_reads_back(n / 16);
        assert(s.drop_last() =~= hexadecimal(n / 16));
        assert(s.last() == digit((n % 16) as int));
    }
}

/// The form of bytes has, for each of them in its place, two digits that
/// stand for it.
pub proof fn law_each_byte_has_two_digits(bytes: Seq<u8>, i: int)
    requires
        0 <= i < bytes.len(),
    ensures
        hex_of_bytes(bytes).len() == 2 * bytes.len(),
        hex_value(hex_of_bytes(bytes).subrange(2 * i, 2 * i + 2)) == bytes[i],
    decreases bytes.len(),
{
    lemma_hex_of_bytes(bytes);
    let head = bytes.drop_last();
    lemma_hex_of_bytes(head);
    lemma_two_digits(bytes.last());
    let s = hex_of_bytes(bytes);
    if i < head.len() {
        law_each_byte_has_two_digits(head, i);
        assert(s.subrange(2 * i, 2 * i + 2) =~= hex_of_bytes(head).subrange(2 * i, 2 * i + 2));
    } else {
        let b = bytes.last() as int;
        let two = s.subrange(2 * i, 2 * i + 2);
        assert(two =~= seq![digit(b / 16), digit(b % 16)]);
        assert(two.drop_last() =~= seq![digit(b / 16)]);
        assert(two.drop_last().drop_last() =~= Seq::<char>::empty());
        assert(hex_value(two.drop_last().drop_last()) == 0);
        assert(hex_value(two.drop_last()) == b / 16) by {
            assert(two.drop_last().last() == digit(b / 16));
        }
        assert(two.last() == digit(b % 16));
    }
}

/// The last hexadecimal digits of a number, as many as it takes, stand for
/// the number.
pub proof fn law_fixed_hexadecimal_reads_back(n: nat, width: nat)
    requires
        n < vstd::arithmetic::power::pow(16, width),
    ensures
        hexadecimal_fixed(n, width).len() == width,
        hex_value(hexadecimal_fixed(n, width)) == n,
    decreases width,
{
    vstd::arithmetic::power::lemma_pow0(16);
    if width > 0 {
        vstd::arithmetic::power::lemma_pow1(16);
        vstd::arithmetic::power::lemma_pow_adds(16, 1, (width - 1) as nat);
        let p = vstd::arithmetic::power::pow(16, (width - 1) as nat);
        assert(vstd::arithmetic::power::pow(16, width) == 16 * p);
        assert(n / 16 < p);
        law_fixed_hexadecimal_reads_back(n / 16, (width - 1) as nat);
        let s = hexadecimal_fixed(n, width);
        assert(s.drop_last() =~= hexadecimal_fixed(n / 16, (width - 1) as nat));
        assert(s.last() == digit((n % 16) as int));
    }
}

} // verus!
