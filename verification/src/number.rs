//! Numbers on the wire and in text: big-endian bytes, decimal and hexadecimal
//! digits.

use vstd::arithmetic::power::pow;
use vstd::prelude::*;
use vstd::string::*;

verus! {

/// The `n` low bytes of `x`, most significant first.
pub open spec fn be_bytes(x: nat, n: nat) -> Seq<u8>
    decreases n,
{
    if n == 0 {
        Seq::empty()
    } else {
        be_bytes(x / 256, (n - 1) as nat).push((x % 256) as u8)
    }
}

/// The number that bytes stand for, most significant first.
pub open spec fn be_value(s: Seq<u8>) -> nat
    decreases s.len(),
{
    if s.len() == 0 {
        0
    } else {
        be_value(s.drop_last()) * 256 + s.last() as nat
    }
}

/// How many numbers `n` bytes can hold.
pub open spec fn byte_range(n: nat) -> nat
    decreases n,
{
    if n == 0 {
        1
    } else {
        byte_range((n - 1) as nat) * 256
    }
}

/// The character for one digit, in a radix of at most sixteen.
pub open spec fn digit(d: nat) -> char {
    "0123456789abcdef"@[d as int]
}

/// `n` in decimal, without leading zeros.
pub open spec fn decimal(n: nat) -> Seq<char>
    decreases n,
{
    if n < 10 {
        seq![digit(n)]
    } else {
        decimal(n / 10).push(digit(n % 10))
    }
}

/// `n` in lower-case hexadecimal, without leading zeros.
pub open spec fn hexadecimal(n: nat) -> Seq<char>
    decreases n,
{
    if n < 16 {
        seq![digit(n)]
    } else {
        hexadecimal(n / 16).push(digit(n % 16))
    }
}

/// `be_bytes` has the asked length, and reading it gives the number back.
pub proof fn lemma_be_bytes_value(x: nat, n: nat)
    ensures
        be_bytes(x, n).len() == n,
        x < byte_range(n) ==> be_value(be_bytes(x, n)) == x,
    decreases n,
{
    if n > 0 {
        lemma_be_bytes_value(x / 256, (n - 1) as nat);
        let s = be_bytes(x, n);
        assert(s.drop_last() =~= be_bytes(x / 256, (n - 1) as nat));
    }
}

/// Writing what bytes stand for gives the bytes back.
pub proof fn lemma_be_value_bytes(s: Seq<u8>)
    ensures
        be_value(s) < byte_range(s.len()),
        be_bytes(be_value(s), s.len()) == s,
    decreases s.len(),
{
    if s.len() > 0 {
        lemma_be_value_bytes(s.drop_last());
        let v = be_value(s);
        assert(v / 256 == be_value(s.drop_last()));
        assert(v % 256 == s.last() as nat);
        assert(be_bytes(v, s.len()) =~= s);
    } else {
        assert(be_bytes(0, 0) =~= s);
    }
}

/// What the fixed-width integers hold, in terms of their bytes.
pub proof fn lemma_byte_ranges()
    ensures
        byte_range(2) == 0x1_0000,
        byte_range(4) == 0x1_0000_0000,
        byte_range(8) == 0x1_0000_0000_0000_0000,
{
    reveal_with_fuel(byte_range, 9);
}

proof fn lemma_byte_range_grows(i: nat, n: nat)
    requires
        i <= n,
    ensures
        1 <= byte_range(i) <= byte_range(n),
    decreases n,
{
    if i < n {
        lemma_byte_range_grows(i, (n - 1) as nat);
    } else if i > 0 {
        lemma_byte_range_grows((i - 1) as nat, (i - 1) as nat);
    }
}

/// The eight bytes of `x`, most significant first.
pub fn u64_be_bytes(x: u64) -> (r: [u8; 8])
    ensures
        r@ == be_bytes(x as nat, 8),
{
    let mut out: [u8; 8] = [0u8; 8];
    let mut v: u64 = x;
    let mut i: usize = 8;
    assert(out@.skip(8) =~= Seq::<u8>::empty());
    assert(be_bytes(x as nat, 8) =~= be_bytes(v as nat, i as nat) + out@.skip(8));
    while i > 0
        invariant
            i <= 8,
            be_bytes(x as nat, 8) =~= be_bytes(v as nat, i as nat) + out@.skip(i as int),
        decreases i,
    {
        let ghost before = out@;
        i = i - 1;
        out[i] = (v % 256) as u8;
        assert(out@ =~= before.update(i as int, (v % 256) as u8));
        assert(seq![(v % 256) as u8] + before.skip(i + 1) =~= out@.skip(i as int));
        assert(be_bytes(v as nat, (i + 1) as nat) == be_bytes((v / 256) as nat, i as nat).push(
            (v % 256) as u8,
        ));
        assert(be_bytes(v as nat, (i + 1) as nat) + before.skip(i + 1) =~= be_bytes(
            (v / 256) as nat,
            i as nat,
        ) + (seq![(v % 256) as u8] + before.skip(i + 1)));
        v = v / 256;
    }
    assert(out@.skip(0) =~= out@);
    assert(be_bytes(v as nat, 0) + out@ =~= out@);
    out
}

/// The number that up to eight bytes stand for, most significant first.
pub fn be_number(s: &[u8]) -> (r: u64)
    requires
        s@.len() <= 8,
    ensures
        r == be_value(s@),
        r < byte_range(s@.len()),
{
    let mut v: u64 = 0;
    let mut i: usize = 0;
    while i < s.len()
        invariant
            i <= s@.len() <= 8,
            v == be_value(s@.take(i as int)),
        decreases s@.len() - i,
    {
        assert(s@.take(i + 1).drop_last() =~= s@.take(i as int));
        proof {
            lemma_be_value_bytes(s@.take(i + 1));
            lemma_byte_range_grows((i + 1) as nat, 8);
            lemma_byte_ranges();
        }
        v = v * 256 + s[i] as u64;
        i = i + 1;
    }
    assert(s@.take(s@.len() as int) =~= s@);
    proof {
        lemma_be_value_bytes(s@);
    }
    v
}

fn digit_text(d: u64) -> (r: &'static str)
    requires
        d < 16,
    ensures
        r@ == seq![digit(d as nat)],
{
    let digits: &'static str = "0123456789abcdef";
    proof {
        reveal_strlit("0123456789abcdef");
    }
    let r = digits.substring_char(d as usize, d as usize + 1);
    assert(r@ =~= seq![digit(d as nat)]);
    r
}

/// `n` in decimal.
pub fn decimal_text(n: u64) -> (r: String)
    ensures
        r@ == decimal(n as nat),
    decreases n,
{
    if n < 10 {
        digit_text(n).to_owned()
    } else {
        let mut out = decimal_text(n / 10);
        out.append(digit_text(n % 10));
        assert(out@ =~= decimal(n as nat));
        out
    }
}

/// `n` in lower-case hexadecimal.
pub fn hexadecimal_text(n: u64) -> (r: String)
    ensures
        r@ == hexadecimal(n as nat),
    decreases n,
{
    if n < 16 {
        digit_text(n).to_owned()
    } else {
        let mut out = hexadecimal_text(n / 16);
        out.append(digit_text(n % 16));
        assert(out@ =~= hexadecimal(n as nat));
        out
    }
}

/// The number that decimal digits stand for.
pub open spec fn decimal_value(s: Seq<char>) -> int
    decreases s.len(),
{
    if s.len() == 0 {
        0
    } else {
        decimal_value(s.drop_last()) * 10 + (s.last() as int - '0' as int)
    }
}

/// The number that a lower-case hexadecimal digit stands for.
pub open spec fn hexadecimal_digit_value(c: char) -> int {
    if '0' <= c <= '9' {
        c as int - '0' as int
    } else {
        c as int - 'a' as int + 10
    }
}

/// The number that lower-case hexadecimal digits stand for.
pub open spec fn hexadecimal_value(s: Seq<char>) -> int
    decreases s.len(),
{
    if s.len() == 0 {
        0
    } else {
        hexadecimal_value(s.drop_last()) * 16 + hexadecimal_digit_value(s.last())
    }
}

proof fn lemma_digit(d: nat)
    requires
        d < 16,
    ensures
        d < 10 ==> digit(d) as int == '0' as int + d,
        d >= 10 ==> digit(d) as int == 'a' as int + d - 10,
{
    reveal_strlit("0123456789abcdef");
}

/// Decimal digits read back give the number; they are digits, and the first one is
/// zero for zero alone.
pub proof fn law_decimals_read_back(n: nat)
    ensures
        decimal_value(decimal(n)) == n,
        decimal(n).len() > 0,
        forall|i: int| 0 <= i < decimal(n).len() ==> '0' <= #[trigger] decimal(n)[i] <= '9',
        n == 0 ==> decimal(n).len() == 1,
        n > 0 ==> decimal(n)[0] != '0',
    decreases n,
{
    let text = decimal(n);
    if n < 10 {
        lemma_digit(n);
        assert(text.drop_last() =~= Seq::<char>::empty());
        assert(decimal_value(text.drop_last()) == 0);
    } else {
        let front = decimal(n / 10);
        law_decimals_read_back(n / 10);
        lemma_digit(n % 10);
        assert(text.drop_last() =~= front);
        assert(text[0] == front[0]);
        assert forall|i: int| 0 <= i < text.len() implies '0' <= #[trigger] text[i] <= '9' by {
            if i < front.len() {
                assert(text[i] == front[i]);
            }
        }
    }
}

/// Hexadecimal digits read back give the number; they are lower-case digits, and
/// the first one is zero for zero alone.
pub proof fn law_hexadecimals_read_back(n: nat)
    ensures
        hexadecimal_value(hexadecimal(n)) == n,
        hexadecimal(n).len() > 0,
        forall|i: int|
            0 <= i < hexadecimal(n).len() ==> {
                ||| '0' <= #[trigger] hexadecimal(n)[i] <= '9'
                ||| 'a' <= hexadecimal(n)[i] <= 'f'
            },
        n == 0 ==> hexadecimal(n).len() == 1,
        n > 0 ==> hexadecimal(n)[0] != '0',
    decreases n,
{
    let text = hexadecimal(n);
    if n < 16 {
        lemma_digit(n);
        assert(text.drop_last() =~= Seq::<char>::empty());
        assert(hexadecimal_value(text.drop_last()) == 0);
    } else {
        let front = hexadecimal(n / 16);
        law_hexadecimals_read_back(n / 16);
        lemma_digit(n % 16);
        assert(text.drop_last() =~= front);
        assert(text[0] == front[0]);
        assert forall|i: int| 0 <= i < text.len() implies {
            ||| '0' <= #[trigger] text[i] <= '9'
            ||| 'a' <= text[i] <= 'f'
        } by {
            if i < front.len() {
                assert(text[i] == front[i]);
            }
        }
    }
}

/// Different numbers have different digits.
pub proof fn law_numbers_have_their_own_digits(a: nat, b: nat)
    requires
        a != b,
    ensures
        decimal(a) != decimal(b),
        hexadecimal(a) != hexadecimal(b),
{
    law_decimals_read_back(a);
    law_decimals_read_back(b);
    law_hexadecimals_read_back(a);
    law_hexadecimals_read_back(b);
}

/// A byte counts as many times as there are numbers of the bytes behind it.
pub proof fn law_bytes_count_by_their_places(b: u8, s: Seq<u8>)
    ensures
        be_value(Seq::empty()) == 0,
        be_value(seq![b] + s) == b * pow(256, s.len()) + be_value(s),
    decreases s.len(),
{
    let all = seq![b] + s;
    reveal(pow);
    if s.len() == 0 {
        assert(all.drop_last() =~= Seq::<u8>::empty());
        assert(be_value(all.drop_last()) == 0);
        assert(pow(256, 0) == 1);
    } else {
        law_bytes_count_by_their_places(b, s.drop_last());
        assert(all.drop_last() =~= seq![b] + s.drop_last());
        let p = pow(256, (s.len() - 1) as nat);
        assert(pow(256, s.len()) == 256 * p);
        assert(b * (256 * p) == (b * p) * 256) by (nonlinear_arith);
    }
}

/// The numbers of two, four and eight bytes.
pub proof fn law_numbers_of_bytes(a: u8, b: u8, c: u8, d: u8, e: u8, f: u8, g: u8, h: u8)
    ensures
        be_value(seq![a, b]) == 0x100 * a + b,
        be_value(seq![a, b, c, d]) == 0x100_0000 * a + 0x1_0000 * b + 0x100 * c + d,
        be_value(seq![a, b, c, d, e, f, g, h]) == 0x100_0000_0000_0000 * a + 0x1_0000_0000_0000 * b
            + 0x100_0000_0000 * c + 0x1_0000_0000 * d + 0x100_0000 * e + 0x1_0000 * f + 0x100 * g
            + h,
{
    let s = seq![a, b, c, d, e, f, g, h];
    assert(be_value(Seq::<u8>::empty()) == 0);
    let s1 = seq![a];
    let s2 = seq![a, b];
    let s3 = seq![a, b, c];
    let s4 = seq![a, b, c, d];
    let s5 = seq![a, b, c, d, e];
    let s6 = seq![a, b, c, d, e, f];
    let s7 = seq![a, b, c, d, e, f, g];
    assert(s1.drop_last() =~= Seq::<u8>::empty());
    assert(s2.drop_last() =~= s1);
    assert(s3.drop_last() =~= s2);
    assert(s4.drop_last() =~= s3);
    assert(be_value(s1) == a);
    assert(be_value(s2) == 0x100 * a + b);
    assert(be_value(s3) == 0x100 * be_value(s2) + c);
    assert(be_value(s4) == 0x100 * be_value(s3) + d);
    assert(s5.drop_last() =~= s4);
    assert(s6.drop_last() =~= s5);
    assert(s7.drop_last() =~= s6);
    assert(s.drop_last() =~= s7);
    assert(be_value(s5) == 0x100 * be_value(s4) + e);
    assert(be_value(s6) == 0x100 * be_value(s5) + f);
    assert(be_value(s7) == 0x100 * be_value(s6) + g);
    assert(be_value(s) == 0x100 * be_value(s7) + h);
}

/// The bytes of a number are as many as asked for, and their number is the number.
pub proof fn law_bytes_of_numbers(x: nat)
    ensures
        x < 0x1_0000_0000 ==> be_bytes(x, 4).len() == 4 && be_value(be_bytes(x, 4)) == x,
        x < 0x1_0000_0000_0000_0000 ==> be_bytes(x, 8).len() == 8 && be_value(be_bytes(x, 8)) == x,
{
    lemma_be_bytes_value(x, 4);
    lemma_be_bytes_value(x, 8);
    lemma_byte_ranges();
}

} // verus!
