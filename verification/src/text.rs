//! Small verified text helpers shared by the other modules.

use vstd::prelude::*;
use vstd::string::StringSliceAdditionalSpecFns;

verus! {

broadcast use vstd::utf8::encode_utf8_decode_utf8;

pub assume_specification[ String::push ](s: &mut String, ch: char)
    ensures
        final(s)@ == old(s)@.push(ch),
;

/// Characters of the routing name of this machine.
pub open spec fn local_name() -> Seq<char> {
    seq!['l', 'o', 'c', 'a', 'l']
}

/// Owned copy of the routing name of this machine (`"local"`).
pub fn local_target() -> (s: String)
    ensures
        s@ == local_name(),
{
    let mut s = String::new();
    s.push('l');
    s.push('o');
    s.push('c');
    s.push('a');
    s.push('l');
    s
}

/// Whether two string slices hold the same characters.
pub fn str_eq(a: &str, b: &str) -> (r: bool)
    ensures
        r == (a@ == b@),
{
    let ab = a.as_bytes();
    let bb = b.as_bytes();
    proof {
        vstd::utf8::encode_utf8_decode_utf8(a@);
        vstd::utf8::encode_utf8_decode_utf8(b@);
    }
    if ab.len() != bb.len() {
        assert(ab@ != bb@);
        return false;
    }
    let n = ab.len();
    let mut i: usize = 0;
    while i < n
        invariant
            n == ab@.len(),
            n == bb@.len(),
            ab@ == a.spec_bytes(),
            bb@ == b.spec_bytes(),
            i <= n,
            forall|j: int| 0 <= j < i ==> ab@[j] == bb@[j],
        decreases n - i,
    {
        if ab[i] != bb[i] {
            assert(ab@[i as int] != bb@[i as int]);
            assert(ab@ != bb@);
            return false;
        }
        i = i + 1;
    }
    assert(ab@ =~= bb@);
    true
}

/// Whether a slice reads `"local"`.
pub fn is_local(a: &str) -> (r: bool)
    ensures
        r == (a@ == local_name()),
{
    let l = local_target();
    str_eq(a, l.as_str())
}

/// Owned copy of a string slice.
pub fn owned(a: &str) -> (s: String)
    ensures
        s@ == a@,
{
    a.to_owned()
}

/// Lower-case hexadecimal digit of a nibble.
pub open spec fn hex_digit(v: int) -> char {
    if v < 10 {
        (('0' as int) + v) as char
    } else {
        (('a' as int) + v - 10) as char
    }
}

/// `n` written with exactly `width` lower-case hex digits (high digits dropped).
pub open spec fn hex_fixed(n: nat, width: nat) -> Seq<char>
    decreases width,
{
    if width == 0 {
        Seq::empty()
    } else {
        hex_fixed(n / 16, (width - 1) as nat).push(hex_digit((n % 16) as int))
    }
}

fn hex_digit_exec(v: u64) -> (c: char)
    requires
        v < 16,
    ensures
        c == hex_digit(v as int),
{
    if v < 10 {
        let b: u8 = 48u8 + (v as u8);
        b as char
    } else {
        let b: u8 = 87u8 + (v as u8);
        b as char
    }
}

/// `n` as sixteen zero-padded lower-case hex digits.
pub fn hex16(n: u64) -> (s: String)
    ensures
        s@ == hex_fixed(n as nat, 16),
{
    let mut digits: Vec<char> = Vec::new();
    let mut m: u64 = n;
    let mut k: usize = 0;
    assert(pow16(0) == 1);
    while k < 16
        invariant
            k <= 16,
            digits@.len() == k,
            m as nat == (n as nat) / pow16(k as nat),
            forall|j: int| 0 <= j < k ==> digits@[j] == hex_digit((((n as nat) / pow16(j as nat)) % 16) as int),
        decreases 16 - k,
    {
        let d = m % 16;
        proof {
            lemma_div_pow16(n as nat, k as nat);
        }
        digits.push(hex_digit_exec(d));
        m = m / 16;
        k = k + 1;
    }
    let mut s = String::new();
    let mut i: usize = 16;
    while i > 0
        invariant
            i <= 16,
            digits@.len() == 16,
            s@ == hex_fixed((n as nat) / pow16(i as nat), (16 - i) as nat),
            forall|j: int| 0 <= j < 16 ==> digits@[j] == hex_digit((((n as nat) / pow16(j as nat)) % 16) as int),
        decreases i,
    {
        i = i - 1;
        proof {
            lemma_div_pow16(n as nat, i as nat);
            let x = (n as nat) / pow16(i as nat);
            let w = (16 - i) as nat;
            assert(w > 0);
            lemma_hex_fixed_step(x, w);
            assert((w - 1) as nat == (16 - (i + 1)) as nat);
        }
        s.push(digits[i]);
    }
    s
}

proof fn lemma_hex_fixed_step(x: nat, w: nat)
    requires
        w > 0,
    ensures
        hex_fixed(x, w) == hex_fixed(x / 16, (w - 1) as nat).push(hex_digit((x % 16) as int)),
{
}

pub open spec fn pow16(k: nat) -> nat
    decreases k,
{
    if k == 0 {
        1
    } else {
        16 * pow16((k - 1) as nat)
    }
}

proof fn lemma_pow16_pos(k: nat)
    ensures
        pow16(k) > 0,
    decreases k,
{
    if k > 0 {
        lemma_pow16_pos((k - 1) as nat);
    }
}

proof fn lemma_div_pow16(n: nat, k: nat)
    ensures
        n / pow16(k) / 16 == n / pow16(k + 1),
{
    lemma_pow16_pos(k);
    assert(pow16(k + 1) == 16 * pow16(k));
    vstd::arithmetic::div_mod::lemma_div_denominator(n as int, pow16(k) as int, 16);
    assert(pow16(k) * 16 == 16 * pow16(k)) by (nonlinear_arith);
}

proof fn lemma_hex_digit_injective(a: int, b: int)
    requires
        0 <= a < 16,
        0 <= b < 16,
        hex_digit(a) == hex_digit(b),
    ensures
        a == b,
{
    let ca = hex_digit(a);
    let cb = hex_digit(b);
    assert(ca as int == cb as int);
    if a < 10 {
        assert(ca as int == 48 + a);
    } else {
        assert(ca as int == 97 + a - 10);
    }
    if b < 10 {
        assert(cb as int == 48 + b);
    } else {
        assert(cb as int == 97 + b - 10);
    }
}

/// Distinct numbers below `16^w` have distinct `w`-digit hex forms.
pub proof fn lemma_hex_fixed_injective(a: nat, b: nat, w: nat)
    requires
        a < pow16(w),
        b < pow16(w),
        hex_fixed(a, w) == hex_fixed(b, w),
    ensures
        a == b,
    decreases w,
{
    if w > 0 {
        lemma_hex_fixed_step(a, w);
        lemma_hex_fixed_step(b, w);
        let pa = hex_fixed(a / 16, (w - 1) as nat);
        let pb = hex_fixed(b / 16, (w - 1) as nat);
        let da = hex_digit((a % 16) as int);
        let db = hex_digit((b % 16) as int);
        assert(pa.push(da) == pb.push(db));
        assert(pa.push(da).last() == da);
        assert(pb.push(db).last() == db);
        assert(pa =~= pa.push(da).drop_last());
        assert(pb =~= pb.push(db).drop_last());
        lemma_hex_digit_injective((a % 16) as int, (b % 16) as int);
        assert(pow16(w) == 16 * pow16((w - 1) as nat));
        assert(a / 16 < pow16((w - 1) as nat)) by {
            vstd::arithmetic::div_mod::lemma_div_by_multiple_is_strongly_ordered(
                a as int, 16 * pow16((w - 1) as nat) as int, pow16((w - 1) as nat) as int, 16);
        }
        assert(b / 16 < pow16((w - 1) as nat)) by {
            vstd::arithmetic::div_mod::lemma_div_by_multiple_is_strongly_ordered(
                b as int, 16 * pow16((w - 1) as nat) as int, pow16((w - 1) as nat) as int, 16);
        }
        lemma_hex_fixed_injective(a / 16, b / 16, (w - 1) as nat);
        vstd::arithmetic::div_mod::lemma_fundamental_div_mod(a as int, 16);
        vstd::arithmetic::div_mod::lemma_fundamental_div_mod(b as int, 16);
    } else {
        assert(pow16(0) == 1);
    }
}

/// `16^16 = 2^64`: every `u64` fits in sixteen hex digits.
pub proof fn lemma_pow16_16()
    ensures
        pow16(16) == 0x1_0000_0000_0000_0000,
{
    reveal_with_fuel(pow16, 17);
}

pub assume_specification[ String::push_str ](s: &mut String, string: &str)
    ensures
        final(s)@ == old(s)@ + string@,
;

/// The characters of a string slice.
pub fn chars_of(s: &str) -> (v: Vec<char>)
    ensures
        v@ == s@,
{
    let mut v: Vec<char> = Vec::new();
    for c in it: s.chars()
        invariant
            it.seq() == s@,
            v@ == s@.take(it.index() as int),
    {
        proof {
            assert(s@.take(it.index() as int + 1) =~= s@.take(it.index() as int).push(c));
        }
        v.push(c);
    }
    assert(v@ =~= s@);
    v
}

/// A string holding exactly the given characters.
pub fn string_of(v: &Vec<char>) -> (s: String)
    ensures
        s@ == v@,
{
    let mut s = String::new();
    let n = v.len();
    for i in 0..n
        invariant
            n == v@.len(),
            s@ == v@.take(i as int),
    {
        proof {
            assert(v@.take(i as int + 1) =~= v@.take(i as int).push(v@[i as int]));
        }
        s.push(v[i]);
    }
    assert(v@.take(n as int) =~= v@);
    s
}


/// A decimal digit.
pub open spec fn dec_digit(v: int) -> char {
    (('0' as int) + v) as char
}

/// `n` in decimal, without leading zeros (`"0"` for zero).
pub open spec fn decimal(n: nat) -> Seq<char>
    decreases n,
{
    if n < 10 {
        seq![dec_digit(n as int)]
    } else {
        decimal(n / 10).push(dec_digit((n % 10) as int))
    }
}

/// Appends `n` in decimal.
pub fn push_decimal(s: &mut String, n: u64)
    ensures
        final(s)@ == old(s)@ + decimal(n as nat),
    decreases n,
{
    if n >= 10 {
        push_decimal(s, n / 10);
    }
    let d: u8 = 48u8 + ((n % 10) as u8);
    s.push(d as char);
    proof {
        if n >= 10 {
            assert(old(s)@ + decimal((n / 10) as nat) + seq![dec_digit((n % 10) as int)] =~= old(s)@ + decimal(n as nat));
        } else {
            assert(old(s)@ + seq![dec_digit(n as int)] =~= old(s)@ + decimal(n as nat));
        }
    }
}

} // verus!
