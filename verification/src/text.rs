//! Small verified text helpers: decimal rendering of integers, zero padding,
//! and character-wise comparison of strings.

use vstd::prelude::*;

verus! {

/// The ASCII digit for `d` (`0 <= d < 10`).
pub open spec fn digit_char(d: nat) -> char {
    (('0' as u32) + d) as char
}

/// Whether `c` is one of `'0'..='9'`.
pub open spec fn is_digit(c: char) -> bool {
    '0' <= c && c <= '9'
}

/// The shortest decimal representation of `n` (no sign, no leading zeros).
pub open spec fn decimal(n: nat) -> Seq<char>
    decreases n,
{
    if n < 10 {
        seq![digit_char(n)]
    } else {
        decimal(n / 10).push(digit_char(n % 10))
    }
}

/// `n` in decimal, left-padded with zeros to at least `width` digits.
pub open spec fn zero_padded(n: nat, width: nat) -> Seq<char> {
    let d = decimal(n);
    if d.len() >= width {
        d
    } else {
        Seq::new((width - d.len()) as nat, |i: int| '0') + d
    }
}

/// `s` contains no `'-'`.
pub open spec fn no_dash(s: Seq<char>) -> bool {
    forall|i: int| 0 <= i < s.len() ==> #[trigger] s[i] != '-'
}

/// The digit characters are distinct and are digits.
pub proof fn lemma_digit_char(d: nat, e: nat)
    requires
        d < 10,
        e < 10,
    ensures
        is_digit(digit_char(d)),
        digit_char(d) as int == '0' as int + d,
        digit_char(d) == digit_char(e) ==> d == e,
        digit_char(d) == '0' <==> d == 0,
{
}

/// Every character of `decimal(n)` is a digit, and only `decimal(0)` starts
/// with `'0'`.
pub proof fn lemma_decimal_shape(n: nat)
    ensures
        forall|i: int| 0 <= i < decimal(n).len() ==> is_digit(#[trigger] decimal(n)[i]),
        decimal(n).len() >= 1,
        n >= 10 ==> decimal(n).len() >= 2,
        decimal(n)[0] == '0' ==> n == 0,
    decreases n,
{
    if n < 10 {
        lemma_digit_char(n, 0);
    } else {
        lemma_decimal_shape(n / 10);
        lemma_digit_char(n % 10, 0);
        let d = decimal(n);
        assert forall|i: int| 0 <= i < d.len() implies is_digit(#[trigger] d[i]) by {
            if i < d.len() - 1 {
                assert(d[i] == decimal(n / 10)[i]);
            }
        }
        assert(d[0] == decimal(n / 10)[0]);
    }
}

/// `decimal` is injective.
pub proof fn lemma_decimal_injective(n: nat, m: nat)
    requires
        decimal(n) == decimal(m),
    ensures
        n == m,
    decreases n,
{
    lemma_decimal_shape(n);
    lemma_decimal_shape(m);
    if n < 10 && m < 10 {
        lemma_digit_char(n, m);
        assert(decimal(n)[0] == decimal(m)[0]);
    } else if n >= 10 && m >= 10 {
        let dn = decimal(n);
        let dm = decimal(m);
        assert(dn.last() == dm.last());
        lemma_digit_char(n % 10, m % 10);
        assert(dn.drop_last() == decimal(n / 10));
        assert(dm.drop_last() == decimal(m / 10));
        lemma_decimal_injective(n / 10, m / 10);
    }
}

/// Zero-padded numbers of one width are digits only, and equal ones are
/// the same number.
pub proof fn lemma_zero_padded(n: nat, m: nat, width: nat)
    ensures
        forall|i: int| 0 <= i < zero_padded(n, width).len() ==> is_digit(
            #[trigger] zero_padded(n, width)[i],
        ),
        zero_padded(n, width) == zero_padded(m, width) ==> n == m,
{
    lemma_decimal_shape(n);
    lemma_decimal_shape(m);
    let pn = zero_padded(n, width);
    let pm = zero_padded(m, width);
    let dn = decimal(n);
    let dm = decimal(m);
    assert forall|i: int| 0 <= i < pn.len() implies is_digit(#[trigger] pn[i]) by {
        if dn.len() < width && i < width - dn.len() {
            assert(pn[i] == '0');
        } else if dn.len() < width {
            assert(pn[i] == dn[i - (width - dn.len())]);
        }
    }
    if pn == pm {
        let kn: int = if dn.len() >= width { 0 } else { width - dn.len() };
        let km: int = if dm.len() >= width { 0 } else { width - dm.len() };
        assert(pn.subrange(kn, pn.len() as int) == dn);
        assert(pm.subrange(km, pm.len() as int) == dm);
        if kn < km {
            // `decimal(n)` would start with a padding zero and be longer than one digit
            assert(dn[0] == pn[kn]);
            assert(pm[kn] == '0');
            assert(dn.len() == dm.len() + (km - kn));
            assert(n == 0);
        } else if km < kn {
            assert(dm[0] == pm[km]);
            assert(pn[km] == '0');
            assert(dm.len() == dn.len() + (kn - km));
            assert(m == 0);
        } else {
            lemma_decimal_injective(n, m);
        }
    }
}

/// A sequence splits uniquely at a `'-'` followed by a dash-free tail.
pub proof fn lemma_split_at_last_dash(a1: Seq<char>, b1: Seq<char>, a2: Seq<char>, b2: Seq<char>)
    requires
        a1 + seq!['-'] + b1 == a2 + seq!['-'] + b2,
        no_dash(b1),
        no_dash(b2),
    ensures
        a1 == a2,
        b1 == b2,
{
    let s = a1 + seq!['-'] + b1;
    let t = a2 + seq!['-'] + b2;
    assert(s.len() == t.len());
    assert(s[a1.len() as int] == '-');
    assert(t[a2.len() as int] == '-');
    if a1.len() < a2.len() {
        let i = a2.len() as int;
        assert(s[i] == (a1 + seq!['-'] + b1)[i]);
        assert(s[i] == b1[i - a1.len() - 1]);
        assert(b1[i - a1.len() - 1] != '-');
    } else if a2.len() < a1.len() {
        let i = a1.len() as int;
        assert(t[i] == b2[i - a2.len() - 1]);
        assert(b2[i - a2.len() - 1] != '-');
    } else {
        assert(a1 =~= s.subrange(0, a1.len() as int));
        assert(a2 =~= t.subrange(0, a2.len() as int));
        assert(b1 =~= s.subrange(a1.len() as int + 1, s.len() as int));
        assert(b2 =~= t.subrange(a2.len() as int + 1, t.len() as int));
    }
}

#[verifier::external_body]
fn push_char(s: &mut String, c: char)
    ensures
        final(s)@ == old(s)@.push(c),
{
    s.push(c)
}

fn digit(d: u64) -> (c: char)
    requires
        d < 10,
    ensures
        c == digit_char(d as nat),
{
    let b: u8 = (d as u8) + 48;
    b as char
}

/// Number of digits of `n` in decimal.
pub fn decimal_len(n: u64) -> (len: u64)
    ensures
        len == decimal(n as nat).len(),
        1 <= len <= 20,
    decreases n,
{
    if n < 10 {
        1
    } else {
        let k = decimal_len(n / 10);
        proof {
            lemma_decimal_len_bound(n as nat);
        }
        k + 1
    }
}

/// `10` to the power `k`.
pub open spec fn pow10(k: nat) -> nat
    decreases k,
{
    if k == 0 {
        1
    } else {
        10 * pow10((k - 1) as nat)
    }
}

/// A number below `10^k` has at most `k` decimal digits.
pub proof fn lemma_decimal_len_at_most(n: nat, k: nat)
    requires
        k >= 1,
        n < pow10(k),
    ensures
        decimal(n).len() <= k,
    decreases k,
{
    if n >= 10 {
        assert(k >= 2) by {
            if k == 1 {
                assert(pow10(1) == 10 * pow10(0));
            }
        }
        assert(n / 10 < pow10((k - 1) as nat));
        lemma_decimal_len_at_most(n / 10, (k - 1) as nat);
    }
}

/// `decimal(n)` has between one and twenty digits for a 64-bit `n`.
pub proof fn lemma_decimal_len_bound(n: nat)
    requires
        n <= u64::MAX,
    ensures
        1 <= decimal(n).len() <= 20,
        n < 10 ==> decimal(n).len() == 1,
        10 <= n < 100 ==> decimal(n).len() == 2,
        100 <= n < 1000 ==> decimal(n).len() == 3,
        1000 <= n < 10000 ==> decimal(n).len() == 4,
        10000 <= n ==> decimal(n).len() >= 5,
    decreases n,
{
    reveal_with_fuel(pow10, 21);
    assert(pow10(20) == 100000000000000000000nat);
    lemma_decimal_len_at_most(n, 20);
    if n >= 10 {
        lemma_decimal_len_bound(n / 10);
        assert(decimal(n).len() == decimal(n / 10).len() + 1);
        if n >= 10000 {
            assert(n / 10 >= 1000);
        }
    }
}

/// Appends `n` in decimal, left-padded with zeros to `width` digits.
pub fn push_zero_padded(s: &mut String, n: u64, width: u64)
    requires
        width <= 20,
    ensures
        final(s)@ == old(s)@ + zero_padded(n as nat, width as nat),
{
    let len = decimal_len(n);
    if len < width {
        let pad = width - len;
        let mut k: u64 = 0;
        while k < pad
            invariant
                k <= pad,
                s@ == old(s)@ + Seq::new(k as nat, |i: int| '0'),
            decreases pad - k,
        {
            push_char(s, '0');
            k = k + 1;
            assert(s@ == old(s)@ + Seq::new(k as nat, |i: int| '0'));
        }
    }
    push_decimal(s, n);
    assert(final(s)@ == old(s)@ + zero_padded(n as nat, width as nat));
}

/// Appends the decimal representation of `n` to `s`.
pub fn push_decimal(s: &mut String, n: u64)
    ensures
        final(s)@ == old(s)@ + decimal(n as nat),
    decreases n,
{
    if n < 10 {
        push_char(s, digit(n));
        assert(decimal(n as nat) == seq![digit_char(n as nat)]);
    } else {
        push_decimal(s, n / 10);
        push_char(s, digit(n % 10));
    }
}


/// Strict lexicographic order on character sequences, the order of `str`'s
/// `Ord` (code points compare as UTF-8 bytes do).
pub open spec fn seq_lt(a: Seq<char>, b: Seq<char>) -> bool
    decreases a.len(),
{
    if a.len() == 0 {
        b.len() > 0
    } else if b.len() == 0 {
        false
    } else if a[0] != b[0] {
        (a[0] as int) < (b[0] as int)
    } else {
        seq_lt(a.drop_first(), b.drop_first())
    }
}

/// `seq_lt` is irreflexive.
pub proof fn lemma_seq_lt_irreflexive(a: Seq<char>)
    ensures
        !seq_lt(a, a),
    decreases a.len(),
{
    if a.len() > 0 {
        lemma_seq_lt_irreflexive(a.drop_first());
    }
}

/// `seq_lt` is transitive.
pub proof fn lemma_seq_lt_transitive(a: Seq<char>, b: Seq<char>, c: Seq<char>)
    requires
        seq_lt(a, b),
        seq_lt(b, c),
    ensures
        seq_lt(a, c),
    decreases a.len(),
{
    if a.len() > 0 && a[0] == b[0] && b[0] == c[0] {
        lemma_seq_lt_transitive(a.drop_first(), b.drop_first(), c.drop_first());
    }
}

/// Any two sequences are equal or ordered one way or the other.
pub proof fn lemma_seq_lt_trichotomy(a: Seq<char>, b: Seq<char>)
    ensures
        a == b || seq_lt(a, b) || seq_lt(b, a),
    decreases a.len(),
{
    if a.len() > 0 && b.len() > 0 && a[0] == b[0] {
        lemma_seq_lt_trichotomy(a.drop_first(), b.drop_first());
        if a.drop_first() == b.drop_first() {
            assert(a == seq![a[0]] + a.drop_first());
            assert(b == seq![b[0]] + b.drop_first());
        }
    } else if a.len() == 0 && b.len() == 0 {
        assert(a == b);
    } else if a.len() > 0 && b.len() > 0 {
        assert((a[0] as int) != (b[0] as int));
    }
}

/// `seq_lt` is asymmetric.
pub proof fn lemma_seq_lt_asymmetric(a: Seq<char>, b: Seq<char>)
    requires
        seq_lt(a, b),
    ensures
        !seq_lt(b, a),
{
    if seq_lt(b, a) {
        lemma_seq_lt_transitive(a, b, a);
        lemma_seq_lt_irreflexive(a);
    }
}

/// "Not before" is transitive: `!(c < b)` and `!(b < a)` give `!(c < a)`.
pub proof fn lemma_seq_not_lt_transitive(a: Seq<char>, b: Seq<char>, c: Seq<char>)
    requires
        !seq_lt(c, b),
        !seq_lt(b, a),
    ensures
        !seq_lt(c, a),
{
    if seq_lt(c, a) {
        lemma_seq_lt_trichotomy(a, b);
        if seq_lt(a, b) {
            lemma_seq_lt_transitive(c, a, b);
        }
    }
}

/// Whether `a` sorts strictly before `b`, comparing characters in order.
pub fn str_lt(a: &str, b: &str) -> (res: bool)
    ensures
        res == seq_lt(a@, b@),
{
    let la = a.unicode_len();
    let lb = b.unicode_len();
    let mut i: usize = 0;
    assert(a@.skip(0) == a@);
    assert(b@.skip(0) == b@);
    while i < la && i < lb
        invariant
            la == a@.len(),
            lb == b@.len(),
            i <= la,
            i <= lb,
            seq_lt(a@, b@) == seq_lt(a@.skip(i as int), b@.skip(i as int)),
        decreases la - i,
    {
        let ca = a.get_char(i);
        let cb = b.get_char(i);
        if ca != cb {
            assert(a@.skip(i as int)[0] == ca);
            assert(b@.skip(i as int)[0] == cb);
            return (ca as u32) < (cb as u32);
        }
        assert(a@.skip(i as int).drop_first() == a@.skip(i + 1));
        assert(b@.skip(i as int).drop_first() == b@.skip(i + 1));
        i = i + 1;
    }
    assert(a@.skip(i as int).len() == la - i);
    assert(b@.skip(i as int).len() == lb - i);
    i < lb
}

/// Whether `a` and `b` hold the same characters.
pub fn str_eq(a: &str, b: &str) -> (res: bool)
    ensures
        res == (a@ == b@),
{
    let x = a.to_owned();
    let y = b.to_owned();
    x == y
}

} // verus!
