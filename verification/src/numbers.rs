use vstd::prelude::*;

verus! {

/// Whether `b` is an ASCII decimal digit.
pub open spec fn is_digit(b: u8) -> bool {
    48 <= b <= 57
}

/// Every byte of `s` is a decimal digit.
pub open spec fn all_digits(s: Seq<u8>) -> bool {
    forall|i: int| 0 <= i < s.len() ==> is_digit(s[i])
}

/// The value of a digit string, most significant digit first.
pub open spec fn dec_val(s: Seq<u8>) -> int
    decreases s.len(),
{
    if s.len() == 0 {
        0
    } else {
        dec_val(s.drop_last()) * 10 + (s.last() - 48)
    }
}

/// The canonical decimal digit string of a non-negative number.
pub open spec fn dec_repr(n: int) -> Seq<u8>
    recommends
        n >= 0,
    decreases n,
{
    if n < 10 {
        seq![(48 + if n >= 0 { n } else { 0 }) as u8]
    } else {
        dec_repr(n / 10) + seq![(48 + n % 10) as u8]
    }
}

/// The canonical decimal digit string of any integer: a minus sign before
/// the digits of the magnitude when the number is negative.
pub open spec fn dec_int_repr(n: int) -> Seq<u8> {
    if n < 0 {
        seq![45u8] + dec_repr(-n)
    } else {
        dec_repr(n)
    }
}

pub proof fn lemma_dec_val_nonneg(s: Seq<u8>)
    requires
        all_digits(s),
    ensures
        dec_val(s) >= 0,
    decreases s.len(),
{
    if s.len() > 0 {
        assert(forall|i: int| 0 <= i < s.drop_last().len() ==> is_digit(s.drop_last()[i]));
        lemma_dec_val_nonneg(s.drop_last());
    }
}

/// Extending a digit string multiplies its value by ten and adds the digit.
pub proof fn lemma_dec_val_prefix_mono(s: Seq<u8>, i: int)
    requires
        all_digits(s),
        0 <= i <= s.len(),
    ensures
        dec_val(s) >= dec_val(s.take(i)),
    decreases s.len() - i,
{
    if i < s.len() {
        let t = s.take(i + 1);
        assert(t.drop_last() =~= s.take(i));
        assert(forall|k: int| 0 <= k < t.len() ==> is_digit(t[k]));
        lemma_dec_val_nonneg(s.take(i));
        assert(dec_val(t) == dec_val(s.take(i)) * 10 + (s[i] - 48));
        assert(dec_val(s.take(i)) * 10 >= dec_val(s.take(i))) by (nonlinear_arith)
            requires
                dec_val(s.take(i)) >= 0,
        ;
        lemma_dec_val_prefix_mono(s, i + 1);
    } else {
        assert(s.take(i) =~= s);
    }
}

/// The canonical representation is made of digits and has no leading zero
/// (except for the single digit `0` itself).
pub proof fn lemma_dec_repr_digits(n: int)
    requires
        n >= 0,
    ensures
        all_digits(dec_repr(n)),
        dec_repr(n).len() >= 1,
        dec_repr(n).len() > 1 ==> dec_repr(n)[0] != 48,
        n >= 1 ==> dec_repr(n)[0] != 48,
    decreases n,
{
    if n >= 10 {
        lemma_dec_repr_digits(n / 10);
        assert(dec_repr(n) == dec_repr(n / 10) + seq![(48 + n % 10) as u8]);
        assert(dec_repr(n)[0] == dec_repr(n / 10)[0]);
        assert(n / 10 >= 1);
    }
}

/// Reading back the canonical representation gives the number itself.
pub proof fn lemma_dec_val_of_repr(n: int)
    requires
        n >= 0,
    ensures
        dec_val(dec_repr(n)) == n,
    decreases n,
{
    if n < 10 {
        assert(dec_repr(n) == seq![(48 + n) as u8]);
        assert(((48 + n) as u8) as int == 48 + n);
        assert(dec_repr(n).drop_last() =~= Seq::<u8>::empty());
        assert(dec_val(Seq::<u8>::empty()) == 0);
        assert(dec_val(dec_repr(n)) == 0 * 10 + (((48 + n) as u8) - 48));
    } else {
        lemma_dec_val_of_repr(n / 10);
        let s = dec_repr(n);
        assert(s == dec_repr(n / 10) + seq![(48 + n % 10) as u8]);
        assert(s.drop_last() =~= dec_repr(n / 10));
        assert(0 <= n % 10 < 10);
        assert(((48 + n % 10) as u8) as int == 48 + n % 10);
        assert(s.last() == (48 + n % 10) as u8);
        assert(dec_val(s) == dec_val(dec_repr(n / 10)) * 10 + (s.last() - 48));
        vstd::arithmetic::div_mod::lemma_fundamental_div_mod(n, 10);
    }
}

/// Whether `b` is a decimal digit.
pub fn digit_byte(b: u8) -> (r: bool)
    ensures
        r == is_digit(b),
{
    48 <= b && b <= 57
}

/// Parses an unsigned decimal number, the whole of `s`.  Returns the value
/// exactly when `s` is non-empty, all digits, and the value fits in `usize`.
pub fn parse_usize(s: &Vec<u8>) -> (r: Option<usize>)
    ensures
        r matches Some(n) ==> s@.len() > 0 && all_digits(s@) && dec_val(s@) == n,
        r is None ==> s@.len() == 0 || !all_digits(s@) || dec_val(s@) > usize::MAX,
{
    if s.len() == 0 {
        return None;
    }
    let mut acc: usize = 0;
    let mut i: usize = 0;
    while i < s.len()
        invariant
            i <= s@.len(),
            acc == dec_val(s@.take(i as int)),
            forall|j: int| 0 <= j < i ==> is_digit(s@[j]),
        decreases s@.len() - i,
    {
        let b = s[i];
        if !digit_byte(b) {
            return None;
        }
        let d: usize = (b - 48) as usize;
        if acc > (usize::MAX - d) / 10 {
            proof {
                let t = s@.take(i + 1);
                assert(t.drop_last() =~= s@.take(i as int));
                assert(forall|k: int| 0 <= k < t.len() ==> is_digit(t[k]));
                assert(dec_val(t) == acc * 10 + d);
                assert(acc * 10 + d > usize::MAX) by (nonlinear_arith)
                    requires
                        acc > (usize::MAX - d) / 10,
                        0 <= d <= 9,
                        acc >= 0,
                ;
                if all_digits(s@) {
                    lemma_dec_val_prefix_mono(s@, i + 1);
                }
            }
            return None;
        }
        proof {
            assert(acc * 10 + d <= usize::MAX) by (nonlinear_arith)
                requires
                    acc <= (usize::MAX - d) / 10,
                    0 <= d <= 9,
                    acc >= 0,
            ;
            let t = s@.take(i + 1);
            assert(t.drop_last() =~= s@.take(i as int));
            assert(dec_val(t) == acc * 10 + d);
        }
        acc = acc * 10 + d;
        i = i + 1;
    }
    proof {
        assert(s@.take(s@.len() as int) =~= s@);
    }
    Some(acc)
}

/// The canonical decimal digit string of `n`, most significant digit first.
pub fn format_u64(n: u64) -> (r: Vec<u8>)
    ensures
        r@ == dec_repr(n as int),
{
    if n == 0 {
        let mut r: Vec<u8> = Vec::new();
        r.push(48);
        proof {
            assert(r@ =~= seq![48u8]);
        }
        return r;
    }
    let mut rev: Vec<u8> = Vec::new();
    let mut x: u64 = n;
    proof {
        assert(rev@.reverse() =~= Seq::<u8>::empty());
        assert(dec_repr(n as int) + Seq::<u8>::empty() =~= dec_repr(n as int));
    }
    loop
        invariant_except_break
            x > 0,
            dec_repr(n as int) == dec_repr(x as int) + rev@.reverse(),
        ensures
            dec_repr(n as int) == rev@.reverse(),
            rev@.len() >= 1,
        decreases x,
    {
        let d: u8 = (x % 10) as u8;
        let ghost old_rev = rev@;
        rev.push(48 + d);
        proof {
            assert(rev@ == old_rev.push((48 + d) as u8));
            assert(rev@.reverse() =~= seq![(48 + d) as u8] + old_rev.reverse());
        }
        let x0 = x;
        x = x / 10;
        if x == 0 {
            proof {
                assert(x0 < 10);
                assert(dec_repr(x0 as int) == seq![(48 + x0 as int) as u8]);
                assert(48 + d == (48 + x0 as int) as u8);
                assert(dec_repr(n as int) =~= rev@.reverse());
            }
            break;
        }
        proof {
            assert(x0 >= 10);
            assert(dec_repr(x0 as int) == dec_repr(x0 as int / 10) + seq![(48 + x0 as int
                % 10) as u8]);
            assert(x as int == x0 as int / 10);
            assert(dec_repr(n as int) =~= dec_repr(x as int) + rev@.reverse());
        }
    }
    let mut r: Vec<u8> = Vec::new();
    let mut i: usize = rev.len();
    while i > 0
        invariant
            i <= rev@.len(),
            r@ == rev@.reverse().take(rev@.len() - i),
        decreases i,
    {
        i = i - 1;
        proof {
            assert(rev@.reverse().take(rev@.len() - i) =~= rev@.reverse().take(
                rev@.len() - i - 1,
            ).push(rev@[i as int]));
        }
        r.push(rev[i]);
    }
    proof {
        assert(rev@.reverse().take(rev@.len() as int) =~= rev@.reverse());
    }
    r
}

/// The canonical decimal digit string of a signed number.
pub fn format_i64(n: i64) -> (r: Vec<u8>)
    ensures
        r@ == dec_int_repr(n as int),
{
    if n >= 0 {
        format_u64(n as u64)
    } else {
        let mag: u64 = ((-(n + 1)) as u64) + 1;
        assert(mag == -(n as int));
        let digits = format_u64(mag);
        let mut r: Vec<u8> = Vec::new();
        r.push(45);
        let out = crate::text::concat_bytes(&r, &digits);
        proof {
            assert(r@ =~= seq![45u8]);
        }
        out
    }
}

} // verus!
