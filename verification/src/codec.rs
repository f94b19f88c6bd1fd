use vstd::prelude::*;
use crate::models::{Author, Vacancy};
use crate::numbers::{
    all_digits, dec_int_repr, dec_repr, dec_val, digit_byte, format_i64, is_digit,
    lemma_dec_repr_digits, lemma_dec_val_of_repr, lemma_dec_val_prefix_mono,
    lemma_dec_val_nonneg,
};

verus! {

// Byte values used throughout: 34 `"`, 92 `\`, 10 newline, 45 `-`,
// 117 `u`, 48 `0`.

/// Whether `b` is a lower-case hexadecimal digit byte.
pub open spec fn is_hex(b: u8) -> bool {
    (48 <= b <= 57) || (97 <= b <= 102)
}

/// The value of a hexadecimal digit byte.
pub open spec fn hex_val(b: u8) -> u8 {
    if 48 <= b <= 57 {
        (b - 48) as u8
    } else if 97 <= b <= 102 {
        (b - 87) as u8
    } else {
        0
    }
}

/// The lower-case hexadecimal digit byte of a value below 16.
pub open spec fn hex_digit(n: u8) -> u8 {
    if n < 10 {
        (48 + n) as u8
    } else {
        (87 + n) as u8
    }
}

/// How one byte is written inside a JSON string: quote and backslash get a
/// backslash escape, control bytes a `\u00XX` escape, everything else
/// stands as itself.
pub open spec fn esc_byte(b: u8) -> Seq<u8> {
    if b == 34 {
        seq![92u8, 34u8]
    } else if b == 92 {
        seq![92u8, 92u8]
    } else if b < 32 {
        seq![92u8, 117u8, 48u8, 48u8, hex_digit(b / 16), hex_digit(b % 16)]
    } else {
        seq![b]
    }
}

/// A byte string written as the body of a JSON string.
pub open spec fn esc(s: Seq<u8>) -> Seq<u8>
    decreases s.len(),
{
    if s.len() == 0 {
        Seq::empty()
    } else {
        esc_byte(s[0]) + esc(s.drop_first())
    }
}

pub proof fn lemma_esc_append(s: Seq<u8>, b: u8)
    ensures
        esc(s.push(b)) == esc(s) + esc_byte(b),
    decreases s.len(),
{
    if s.len() == 0 {
        assert(s.push(b)[0] == b);
        assert(s.push(b).drop_first() =~= Seq::<u8>::empty());
        assert(esc(Seq::<u8>::empty()) == Seq::<u8>::empty());
        assert(esc(s.push(b)) == esc_byte(b) + esc(s.push(b).drop_first()));
        assert(esc_byte(b) + Seq::<u8>::empty() =~= esc_byte(b));
        assert(esc(s) + esc_byte(b) =~= esc_byte(b));
    } else {
        assert(s.push(b).drop_first() =~= s.drop_first().push(b));
        lemma_esc_append(s.drop_first(), b);
        assert(s.push(b)[0] == s[0]);
        assert(esc(s.push(b)) == esc_byte(s[0]) + (esc(s.drop_first()) + esc_byte(b)));
        assert(esc_byte(s[0]) + (esc(s.drop_first()) + esc_byte(b)) =~= (esc_byte(s[0]) + esc(
            s.drop_first(),
        )) + esc_byte(b));
    }
}

/// No escaped text holds a control byte: in particular never a newline,
/// so one record always stays on one line.
pub proof fn lemma_esc_no_ctrl(s: Seq<u8>, i: int)
    requires
        0 <= i < esc(s).len(),
    ensures
        esc(s)[i] >= 32,
    decreases s.len(),
{
    if s.len() > 0 {
        if i < esc_byte(s[0]).len() {
            if s[0] < 32 && !(s[0] == 34 || s[0] == 92) {
                assert(hex_digit(s[0] / 16) >= 48 && hex_digit(s[0] % 16) >= 48);
            }
        } else {
            lemma_esc_no_ctrl(s.drop_first(), i - esc_byte(s[0]).len());
        }
    }
}

/// Prepends a decoded byte to a string-parse result.
pub open spec fn jstr_prepend(b: u8, r: Option<(Seq<u8>, Seq<u8>)>) -> Option<(Seq<u8>, Seq<u8>)> {
    match r {
        Option::None => Option::None,
        Option::Some((t, rest)) => Option::Some((seq![b] + t, rest)),
    }
}

/// Reads a JSON string body up to and including its closing quote: the
/// decoded bytes and what follows the quote.  Only the canonical escapes
/// that `esc` writes are accepted.
pub open spec fn parse_jstr_s(s: Seq<u8>) -> Option<(Seq<u8>, Seq<u8>)>
    decreases s.len(),
{
    if s.len() == 0 {
        Option::None
    } else if s[0] == 34 {
        Option::Some((Seq::empty(), s.drop_first()))
    } else if s[0] == 92 {
        if s.len() >= 2 && s[1] == 34 {
            jstr_prepend(34, parse_jstr_s(s.skip(2)))
        } else if s.len() >= 2 && s[1] == 92 {
            jstr_prepend(92, parse_jstr_s(s.skip(2)))
        } else if s.len() >= 6 && s[1] == 117 && s[2] == 48 && s[3] == 48 && is_hex(s[4]) && is_hex(
            s[5],
        ) && hex_val(s[4]) * 16 + hex_val(s[5]) < 32 {
            jstr_prepend((hex_val(s[4]) * 16 + hex_val(s[5])) as u8, parse_jstr_s(s.skip(6)))
        } else {
            Option::None
        }
    } else if s[0] >= 32 {
        jstr_prepend(s[0], parse_jstr_s(s.drop_first()))
    } else {
        Option::None
    }
}

/// Reading an escaped text followed by a closing quote gives the text back
/// and leaves exactly what followed the quote.
pub proof fn lemma_parse_esc(t: Seq<u8>, rest: Seq<u8>)
    ensures
        parse_jstr_s(esc(t) + seq![34u8] + rest) == Option::Some((t, rest)),
    decreases t.len(),
{
    if t.len() == 0 {
        let s = esc(t) + seq![34u8] + rest;
        assert(s =~= seq![34u8] + rest);
        assert(s[0] == 34);
        assert(s.drop_first() =~= rest);
        assert(Seq::<u8>::empty() =~= t);
    } else {
        let b = t[0];
        let t1 = t.drop_first();
        lemma_parse_esc(t1, rest);
        let s = esc(t) + seq![34u8] + rest;
        let tail = esc(t1) + seq![34u8] + rest;
        assert(esc(t) == esc_byte(b) + esc(t1));
        assert(s =~= esc_byte(b) + tail);
        assert(seq![b] + t1 =~= t);
        if b == 34 {
            assert(s[0] == 92 && s[1] == 34);
            assert(s.skip(2) =~= tail);
        } else if b == 92 {
            assert(s[0] == 92 && s[1] == 92);
            assert(s.skip(2) =~= tail);
        } else if b < 32 {
            assert(s[0] == 92 && s[1] == 117 && s[2] == 48 && s[3] == 48);
            assert(s[4] == hex_digit(b / 16) && s[5] == hex_digit(b % 16));
            assert(is_hex(hex_digit(b / 16)) && hex_val(hex_digit(b / 16)) == b / 16);
            assert(is_hex(hex_digit(b % 16)) && hex_val(hex_digit(b % 16)) == b % 16);
            assert((b / 16) * 16 + b % 16 == b) by {
                vstd::arithmetic::div_mod::lemma_fundamental_div_mod(b as int, 16);
            }
            assert(s.skip(6) =~= tail);
            assert(parse_jstr_s(s) == jstr_prepend(b, parse_jstr_s(tail)));
        } else {
            assert(s[0] == b);
            assert(s.drop_first() =~= tail);
        }
    }
}

/// The lower-case hexadecimal digit of a value below 16.
fn hex_digit_b(n: u8) -> (r: u8)
    requires
        n < 16,
    ensures
        r == hex_digit(n),
{
    if n < 10 {
        48 + n
    } else {
        87 + n
    }
}

/// Whether `b` is a lower-case hexadecimal digit byte.
fn hex_byte(b: u8) -> (r: bool)
    ensures
        r == is_hex(b),
{
    (48 <= b && b <= 57) || (97 <= b && b <= 102)
}

/// The value of a hexadecimal digit byte.
fn hex_val_b(b: u8) -> (r: u8)
    requires
        is_hex(b),
    ensures
        r == hex_val(b),
{
    if 48 <= b && b <= 57 {
        b - 48
    } else {
        b - 87
    }
}

/// Appends the escaped form of `s` to `out`.
fn escape_into(out: &mut Vec<u8>, s: &Vec<u8>)
    ensures
        final(out)@ == old(out)@ + esc(s@),
{
    let mut i: usize = 0;
    proof {
        assert(esc(s@.take(0)) =~= Seq::<u8>::empty());
        assert(old(out)@ + Seq::<u8>::empty() =~= old(out)@);
    }
    while i < s.len()
        invariant
            i <= s@.len(),
            out@ == old(out)@ + esc(s@.take(i as int)),
        decreases s@.len() - i,
    {
        let b = s[i];
        proof {
            assert(s@.take(i + 1) =~= s@.take(i as int).push(s@[i as int]));
            lemma_esc_append(s@.take(i as int), s@[i as int]);
        }
        let ghost mid = out@;
        if b == 34 {
            out.push(92);
            out.push(34);
            proof {
                assert(out@ =~= mid + esc_byte(b));
            }
        } else if b == 92 {
            out.push(92);
            out.push(92);
            proof {
                assert(out@ =~= mid + esc_byte(b));
            }
        } else if b < 32 {
            out.push(92);
            out.push(117);
            out.push(48);
            out.push(48);
            out.push(hex_digit_b(b / 16));
            out.push(hex_digit_b(b % 16));
            proof {
                assert(out@ =~= mid + esc_byte(b));
            }
        } else {
            out.push(b);
            proof {
                assert(out@ =~= mid + esc_byte(b));
            }
        }
        proof {
            assert(out@ =~= old(out)@ + esc(s@.take(i + 1)));
        }
        i = i + 1;
    }
    proof {
        assert(s@.take(s@.len() as int) =~= s@);
    }
}

/// Reads a JSON string body from position `start`, up to and including the
/// closing quote: the decoded bytes and the position after the quote.
fn parse_jstr(line: &Vec<u8>, start: usize) -> (r: Option<(Vec<u8>, usize)>)
    requires
        start <= line@.len(),
    ensures
        r matches Some((t, j)) ==> start <= j <= line@.len() && parse_jstr_s(
            line@.skip(start as int),
        ) == Option::Some((t@, line@.skip(j as int))),
        r is None ==> parse_jstr_s(line@.skip(start as int)) is None,
{
    let mut out: Vec<u8> = Vec::new();
    let mut i: usize = start;
    loop
        invariant
            start <= i <= line@.len(),
            parse_jstr_s(line@.skip(start as int)) == jstr_result_with(
                out@,
                parse_jstr_s(line@.skip(i as int)),
            ),
        decreases line@.len() - i,
    {
        let ghost s_i = line@.skip(i as int);
        if i >= line.len() {
            proof {
                assert(s_i.len() == 0);
            }
            return Option::None;
        }
        let b = line[i];
        proof {
            assert(s_i[0] == b);
        }
        if b == 34 {
            proof {
                assert(s_i.drop_first() =~= line@.skip(i + 1));
                assert(out@ + Seq::<u8>::empty() =~= out@);
            }
            return Option::Some((out, i + 1));
        }
        if b == 92 {
            if i + 1 >= line.len() {
                proof {
                    assert(s_i.len() < 2);
                }
                return Option::None;
            }
            let e = line[i + 1];
            proof {
                assert(s_i[1] == e);
            }
            if e == 34 || e == 92 {
                proof {
                    assert(s_i.skip(2) =~= line@.skip(i + 2));
                    lemma_jstr_result_shift(out@, e, parse_jstr_s(line@.skip(i + 2)));
                }
                out.push(e);
                i = i + 2;
            } else {
                if line.len() - i < 6 {
                    proof {
                        assert(s_i.len() < 6);
                    }
                    return Option::None;
                }
                if e != 117 {
                    return Option::None;
                }
                if line[i + 2] != 48 || line[i + 3] != 48 {
                    proof {
                        assert(s_i[2] == line@[i + 2] && s_i[3] == line@[i + 3]);
                    }
                    return Option::None;
                }
                let h1 = line[i + 4];
                let h2 = line[i + 5];
                proof {
                    assert(s_i[4] == h1 && s_i[5] == h2);
                }
                if !hex_byte(h1) || !hex_byte(h2) {
                    return Option::None;
                }
                let v: u8 = hex_val_b(h1) * 16 + hex_val_b(h2);
                if v >= 32 {
                    return Option::None;
                }
                proof {
                    assert(s_i.skip(6) =~= line@.skip(i + 6));
                    lemma_jstr_result_shift(out@, v, parse_jstr_s(line@.skip(i + 6)));
                }
                out.push(v);
                i = i + 6;
            }
        } else if b >= 32 {
            proof {
                assert(s_i.drop_first() =~= line@.skip(i + 1));
                lemma_jstr_result_shift(out@, b, parse_jstr_s(line@.skip(i + 1)));
            }
            out.push(b);
            i = i + 1;
        } else {
            return Option::None;
        }
    }
}

/// The parse of a whole string once `done` bytes are already decoded.
pub open spec fn jstr_result_with(done: Seq<u8>, r: Option<(Seq<u8>, Seq<u8>)>) -> Option<
    (Seq<u8>, Seq<u8>),
> {
    match r {
        Option::None => Option::None,
        Option::Some((t, rest)) => Option::Some((done + t, rest)),
    }
}

proof fn lemma_jstr_result_shift(done: Seq<u8>, b: u8, r: Option<(Seq<u8>, Seq<u8>)>)
    ensures
        jstr_result_with(done, jstr_prepend(b, r)) == jstr_result_with(done.push(b), r),
{
    match r {
        Option::None => {
        }
        Option::Some((t, rest)) => {
            assert(done + (seq![b] + t) =~= done.push(b) + t);
        }
    }
}

/// How many decimal digits stand at the head of `s`.
pub open spec fn digits_len(s: Seq<u8>) -> int
    decreases s.len(),
{
    if s.len() > 0 && is_digit(s[0]) {
        1 + digits_len(s.drop_first())
    } else {
        0
    }
}

proof fn lemma_digits_len_at(s: Seq<u8>, k: int)
    requires
        0 <= k <= s.len(),
        forall|j: int| 0 <= j < k ==> is_digit(s[j]),
        k < s.len() ==> !is_digit(s[k]),
    ensures
        digits_len(s) == k,
    decreases k,
{
    if k == 0 {
    } else {
        let t = s.drop_first();
        assert(forall|j: int| 0 <= j < k - 1 ==> t[j] == s[j + 1]);
        lemma_digits_len_at(t, k - 1);
    }
}

/// Reads a canonical unsigned decimal from the head of `s`: greedy digits,
/// no leading zero unless the number is exactly `0`.
pub open spec fn parse_nat_s(s: Seq<u8>) -> Option<(int, Seq<u8>)> {
    let k = digits_len(s);
    if k == 0 {
        Option::None
    } else if k > 1 && s[0] == 48 {
        Option::None
    } else {
        Option::Some((dec_val(s.take(k)), s.skip(k)))
    }
}

/// Reads a canonical signed decimal from the head of `s`: an optional
/// minus sign (never before `0`) and the digits of the magnitude.
pub open spec fn parse_int_s(s: Seq<u8>) -> Option<(int, Seq<u8>)> {
    if s.len() > 0 && s[0] == 45 {
        match parse_nat_s(s.drop_first()) {
            Option::None => Option::None,
            Option::Some((v, rest)) => if v > 0 {
                Option::Some((-v, rest))
            } else {
                Option::None
            },
        }
    } else {
        parse_nat_s(s)
    }
}

proof fn lemma_digits_len_of_repr(d: Seq<u8>, rest: Seq<u8>)
    requires
        all_digits(d),
        rest.len() == 0 || !is_digit(rest[0]),
    ensures
        digits_len(d + rest) == d.len(),
    decreases d.len(),
{
    if d.len() == 0 {
        assert(d + rest =~= rest);
        if rest.len() > 0 {
            lemma_digits_len_at(rest, 0);
        }
    } else {
        let t = d.drop_first();
        assert(forall|j: int| 0 <= j < t.len() ==> t[j] == d[j + 1]);
        lemma_digits_len_of_repr(t, rest);
        assert((d + rest).drop_first() =~= t + rest);
        assert((d + rest)[0] == d[0]);
    }
}

/// Reading back the canonical signed decimal gives the number and leaves
/// exactly what followed it, provided a digit does not follow directly.
pub proof fn lemma_parse_int_repr(n: int, rest: Seq<u8>)
    requires
        i64::MIN <= n <= i64::MAX,
        rest.len() == 0 || !is_digit(rest[0]),
    ensures
        parse_int_s(dec_int_repr(n) + rest) == Option::Some((n, rest)),
{
    if n >= 0 {
        let d = dec_repr(n);
        lemma_dec_repr_digits(n);
        lemma_dec_val_of_repr(n);
        let s = d + rest;
        lemma_digits_len_of_repr(d, rest);
        assert(s.take(d.len() as int) =~= d);
        assert(s.skip(d.len() as int) =~= rest);
        assert(dec_int_repr(n) + rest =~= s);
        assert(s[0] == d[0]);
        assert(is_digit(d[0]));
        assert(s.len() > 0 && s[0] != 45);
    } else {
        let m = -n;
        let d = dec_repr(m);
        lemma_dec_repr_digits(m);
        lemma_dec_val_of_repr(m);
        let s = dec_int_repr(n) + rest;
        assert(dec_int_repr(n) == seq![45u8] + d);
        assert(s =~= seq![45u8] + (d + rest));
        assert(s[0] == 45);
        assert(s.drop_first() =~= d + rest);
        lemma_digits_len_of_repr(d, rest);
        let t = d + rest;
        assert(t.take(d.len() as int) =~= d);
        assert(t.skip(d.len() as int) =~= rest);
        assert(m >= 1);
        assert(t[0] == d[0]);
    }
}

/// Reads a canonical signed decimal from position `start`: the value and
/// the position after its last digit.  A number outside the i64 range is
/// refused.
fn parse_int(line: &Vec<u8>, start: usize) -> (r: Option<(i64, usize)>)
    requires
        start <= line@.len(),
    ensures
        r matches Some((v, j)) ==> start <= j <= line@.len() && parse_int_s(
            line@.skip(start as int),
        ) == Option::Some((v as int, line@.skip(j as int))),
        r is None ==> parse_int_s(line@.skip(start as int)) is None || (parse_int_s(
            line@.skip(start as int),
        ) matches Some((v, _)) && !(i64::MIN <= v <= i64::MAX)),
{
    let ghost s0 = line@.skip(start as int);
    let mut i: usize = start;
    let mut neg: bool = false;
    if i < line.len() && line[i] == 45 {
        neg = true;
        i = i + 1;
        proof {
            assert(s0[0] == 45);
            assert(s0.drop_first() =~= line@.skip(i as int));
        }
    }
    let ghost run0 = line@.skip(i as int);
    let d0 = i;
    let limit: u64 = if neg {
        9223372036854775808
    } else {
        9223372036854775807
    };
    let mut acc: u64 = 0;
    while i < line.len() && digit_byte(line[i])
        invariant
            start <= d0 <= i <= line@.len(),
            run0 == line@.skip(d0 as int),
            forall|j: int| d0 <= j < i ==> is_digit(line@[j]),
            acc == dec_val(line@.subrange(d0 as int, i as int)),
            acc <= limit,
            limit == if neg { 9223372036854775808u64 } else { 9223372036854775807u64 },
            !neg ==> d0 == start,
            neg ==> d0 == start + 1 && line@.skip(start as int)[0] == 45,
        decreases line@.len() - i,
    {
        let b = line[i];
        let d: u64 = (b - 48) as u64;
        proof {
            let t = line@.subrange(d0 as int, i + 1);
            assert(t.drop_last() =~= line@.subrange(d0 as int, i as int));
            assert(t.last() == line@[i as int]);
        }
        if acc > (limit - d) / 10 {
            proof {
                lemma_overlimit(line@, d0 as int, i as int, limit as int, neg, start as int);
            }
            return Option::None;
        }
        proof {
            assert(acc * 10 + d <= limit) by (nonlinear_arith)
                requires
                    acc <= (limit - d) / 10,
                    0 <= d <= 9,
                    acc >= 0,
                    limit >= 10,
            ;
        }
        acc = acc * 10 + d;
        i = i + 1;
    }
    let k = i - d0;
    if k == 0 {
        proof {
            lemma_digits_len_at(run0, 0);
            if neg {
                assert(parse_nat_s(s0.drop_first()) is None);
            }
        }
        return Option::None;
    }
    if k > 1 && line[d0] == 48 {
        proof {
            lemma_run_parse(line@, d0 as int, i as int, run0);
            assert(run0[0] == 48);
        }
        return Option::None;
    }
    proof {
        lemma_run_parse(line@, d0 as int, i as int, run0);
        assert(run0.take(i - d0) =~= line@.subrange(d0 as int, i as int));
        assert(run0.skip(i - d0) =~= line@.skip(i as int));
        if neg {
            assert(s0.drop_first() =~= run0);
        }
    }
    if neg {
        if acc == 0 {
            return Option::None;
        }
        if acc == 9223372036854775808 {
            return Option::Some((i64::MIN, i));
        }
        let v: i64 = -(acc as i64);
        return Option::Some((v, i));
    }
    Option::Some((acc as i64, i))
}

/// In a digit run scanned to position `i`, a prefix value above the limit
/// puts the whole run's value above the limit.
proof fn lemma_overlimit(s: Seq<u8>, d0: int, i: int, limit: int, neg: bool, start: int)
    requires
        0 <= start <= d0 <= i < s.len(),
        forall|j: int| d0 <= j < i ==> is_digit(s[j]),
        is_digit(s[i]),
        dec_val(s.subrange(d0, i)) * 10 + (s[i] - 48) > limit,
        limit == if neg { 9223372036854775808int } else { 9223372036854775807int },
        neg ==> d0 == start + 1 && s.skip(start)[0] == 45,
        !neg ==> d0 == start,
    ensures
        parse_int_s(s.skip(start)) is None || (parse_int_s(s.skip(start)) matches Some((v, _))
            && !(i64::MIN <= v <= i64::MAX)),
{
    let run = s.skip(d0);
    lemma_digits_len_all(run);
    let k = digits_len(run);
    assert forall|j: int| 0 <= j <= i - d0 implies is_digit(run[j]) by {
        assert(run[j] == s[j + d0]);
    }
    lemma_digits_len_ge(run, i - d0 + 1);
    let t = run.take(i - d0 + 1);
    assert(t.drop_last() =~= s.subrange(d0, i));
    assert(t.last() == run[i - d0] && run[i - d0] == s[i]);
    assert forall|j: int| 0 <= j < t.len() implies is_digit(t[j]) by {
        assert(t[j] == run[j]);
    }
    assert(dec_val(t) > limit);
    let full = run.take(k);
    assert forall|j: int| 0 <= j < k implies is_digit(full[j]) by {
        assert(full[j] == run[j]);
    }
    assert(full.take(i - d0 + 1) =~= t);
    lemma_dec_val_prefix_mono(full, i - d0 + 1);
    assert(dec_val(full) >= dec_val(t));
    if neg {
        assert(s.skip(start)[0] == 45);
        assert(s.skip(start).len() > 0);
        assert(s.skip(start).drop_first() =~= run);
    } else {
        assert(s.skip(start) =~= run);
        assert(is_digit(s[d0]));
        assert(run[0] == s[d0]);
        assert(run[0] != 45);
    }
    if parse_nat_s(run) is Some {
        let v = parse_nat_s(run).unwrap().0;
        let rest = parse_nat_s(run).unwrap().1;
        assert(v == dec_val(full));
        assert(v > limit);
        if neg {
            assert(parse_int_s(s.skip(start)) == Option::<(int, Seq<u8>)>::Some((-v, rest)));
            assert(-v < i64::MIN);
        } else {
            assert(parse_int_s(s.skip(start)) == Option::<(int, Seq<u8>)>::Some((v, rest)));
            assert(v > i64::MAX);
        }
    } else {
        assert(parse_int_s(s.skip(start)) is None);
    }
}

/// Every position below the head digit run's length holds a digit.
proof fn lemma_digits_len_all(s: Seq<u8>)
    ensures
        0 <= digits_len(s) <= s.len(),
        forall|j: int| 0 <= j < digits_len(s) ==> is_digit(s[j]),
    decreases s.len(),
{
    if s.len() > 0 && is_digit(s[0]) {
        let t = s.drop_first();
        lemma_digits_len_all(t);
        assert(digits_len(s) == 1 + digits_len(t));
        assert forall|j: int| 1 <= j < digits_len(s) implies is_digit(s[j]) by {
            assert(is_digit(t[j - 1]));
            assert(t[j - 1] == s[j]);
        }
    }
}

/// A run of digits up to `k` makes the head digit run at least `k` long.
proof fn lemma_digits_len_ge(s: Seq<u8>, k: int)
    requires
        0 <= k <= s.len(),
        forall|j: int| 0 <= j < k ==> is_digit(s[j]),
    ensures
        digits_len(s) >= k,
    decreases k,
{
    lemma_digits_len_all(s);
    if k > 0 {
        let t = s.drop_first();
        assert forall|j: int| 0 <= j < k - 1 implies is_digit(t[j]) by {
            assert(t[j] == s[j + 1]);
        }
        lemma_digits_len_ge(t, k - 1);
        assert(is_digit(s[0]));
        assert(digits_len(s) == 1 + digits_len(t));
    }
}

/// Ties the scanned digit run to the spec parse of the run's suffix.
proof fn lemma_run_parse(s: Seq<u8>, d0: int, i: int, run: Seq<u8>)
    requires
        0 <= d0 <= i <= s.len(),
        run == s.skip(d0),
        forall|j: int| d0 <= j < i ==> is_digit(s[j]),
        i < s.len() ==> !is_digit(s[i]),
    ensures
        digits_len(run) == i - d0,
{
    assert(forall|j: int| 0 <= j < i - d0 ==> run[j] == s[j + d0]);
    assert(i - d0 < run.len() ==> run[i - d0] == s[i]);
    lemma_digits_len_at(run, i - d0);
}

/// The literal `{"type_id":` of the record line.
pub open spec fn lit_head() -> Seq<u8> {
    seq![123u8, 34, 116, 121, 112, 101, 95, 105, 100, 34, 58]
}

/// Appends the literal `{"type_id":` to `out`.
fn push_lit_head(out: &mut Vec<u8>)
    ensures
        final(out)@ == old(out)@ + lit_head(),
{
    out.push(123);
    out.push(34);
    out.push(116);
    out.push(121);
    out.push(112);
    out.push(101);
    out.push(95);
    out.push(105);
    out.push(100);
    out.push(34);
    out.push(58);
    proof {
        assert(out@ =~= old(out)@ + lit_head());
    }
}

/// The literal `,"title":"` of the record line.
pub open spec fn lit_title() -> Seq<u8> {
    seq![44u8, 34, 116, 105, 116, 108, 101, 34, 58, 34]
}

/// Appends the literal `,"title":"` to `out`.
fn push_lit_title(out: &mut Vec<u8>)
    ensures
        final(out)@ == old(out)@ + lit_title(),
{
    out.push(44);
    out.push(34);
    out.push(116);
    out.push(105);
    out.push(116);
    out.push(108);
    out.push(101);
    out.push(34);
    out.push(58);
    out.push(34);
    proof {
        assert(out@ =~= old(out)@ + lit_title());
    }
}

/// The literal `,"description":"` of the record line.
pub open spec fn lit_desc() -> Seq<u8> {
    seq![44u8, 34, 100, 101, 115, 99, 114, 105, 112, 116, 105, 111, 110, 34, 58, 34]
}

/// Appends the literal `,"description":"` to `out`.
fn push_lit_desc(out: &mut Vec<u8>)
    ensures
        final(out)@ == old(out)@ + lit_desc(),
{
    out.push(44);
    out.push(34);
    out.push(100);
    out.push(101);
    out.push(115);
    out.push(99);
    out.push(114);
    out.push(105);
    out.push(112);
    out.push(116);
    out.push(105);
    out.push(111);
    out.push(110);
    out.push(34);
    out.push(58);
    out.push(34);
    proof {
        assert(out@ =~= old(out)@ + lit_desc());
    }
}

/// The literal `,"view_url":"` of the record line.
pub open spec fn lit_view() -> Seq<u8> {
    seq![44u8, 34, 118, 105, 101, 119, 95, 117, 114, 108, 34, 58, 34]
}

/// Appends the literal `,"view_url":"` to `out`.
fn push_lit_view(out: &mut Vec<u8>)
    ensures
        final(out)@ == old(out)@ + lit_view(),
{
    out.push(44);
    out.push(34);
    out.push(118);
    out.push(105);
    out.push(101);
    out.push(119);
    out.push(95);
    out.push(117);
    out.push(114);
    out.push(108);
    out.push(34);
    out.push(58);
    out.push(34);
    proof {
        assert(out@ =~= old(out)@ + lit_view());
    }
}

/// The literal `,"name":"` of the record line.
pub open spec fn lit_name() -> Seq<u8> {
    seq![44u8, 34, 110, 97, 109, 101, 34, 58, 34]
}

/// Appends the literal `,"name":"` to `out`.
fn push_lit_name(out: &mut Vec<u8>)
    ensures
        final(out)@ == old(out)@ + lit_name(),
{
    out.push(44);
    out.push(34);
    out.push(110);
    out.push(97);
    out.push(109);
    out.push(101);
    out.push(34);
    out.push(58);
    out.push(34);
    proof {
        assert(out@ =~= old(out)@ + lit_name());
    }
}

/// The literal `,"author":{"name":"` of the record line.
pub open spec fn lit_author() -> Seq<u8> {
    seq![44u8, 34, 97, 117, 116, 104, 111, 114, 34, 58, 123, 34, 110, 97, 109, 101, 34, 58, 34]
}

/// Appends the literal `,"author":{"name":"` to `out`.
fn push_lit_author(out: &mut Vec<u8>)
    ensures
        final(out)@ == old(out)@ + lit_author(),
{
    out.push(44);
    out.push(34);
    out.push(97);
    out.push(117);
    out.push(116);
    out.push(104);
    out.push(111);
    out.push(114);
    out.push(34);
    out.push(58);
    out.push(123);
    out.push(34);
    out.push(110);
    out.push(97);
    out.push(109);
    out.push(101);
    out.push(34);
    out.push(58);
    out.push(34);
    proof {
        assert(out@ =~= old(out)@ + lit_author());
    }
}

/// The literal `}}` of the record line.
pub open spec fn lit_tail() -> Seq<u8> {
    seq![125u8, 125]
}

/// Appends the literal `}}` to `out`.
fn push_lit_tail(out: &mut Vec<u8>)
    ensures
        final(out)@ == old(out)@ + lit_tail(),
{
    out.push(125);
    out.push(125);
    proof {
        assert(out@ =~= old(out)@ + lit_tail());
    }
}

/// The spec-level image of one decoded record.
pub struct VacancyView {
    /// The record's site tag.
    pub type_id: int,
    /// Title bytes.
    pub title: Seq<u8>,
    /// Description bytes.
    pub description: Seq<u8>,
    /// Detail-page URL bytes.
    pub view_url: Seq<u8>,
    /// Source name bytes.
    pub name: Seq<u8>,
    /// The author block's name bytes.
    pub author_name: Seq<u8>,
}

/// The image of a record.
pub open spec fn vac_view(v: Vacancy) -> VacancyView {
    VacancyView {
        type_id: v.type_id as int,
        title: v.title@,
        description: v.description@,
        view_url: v.view_url@,
        name: v.name@,
        author_name: v.author.name@,
    }
}

/// One record as a single JSON object line, fixed key order, no spaces:
/// the site tag as a number, the four text fields and the author's name as
/// escaped strings.
pub open spec fn encode_vacancy_s(v: Vacancy) -> Seq<u8> {
    lit_head() + dec_int_repr(v.type_id as int) + lit_title() + esc(v.title@) + seq![34u8]
        + lit_desc() + esc(v.description@) + seq![34u8] + lit_view() + esc(v.view_url@)
        + seq![34u8] + lit_name() + esc(v.name@) + seq![34u8] + lit_author() + esc(
        v.author.name@,
    ) + seq![34u8] + lit_tail()
}

/// Consumes an expected literal from the head of `s`.
pub open spec fn expect_s(s: Seq<u8>, lit: Seq<u8>) -> Option<Seq<u8>> {
    if lit.is_prefix_of(s) {
        Option::Some(s.skip(lit.len() as int))
    } else {
        Option::None
    }
}

/// Reads one record line, the exact form `encode_vacancy_s` writes.
pub open spec fn decode_vacancy_s(line: Seq<u8>) -> Option<VacancyView> {
    match expect_s(line, lit_head()) {
        Option::None => Option::None,
        Option::Some(s1) => match parse_int_s(s1) {
            Option::None => Option::None,
            Option::Some((tid, s2)) => if !(i64::MIN <= tid <= i64::MAX) {
                Option::None
            } else {
                match expect_s(s2, lit_title()) {
                    Option::None => Option::None,
                    Option::Some(s3) => match parse_jstr_s(s3) {
                        Option::None => Option::None,
                        Option::Some((title, s4)) => match expect_s(s4, lit_desc()) {
                            Option::None => Option::None,
                            Option::Some(s5) => match parse_jstr_s(s5) {
                                Option::None => Option::None,
                                Option::Some((description, s6)) => match expect_s(
                                    s6,
                                    lit_view(),
                                ) {
                                    Option::None => Option::None,
                                    Option::Some(s7) => match parse_jstr_s(s7) {
                                        Option::None => Option::None,
                                        Option::Some((view_url, s8)) => match expect_s(
                                            s8,
                                            lit_name(),
                                        ) {
                                            Option::None => Option::None,
                                            Option::Some(s9) => match parse_jstr_s(s9) {
                                                Option::None => Option::None,
                                                Option::Some((name, s10)) => match expect_s(
                                                    s10,
                                                    lit_author(),
                                                ) {
                                                    Option::None => Option::None,
                                                    Option::Some(s11) => match parse_jstr_s(
                                                        s11,
                                                    ) {
                                                        Option::None => Option::None,
                                                        Option::Some(
                                                            (author_name, s12),
                                                        ) => match expect_s(s12, lit_tail()) {
                                                            Option::None => Option::None,
                                                            Option::Some(rest) => if rest.len()
                                                                == 0 {
                                                                Option::Some(
                                                                    VacancyView {
                                                                        type_id: tid,
                                                                        title,
                                                                        description,
                                                                        view_url,
                                                                        name,
                                                                        author_name,
                                                                    },
                                                                )
                                                            } else {
                                                                Option::None
                                                            },
                                                        },
                                                    },
                                                },
                                            },
                                        },
                                    },
                                },
                            },
                        },
                    },
                }
            },
        },
    }
}

/// Consuming a literal off the front of what it prefixes leaves the rest.
proof fn lemma_expect_prefix(lit: Seq<u8>, rest: Seq<u8>)
    ensures
        expect_s(lit + rest, lit) == Option::Some(rest),
{
    assert((lit + rest).subrange(0, lit.len() as int) =~= lit);
    assert(lit.is_prefix_of(lit + rest));
    assert((lit + rest).skip(lit.len() as int) =~= rest);
}

/// Appends the bytes of `s` to `out`.
fn append_bytes(out: &mut Vec<u8>, s: &Vec<u8>)
    ensures
        final(out)@ == old(out)@ + s@,
{
    let mut i: usize = 0;
    proof {
        assert(old(out)@ + s@.take(0) =~= old(out)@);
    }
    while i < s.len()
        invariant
            i <= s@.len(),
            out@ == old(out)@ + s@.take(i as int),
        decreases s@.len() - i,
    {
        out.push(s[i]);
        proof {
            assert(old(out)@ + s@.take(i + 1) =~= (old(out)@ + s@.take(i as int)).push(
                s@[i as int],
            ));
        }
        i = i + 1;
    }
    proof {
        assert(s@.take(s@.len() as int) =~= s@);
    }
}

/// Writes one record as its JSON object line.
pub fn encode_vacancy(v: &Vacancy) -> (r: Vec<u8>)
    ensures
        r@ == encode_vacancy_s(*v),
{
    let mut out: Vec<u8> = Vec::new();
    push_lit_head(&mut out);
    let tid = format_i64(v.type_id);
    append_bytes(&mut out, &tid);
    push_lit_title(&mut out);
    escape_into(&mut out, &v.title);
    out.push(34);
    push_lit_desc(&mut out);
    escape_into(&mut out, &v.description);
    out.push(34);
    push_lit_view(&mut out);
    escape_into(&mut out, &v.view_url);
    out.push(34);
    push_lit_name(&mut out);
    escape_into(&mut out, &v.name);
    out.push(34);
    push_lit_author(&mut out);
    escape_into(&mut out, &v.author.name);
    out.push(34);
    push_lit_tail(&mut out);
    proof {
        assert(out@ =~= encode_vacancy_s(*v));
    }
    out
}

/// Consumes the bytes of `lit` at position `i`, or refuses.
fn expect_lit(line: &Vec<u8>, i: usize, lit: &Vec<u8>) -> (r: Option<usize>)
    requires
        i <= line@.len(),
    ensures
        r matches Some(j) ==> i <= j <= line@.len() && expect_s(line@.skip(i as int), lit@)
            == Option::Some(line@.skip(j as int)),
        r is None ==> expect_s(line@.skip(i as int), lit@) is None,
{
    let ghost s_i = line@.skip(i as int);
    let n = line.len();
    if n - i < lit.len() {
        proof {
            assert(!lit@.is_prefix_of(s_i));
        }
        return Option::None;
    }
    let mut j: usize = 0;
    while j < lit.len()
        invariant
            j <= lit@.len(),
            n == line@.len(),
            i + lit@.len() <= n,
            s_i == line@.skip(i as int),
            forall|p: int| 0 <= p < j ==> line@[i + p] == lit@[p],
        decreases lit@.len() - j,
    {
        proof {
            assert(i + j < n);
        }
        if line[i + j] != lit[j] {
            proof {
                assert(s_i[j as int] == line@[i + j]);
                assert(!lit@.is_prefix_of(s_i));
            }
            return Option::None;
        }
        j = j + 1;
    }
    proof {
        assert forall|p: int| 0 <= p < lit@.len() implies s_i[p] == lit@[p] by {
            assert(s_i[p] == line@[i + p]);
        }
        assert(s_i.subrange(0, lit@.len() as int) =~= lit@);
        assert(lit@.is_prefix_of(s_i));
        assert(s_i.skip(lit@.len() as int) =~= line@.skip(i + lit@.len()));
    }
    Option::Some(i + lit.len())
}

/// Reads one record line back.  Only the exact canonical line decodes.
pub fn decode_vacancy(line: &Vec<u8>) -> (r: Option<Vacancy>)
    ensures
        r matches Some(v) ==> decode_vacancy_s(line@) == Option::Some(vac_view(v)),
        r is None ==> decode_vacancy_s(line@) is None,
{
    let mut head_v: Vec<u8> = Vec::new();
    push_lit_head(&mut head_v);
    let mut title_v: Vec<u8> = Vec::new();
    push_lit_title(&mut title_v);
    let mut desc_v: Vec<u8> = Vec::new();
    push_lit_desc(&mut desc_v);
    let mut view_v: Vec<u8> = Vec::new();
    push_lit_view(&mut view_v);
    let mut name_v: Vec<u8> = Vec::new();
    push_lit_name(&mut name_v);
    let mut author_v: Vec<u8> = Vec::new();
    push_lit_author(&mut author_v);
    let mut tail_v: Vec<u8> = Vec::new();
    push_lit_tail(&mut tail_v);
    proof {
        assert(head_v@ =~= lit_head());
        assert(title_v@ =~= lit_title());
        assert(desc_v@ =~= lit_desc());
        assert(view_v@ =~= lit_view());
        assert(name_v@ =~= lit_name());
        assert(author_v@ =~= lit_author());
        assert(tail_v@ =~= lit_tail());
        assert(line@.skip(0) =~= line@);
    }
    let i1 = match expect_lit(line, 0, &head_v) {
        Option::Some(j) => j,
        Option::None => {
            return Option::None;
        },
    };
    let (tid, i2) = match parse_int(line, i1) {
        Option::Some(p) => p,
        Option::None => {
            return Option::None;
        },
    };
    let i3 = match expect_lit(line, i2, &title_v) {
        Option::Some(j) => j,
        Option::None => {
            return Option::None;
        },
    };
    let (title, i4) = match parse_jstr(line, i3) {
        Option::Some(p) => p,
        Option::None => {
            return Option::None;
        },
    };
    let i5 = match expect_lit(line, i4, &desc_v) {
        Option::Some(j) => j,
        Option::None => {
            return Option::None;
        },
    };
    let (description, i6) = match parse_jstr(line, i5) {
        Option::Some(p) => p,
        Option::None => {
            return Option::None;
        },
    };
    let i7 = match expect_lit(line, i6, &view_v) {
        Option::Some(j) => j,
        Option::None => {
            return Option::None;
        },
    };
    let (view_url, i8) = match parse_jstr(line, i7) {
        Option::Some(p) => p,
        Option::None => {
            return Option::None;
        },
    };
    let i9 = match expect_lit(line, i8, &name_v) {
        Option::Some(j) => j,
        Option::None => {
            return Option::None;
        },
    };
    let (name, i10) = match parse_jstr(line, i9) {
        Option::Some(p) => p,
        Option::None => {
            return Option::None;
        },
    };
    let i11 = match expect_lit(line, i10, &author_v) {
        Option::Some(j) => j,
        Option::None => {
            return Option::None;
        },
    };
    let (author_name, i12) = match parse_jstr(line, i11) {
        Option::Some(p) => p,
        Option::None => {
            return Option::None;
        },
    };
    let i13 = match expect_lit(line, i12, &tail_v) {
        Option::Some(j) => j,
        Option::None => {
            return Option::None;
        },
    };
    if i13 != line.len() {
        proof {
            assert(line@.skip(i13 as int).len() > 0);
        }
        return Option::None;
    }
    proof {
        assert(line@.skip(i13 as int).len() == 0);
    }
    Option::Some(
        Vacancy {
            type_id: tid,
            title,
            description,
            view_url,
            name,
            author: Author { name: author_name },
        },
    )
}

/// Reading a written record line back gives the record itself.
#[verifier::rlimit(100)]
pub proof fn lemma_record_round_trip(v: Vacancy)
    ensures
        decode_vacancy_s(encode_vacancy_s(v)) == Option::Some(vac_view(v)),
{
    let q = seq![34u8];
    let c9 = lit_tail();
    let c8 = esc(v.author.name@) + q + c9;
    let c7 = lit_author() + c8;
    let c6 = esc(v.name@) + q + c7;
    let c5 = lit_name() + c6;
    let c4 = esc(v.view_url@) + q + c5;
    let c3 = lit_view() + c4;
    let c2 = esc(v.description@) + q + c3;
    let c1 = lit_desc() + c2;
    let c0 = esc(v.title@) + q + c1;
    let ct = lit_title() + c0;
    let ci = dec_int_repr(v.type_id as int) + ct;
    let line = encode_vacancy_s(v);
    assert(line =~= lit_head() + ci);
    lemma_expect_prefix(lit_head(), ci);
    assert(ci =~= dec_int_repr(v.type_id as int) + ct);
    assert(ct[0] == 44 && !is_digit(44));
    lemma_parse_int_repr(v.type_id as int, ct);
    lemma_expect_prefix(lit_title(), c0);
    assert(c0 =~= esc(v.title@) + seq![34u8] + c1);
    lemma_parse_esc(v.title@, c1);
    lemma_expect_prefix(lit_desc(), c2);
    assert(c2 =~= esc(v.description@) + seq![34u8] + c3);
    lemma_parse_esc(v.description@, c3);
    lemma_expect_prefix(lit_view(), c4);
    assert(c4 =~= esc(v.view_url@) + seq![34u8] + c5);
    lemma_parse_esc(v.view_url@, c5);
    lemma_expect_prefix(lit_name(), c6);
    assert(c6 =~= esc(v.name@) + seq![34u8] + c7);
    lemma_parse_esc(v.name@, c7);
    lemma_expect_prefix(lit_author(), c8);
    assert(c8 =~= esc(v.author.name@) + seq![34u8] + c9);
    lemma_parse_esc(v.author.name@, c9);
    lemma_expect_prefix(lit_tail(), Seq::empty());
    assert(c9 =~= lit_tail() + Seq::<u8>::empty());
}

/// Whether no byte of `s` is a newline.
pub open spec fn no_nl(s: Seq<u8>) -> bool {
    forall|i: int| 0 <= i < s.len() ==> s[i] != 10
}

proof fn lemma_no_nl_concat(a: Seq<u8>, b: Seq<u8>)
    requires
        no_nl(a),
        no_nl(b),
    ensures
        no_nl(a + b),
{
    assert forall|i: int| 0 <= i < (a + b).len() implies (a + b)[i] != 10 by {
        if i < a.len() {
        } else {
            assert((a + b)[i] == b[i - a.len()]);
        }
    }
}

proof fn lemma_no_nl_esc(s: Seq<u8>)
    ensures
        no_nl(esc(s)),
{
    assert forall|i: int| 0 <= i < esc(s).len() implies esc(s)[i] != 10 by {
        lemma_esc_no_ctrl(s, i);
    }
}

proof fn lemma_no_nl_int(n: int)
    ensures
        no_nl(dec_int_repr(n)),
{
    if n < 0 {
        lemma_dec_repr_digits(-n);
        lemma_no_nl_concat(seq![45u8], dec_repr(-n));
    } else {
        lemma_dec_repr_digits(n);
    }
}

/// A record line holds no newline: the line-per-record framing is sound.
pub proof fn lemma_encode_no_nl(v: Vacancy)
    ensures
        no_nl(encode_vacancy_s(v)),
{
    let q = seq![34u8];
    lemma_no_nl_int(v.type_id as int);
    lemma_no_nl_esc(v.title@);
    lemma_no_nl_esc(v.description@);
    lemma_no_nl_esc(v.view_url@);
    lemma_no_nl_esc(v.name@);
    lemma_no_nl_esc(v.author.name@);
    lemma_no_nl_concat(lit_head(), dec_int_repr(v.type_id as int));
    let p1 = lit_head() + dec_int_repr(v.type_id as int);
    lemma_no_nl_concat(p1, lit_title());
    let p2 = p1 + lit_title();
    lemma_no_nl_concat(p2, esc(v.title@));
    let p3 = p2 + esc(v.title@);
    lemma_no_nl_concat(p3, q);
    let p4 = p3 + q;
    lemma_no_nl_concat(p4, lit_desc());
    let p5 = p4 + lit_desc();
    lemma_no_nl_concat(p5, esc(v.description@));
    let p6 = p5 + esc(v.description@);
    lemma_no_nl_concat(p6, q);
    let p7 = p6 + q;
    lemma_no_nl_concat(p7, lit_view());
    let p8 = p7 + lit_view();
    lemma_no_nl_concat(p8, esc(v.view_url@));
    let p9 = p8 + esc(v.view_url@);
    lemma_no_nl_concat(p9, q);
    let p10 = p9 + q;
    lemma_no_nl_concat(p10, lit_name());
    let p11 = p10 + lit_name();
    lemma_no_nl_concat(p11, esc(v.name@));
    let p12 = p11 + esc(v.name@);
    lemma_no_nl_concat(p12, q);
    let p13 = p12 + q;
    lemma_no_nl_concat(p13, lit_author());
    let p14 = p13 + lit_author();
    lemma_no_nl_concat(p14, esc(v.author.name@));
    let p15 = p14 + esc(v.author.name@);
    lemma_no_nl_concat(p15, q);
    let p16 = p15 + q;
    lemma_no_nl_concat(p16, lit_tail());
}

/// The images of a sequence of records.
pub open spec fn vac_views(vs: Seq<Vacancy>) -> Seq<VacancyView> {
    vs.map_values(|v: Vacancy| vac_view(v))
}

/// The batched-mode file: one record line per vacancy, each ended by a
/// newline, in order.
pub open spec fn encode_jsonl_s(vs: Seq<Vacancy>) -> Seq<u8>
    decreases vs.len(),
{
    if vs.len() == 0 {
        Seq::empty()
    } else {
        encode_vacancy_s(vs[0]) + seq![10u8] + encode_jsonl_s(vs.drop_first())
    }
}

proof fn lemma_jsonl_append(vs: Seq<Vacancy>, v: Vacancy)
    ensures
        encode_jsonl_s(vs.push(v)) == encode_jsonl_s(vs) + encode_vacancy_s(v) + seq![10u8],
    decreases vs.len(),
{
    if vs.len() == 0 {
        assert(vs.push(v)[0] == v);
        assert(vs.push(v).drop_first() =~= Seq::<Vacancy>::empty());
        assert(encode_jsonl_s(Seq::<Vacancy>::empty()) == Seq::<u8>::empty());
        assert(encode_jsonl_s(vs.push(v)) == encode_vacancy_s(v) + seq![10u8] + Seq::<
            u8,
        >::empty());
        assert(encode_vacancy_s(v) + seq![10u8] + Seq::<u8>::empty() =~= Seq::<u8>::empty()
            + encode_vacancy_s(v) + seq![10u8]);
    } else {
        assert(vs.push(v).drop_first() =~= vs.drop_first().push(v));
        lemma_jsonl_append(vs.drop_first(), v);
        assert(vs.push(v)[0] == vs[0]);
        assert(encode_jsonl_s(vs.push(v)) == encode_vacancy_s(vs[0]) + seq![10u8] + (
        encode_jsonl_s(vs.drop_first()) + encode_vacancy_s(v) + seq![10u8]));
        assert(encode_vacancy_s(vs[0]) + seq![10u8] + (encode_jsonl_s(vs.drop_first())
            + encode_vacancy_s(v) + seq![10u8]) =~= (encode_vacancy_s(vs[0]) + seq![10u8]
            + encode_jsonl_s(vs.drop_first())) + encode_vacancy_s(v) + seq![10u8]);
    }
}

/// The position of the first newline in `s`.
pub open spec fn find_nl(s: Seq<u8>) -> Option<int>
    decreases s.len(),
{
    if s.len() == 0 {
        Option::None
    } else if s[0] == 10 {
        Option::Some(0)
    } else {
        match find_nl(s.drop_first()) {
            Option::None => Option::None,
            Option::Some(k) => Option::Some(k + 1),
        }
    }
}

proof fn lemma_find_nl_at(s: Seq<u8>, k: int)
    requires
        0 <= k <= s.len(),
        forall|j: int| 0 <= j < k ==> s[j] != 10,
        k < s.len() ==> s[k] == 10,
    ensures
        find_nl(s) == if k < s.len() {
            Option::Some(k)
        } else {
            Option::None::<int>
        },
    decreases s.len(),
{
    if k == 0 {
        if s.len() == 0 {
        } else {
            assert(s[0] == 10);
        }
    } else {
        let t = s.drop_first();
        assert(forall|j: int| 0 <= j < k - 1 ==> #[trigger] t[j] == s[j + 1]);
        lemma_find_nl_at(t, k - 1);
        assert(s[0] != 10);
    }
}

proof fn lemma_find_nl_concat(a: Seq<u8>, b: Seq<u8>)
    requires
        no_nl(a),
    ensures
        find_nl(a + seq![10u8] + b) == Option::Some(a.len() as int),
    decreases a.len(),
{
    let s = a + seq![10u8] + b;
    if a.len() == 0 {
        assert(s[0] == 10);
    } else {
        assert(s[0] == a[0] && a[0] != 10);
        assert(s.drop_first() =~= a.drop_first() + seq![10u8] + b);
        assert(no_nl(a.drop_first())) by {
            assert(forall|j: int| 0 <= j < a.drop_first().len() ==> #[trigger] a.drop_first()[j]
                == a[j + 1]);
        }
        lemma_find_nl_concat(a.drop_first(), b);
    }
}

/// Reads a whole batched-mode file: each line one record; refused
/// wholesale when any line is not canonical or a trailing fragment lacks
/// its newline.
pub open spec fn decode_lines_s(s: Seq<u8>) -> Option<Seq<VacancyView>>
    decreases s.len(),
{
    if s.len() == 0 {
        Option::Some(Seq::empty())
    } else {
        match find_nl(s) {
            Option::None => Option::None,
            Option::Some(k) => if 0 <= k < s.len() {
                match decode_vacancy_s(s.take(k)) {
                    Option::None => Option::None,
                    Option::Some(v) => match decode_lines_s(s.skip(k + 1)) {
                        Option::None => Option::None,
                        Option::Some(tail) => Option::Some(seq![v] + tail),
                    },
                }
            } else {
                Option::None
            },
        }
    }
}

/// Writes the whole batch as its line-delimited file.
pub fn encode_jsonl(vs: &Vec<Vacancy>) -> (r: Vec<u8>)
    ensures
        r@ == encode_jsonl_s(vs@),
{
    let mut out: Vec<u8> = Vec::new();
    let mut i: usize = 0;
    proof {
        assert(encode_jsonl_s(vs@.take(0)) == Seq::<u8>::empty());
    }
    while i < vs.len()
        invariant
            i <= vs@.len(),
            out@ == encode_jsonl_s(vs@.take(i as int)),
        decreases vs@.len() - i,
    {
        let line = encode_vacancy(&vs[i]);
        append_bytes(&mut out, &line);
        out.push(10);
        proof {
            assert(vs@.take(i + 1) =~= vs@.take(i as int).push(vs@[i as int]));
            lemma_jsonl_append(vs@.take(i as int), vs@[i as int]);
        }
        i = i + 1;
    }
    proof {
        assert(vs@.take(vs@.len() as int) =~= vs@);
    }
    out
}

/// Reads a whole batched-mode file back, line by line.
pub fn decode_lines(data: &Vec<u8>) -> (r: Option<Vec<Vacancy>>)
    ensures
        r matches Some(out) ==> decode_lines_s(data@) == Option::Some(vac_views(out@)),
        r is None ==> decode_lines_s(data@) is None,
{
    let mut out: Vec<Vacancy> = Vec::new();
    let mut i: usize = 0;
    let n = data.len();
    proof {
        assert(data@.skip(0) =~= data@);
        assert(vac_views(out@) =~= Seq::<VacancyView>::empty());
        let whole = decode_lines_s(data@);
        if whole is Some {
            assert(vac_views(out@) + whole.unwrap() =~= whole.unwrap());
        }
    }
    while i < n
        invariant
            i <= n,
            n == data@.len(),
            match decode_lines_s(data@.skip(i as int)) {
                Option::Some(tail) => decode_lines_s(data@) == Option::Some(
                    vac_views(out@) + tail,
                ),
                Option::None => decode_lines_s(data@) is None,
            },
        decreases n - i,
    {
        let ghost s_i = data@.skip(i as int);
        let mut k: usize = i;
        while k < n && data[k] != 10
            invariant
                i <= k <= n,
                n == data@.len(),
                forall|j: int| i <= j < k ==> data@[j] != 10,
            decreases n - k,
        {
            k = k + 1;
        }
        proof {
            assert forall|j: int| 0 <= j < k - i implies s_i[j] != 10 by {
                assert(s_i[j] == data@[j + i]);
            }
            if k < n {
                assert(s_i[k - i] == data@[k as int]);
            }
            lemma_find_nl_at(s_i, k - i);
        }
        if k == n {
            proof {
                assert(find_nl(s_i) is None);
                assert(s_i.len() > 0);
            }
            return Option::None;
        }
        let line = crate::text::copy_range(data, i, k);
        proof {
            assert(s_i.take(k - i) =~= line@);
        }
        let v = match decode_vacancy(&line) {
            Option::Some(v) => v,
            Option::None => {
                proof {
                    assert(decode_lines_s(s_i) is None);
                }
                return Option::None;
            },
        };
        proof {
            assert(s_i.skip(k - i + 1) =~= data@.skip(k + 1));
        }
        let ghost prev = out@;
        out.push(v);
        proof {
            assert(out@ == prev.push(v));
            assert(vac_views(prev.push(v)) =~= vac_views(prev).push(vac_view(v)));
            let rec = decode_lines_s(data@.skip(k + 1));
            if rec is Some {
                let tail = rec.unwrap();
                assert(decode_lines_s(s_i) == Option::Some(seq![vac_view(v)] + tail));
                assert(vac_views(prev) + (seq![vac_view(v)] + tail) =~= vac_views(
                    prev.push(v),
                ) + tail);
            } else {
                assert(decode_lines_s(s_i) is None);
            }
        }
        i = k + 1;
    }
    proof {
        assert(data@.skip(n as int).len() == 0);
        assert(vac_views(out@) + Seq::<VacancyView>::empty() =~= vac_views(out@));
    }
    Option::Some(out)
}

/// Round trip: re-reading the batched-mode line-delimited file yields
/// exactly the records that were written, in order.
#[verifier::rlimit(100)]
pub proof fn lemma_file_round_trip(vs: Seq<Vacancy>)
    ensures
        decode_lines_s(encode_jsonl_s(vs)) == Option::Some(vac_views(vs)),
    decreases vs.len(),
{
    if vs.len() == 0 {
        assert(vac_views(vs) =~= Seq::<VacancyView>::empty());
    } else {
        let v0 = vs[0];
        let a = encode_vacancy_s(v0);
        let rest = encode_jsonl_s(vs.drop_first());
        let s = encode_jsonl_s(vs);
        assert(s == a + seq![10u8] + rest);
        lemma_encode_no_nl(v0);
        lemma_find_nl_concat(a, rest);
        assert(s.len() > 0);
        assert(find_nl(s) == Option::Some(a.len() as int));
        assert(a.len() < s.len());
        assert(s.take(a.len() as int) =~= a);
        lemma_record_round_trip(v0);
        assert(s.skip(a.len() as int + 1) =~= rest);
        lemma_file_round_trip(vs.drop_first());
        assert(decode_lines_s(s) == Option::Some(seq![vac_view(v0)] + vac_views(
            vs.drop_first(),
        )));
        assert(seq![vac_view(v0)] + vac_views(vs.drop_first()) =~= vac_views(vs)) by {
            assert(forall|j: int| 0 <= j < vs.drop_first().len() ==> #[trigger] vac_views(
                vs.drop_first(),
            )[j] == vac_view(vs[j + 1]));
        }
    }
}

} // verus!
