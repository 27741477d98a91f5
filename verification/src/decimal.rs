//! Decimal text form of the integers that appear in the exchange format
//! and in connection URLs.

use vstd::prelude::*;
use vstd::string::*;

verus! {

/// The character for one decimal digit value.
pub open spec fn digit_char(d: int) -> char
    recommends
        0 <= d < 10,
{
    if d == 0 {
        '0'
    } else if d == 1 {
        '1'
    } else if d == 2 {
        '2'
    } else if d == 3 {
        '3'
    } else if d == 4 {
        '4'
    } else if d == 5 {
        '5'
    } else if d == 6 {
        '6'
    } else if d == 7 {
        '7'
    } else if d == 8 {
        '8'
    } else {
        '9'
    }
}

pub open spec fn is_digit(c: char) -> bool {
    48 <= c as int <= 57
}

pub open spec fn digit_val(c: char) -> int {
    c as int - 48
}

pub open spec fn all_digits(s: Seq<char>) -> bool {
    forall|i: int| 0 <= i < s.len() ==> is_digit(#[trigger] s[i])
}

/// The decimal digits of `n`, most significant first, no leading zeros.
pub open spec fn dec_rep(n: nat) -> Seq<char>
    decreases n,
{
    if n < 10 {
        seq![digit_char(n as int)]
    } else {
        dec_rep(n / 10).push(digit_char((n % 10) as int))
    }
}

/// The signed decimal form: a leading `-` for negative values.
pub open spec fn int_rep(v: int) -> Seq<char> {
    if v < 0 {
        seq!['-'] + dec_rep((-v) as nat)
    } else {
        dec_rep(v as nat)
    }
}

/// The numeric value of a digit string, most significant first.
pub open spec fn dec_val(s: Seq<char>) -> int
    decreases s.len(),
{
    if s.len() == 0 {
        0
    } else {
        dec_val(s.drop_last()) * 10 + digit_val(s.last())
    }
}

/// What a signed decimal field means, with the bounds of a 64-bit value:
/// `None` for an empty, malformed or out-of-range field.
pub open spec fn parse_int_spec(t: Seq<char>) -> Option<int> {
    if t.len() == 0 {
        None
    } else if t[0] == '-' {
        let u = t.subrange(1, t.len() as int);
        if u.len() > 0 && all_digits(u) && dec_val(u) <= 0x8000_0000_0000_0000 {
            Some(-dec_val(u))
        } else {
            None
        }
    } else {
        if all_digits(t) && dec_val(t) <= i64::MAX {
            Some(dec_val(t))
        } else {
            None
        }
    }
}

/// `digit_char` and `digit_val` invert each other on digit values.
pub proof fn lemma_digit_roundtrip(d: int)
    requires
        0 <= d < 10,
    ensures
        digit_val(digit_char(d)) == d,
        is_digit(digit_char(d)),
{
}

pub proof fn lemma_dec_rep_digits(n: nat)
    ensures
        dec_rep(n).len() >= 1,
        all_digits(dec_rep(n)),
    decreases n,
{
    if n >= 10 {
        lemma_dec_rep_digits(n / 10);
        assert forall|i: int| 0 <= i < dec_rep(n).len() implies is_digit(#[trigger] dec_rep(n)[i]) by {
            if i < dec_rep(n / 10).len() {
                assert(dec_rep(n)[i] == dec_rep(n / 10)[i]);
            }
        }
    }
}

pub proof fn lemma_dec_val_of_rep(n: nat)
    ensures
        dec_val(dec_rep(n)) == n,
    decreases n,
{
    let s = dec_rep(n);
    if n < 10 {
        lemma_digit_roundtrip(n as int);
        assert(s =~= seq![digit_char(n as int)]);
        assert(s.drop_last() =~= Seq::<char>::empty());
        assert(dec_val(Seq::<char>::empty()) == 0);
        assert(s.last() == digit_char(n as int));
        assert(dec_val(s) == dec_val(s.drop_last()) * 10 + digit_val(s.last()));
    } else {
        lemma_dec_val_of_rep(n / 10);
        lemma_digit_roundtrip((n % 10) as int);
        assert(s == dec_rep(n / 10).push(digit_char((n % 10) as int)));
        assert(s.drop_last() =~= dec_rep(n / 10));
        assert(s.last() == digit_char((n % 10) as int));
        assert(s.len() > 0);
        assert(dec_val(s) == dec_val(s.drop_last()) * 10 + digit_val(s.last()));
        vstd::arithmetic::div_mod::lemma_fundamental_div_mod(n as int, 10);
    }
}

pub proof fn lemma_dec_val_nonneg(s: Seq<char>)
    requires
        all_digits(s),
    ensures
        dec_val(s) >= 0,
    decreases s.len(),
{
    if s.len() > 0 {
        assert(all_digits(s.drop_last()));
        lemma_dec_val_nonneg(s.drop_last());
    }
}

/// A longer digit prefix never has a smaller value.
pub proof fn lemma_dec_val_prefix_le(s: Seq<char>, i: int, j: int)
    requires
        all_digits(s),
        0 <= i <= j <= s.len(),
    ensures
        dec_val(s.subrange(0, i)) <= dec_val(s.subrange(0, j)),
    decreases j - i,
{
    if i < j {
        lemma_dec_val_prefix_le(s, i, j - 1);
        let a = s.subrange(0, j - 1);
        let b = s.subrange(0, j);
        assert(b.drop_last() =~= a);
        assert(all_digits(a));
        lemma_dec_val_nonneg(a);
        assert(dec_val(b) == dec_val(a) * 10 + digit_val(s[j - 1]));
    }
}

/// Parsing inverts the representation for every 64-bit value.
pub proof fn lemma_parse_int_of_rep(v: int)
    requires
        i64::MIN <= v <= i64::MAX,
    ensures
        parse_int_spec(int_rep(v)) == Some(v),
{
    if v < 0 {
        let m = (-v) as nat;
        lemma_dec_rep_digits(m);
        lemma_dec_val_of_rep(m);
        let t = int_rep(v);
        assert(t.subrange(1, t.len() as int) =~= dec_rep(m));
    } else {
        lemma_dec_rep_digits(v as nat);
        lemma_dec_val_of_rep(v as nat);
        let t = int_rep(v);
        assert(is_digit(t[0]));
    }
}

/// The decimal character sequence of one digit value.
fn digit_str(d: u8) -> (s: &'static str)
    requires
        d < 10,
    ensures
        s@ =~= seq![digit_char(d as int)],
{
    proof {
        reveal_strlit("0");
        reveal_strlit("1");
        reveal_strlit("2");
        reveal_strlit("3");
        reveal_strlit("4");
        reveal_strlit("5");
        reveal_strlit("6");
        reveal_strlit("7");
        reveal_strlit("8");
        reveal_strlit("9");
    }
    match d {
        0 => "0",
        1 => "1",
        2 => "2",
        3 => "3",
        4 => "4",
        5 => "5",
        6 => "6",
        7 => "7",
        8 => "8",
        _ => "9",
    }
}

/// The digit characters of `ds` in reverse order.
spec fn rev_digit_chars(ds: Seq<u8>) -> Seq<char> {
    Seq::new(ds.len(), |i: int| digit_char(ds[ds.len() - 1 - i] as int))
}

/// Appends the decimal form of `n` to `out`.
pub fn push_u64_dec(out: &mut String, n: u64)
    ensures
        final(out)@ == old(out)@ + dec_rep(n as nat),
{
    if n == 0 {
        out.append(digit_str(0));
        return ;
    }
    let mut tmp: Vec<u8> = Vec::new();
    let mut m: u64 = n;
    proof {
        assert(rev_digit_chars(tmp@) =~= Seq::<char>::empty());
        assert(dec_rep(n as nat) =~= dec_rep(m as nat) + rev_digit_chars(tmp@));
    }
    while m > 0
        invariant
            m > 0 ==> dec_rep(n as nat) == dec_rep(m as nat) + rev_digit_chars(tmp@),
            m == 0 ==> dec_rep(n as nat) == rev_digit_chars(tmp@),
            forall|i: int| 0 <= i < tmp@.len() ==> #[trigger] tmp@[i] < 10,
        decreases m,
    {
        let ghost m0 = m as nat;
        let ghost tmp0 = tmp@;
        let d: u8 = (m % 10) as u8;
        tmp.push(d);
        m = m / 10;
        proof {
            assert(rev_digit_chars(tmp@) =~= seq![digit_char(d as int)] + rev_digit_chars(tmp0));
            if m0 < 10 {
                assert(dec_rep(m0) =~= seq![digit_char(d as int)]);
                assert(dec_rep(n as nat) =~= rev_digit_chars(tmp@));
            } else {
                assert(dec_rep(m0) == dec_rep(m0 / 10).push(digit_char((m0 % 10) as int)));
                assert(dec_rep(m0) + rev_digit_chars(tmp0) =~= dec_rep(m as nat) + rev_digit_chars(
                    tmp@,
                ));
            }
        }
    }
    let count = tmp.len();
    let mut j: usize = 0;
    while j < count
        invariant
            count == tmp@.len(),
            0 <= j <= count,
            forall|i: int| 0 <= i < tmp@.len() ==> #[trigger] tmp@[i] < 10,
            dec_rep(n as nat) == rev_digit_chars(tmp@),
            out@ == old(out)@ + rev_digit_chars(tmp@).subrange(0, j as int),
        decreases count - j,
    {
        let idx = count - 1 - j;
        out.append(digit_str(tmp[idx]));
        j = j + 1;
        proof {
            assert(rev_digit_chars(tmp@).subrange(0, j as int) =~= rev_digit_chars(
                tmp@,
            ).subrange(0, j - 1) + seq![digit_char(tmp@[count - (j - 1) - 1] as int)]);
        }
    }
    proof {
        assert(rev_digit_chars(tmp@).subrange(0, count as int) =~= rev_digit_chars(tmp@));
    }
}

/// Appends the signed decimal form of `v` to `out`.
pub fn push_i64_dec(out: &mut String, v: i64)
    ensures
        final(out)@ == old(out)@ + int_rep(v as int),
{
    if v < 0 {
        proof {
            reveal_strlit("-");
        }
        out.append("-");
        let mag: u64 = if v == i64::MIN {
            9223372036854775808u64
        } else {
            (-v) as u64
        };
        let ghost before = out@;
        push_u64_dec(out, mag);
        proof {
            assert(mag as nat == (-(v as int)) as nat);
            assert(out@ =~= old(out)@ + int_rep(v as int));
        }
    } else {
        push_u64_dec(out, v as u64);
    }
}

/// The decimal form of `n` as a fresh string.
pub fn u64_to_dec(n: u64) -> (s: String)
    ensures
        s@ == dec_rep(n as nat),
{
    let mut s = String::new();
    push_u64_dec(&mut s, n);
    proof {
        assert(s@ =~= dec_rep(n as nat));
    }
    s
}

/// Reads an unsigned decimal from `s[start..end]`.  Returns the value
/// exactly when the range is a non-empty digit string whose value fits in
/// a `u64`.
pub fn parse_u64_range(s: &str, start: usize, end: usize) -> (r: Option<u64>)
    requires
        start <= end <= s@.len(),
    ensures
        ({
            let range = s@.subrange(start as int, end as int);
            match r {
                Some(v) => end > start && all_digits(range) && dec_val(range) == v,
                None => end == start || !all_digits(range) || dec_val(range) > u64::MAX,
            }
        }),
{
    let ghost range = s@.subrange(start as int, end as int);
    if start == end {
        return None;
    }
    let mut val: u64 = 0;
    let mut i = start;
    while i < end
        invariant
            start <= i <= end <= s@.len(),
            range == s@.subrange(start as int, end as int),
            all_digits(range.subrange(0, i - start)),
            val == dec_val(range.subrange(0, i - start)),
        decreases end - i,
    {
        let ghost prefix = range.subrange(0, i - start);
        let c = s.get_char(i);
        proof {
            assert(range[i - start] == s@[i as int]);
        }
        let u = c as u32;
        if u < 48 || u > 57 {
            proof {
                assert(!is_digit(range[i - start]));
            }
            return None;
        }
        let d: u64 = (u - 48) as u64;
        let ghost next = range.subrange(0, i + 1 - start);
        proof {
            assert(next.drop_last() =~= prefix);
            assert(next.last() == range[i - start]);
            assert(dec_val(next) == val * 10 + d);
        }
        if val > (u64::MAX - d) / 10 {
            proof {
                // The prefix through `i` already exceeds `u64::MAX`, and a
                // digit string's value never shrinks as it extends.
                vstd::arithmetic::div_mod::lemma_fundamental_div_mod(
                    (u64::MAX - d) as int,
                    10,
                );
                assert(dec_val(next) > u64::MAX);
                if all_digits(range) {
                    lemma_dec_val_prefix_le(range, i + 1 - start, range.len() as int);
                    assert(range.subrange(0, range.len() as int) =~= range);
                }
            }
            return None;
        }
        proof {
            vstd::arithmetic::div_mod::lemma_fundamental_div_mod((u64::MAX - d) as int, 10);
        }
        val = val * 10 + d;
        i = i + 1;
    }
    proof {
        assert(range.subrange(0, end - start) =~= range);
    }
    Some(val)
}

/// Reads a signed decimal from `s[start..end]`, meaning `parse_int_spec`
/// over the range.
pub fn parse_i64_range(s: &str, start: usize, end: usize) -> (r: Option<i64>)
    requires
        start <= end <= s@.len(),
    ensures
        ({
            let range = s@.subrange(start as int, end as int);
            match r {
                Some(v) => parse_int_spec(range) == Some(v as int),
                None => parse_int_spec(range) is None,
            }
        }),
{
    let ghost range = s@.subrange(start as int, end as int);
    if start == end {
        return None;
    }
    let c = s.get_char(start);
    if c == '-' {
        let ghost tail = range.subrange(1, range.len() as int);
        proof {
            assert(tail =~= s@.subrange(start + 1, end as int));
        }
        match parse_u64_range(s, start + 1, end) {
            Some(v) => {
                if v > 9223372036854775808u64 {
                    proof {
                        assert(parse_int_spec(range) is None);
                    }
                    None
                } else if v == 9223372036854775808u64 {
                    Some(i64::MIN)
                } else {
                    Some(-(v as i64))
                }
            },
            None => {
                proof {
                    if tail.len() > 0 && all_digits(tail) && dec_val(tail)
                        <= 0x8000_0000_0000_0000 {
                        assert(dec_val(tail) <= u64::MAX);
                    }
                }
                None
            },
        }
    } else {
        proof {
            assert(range[0] == s@[start as int]);
        }
        match parse_u64_range(s, start, end) {
            Some(v) => {
                if v > i64::MAX as u64 {
                    None
                } else {
                    Some(v as i64)
                }
            },
            None => None,
        }
    }
}

} // verus!
