//! Decimal integers as text: what `str::parse` accepts for the integer
//! types, and the text `{}` formatting gives.
use vstd::prelude::*;

verus! {

pub open spec fn is_dec_digit(c: char) -> bool {
    '0' <= c <= '9'
}

/// The value of a run of decimal digits.
pub open spec fn dec_value(ds: Seq<char>) -> nat
    decreases ds.len(),
{
    if ds.len() == 0 {
        0
    } else {
        dec_value(ds.drop_last()) * 10 + (ds.last() as nat - '0' as nat) as nat
    }
}

/// At least one character, all decimal digits.
pub open spec fn all_digits(ds: Seq<char>) -> bool {
    ds.len() > 0 && forall|i: int| 0 <= i < ds.len() ==> is_dec_digit(#[trigger] ds[i])
}

/// The digit for `d < 10`.
pub open spec fn digit_char(d: nat) -> char {
    ((d + '0' as nat) as u8) as char
}

/// The shortest decimal text of `n`.
pub open spec fn dec_text(n: nat) -> Seq<char>
    decreases n,
{
    if n < 10 {
        seq![digit_char(n)]
    } else {
        dec_text(n / 10).push(digit_char(n % 10))
    }
}

/// The decimal text of `i`, with `-` before a negative value.
pub open spec fn signed_text(i: int) -> Seq<char> {
    if i < 0 {
        seq!['-'] + dec_text((-i) as nat)
    } else {
        dec_text(i as nat)
    }
}

/// What an unsigned integer type's `from_str` reads: an optional `+`, then
/// at least one decimal digit.
pub open spec fn unsigned_value(s: Seq<char>) -> Option<nat> {
    let ds = if s.len() > 0 && s[0] == '+' {
        s.drop_first()
    } else {
        s
    };
    if all_digits(ds) {
        Some(dec_value(ds))
    } else {
        None
    }
}

/// What a signed integer type's `from_str` reads: an optional `+` or `-`,
/// then at least one decimal digit.
pub open spec fn signed_value(s: Seq<char>) -> Option<int> {
    if s.len() > 0 && s[0] == '-' {
        if all_digits(s.drop_first()) {
            Some(-dec_value(s.drop_first()))
        } else {
            None
        }
    } else {
        match unsigned_value(s) {
            Some(v) => Some(v as int),
            None => None,
        }
    }
}

pub proof fn lemma_dec_value_prefix(ds: Seq<char>, k: int)
    requires
        0 <= k <= ds.len(),
        forall|i: int| 0 <= i < ds.len() ==> is_dec_digit(#[trigger] ds[i]),
    ensures
        dec_value(ds.subrange(0, k)) <= dec_value(ds),
    decreases ds.len(),
{
    if k < ds.len() {
        let init = ds.drop_last();
        assert(init.subrange(0, k) =~= ds.subrange(0, k));
        lemma_dec_value_prefix(init, k);
    } else {
        assert(ds.subrange(0, k) =~= ds);
    }
}

/// Reads the digits `s[from..]` as a value of at most `limit`.
fn digits_upto(s: &[char], from: usize, limit: usize) -> (r: Option<usize>)
    requires
        from <= s.len(),
    ensures
        r == (if all_digits(s@.subrange(from as int, s@.len() as int)) && dec_value(
            s@.subrange(from as int, s@.len() as int),
        ) <= limit {
            Some(dec_value(s@.subrange(from as int, s@.len() as int)) as usize)
        } else {
            None
        }),
{
    let ghost ds = s@.subrange(from as int, s@.len() as int);
    if from == s.len() {
        return None;
    }
    let mut acc: usize = 0;
    let mut i: usize = from;
    while i < s.len()
        invariant
            from <= i <= s.len(),
            ds == s@.subrange(from as int, s@.len() as int),
            acc == dec_value(ds.subrange(0, i - from)),
            acc <= limit,
            forall|k: int| 0 <= k < i - from ==> is_dec_digit(#[trigger] ds[k]),
        decreases s.len() - i,
    {
        let c = s[i];
        if c < '0' || c > '9' {
            assert(!is_dec_digit(ds[i - from]));
            return None;
        }
        let d = ((c as u32) - ('0' as u32)) as usize;
        let ghost next = ds.subrange(0, i - from + 1);
        assert(next.drop_last() =~= ds.subrange(0, i - from));
        if d > limit || acc > (limit - d) / 10 {
            proof {
                if d <= limit {
                    assert(acc * 10 + d > limit) by (nonlinear_arith)
                        requires
                            acc > (limit - d) / 10,
                            d <= 9,
                    ;
                }
                assert(dec_value(next) > limit) by (nonlinear_arith)
                    requires
                        dec_value(next) == acc * 10 + d,
                        acc * 10 + d > limit || d > limit,
                ;
                if forall|k: int| 0 <= k < ds.len() ==> is_dec_digit(#[trigger] ds[k]) {
                    lemma_dec_value_prefix(ds, i - from + 1);
                }
            }
            return None;
        }
        assert(acc * 10 + d <= limit) by (nonlinear_arith)
            requires
                acc <= (limit - d) / 10,
                d <= limit,
        ;
        acc = acc * 10 + d;
        i += 1;
    }
    assert(ds.subrange(0, i - from) =~= ds);
    Some(acc)
}

/// `usize::from_str`: an optional `+`, then digits.
pub fn parse_usize(s: &[char]) -> (r: Option<usize>)
    ensures
        r == (match unsigned_value(s@) {
            Some(v) => if v <= usize::MAX {
                Some(v as usize)
            } else {
                None
            },
            None => None,
        }),
{
    let from: usize = if s.len() > 0 && s[0] == '+' {
        1
    } else {
        0
    };
    proof {
        if from == 1 {
            assert(s@.drop_first() =~= s@.subrange(1, s@.len() as int));
        } else {
            assert(s@ =~= s@.subrange(0, s@.len() as int));
        }
    }
    digits_upto(s, from, usize::MAX)
}

/// `u16::from_str`: an optional `+`, then digits, at most 65535.
pub fn parse_u16(s: &[char]) -> (r: Option<u16>)
    ensures
        r == (match unsigned_value(s@) {
            Some(v) => if v <= u16::MAX {
                Some(v as u16)
            } else {
                None
            },
            None => None,
        }),
{
    let from: usize = if s.len() > 0 && s[0] == '+' {
        1
    } else {
        0
    };
    proof {
        if from == 1 {
            assert(s@.drop_first() =~= s@.subrange(1, s@.len() as int));
        } else {
            assert(s@ =~= s@.subrange(0, s@.len() as int));
        }
    }
    match digits_upto(s, from, 65535) {
        Some(v) => Some(v as u16),
        None => None,
    }
}

/// `isize::from_str`: an optional `+` or `-`, then digits.
pub fn parse_isize(s: &[char]) -> (r: Option<isize>)
    ensures
        r == (match signed_value(s@) {
            Some(v) => if isize::MIN <= v <= isize::MAX {
                Some(v as isize)
            } else {
                None
            },
            None => None,
        }),
{
    if s.len() > 0 && s[0] == '-' {
        assert(s@.drop_first() =~= s@.subrange(1, s@.len() as int));
        let limit: usize = (isize::MAX as usize) + 1;
        match digits_upto(s, 1, limit) {
            Some(m) => {
                if m == limit {
                    Some(isize::MIN)
                } else {
                    Some(-(m as isize))
                }
            },
            None => None,
        }
    } else {
        let from: usize = if s.len() > 0 && s[0] == '+' {
            1
        } else {
            0
        };
        proof {
            if from == 1 {
                assert(s@.drop_first() =~= s@.subrange(1, s@.len() as int));
            } else {
                assert(s@ =~= s@.subrange(0, s@.len() as int));
            }
        }
        match digits_upto(s, from, isize::MAX as usize) {
            Some(v) => Some(v as isize),
            None => None,
        }
    }
}

/// Appends the decimal text of `v`.
pub fn push_dec(out: &mut Vec<char>, v: u64)
    ensures
        final(out)@ == old(out)@ + dec_text(v as nat),
    decreases v,
{
    if v >= 10 {
        push_dec(out, v / 10);
    }
    let d = (v % 10) as u8;
    out.push((d + 48) as char);
    proof {
        if v >= 10 {
            assert(dec_text(v as nat) == dec_text((v / 10) as nat).push(digit_char((v % 10) as nat)));
        }
    }
    assert(final(out)@ =~= old(out)@ + dec_text(v as nat));
}

} // verus!
