use vstd::prelude::*;

verus! {

/// Digits after the decimal point that a price keeps: prices are held as
/// integers in units of 10^-8.
pub const PRICE_DECIMALS: usize = 8;

pub open spec fn is_digit(c: char) -> bool {
    '0' <= c && c <= '9'
}

pub open spec fn all_digits(s: Seq<char>) -> bool {
    forall|i: int| 0 <= i < s.len() ==> is_digit(#[trigger] s[i])
}

/// The number that a digit string writes in base 10.
pub open spec fn digits_value(s: Seq<char>) -> nat
    decreases s.len(),
{
    if s.len() == 0 {
        0
    } else {
        10 * digits_value(s.drop_last()) + ((s.last() as nat) - ('0' as nat)) as nat
    }
}

/// A price text `I` or `I.F`, with `I` and `F` non-empty digit strings and `F`
/// at most eight digits long, has the value of the digits of `I` and `F`
/// followed by zeros up to eight decimals. Anything else has none.
pub open spec fn price_text_value(s: Seq<char>) -> Option<nat> {
    if s.len() > 0 && all_digits(s) {
        Some(digits_value(s + Seq::new(PRICE_DECIMALS as nat, |i: int| '0')))
    } else if exists|k: int|
        0 < k < s.len() - 1 && s[k] == '.' && all_digits(s.take(k)) && all_digits(s.skip(k + 1))
            && s.len() - k - 1 <= PRICE_DECIMALS {
        let k = choose|k: int|
            0 < k < s.len() - 1 && s[k] == '.' && all_digits(s.take(k)) && all_digits(s.skip(k + 1))
                && s.len() - k - 1 <= PRICE_DECIMALS;
        Some(
            digits_value(
                s.take(k) + s.skip(k + 1) + Seq::new(
                    (PRICE_DECIMALS - (s.len() - k - 1)) as nat,
                    |i: int| '0',
                ),
            ),
        )
    } else {
        None
    }
}

/// Parses a decimal price text into units of 10^-8; `None` when the text is
/// not a price or its value does not fit in a `u64`.
pub fn parse_price(s: &str) -> (r: Option<u64>)
    requires
        s@.len() + PRICE_DECIMALS <= usize::MAX,
    ensures
        match r {
            Some(v) => price_text_value(s@) == Some(v as nat),
            None => price_text_value(s@) matches Some(x) ==> x > u64::MAX,
        },
{
    let n = s.unicode_len();
    if n == 0 {
        return None;
    }
    // Locate the point and check the digits.
    let mut dot: usize = n;
    let mut i: usize = 0;
    while i < n
        invariant
            n == s@.len(),
            i <= n,
            dot == n || (dot < i && s@[dot as int] == '.'),
            forall|j: int| 0 <= j < i && j != dot ==> is_digit(#[trigger] s@[j]),
        decreases n - i,
    {
        let c = s.get_char(i);
        if c == '.' && dot == n {
            dot = i;
        } else if !('0' <= c && c <= '9') {
            proof {
                assert(c == s@[i as int]);
                assert(c != '.' || dot < i);
                if price_text_value(s@) is Some {
                    if all_digits(s@) {
                        assert(is_digit(s@[i as int]));
                    } else {
                        let k = choose|k: int|
                            0 < k < s@.len() - 1 && s@[k] == '.' && all_digits(s@.take(k)) && all_digits(
                                s@.skip(k + 1),
                            ) && s@.len() - k - 1 <= PRICE_DECIMALS;
                        let p: int = if i as int != k { i as int } else { dot as int };
                        assert(p != k && !is_digit(s@[p]));
                        if p < k {
                            assert(s@.take(k)[p] == s@[p]);
                            assert(is_digit(s@.take(k)[p]));
                        } else {
                            assert(s@.skip(k + 1)[p - k - 1] == s@[p]);
                            assert(is_digit(s@.skip(k + 1)[p - k - 1]));
                        }
                    }
                }
            }
            return None;
        }
        i = i + 1;
    }
    let frac_len: usize = if dot == n { 0 } else { n - dot - 1 };
    if dot < n && (dot == 0 || frac_len == 0 || frac_len > PRICE_DECIMALS) {
        proof {
            if price_text_value(s@) is Some {
                assert(!is_digit(s@[dot as int]));
                assert(!all_digits(s@));
                let k = choose|k: int|
                    0 < k < s@.len() - 1 && s@[k] == '.' && all_digits(s@.take(k)) && all_digits(
                        s@.skip(k + 1),
                    ) && s@.len() - k - 1 <= PRICE_DECIMALS;
                if k < dot {
                    assert(s@.take(dot as int)[k] == '.');
                } else if k > dot {
                    assert(s@.skip(k + 1).len() >= 0);
                    assert(s@.take(k)[dot as int] == '.');
                }
            }
        }
        return None;
    }
    // The digits that the value is read from, with the point removed and
    // zeros appended up to eight decimals.
    let pad: usize = PRICE_DECIMALS - frac_len;
    let ghost digits: Seq<char> = if dot == n {
        s@ + Seq::new(PRICE_DECIMALS as nat, |i: int| '0')
    } else {
        s@.take(dot as int) + s@.skip(dot + 1) + Seq::new(pad as nat, |i: int| '0')
    };
    proof {
        if dot == n {
            assert(all_digits(s@));
        } else {
            assert(all_digits(s@.take(dot as int)));
            assert(all_digits(s@.skip(dot + 1))) by {
                assert forall|j: int| 0 <= j < s@.skip(dot + 1).len() implies is_digit(
                    #[trigger] s@.skip(dot + 1)[j],
                ) by {
                    assert(s@.skip(dot + 1)[j] == s@[dot + 1 + j]);
                }
            }
            assert(!all_digits(s@)) by {
                assert(!is_digit(s@[dot as int]));
            }
        }
        assert(price_text_value(s@) == Some(digits_value(digits)));
    }
    let total: usize = if dot == n { n + PRICE_DECIMALS } else { n - 1 + pad };
    assert(total == digits.len());
    let mut v: u64 = 0;
    let mut overflow = false;
    let ghost mut g: nat = 0;
    let mut k: usize = 0;
    // Index into `digits`: the characters of `s` without the point, then the padding.
    while k < total
        invariant
            n == s@.len(),
            dot == n || dot < n,
            pad == PRICE_DECIMALS - frac_len,
            frac_len == (if dot == n { 0 } else { n - dot - 1 }),
            total == digits.len(),
            digits == (if dot == n {
                s@ + Seq::new(PRICE_DECIMALS as nat, |i: int| '0')
            } else {
                s@.take(dot as int) + s@.skip(dot + 1) + Seq::new(pad as nat, |i: int| '0')
            }),
            forall|j: int| 0 <= j < n && j != dot ==> is_digit(#[trigger] s@[j]),
            k <= total,
            g == digits_value(digits.take(k as int)),
            !overflow ==> v as nat == g,
            overflow ==> g > u64::MAX,
        decreases total - k,
    {
        let src: usize = if dot == n || k < dot { k } else { k + 1 };
        let c: char = if src < n { s.get_char(src) } else { '0' };
        proof {
            if dot == n {
                if k < n {
                    assert(digits[k as int] == s@[k as int]);
                } else {
                    assert(digits[k as int] == '0');
                }
            } else if k < dot {
                assert(digits[k as int] == s@[k as int]);
            } else if src < n {
                assert(digits[k as int] == s@.skip(dot + 1)[k - dot]);
            } else {
                assert(digits[k as int] == '0');
            }
            assert(c == digits[k as int]);
            assert(is_digit(c));
            assert(digits.take(k as int + 1).drop_last() =~= digits.take(k as int));
        }
        let d: u64 = (c as u32 - '0' as u32) as u64;
        proof {
            g = 10 * g + d as nat;
        }
        if !overflow {
            if v > (u64::MAX - d) / 10 {
                overflow = true;
            } else {
                v = 10 * v + d;
            }
        }
        k = k + 1;
    }
    assert(digits.take(total as int) =~= digits);
    if overflow {
        None
    } else {
        Some(v)
    }
}

} // verus!
