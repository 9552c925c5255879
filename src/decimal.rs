use vstd::prelude::*;
use vstd::string::StringSliceAdditionalSpecFns;

verus! {

/// Largest number of digits that a price text may hold.
pub const MAX_DIGITS: usize = 18;

/// An exact decimal number: `mantissa / 10^scale`.
#[derive(Debug, Clone, Copy, PartialEq, Eq)]
pub struct Decimal {
    pub mantissa: i128,
    pub scale: u32,
}

pub open spec fn pow10(n: nat) -> int
    decreases n,
{
    if n == 0 {
        1
    } else {
        10 * pow10((n - 1) as nat)
    }
}

pub open spec fn is_digit(b: u8) -> bool {
    48 <= b <= 57
}

pub open spec fn all_digits(d: Seq<u8>) -> bool {
    forall|i: int| 0 <= i < d.len() ==> is_digit(#[trigger] d[i])
}

/// The number that a run of ASCII digits spells in base ten.
pub open spec fn digits_value(d: Seq<u8>) -> int
    decreases d.len(),
{
    if d.len() == 0 {
        0
    } else {
        digits_value(d.drop_last()) * 10 + (d.last() - 48)
    }
}

/// `b[k]` is the decimal point, with only digits on either side of it.
pub open spec fn point_at(b: Seq<u8>, k: int) -> bool {
    0 <= k < b.len() && b[k] == 46u8 && all_digits(b.take(k)) && all_digits(b.skip(k + 1))
}

/// Mantissa and scale of `digits` read with `scale` fractional digits,
/// when the digit count is between one and `MAX_DIGITS`.
pub open spec fn bounded_digits(digits: Seq<u8>, scale: nat) -> Option<(int, nat)> {
    if 1 <= digits.len() <= MAX_DIGITS {
        Some((digits_value(digits), scale))
    } else {
        None
    }
}

/// An unsigned decimal: digits, optionally followed by a point and more digits.
pub open spec fn unsigned_decimal(b: Seq<u8>) -> Option<(int, nat)> {
    if all_digits(b) {
        bounded_digits(b, 0)
    } else if exists|k: int| point_at(b, k) {
        let k = choose|k: int| point_at(b, k);
        bounded_digits(b.take(k) + b.skip(k + 1), (b.len() - k - 1) as nat)
    } else {
        None
    }
}

/// What a price text means, as mantissa and scale: an optional sign followed
/// by an unsigned decimal.
pub open spec fn decimal_text(b: Seq<u8>) -> Option<(int, nat)> {
    if b.len() > 0 && b[0] == 45u8 {
        match unsigned_decimal(b.skip(1)) {
            Some((m, s)) => Some((-m, s)),
            None => None,
        }
    } else if b.len() > 0 && b[0] == 43u8 {
        unsigned_decimal(b.skip(1))
    } else {
        unsigned_decimal(b)
    }
}

pub proof fn lemma_pow10_positive(n: nat)
    ensures
        pow10(n) >= 1,
    decreases n,
{
    if n > 0 {
        lemma_pow10_positive((n - 1) as nat);
    }
}

pub proof fn lemma_pow10_monotonic(a: nat, b: nat)
    requires
        a <= b,
    ensures
        pow10(a) <= pow10(b),
    decreases b,
{
    if b > a {
        lemma_pow10_monotonic(a, (b - 1) as nat);
        lemma_pow10_positive((b - 1) as nat);
    }
}

pub proof fn lemma_pow10_add(a: nat, b: nat)
    ensures
        pow10(a + b) == pow10(a) * pow10(b),
    decreases b,
{
    if b > 0 {
        lemma_pow10_add(a, (b - 1) as nat);
        assert(pow10(a + b) == 10 * pow10((a + b - 1) as nat));
        assert(pow10(a) * pow10(b) == pow10(a) * (10 * pow10((b - 1) as nat)));
        assert(pow10(a) * (10 * pow10((b - 1) as nat)) == 10 * (pow10(a) * pow10(
            (b - 1) as nat,
        ))) by (nonlinear_arith);
    }
}

pub proof fn lemma_pow10_18()
    ensures
        pow10(18) == 1_000_000_000_000_000_000,
{
    reveal_with_fuel(pow10, 19);
}

pub proof fn lemma_digits_bound(d: Seq<u8>)
    requires
        all_digits(d),
    ensures
        0 <= digits_value(d) < pow10(d.len()),
    decreases d.len(),
{
    if d.len() > 0 {
        let p = d.drop_last();
        assert(all_digits(p)) by {
            assert forall|i: int| 0 <= i < p.len() implies is_digit(#[trigger] p[i]) by {
                assert(p[i] == d[i]);
            }
        }
        lemma_digits_bound(p);
        assert(is_digit(d[d.len() - 1]));
    }
}

/// Reads a price text exactly: an optional `-` or `+`, then digits with at most
/// one decimal point among or around them, at least one and at most
/// `MAX_DIGITS` digits in all.
pub fn parse_decimal(s: &str) -> (r: Option<Decimal>)
    ensures
        match decimal_text(s.spec_bytes()) {
            Some((m, sc)) => r matches Some(d) && d.mantissa == m && d.scale == sc,
            None => r is None,
        },
        r matches Some(d) ==> -pow10(18) < d.mantissa < pow10(18) && d.scale <= MAX_DIGITS,
{
    let b = s.as_bytes();
    let ghost bs = b@;
    if b.len() > 0 && b[0] == 45u8 {
        match parse_unsigned(b, 1) {
            Some(d) => {
                proof {
                    lemma_pow10_18();
                    assert(bs.skip(1) == b@.skip(1));
                    let (m, sc) = unsigned_decimal(bs.skip(1))->0;
                    assert(decimal_text(bs) == Some((-m, sc)));
                }
                Some(Decimal { mantissa: -d.mantissa, scale: d.scale })
            },
            None => None,
        }
    } else if b.len() > 0 && b[0] == 43u8 {
        parse_unsigned(b, 1)
    } else {
        proof {
            assert(bs.skip(0) =~= bs);
        }
        parse_unsigned(b, 0)
    }
}

/// Reads `b[start..]` as an unsigned decimal.
fn parse_unsigned(b: &[u8], start: usize) -> (r: Option<Decimal>)
    requires
        start <= b@.len(),
    ensures
        match unsigned_decimal(b@.skip(start as int)) {
            Some((m, sc)) => r matches Some(d) && d.mantissa == m && d.scale == sc,
            None => r is None,
        },
        r matches Some(d) ==> 0 <= d.mantissa < pow10(18) && d.scale <= MAX_DIGITS,
{
    let ghost body = b@.skip(start as int);
    let n = b.len();
    // the digits before the point
    let mut k: usize = start;
    while k < n && 48u8 <= b[k] && b[k] <= 57u8
        invariant
            start <= k <= n,
            n == b@.len(),
            body == b@.skip(start as int),
            all_digits(body.take(k - start)),
        decreases n - k,
    {
        proof {
            assert forall|i: int| 0 <= i < k + 1 - start implies is_digit(
                #[trigger] body.take(k + 1 - start)[i],
            ) by {
                if i < k - start {
                    assert(body.take(k + 1 - start)[i] == body.take(k - start)[i]);
                }
            }
        }
        k = k + 1;
    }
    let ghost int_part = body.take(k - start);
    let has_point = k < n;
    if has_point {
        if b[k] != 46u8 {
            proof {
                assert(!all_digits(body)) by {
                    assert(!is_digit(body[k - start]));
                }
                assert forall|j: int| !point_at(body, j) by {
                    if point_at(body, j) {
                        if j < k - start {
                            assert(body.take(k - start)[j] == body[j]);
                        } else if j > k - start {
                            assert(body.take(j)[k - start] == body[k - start]);
                        }
                    }
                }
            }
            return None;
        }
        // the digits after the point
        let mut j: usize = k + 1;
        while j < n
            invariant
                k < j <= n,
                n == b@.len(),
                start <= k,
                b@[k as int] == 46u8,
                body == b@.skip(start as int),
                all_digits(body.take(k - start)),
                forall|i: int| k + 1 <= i < j ==> is_digit(#[trigger] b@[i]),
            decreases n - j,
        {
            if b[j] < 48u8 || b[j] > 57u8 {
                proof {
                    let kk = k - start;
                    assert(body[kk] == b@[k as int]);
                    assert(body[j - start] == b@[j as int]);
                    assert(!all_digits(body));
                    assert forall|jj: int| !point_at(body, jj) by {
                        if point_at(body, jj) {
                            if jj < kk {
                                assert(body.take(kk)[jj] == body[jj]);
                            } else if jj > kk {
                                assert(body.take(jj)[kk] == body[kk]);
                            } else {
                                assert(body.skip(kk + 1)[j - k - 1] == b@[j as int]);
                            }
                        }
                    }
                }
                return None;
            }
            j = j + 1;
        }
        let frac_len = n - k - 1;
        let count = (k - start) + frac_len;
        let ghost kk = k - start;
        let ghost frac = body.skip(kk + 1);
        proof {
            assert(point_at(body, kk)) by {
                assert forall|i: int| 0 <= i < frac.len() implies is_digit(#[trigger] frac[i]) by {
                    assert(frac[i] == b@[k + 1 + i]);
                }
            }
            assert(!all_digits(body)) by {
                assert(body[kk] == b@[k as int]);
            }
            assert forall|jj: int| point_at(body, jj) implies jj == kk by {
                if jj < kk {
                    assert(body.take(kk)[jj] == body[jj]);
                } else if jj > kk {
                    assert(body.take(jj)[kk] == body[kk]);
                }
            }
        }
        if count < 1 || count > MAX_DIGITS {
            return None;
        }
        let ghost digits = int_part + frac;
        proof {
            assert(all_digits(digits)) by {
                assert forall|i: int| 0 <= i < digits.len() implies is_digit(#[trigger] digits[i]) by {
                    if i < int_part.len() {
                        assert(digits[i] == int_part[i]);
                    } else {
                        assert(digits[i] == frac[i - int_part.len()]);
                    }
                }
            }
        }
        proof {
            assert(b@.subrange(start as int, k as int) =~= int_part);
            assert(b@.subrange(k + 1, n as int) =~= frac);
        }
        let v = digits_from(b, start, k, k + 1, n);
        Some(Decimal { mantissa: v, scale: frac_len as u32 })
    } else {
        proof {
            assert(body.take(k - start) =~= body);
        }
        let count = k - start;
        if count < 1 || count > MAX_DIGITS {
            return None;
        }
        proof {
            assert(b@.subrange(start as int, k as int) + b@.subrange(k as int, k as int) =~= body);
        }
        let v = digits_from(b, start, k, k, k);
        Some(Decimal { mantissa: v, scale: 0 })
    }
}

/// The value of the digits in `b[a..e]` followed by those in `b[c..f]`.
fn digits_from(b: &[u8], a: usize, e: usize, c: usize, f: usize) -> (r: i128)
    requires
        a <= e <= c <= f <= b@.len(),
        (e - a) + (f - c) <= MAX_DIGITS,
        all_digits(b@.subrange(a as int, e as int) + b@.subrange(c as int, f as int)),
    ensures
        r == digits_value(b@.subrange(a as int, e as int) + b@.subrange(c as int, f as int)),
        0 <= r < pow10(18),
{
    let ghost whole = b@.subrange(a as int, e as int) + b@.subrange(c as int, f as int);
    let ghost first = b@.subrange(a as int, e as int);
    let mut v: i128 = 0;
    let mut i: usize = a;
    proof {
        assert(digits_value(whole.take(0)) == 0);
    }
    // positions read so far, counted in `whole`
    while i < e
        invariant
            a <= i <= e <= c <= f <= b@.len(),
            (e - a) + (f - c) <= MAX_DIGITS,
            whole == b@.subrange(a as int, e as int) + b@.subrange(c as int, f as int),
            all_digits(whole),
            v == digits_value(whole.take(i - a)),
        decreases e - i,
    {
        let ghost t = whole.take(i + 1 - a);
        proof {
            assert(t.drop_last() =~= whole.take(i - a));
            assert(t.last() == b@[i as int]);
            assert(is_digit(whole[i - a]));
            assert(all_digits(whole.take(i - a))) by {
                assert forall|x: int| 0 <= x < i - a implies is_digit(#[trigger] whole.take(i - a)[x]) by {
                    assert(whole.take(i - a)[x] == whole[x]);
                }
            }
            lemma_digits_bound(whole.take(i - a));
            lemma_pow10_monotonic((i - a) as nat, 18);
            lemma_pow10_18();
        }
        v = v * 10 + (b[i] - 48u8) as i128;
        i = i + 1;
    }
    let mut j: usize = c;
    while j < f
        invariant
            a <= e <= c <= j <= f <= b@.len(),
            (e - a) + (f - c) <= MAX_DIGITS,
            whole == b@.subrange(a as int, e as int) + b@.subrange(c as int, f as int),
            all_digits(whole),
            v == digits_value(whole.take((e - a) + (j - c))),
        decreases f - j,
    {
        let ghost p = (e - a) + (j - c);
        let ghost t = whole.take(p + 1);
        proof {
            assert(t.drop_last() =~= whole.take(p));
            assert(t.last() == b@[j as int]);
            assert(is_digit(whole[p]));
            assert(all_digits(whole.take(p))) by {
                assert forall|x: int| 0 <= x < p implies is_digit(#[trigger] whole.take(p)[x]) by {
                    assert(whole.take(p)[x] == whole[x]);
                }
            }
            lemma_digits_bound(whole.take(p));
            lemma_pow10_monotonic(p as nat, 18);
            lemma_pow10_18();
        }
        v = v * 10 + (b[j] - 48u8) as i128;
        j = j + 1;
    }
    proof {
        assert(whole.take((e - a) + (f - c)) =~= whole);
        lemma_digits_bound(whole);
        lemma_pow10_monotonic(whole.len(), 18);
    }
    v
}

} // verus!
