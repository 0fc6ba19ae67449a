use vstd::prelude::*;

verus! {

pub open spec fn is_digit(c: char) -> bool {
    '0' <= c && c <= '9'
}

pub open spec fn all_digits(s: Seq<char>) -> bool {
    forall|i: int| 0 <= i < s.len() ==> is_digit(#[trigger] s[i])
}

pub open spec fn digit_value(c: char) -> nat {
    (c as int - '0' as int) as nat
}

/// The number that a run of decimal digits writes.
pub open spec fn digits_value(s: Seq<char>) -> nat
    decreases s.len(),
{
    if s.len() == 0 {
        0
    } else {
        digits_value(s.drop_last()) * 10 + digit_value(s.last())
    }
}

/// The milliseconds that the first three digits of a fraction write.
pub open spec fn fraction_ms(f: Seq<char>) -> nat {
    digits_value((f + seq!['0', '0', '0']).take(3))
}

/// `s` holds one decimal point, at `k`, and digits around it.
pub open spec fn decimal_point_at(s: Seq<char>, k: int) -> bool {
    &&& 0 <= k < s.len()
    &&& s[k] == '.'
    &&& s.len() > 1
    &&& all_digits(s.take(k))
    &&& all_digits(s.skip(k + 1))
}

/// The milliseconds that a number of seconds in plain decimal notation
/// ("42", "42.5", ".5", "42.") writes, the fraction cut after the third
/// digit; `None` for any other text.
pub open spec fn seconds_text_ms(s: Seq<char>) -> Option<nat> {
    if s.len() > 0 && all_digits(s) {
        Some(digits_value(s) * 1000)
    } else if exists|k: int| decimal_point_at(s, k) {
        let k = choose|k: int| decimal_point_at(s, k);
        Some(digits_value(s.take(k)) * 1000 + fraction_ms(s.skip(k + 1)))
    } else {
        None
    }
}

/// `seconds_text_ms`, where the milliseconds fit in a `u64`.
pub open spec fn seconds_value(s: Seq<char>) -> Option<u64> {
    match seconds_text_ms(s) {
        Some(v) => if v <= u64::MAX {
            Some(v as u64)
        } else {
            None
        },
        None => None,
    }
}

proof fn lemma_take_step(s: Seq<char>, i: int)
    requires
        0 <= i < s.len(),
    ensures
        digits_value(s.take(i + 1)) == digits_value(s.take(i)) * 10 + digit_value(s[i]),
{
    assert(s.take(i + 1).drop_last() =~= s.take(i));
}

proof fn lemma_prefix_not_larger(s: Seq<char>, i: int)
    requires
        0 <= i <= s.len(),
    ensures
        digits_value(s.take(i)) <= digits_value(s),
    decreases s.len() - i,
{
    if i < s.len() {
        lemma_take_step(s, i);
        lemma_prefix_not_larger(s, i + 1);
    } else {
        assert(s.take(i) =~= s);
    }
}

/// The value of the digits `text[from..to]`, or `None` where it exceeds `limit`.
fn digits_upto(text: &str, from: usize, to: usize, limit: u64) -> (r: Option<u64>)
    requires
        from <= to <= text@.len(),
        all_digits(text@.subrange(from as int, to as int)),
    ensures
        r == (if digits_value(text@.subrange(from as int, to as int)) <= limit {
            Some(digits_value(text@.subrange(from as int, to as int)) as u64)
        } else {
            None
        }),
{
    let ghost s = text@.subrange(from as int, to as int);
    let mut v: u64 = 0;
    let mut i: usize = from;
    while i < to
        invariant
            from <= i <= to,
            to <= text@.len(),
            s == text@.subrange(from as int, to as int),
            all_digits(s),
            v as nat == digits_value(s.take(i - from)),
            v <= limit,
        decreases to - i,
    {
        let c = text.get_char(i);
        proof {
            assert(c == s[i - from]);
            lemma_take_step(s, i - from);
            assert(is_digit(s[i - from]));
        }
        let d: u64 = (c as u32 - '0' as u32) as u64;
        if d > limit || v > (limit - d) / 10 {
            proof {
                lemma_prefix_not_larger(s, i - from + 1);
                assert(s.take(s.len() as int) =~= s);
                if d <= limit {
                    assert(v * 10 + d > limit) by (nonlinear_arith)
                        requires
                            v > (limit - d) / 10,
                            d <= limit,
                    ;
                }
            }
            return None;
        }
        proof {
            assert(v * 10 + d <= limit) by (nonlinear_arith)
                requires
                    v <= (limit - d) / 10,
                    d <= limit,
            ;
        }
        v = v * 10 + d;
        i += 1;
    }
    proof {
        assert(s.take(s.len() as int) =~= s);
    }
    Some(v)
}


fn is_digit_char(c: char) -> (r: bool)
    ensures
        r == is_digit(c),
{
    '0' <= c && c <= '9'
}

proof fn lemma_fraction(f: Seq<char>, fd: int)
    requires
        fd == (if f.len() < 3 {
            f.len() as int
        } else {
            3
        }),
    ensures
        fraction_ms(f) == digits_value(f.take(fd)) * (if fd == 0 {
            1000nat
        } else if fd == 1 {
            100nat
        } else if fd == 2 {
            10nat
        } else {
            1nat
        }),
{
    let p = (f + seq!['0', '0', '0']).take(3);
    let t = f.take(fd);
    lemma_push_zero(t);
    lemma_push_zero(t.push('0'));
    lemma_push_zero(t.push('0').push('0'));
    if fd == 0 {
        assert(p =~= t.push('0').push('0').push('0'));
        assert(digits_value(t) == 0);
    } else if fd == 1 {
        assert(p =~= t.push('0').push('0'));
    } else if fd == 2 {
        assert(p =~= t.push('0'));
    } else {
        assert(p =~= t);
    }
}

proof fn lemma_push_zero(t: Seq<char>)
    ensures
        digits_value(t.push('0')) == digits_value(t) * 10,
{
    assert(t.push('0').drop_last() =~= t);
    assert(digit_value('0') == 0);
}

/// Reads a number of seconds written in plain decimal notation, in
/// milliseconds; `None` for other text and for more than `u64` can hold.
pub fn seconds_ms(text: &str) -> (r: Option<u64>)
    ensures
        r == seconds_value(text@),
{
    let ghost s = text@;
    let n: usize = text.unicode_len();
    if n == 0 {
        return None;
    }
    let mut k: usize = 0;
    while k < n && is_digit_char(text.get_char(k))
        invariant
            k <= n,
            n == s.len(),
            s == text@,
            forall|i: int| 0 <= i < k ==> is_digit(#[trigger] s[i]),
        decreases n - k,
    {
        k += 1;
    }
    proof {
        assert(all_digits(s.take(k as int))) by {
            assert forall|i: int| 0 <= i < k implies is_digit(#[trigger] s.take(k as int)[i]) by {
                assert(s.take(k as int)[i] == s[i]);
            }
        }
        assert(s.take(k as int) =~= s.subrange(0, k as int));
    }
    let limit: u64 = u64::MAX / 1000;
    if k == n {
        proof {
            assert(s.take(k as int) =~= s);
            assert(s.subrange(0, n as int) =~= s);
        }
        return match digits_upto(text, 0, n, limit) {
            Some(whole) => {
                proof {
                    assert(whole * 1000 <= u64::MAX) by (nonlinear_arith)
                        requires
                            whole <= u64::MAX / 1000,
                    ;
                }
                Some(whole * 1000)
            },
            None => {
                proof {
                    let v = digits_value(s);
                    assert(v * 1000 > u64::MAX) by (nonlinear_arith)
                        requires
                            v > u64::MAX / 1000,
                    ;
                }
                None
            },
        };
    }
    proof {
        assert(!is_digit(s[k as int]));
        assert(!all_digits(s));
    }
    if text.get_char(k) != '.' || n == 1 {
        proof {
            assert forall|j: int| !decimal_point_at(s, j) by {
                if decimal_point_at(s, j) {
                    if j < k {
                        assert(is_digit(s[j]));
                    } else if j > k {
                        assert(s.take(j)[k as int] == s[k as int]);
                    }
                }
            }
        }
        return None;
    }
    let mut j: usize = k + 1;
    while j < n && is_digit_char(text.get_char(j))
        invariant
            k < j <= n,
            n == s.len(),
            s == text@,
            forall|i: int| k < i < j ==> is_digit(#[trigger] s[i]),
        decreases n - j,
    {
        j += 1;
    }
    proof {
        // any decimal point stands at k
        assert forall|m: int| decimal_point_at(s, m) implies m == k by {
            if m < k {
                assert(is_digit(s[m]));
            } else if m > k {
                assert(s.take(m)[k as int] == s[k as int]);
            }
        }
    }
    if j < n {
        proof {
            assert forall|m: int| !decimal_point_at(s, m) by {
                if decimal_point_at(s, m) {
                    assert(s.skip(k + 1)[j - k - 1] == s[j as int]);
                }
            }
        }
        return None;
    }
    proof {
        assert(all_digits(s.skip(k + 1))) by {
            assert forall|i: int| 0 <= i < s.skip(k + 1).len() implies is_digit(
                #[trigger] s.skip(k + 1)[i],
            ) by {
                assert(s.skip(k + 1)[i] == s[k + 1 + i]);
            }
        }
        assert(decimal_point_at(s, k as int));
        assert(seconds_text_ms(s) == Some(
            digits_value(s.take(k as int)) * 1000 + fraction_ms(s.skip(k + 1)),
        ));
    }
    let whole: u64 = match digits_upto(text, 0, k, limit) {
        Some(w) => w,
        None => {
            proof {
                let v = digits_value(s.take(k as int));
                assert(v * 1000 + fraction_ms(s.skip(k + 1)) > u64::MAX) by (nonlinear_arith)
                    requires
                        v > u64::MAX / 1000,
                ;
            }
            return None;
        },
    };
    let rest: usize = n - k - 1;
    let fd: usize = if rest < 3 {
        rest
    } else {
        3
    };
    let ghost f = s.skip(k + 1);
    proof {
        assert(f.take(fd as int) =~= s.subrange(k + 1, k + 1 + fd));
        assert(all_digits(s.subrange(k + 1, k + 1 + fd))) by {
            assert forall|i: int| 0 <= i < fd implies is_digit(
                #[trigger] s.subrange(k + 1, k + 1 + fd)[i],
            ) by {
                assert(s.subrange(k + 1, k + 1 + fd)[i] == f[i]);
            }
        }
        lemma_fraction(f, fd as int);
    }
    let digits: u64 = match digits_upto(text, k + 1, k + 1 + fd, 999) {
        Some(d) => d,
        None => {
            proof {
                lemma_digits_bound(f.take(fd as int));
            }
            return None;
        },
    };
    let scale: u64 = if fd == 0 {
        1000
    } else if fd == 1 {
        100
    } else if fd == 2 {
        10
    } else {
        1
    };
    proof {
        lemma_digits_bound(f.take(fd as int));
        assert(whole * 1000 <= u64::MAX - 615) by (nonlinear_arith)
            requires
                whole <= u64::MAX / 1000,
        ;
    }
    let frac: u64 = digits * scale;
    let head: u64 = whole * 1000;
    if frac > u64::MAX - head {
        return None;
    }
    Some(head + frac)
}

/// A run of at most three digits writes less than a thousand, and a run of
/// `n` digits less than ten to the `n`.
proof fn lemma_digits_bound(t: Seq<char>)
    requires
        t.len() <= 3,
        all_digits(t),
    ensures
        digits_value(t) < (if t.len() == 0 {
            1nat
        } else if t.len() == 1 {
            10nat
        } else if t.len() == 2 {
            100nat
        } else {
            1000nat
        }),
    decreases t.len(),
{
    if t.len() > 0 {
        let d = t.drop_last();
        assert(all_digits(d)) by {
            assert forall|i: int| 0 <= i < d.len() implies is_digit(#[trigger] d[i]) by {
                assert(d[i] == t[i]);
            }
        }
        lemma_digits_bound(d);
        assert(is_digit(t[t.len() - 1]));
    }
}

} // verus!
