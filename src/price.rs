use vstd::prelude::*;

verus! {

pub open spec fn is_digit(c: char) -> bool {
    '0' <= c && c <= '9'
}

pub open spec fn all_digits(s: Seq<char>) -> bool {
    forall|i: int| 0 <= i < s.len() ==> is_digit(#[trigger] s[i])
}

pub open spec fn digit_value(c: char) -> nat {
    (c as int - '0' as int) as nat
}

/// The number that a string of decimal digits writes.
pub open spec fn digits_value(s: Seq<char>) -> nat
    decreases s.len(),
{
    if s.len() == 0 {
        0
    } else {
        digits_value(s.drop_last()) * 10 + digit_value(s.last())
    }
}

/// `u` is an unsigned decimal whose integer digits end at `p`: digits, then
/// either nothing or a point followed by digits, with at least one digit in all.
pub open spec fn decimal_shape(u: Seq<char>, p: int) -> bool {
    &&& 0 <= p <= u.len()
    &&& all_digits(u.take(p))
    &&& (p == u.len() || (u[p] == '.' && all_digits(u.skip(p + 1))))
    &&& (p >= 1 || p + 1 < u.len())
}

/// The value of the digit at `i` of `f`, zero past its end.
pub open spec fn digit_at(f: Seq<char>, i: int) -> nat {
    if 0 <= i < f.len() {
        digit_value(f[i])
    } else {
        0
    }
}

/// Hundredths written by the digits after the point, rounded to the nearest
/// hundredth, a half going up.
pub open spec fn fraction_hundredths(f: Seq<char>) -> nat {
    digit_at(f, 0) * 10 + digit_at(f, 1) + (if digit_at(f, 2) >= 5 {
        1nat
    } else {
        0nat
    })
}

pub open spec fn shaped_value(u: Seq<char>, p: int) -> nat {
    digits_value(u.take(p)) * 100 + (if p == u.len() {
        0
    } else {
        fraction_hundredths(u.skip(p + 1))
    })
}

/// `s` without one leading `+`.
pub open spec fn unsigned_part(s: Seq<char>) -> Seq<char> {
    if s.len() > 0 && s[0] == '+' {
        s.drop_first()
    } else {
        s
    }
}

/// The value, in hundredths, of an unsigned decimal; `None` where `u` is none.
pub open spec fn unsigned_hundredths(u: Seq<char>) -> Option<nat> {
    if exists|p: int| decimal_shape(u, p) {
        Some(shaped_value(u, choose|p: int| decimal_shape(u, p)))
    } else {
        None
    }
}

/// The price that `s` writes, in hundredths: a decimal with an optional leading
/// `+`; `None` where `s` is no such decimal.
pub open spec fn price_hundredths(s: Seq<char>) -> Option<nat> {
    unsigned_hundredths(unsigned_part(s))
}

/// `None` where the value does not fit in a `u64`.
pub open spec fn fitting(o: Option<nat>) -> Option<u64> {
    match o {
        Some(v) => if v <= u64::MAX {
            Some(v as u64)
        } else {
            None
        },
        None => None,
    }
}

/// What a price text stands for once every `$` is taken out: its value where
/// it is a price that fits in a `u64`, else zero.
pub open spec fn price_of_text(text: Seq<char>) -> u64 {
    match fitting(price_hundredths(without_dollars(text))) {
        Some(v) => v,
        None => 0,
    }
}

pub open spec fn without_dollars(s: Seq<char>) -> Seq<char> {
    s.filter(|c: char| c != '$')
}

/// `s` with every `$` removed, the other characters kept in order.
pub fn strip_dollars(s: &str) -> (r: String)
    ensures
        r@ == without_dollars(s@),
{
    let n = s.unicode_len();
    let mut out = String::new();
    let mut start: usize = 0;
    let mut i: usize = 0;
    proof {
        reveal_with_fuel(Seq::filter, 1);
        assert(s@.take(0) =~= Seq::<char>::empty());
        assert(out@ + s@.subrange(0, 0) =~= without_dollars(s@.take(0)));
    }
    while i < n
        invariant
            n == s@.len(),
            start <= i <= n,
            out@ + s@.subrange(start as int, i as int) == without_dollars(s@.take(i as int)),
        decreases n - i,
    {
        let c = s.get_char(i);
        proof {
            reveal_with_fuel(Seq::filter, 1);
            assert(s@.take(i + 1).drop_last() =~= s@.take(i as int));
            assert(s@.take(i + 1).last() == c);
        }
        if c == '$' {
            let run = s.substring_char(start, i);
            out.append(run);
            start = i + 1;
            assert(out@ + s@.subrange(start as int, i + 1) =~= out@);
        } else {
            assert(s@.subrange(start as int, i + 1) =~= s@.subrange(start as int, i as int).push(c));
            assert(out@ + s@.subrange(start as int, i + 1) =~= (out@ + s@.subrange(
                start as int,
                i as int,
            )).push(c));
        }
        i += 1;
    }
    let run = s.substring_char(start, n);
    out.append(run);
    assert(s@.take(n as int) =~= s@);
    out
}

proof fn lemma_shape_unique(u: Seq<char>, p: int, q: int)
    requires
        decimal_shape(u, p),
        decimal_shape(u, q),
    ensures
        p == q,
{
    if p < q {
        assert(u.take(q)[p] == u[p]);
    } else if q < p {
        assert(u.take(p)[q] == u[q]);
    }
}

proof fn lemma_digits_grow(s: Seq<char>, i: int, j: int)
    requires
        0 <= i <= j <= s.len(),
    ensures
        digits_value(s.take(i)) <= digits_value(s.take(j)),
    decreases j - i,
{
    if i < j {
        lemma_digits_grow(s, i, j - 1);
        assert(s.take(j).drop_last() =~= s.take(j - 1));
    }
}

fn digit_of(c: char) -> (d: u64)
    requires
        is_digit(c),
    ensures
        d == digit_value(c),
{
    (c as u32 - '0' as u32) as u64
}

fn is_digit_char(c: char) -> (r: bool)
    ensures
        r == is_digit(c),
{
    '0' <= c && c <= '9'
}

fn parse_unsigned(u: &str) -> (r: Option<u64>)
    ensures
        r == fitting(unsigned_hundredths(u@)),
{
    let n = u.unicode_len();
    let ghost us = u@;
    let mut i: usize = 0;
    let mut v: u64 = 0;
    let mut too_big = false;
    while i < n && is_digit_char(u.get_char(i))
        invariant
            i <= n == us.len(),
            us == u@,
            all_digits(us.take(i as int)),
            too_big ==> digits_value(us.take(i as int)) > u64::MAX,
            !too_big ==> v == digits_value(us.take(i as int)),
        decreases n - i,
    {
        let d = digit_of(u.get_char(i));
        proof {
            assert(us.take(i + 1).drop_last() =~= us.take(i as int));
            lemma_digits_grow(us, i as int, i + 1);
        }
        if !too_big {
            match v.checked_mul(10) {
                Some(t) => match t.checked_add(d) {
                    Some(w) => {
                        v = w;
                    },
                    None => {
                        too_big = true;
                    },
                },
                None => {
                    too_big = true;
                },
            }
        }
        i += 1;
    }
    let p = i;
    let mut frac: u64 = 0;
    if p < n {
        if u.get_char(p) != '.' {
            proof {
                assert forall|q: int| !decimal_shape(us, q) by {
                    if decimal_shape(us, q) {
                        if q > p {
                            assert(us.take(q)[p as int] == us[p as int]);
                        } else if q < p {
                            assert(us.take(p as int)[q] == us[q]);
                        }
                    }
                }
            }
            return None;
        }
        let mut j: usize = p + 1;
        while j < n
            invariant
                p < n == us.len(),
                us == u@,
                us[p as int] == '.',
                all_digits(us.take(p as int)),
                too_big ==> digits_value(us.take(p as int)) > u64::MAX,
                !too_big ==> v == digits_value(us.take(p as int)),
                p + 1 <= j <= n,
                forall|k: int| p + 1 <= k < j ==> is_digit(#[trigger] us[k]),
            decreases n - j,
        {
            let c = u.get_char(j);
            if !is_digit_char(c) {
                proof {
                    assert(!is_digit(us[j as int]));
                    assert forall|q: int| !decimal_shape(us, q) by {
                        if decimal_shape(us, q) {
                            if q > p {
                                assert(us.take(q)[p as int] == us[p as int]);
                            } else if q < p {
                                assert(us.take(p as int)[q] == us[q]);
                            } else {
                                assert(us.skip(p + 1)[j - p - 1] == us[j as int]);
                                assert(!is_digit(us.skip(p + 1)[j - p - 1]));
                            }
                        }
                    }
                }
                return None;
            }
            j += 1;
        }
        if p == 0 && n == 1 {
            proof {
                assert forall|q: int| !decimal_shape(us, q) by {
                    if decimal_shape(us, q) && q > 0 {
                        assert(us.take(q)[0] == us[0]);
                    }
                }
            }
            return None;
        }
        let ghost f = us.skip(p + 1);
        let rest = n - p - 1;
        assert forall|k: int| 0 <= k < f.len() implies is_digit(#[trigger] f[k]) by {
            assert(f[k] == us[p + 1 + k]);
        }
        let d0 = if rest >= 1 {
            assert(f[0] == us[p + 1]);
            digit_of(u.get_char(p + 1))
        } else {
            0
        };
        let d1 = if rest >= 2 {
            assert(f[1] == us[p + 2]);
            digit_of(u.get_char(p + 2))
        } else {
            0
        };
        let d2 = if rest >= 3 {
            assert(f[2] == us[p + 3]);
            digit_of(u.get_char(p + 3))
        } else {
            0
        };
        frac = d0 * 10 + d1 + if d2 >= 5 {
            1
        } else {
            0
        };
        assert(frac == fraction_hundredths(f));
    } else if p == 0 {
        return None;
    }
    assert(decimal_shape(us, p as int));
    proof {
        let q = choose|q: int| decimal_shape(us, q);
        lemma_shape_unique(us, p as int, q);
    }
    if too_big {
        return None;
    }
    match v.checked_mul(100) {
        Some(t) => t.checked_add(frac),
        None => None,
    }
}

/// Reads a price written as a decimal with an optional leading `+`, rounded to
/// hundredths; `None` where the text is no such decimal or the value does not
/// fit.
pub fn parse_hundredths(s: &str) -> (r: Option<u64>)
    ensures
        r == fitting(price_hundredths(s@)),
{
    let n = s.unicode_len();
    if n > 0 && s.get_char(0) == '+' {
        let u = s.substring_char(1, n);
        assert(u@ =~= unsigned_part(s@));
        parse_unsigned(u)
    } else {
        parse_unsigned(s)
    }
}

/// The price that a text shows once its `$` signs are removed, in hundredths;
/// zero where the rest is not a price.
pub fn price_from_text(text: &str) -> (r: u64)
    ensures
        r == price_of_text(text@),
{
    let cleaned = strip_dollars(text);
    match parse_hundredths(cleaned.as_str()) {
        Some(v) => v,
        None => 0,
    }
}

} // verus!
