use vstd::prelude::*;
use vstd::string::*;

verus! {

pub open spec fn is_digit(c: char) -> bool {
    '0' <= c && c <= '9'
}

pub open spec fn all_digits(s: Seq<char>) -> bool {
    forall|i: int| 0 <= i < s.len() ==> is_digit(#[trigger] s[i])
}

/// The value of a run of decimal digits, most significant first.
pub open spec fn digits_value(s: Seq<char>) -> int
    decreases s.len(),
{
    if s.len() == 0 {
        0
    } else {
        10 * digits_value(s.drop_last()) + ((s.last() as u32) - ('0' as u32))
    }
}

/// An integer written as an optional `+` or `-` followed by one or more decimal digits.
pub open spec fn is_int_text(s: Seq<char>) -> bool {
    if s.len() > 0 && (s[0] == '+' || s[0] == '-') {
        s.len() > 1 && all_digits(s.drop_first())
    } else {
        s.len() > 0 && all_digits(s)
    }
}

pub open spec fn int_text_value(s: Seq<char>) -> int {
    if s.len() > 0 && s[0] == '-' {
        -digits_value(s.drop_first())
    } else if s.len() > 0 && s[0] == '+' {
        digits_value(s.drop_first())
    } else {
        digits_value(s)
    }
}

pub open spec fn fits_i32(v: int) -> bool {
    i32::MIN <= v <= i32::MAX
}

/// An integer field whose value is an `i32`.
pub open spec fn is_i32_text(s: Seq<char>) -> bool {
    is_int_text(s) && fits_i32(int_text_value(s))
}

/// `s` is three `i32` fields `a`, `b` and `c`, joined by colons.
pub open spec fn time_fields(s: Seq<char>, a: Seq<char>, b: Seq<char>, c: Seq<char>) -> bool {
    s == a + seq![':'] + b + seq![':'] + c && is_i32_text(a) && is_i32_text(b) && is_i32_text(c)
}

/// Minutes past midnight of the wall-clock time `h:m`.
pub open spec fn clock_minutes(h: int, m: int) -> int {
    60 * h + m
}

/// A wall-clock time within one day.
pub open spec fn is_clock_time(h: int, m: int) -> bool {
    0 <= h < 24 && 0 <= m < 60
}

/// `s` is a time `HH:MM:SS` whose minutes fit in an `i32`.
pub open spec fn is_time_text(s: Seq<char>) -> bool {
    exists|a: Seq<char>, b: Seq<char>, c: Seq<char>|
        time_fields(s, a, b, c) && fits_i32(clock_minutes(int_text_value(a), int_text_value(b)))
}

/// Minutes past midnight written in `s`, where `s` is three integer fields joined by colons.
pub open spec fn time_text_minutes(s: Seq<char>) -> int {
    let (a, b, c) = choose|a: Seq<char>, b: Seq<char>, c: Seq<char>| time_fields(s, a, b, c);
    clock_minutes(int_text_value(a), int_text_value(b))
}

/// The text of a time of day is not of the form `HH:MM:SS`, or its minutes overflow.
#[derive(Debug, Clone, Copy, PartialEq, Eq)]
pub struct TimeFormatError;

proof fn lemma_digits_value_nonneg(s: Seq<char>)
    requires
        all_digits(s),
    ensures
        digits_value(s) >= 0,
    decreases s.len(),
{
    if s.len() > 0 {
        assert(all_digits(s.drop_last()));
        lemma_digits_value_nonneg(s.drop_last());
        assert(is_digit(s[s.len() - 1]));
    }
}

/// A prefix of a run of digits is worth no more than the whole run.
proof fn lemma_digits_prefix_le(s: Seq<char>, k: int)
    requires
        all_digits(s),
        0 <= k <= s.len(),
    ensures
        digits_value(s.take(k)) <= digits_value(s),
    decreases s.len(),
{
    if k < s.len() {
        let t = s.drop_last();
        assert(all_digits(t));
        lemma_digits_prefix_le(t, k);
        assert(t.take(k) =~= s.take(k));
        lemma_digits_value_nonneg(t);
        assert(is_digit(s[s.len() - 1]));
    } else {
        assert(s.take(k) =~= s);
    }
}

proof fn lemma_int_text_colon_free(s: Seq<char>)
    requires
        is_int_text(s),
    ensures
        forall|i: int| 0 <= i < s.len() ==> s[i] != ':',
{
    assert forall|i: int| 0 <= i < s.len() implies s[i] != ':' by {
        if s[0] == '+' || s[0] == '-' {
            if i > 0 {
                assert(is_digit(s.drop_first()[i - 1]));
            }
        } else {
            assert(is_digit(s[i]));
        }
    }
}

/// Reads `s[from..to]` as an `i32` field.
pub(crate) fn parse_i32_field(s: &str, from: usize, to: usize) -> (r: Option<i32>)
    requires
        from <= to <= s@.len(),
    ensures
        match r {
            Some(v) => is_i32_text(s@.subrange(from as int, to as int)) && v == int_text_value(
                s@.subrange(from as int, to as int),
            ),
            None => !is_i32_text(s@.subrange(from as int, to as int)),
        },
{
    let ghost t = s@.subrange(from as int, to as int);
    if from == to {
        return None;
    }
    let first = s.get_char(from);
    let negative = first == '-';
    let start: usize = if first == '-' || first == '+' { from + 1 } else { from };
    if start == to {
        return None;
    }
    let ghost ds = s@.subrange(start as int, to as int);
    assert(start == from ==> ds =~= t);
    assert(start == from + 1 ==> ds =~= t.drop_first());
    assert(t[0] == first);
    assert(is_int_text(t) ==> all_digits(ds));
    assert(int_text_value(t) == if negative { -digits_value(ds) } else { digits_value(ds) });
    let mut acc: i64 = 0;
    let mut j: usize = start;
    while j < to
        invariant
            start <= j <= to <= s@.len(),
            ds == s@.subrange(start as int, to as int),
            all_digits(ds.take(j - start)),
            acc == digits_value(ds.take(j - start)),
            0 <= acc <= 2147483648,
            t == s@.subrange(from as int, to as int),
            is_int_text(t) ==> all_digits(ds),
            int_text_value(t) == if negative { -digits_value(ds) } else { digits_value(ds) },
        decreases to - j,
    {
        let c = s.get_char(j);
        if !('0' <= c && c <= '9') {
            proof {
                assert(ds[j - start] == c);
                assert(!all_digits(ds));
            }
            return None;
        }
        let d = (c as u32 - '0' as u32) as i64;
        acc = acc * 10 + d;
        proof {
            let p = ds.take(j - start + 1);
            assert(p.drop_last() =~= ds.take(j - start));
            assert(p.last() == c);
            assert(all_digits(p));
        }
        j = j + 1;
        if acc > 2147483648 {
            proof {
                assert(ds.take(j - start) =~= ds.take(j - start));
                if all_digits(ds) {
                    lemma_digits_prefix_le(ds, j - start);
                    assert(!fits_i32(int_text_value(t)));
                }
            }
            return None;
        }
    }
    assert(ds.take(j - start) =~= ds);
    if negative {
        Some((0 - acc) as i32)
    } else if acc <= 2147483647 {
        Some(acc as i32)
    } else {
        None
    }
}

/// Index of the first `':'` in `s[from..]`, if any.
fn find_colon(s: &str, from: usize) -> (r: Option<usize>)
    requires
        from <= s@.len(),
    ensures
        match r {
            Some(k) => from <= k < s@.len() && s@[k as int] == ':' && forall|i: int|
                from <= i < k ==> s@[i] != ':',
            None => forall|i: int| from <= i < s@.len() ==> s@[i] != ':',
        },
{
    let n = s.unicode_len();
    let mut i: usize = from;
    while i < n
        invariant
            from <= i <= n,
            n == s@.len(),
            forall|k: int| from <= k < i ==> s@[k] != ':',
        decreases n - i,
    {
        if s.get_char(i) == ':' {
            return Some(i);
        }
        i = i + 1;
    }
    None
}

fn parse_clock(hhmmss: &str) -> (r: Result<i32, TimeFormatError>)
    ensures
        match r {
            Ok(v) => (exists|a: Seq<char>, b: Seq<char>, c: Seq<char>|
                time_fields(hhmmss@, a, b, c)) && forall|a: Seq<char>, b: Seq<char>, c: Seq<char>|
                time_fields(hhmmss@, a, b, c) ==> v == clock_minutes(
                    int_text_value(a),
                    int_text_value(b),
                ),
            Err(_) => forall|a: Seq<char>, b: Seq<char>, c: Seq<char>|
                time_fields(hhmmss@, a, b, c) ==> !fits_i32(
                    clock_minutes(int_text_value(a), int_text_value(b)),
                ),
        },
{
    let ghost s = hhmmss@;
    let n = hhmmss.unicode_len();
    proof {
        assert forall|a: Seq<char>, b: Seq<char>, c: Seq<char>|
            time_fields(s, a, b, c) implies s[a.len() as int] == ':' && s[(a.len() + 1 + b.len()) as int] == ':' && (forall|i: int| 0 <= i < a.len() ==> s[i] == a[i])
            && (forall|i: int| 0 <= i < b.len() ==> s[a.len() + 1 + i] == b[i])
            && s.len() == a.len() + b.len() + c.len() + 2 by {
            assert(s[a.len() as int] == (a + seq![':'] + b + seq![':'] + c)[a.len() as int]);
        }
    }
    let c1 = match find_colon(hhmmss, 0) {
        Some(k) => k,
        None => {
            proof {
                assert forall|a: Seq<char>, b: Seq<char>, c: Seq<char>|
                    time_fields(s, a, b, c) implies false by {
                    assert(s[a.len() as int] == ':');
                }
            }
            return Err(TimeFormatError);
        },
    };
    let c2 = match find_colon(hhmmss, c1 + 1) {
        Some(k) => k,
        None => {
            proof {
                assert forall|a: Seq<char>, b: Seq<char>, c: Seq<char>|
                    time_fields(s, a, b, c) implies false by {
                    lemma_int_text_colon_free(a);
                    if a.len() > c1 {
                        assert(s[c1 as int] == a[c1 as int]);
                    }
                    assert(s[(a.len() + 1 + b.len()) as int] == ':');
                }
            }
            return Err(TimeFormatError);
        },
    };
    let ghost fa = s.subrange(0, c1 as int);
    let ghost fb = s.subrange(c1 + 1, c2 as int);
    let ghost fc = s.subrange(c2 + 1, n as int);
    proof {
        assert forall|a: Seq<char>, b: Seq<char>, c: Seq<char>|
            time_fields(s, a, b, c) implies a == fa && b == fb && c == fc by {
            lemma_int_text_colon_free(a);
            lemma_int_text_colon_free(b);
            if a.len() > c1 {
                assert(s[c1 as int] == a[c1 as int]);
            }
            assert(a.len() == c1);
            assert(a =~= fa);
            if a.len() + 1 + b.len() > c2 {
                assert(s[c2 as int] == b[c2 - c1 - 1]);
            }
            assert(a.len() + 1 + b.len() == c2);
            assert(b =~= fb);
            assert(c =~= fc) by {
                assert forall|i: int| 0 <= i < c.len() implies c[i] == fc[i] by {
                    assert(s[c2 + 1 + i] == (a + seq![':'] + b + seq![':'] + c)[c2 + 1 + i]);
                }
            }
        }
    }
    let hh = parse_i32_field(hhmmss, 0, c1);
    let mm = parse_i32_field(hhmmss, c1 + 1, c2);
    let ss = parse_i32_field(hhmmss, c2 + 1, n);
    match (hh, mm, ss) {
        (Some(h), Some(m), Some(_)) => {
            let total: i64 = 60 * (h as i64) + (m as i64);
            proof {
                assert(s =~= fa + seq![':'] + fb + seq![':'] + fc);
                assert(time_fields(s, fa, fb, fc));
            }
            if total < i32::MIN as i64 || total > i32::MAX as i64 {
                Err(TimeFormatError)
            } else {
                Ok(total as i32)
            }
        },
        _ => Err(TimeFormatError),
    }
}

/// Minutes past midnight of a time written `HH:MM:SS`: `60 * HH + MM`, the seconds read and
/// dropped. Each field is an `i32` integer, optionally signed; the text fails when it is not
/// three such fields joined by colons, or when the minutes do not fit in an `i32`.
pub fn minutes_since_midnight(hhmmss: &str) -> (r: Result<i32, TimeFormatError>)
    ensures
        match r {
            Ok(v) => is_time_text(hhmmss@) && v == time_text_minutes(hhmmss@),
            Err(_) => !is_time_text(hhmmss@),
        },
{
    let r = parse_clock(hhmmss);
    proof {
        let s = hhmmss@;
        if let Ok(v) = r {
            let (a, b, c) = choose|a: Seq<char>, b: Seq<char>, c: Seq<char>|
                time_fields(s, a, b, c);
            assert(time_fields(s, a, b, c));
            assert(v == clock_minutes(int_text_value(a), int_text_value(b)));
        }
    }
    r
}

/// Every wall-clock time of one day lies in `[0, 1439]` minutes past midnight, and a later time
/// of the day never has fewer minutes than an earlier one.
pub proof fn lemma_clock_minutes_in_day(h1: int, m1: int, h2: int, m2: int)
    requires
        is_clock_time(h1, m1),
        is_clock_time(h2, m2),
    ensures
        0 <= clock_minutes(h1, m1) <= 1439,
        (h1 < h2 || (h1 == h2 && m1 <= m2)) ==> clock_minutes(h1, m1) <= clock_minutes(h2, m2),
{
}

} // verus!
