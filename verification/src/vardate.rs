//! A date or date-time of graduated precision: a year, a year and month, a
//! full calendar date, or a completely resolved offset-aware timestamp.
//! Parsing tries the complete timestamp first and otherwise accepts any
//! prefix that yields at least a year.

use vstd::prelude::*;
use crate::decimal::all_digits;
use crate::render::{dec_digits, digit_char, digit_val, int_digits, is_digit, is_digit_char, i64_to_string, padded2, padded2_u32};
use crate::stamp::{Instant, parse_full_stamp, rfc3339_norm, rfc3339_ok};

verus! {

/// The mathematical content of a [`VarDate`].
pub struct VarDateV {
    pub y: Option<i32>,
    pub m: Option<u32>,
    pub d: Option<u32>,
    pub dt: Option<Seq<char>>,
}

/// A date value of graduated precision. Exactly one of the four shapes
/// holds: year only; year and month; year, month and day; or a resolved
/// timestamp with the other fields unset.
pub struct VarDate {
    y: Option<i32>,
    m: Option<u32>,
    d: Option<u32>,
    dt: Option<String>,
}

impl View for VarDate {
    type V = VarDateV;

    closed spec fn view(&self) -> VarDateV {
        VarDateV {
            y: self.y,
            m: self.m,
            d: self.d,
            dt: match self.dt {
                Some(ref t) => Some(t@),
                None => None,
            },
        }
    }
}

/// Well-formedness: one of the four shapes, nothing else.
pub open spec fn date_wf(v: VarDateV) -> bool {
    &&& (v.dt is Some ==> v.y is None && v.m is None && v.d is None)
    &&& (v.dt is None ==> v.y is Some)
    &&& (v.m is None ==> v.d is None)
    &&& (v.y is None ==> v.m is None)
}

/// The rendering chosen by the populated shape: the stored timestamp, or
/// `YYYY`, `YYYY-MM`, `YYYY-MM-DD` with zero-padded month and day.
pub open spec fn date_render(v: VarDateV) -> Seq<char>
    recommends
        date_wf(v),
{
    match v.dt {
        Some(t) => t,
        None => {
            let y = int_digits(v.y->0 as int);
            match (v.m, v.d) {
                (Some(m), Some(d)) => y + seq!['-'] + padded2(m as nat) + seq!['-'] + padded2(
                    d as nat,
                ),
                (Some(m), None) => y + seq!['-'] + padded2(m as nat),
                _ => y,
            }
        },
    }
}

/// The numeric value of a run of decimal digit characters, most significant
/// first.
pub open spec fn digits_val(s: Seq<char>) -> nat
    decreases s.len(),
{
    if s.len() == 0 {
        0
    } else {
        digits_val(s.drop_last()) * 10 + digit_val(s.last())
    }
}

/// Whether the text begins with a four-digit year.
pub open spec fn partial_year_ok(s: Seq<char>) -> bool {
    s.len() >= 4 && all_digits(s.subrange(0, 4))
}

/// Whether a valid `-MM` month part follows the year.
pub open spec fn partial_month_ok(s: Seq<char>) -> bool {
    &&& partial_year_ok(s)
    &&& s.len() >= 7
    &&& s[4] == '-'
    &&& all_digits(s.subrange(5, 7))
    &&& 1 <= digits_val(s.subrange(5, 7)) <= 12
}

/// Whether a valid `-DD` day part follows the month.
pub open spec fn partial_day_ok(s: Seq<char>) -> bool {
    &&& partial_month_ok(s)
    &&& s.len() >= 10
    &&& s[7] == '-'
    &&& all_digits(s.subrange(8, 10))
    &&& 1 <= digits_val(s.subrange(8, 10)) <= 31
}

/// The parse of a date text: the resolved timestamp when the whole text is
/// one, else the longest of year, year-month, and year-month-day prefixes;
/// no value when not even a year is present.
pub open spec fn date_parse(s: Seq<char>) -> Option<VarDateV> {
    if rfc3339_ok(s) {
        Some(VarDateV { y: None, m: None, d: None, dt: Some(rfc3339_norm(s)) })
    } else if partial_day_ok(s) {
        Some(
            VarDateV {
                y: Some(digits_val(s.subrange(0, 4)) as i32),
                m: Some(digits_val(s.subrange(5, 7)) as u32),
                d: Some(digits_val(s.subrange(8, 10)) as u32),
                dt: None,
            },
        )
    } else if partial_month_ok(s) {
        Some(
            VarDateV {
                y: Some(digits_val(s.subrange(0, 4)) as i32),
                m: Some(digits_val(s.subrange(5, 7)) as u32),
                d: None,
                dt: None,
            },
        )
    } else if partial_year_ok(s) {
        Some(
            VarDateV {
                y: Some(digits_val(s.subrange(0, 4)) as i32),
                m: None,
                d: None,
                dt: None,
            },
        )
    } else {
        None
    }
}

/// The error for a date text that yields not even a year.
#[derive(Debug)]
pub struct DateError;

spec fn ten_pow(n: nat) -> nat
    decreases n,
{
    if n == 0 {
        1
    } else {
        10 * ten_pow((n - 1) as nat)
    }
}

proof fn lemma_digits_val_bound(s: Seq<char>)
    requires
        all_digits(s),
    ensures
        digits_val(s) < ten_pow(s.len()),
    decreases s.len(),
{
    if s.len() > 0 {
        assert(all_digits(s.drop_last())) by {
            assert forall|i: int| 0 <= i < s.len() - 1 implies is_digit_char(
                #[trigger] s.drop_last()[i],
            ) by {
                assert(s.drop_last()[i] == s[i]);
            }
        }
        lemma_digits_val_bound(s.drop_last());
        assert(is_digit_char(s.last()));
        assert(digit_val(s.last()) <= 9);
    }
}

/// A digit run without a leading zero is at least as large as the smallest
/// number of its width.
proof fn lemma_digits_val_lower(s: Seq<char>)
    requires
        all_digits(s),
        s.len() >= 1,
        s[0] != '0',
    ensures
        digits_val(s) >= ten_pow((s.len() - 1) as nat),
    decreases s.len(),
{
    if s.len() == 1 {
        assert(is_digit_char(s[0]));
        crate::decimal::lemma_digit_roundtrip(s[0]);
        assert(digit_val(s[0]) >= 1);
        assert(s.drop_last().len() == 0);
    } else {
        assert(all_digits(s.drop_last())) by {
            assert forall|i: int| 0 <= i < s.len() - 1 implies is_digit_char(
                #[trigger] s.drop_last()[i],
            ) by {
                assert(s.drop_last()[i] == s[i]);
            }
        }
        assert(s.drop_last()[0] == s[0]);
        lemma_digits_val_lower(s.drop_last());
    }
}

/// The decimal rendering of the value of a digit run without a leading zero
/// is that run itself.
proof fn lemma_digits_render_roundtrip(s: Seq<char>)
    requires
        all_digits(s),
        s.len() >= 1,
        s[0] != '0',
    ensures
        dec_digits(digits_val(s)) == s,
    decreases s.len(),
{
    let v = digits_val(s);
    let d = digit_val(s.last());
    assert(is_digit_char(s.last()));
    crate::decimal::lemma_digit_roundtrip(s.last());
    if s.len() == 1 {
        assert(s.drop_last().len() == 0);
        assert(v == d);
        assert(dec_digits(v) =~= s);
    } else {
        let q = digits_val(s.drop_last());
        assert(all_digits(s.drop_last())) by {
            assert forall|i: int| 0 <= i < s.len() - 1 implies is_digit_char(
                #[trigger] s.drop_last()[i],
            ) by {
                assert(s.drop_last()[i] == s[i]);
            }
        }
        assert(s.drop_last()[0] == s[0]);
        lemma_digits_val_lower(s.drop_last());
        assert(q >= ten_pow((s.len() - 2) as nat));
        assert(ten_pow((s.len() - 2) as nat) >= 1) by {
            lemma_ten_pow_positive((s.len() - 2) as nat);
        }
        assert(v == q * 10 + d);
        assert(v >= 10) by (nonlinear_arith)
            requires
                v == q * 10 + d,
                q >= 1,
                d >= 0,
        ;
        assert(v / 10 == q && v % 10 == d) by (nonlinear_arith)
            requires
                v == q * 10 + d,
                0 <= d < 10,
                q >= 0,
        ;
        lemma_digits_render_roundtrip(s.drop_last());
        assert(dec_digits(v) == dec_digits(q) + seq![digit_char(d)]);
        assert(dec_digits(v) =~= s);
    }
}

proof fn lemma_ten_pow_positive(n: nat)
    ensures
        ten_pow(n) >= 1,
    decreases n,
{
    if n > 0 {
        lemma_ten_pow_positive((n - 1) as nat);
    }
}

/// The two-digit padded rendering of the value of a two-digit run is that
/// run itself.
proof fn lemma_padded2_roundtrip(s: Seq<char>)
    requires
        all_digits(s),
        s.len() == 2,
    ensures
        padded2(digits_val(s)) == s,
{
    let a = digit_val(s[0]);
    let b = digit_val(s[1]);
    assert(is_digit_char(s[0]));
    assert(is_digit_char(s[1]));
    crate::decimal::lemma_digit_roundtrip(s[0]);
    crate::decimal::lemma_digit_roundtrip(s[1]);
    assert(s.drop_last() =~= seq![s[0]]);
    assert(s.drop_last().drop_last() =~= Seq::<char>::empty());
    assert(digits_val(Seq::<char>::empty()) == 0);
    assert(s.drop_last().last() == s[0]);
    assert(digits_val(s.drop_last()) == a);
    assert(digits_val(s) == a * 10 + b);
    if a == 0 {
        assert(s[0] == '0');
        assert(digits_val(s) == b);
        assert(padded2(digits_val(s)) =~= s);
    } else {
        lemma_digits_render_roundtrip(s);
        assert(digits_val(s) >= 10) by (nonlinear_arith)
            requires
                digits_val(s) == a * 10 + b,
                a >= 1,
                b >= 0,
        ;
    }
}

/// GRADUATED PARSING. For a date text that is not a complete timestamp and
/// whose year does not begin with a zero, the parse takes the longest valid
/// year / year-month / year-month-day prefix, and rendering the parsed value
/// reproduces exactly that prefix: `YYYY`, `YYYY-MM`, or `YYYY-MM-DD`.
pub proof fn lemma_graduated_render(s: Seq<char>)
    requires
        !rfc3339_ok(s),
        partial_year_ok(s),
        s[0] != '0',
    ensures
        date_parse(s) matches Some(d) && date_wf(d) && date_render(d) == (if partial_day_ok(s) {
            s.subrange(0, 10)
        } else if partial_month_ok(s) {
            s.subrange(0, 7)
        } else {
            s.subrange(0, 4)
        }),
{
    let year_digits = s.subrange(0, 4);
    assert(year_digits[0] == s[0]);
    lemma_digits_render_roundtrip(year_digits);
    lemma_digits_val_bound(year_digits);
    assert(ten_pow(4) == 10000) by {
        assert(ten_pow(0) == 1);
        assert(ten_pow(1) == 10);
        assert(ten_pow(2) == 100);
        assert(ten_pow(3) == 1000);
    }
    let yv = digits_val(year_digits);
    assert((yv as i32) as int == yv as int);
    let d = date_parse(s)->Some_0;
    assert(int_digits(d.y->0 as int) == year_digits);
    if partial_month_ok(s) {
        let month_digits = s.subrange(5, 7);
        lemma_digits_val_bound(month_digits);
        assert(ten_pow(2) == 100) by {
            assert(ten_pow(0) == 1);
            assert(ten_pow(1) == 10);
        }
        lemma_padded2_roundtrip(month_digits);
        let mv = digits_val(month_digits);
        assert((mv as u32) as nat == mv);
        if partial_day_ok(s) {
            let day_digits = s.subrange(8, 10);
            lemma_digits_val_bound(day_digits);
            lemma_padded2_roundtrip(day_digits);
            let dv = digits_val(day_digits);
            assert((dv as u32) as nat == dv);
            assert(date_render(d) =~= s.subrange(0, 10));
        } else {
            assert(date_render(d) =~= s.subrange(0, 7));
        }
    } else {
        assert(date_render(d) =~= s.subrange(0, 4));
    }
}

/// Reads the numeric value of up to four digit characters of `s`.
#[verifier::loop_isolation(false)]
fn read_digits(s: &str, from: usize, to: usize) -> (v: u32)
    requires
        from <= to <= s@.len(),
        to - from <= 4,
        forall|t: int| from <= t < to ==> is_digit_char(#[trigger] s@[t]),
    ensures
        v == digits_val(s@.subrange(from as int, to as int)),
        v <= 9999,
{
    proof {
        assert(all_digits(s@.subrange(from as int, to as int))) by {
            assert forall|i: int| 0 <= i < to - from implies is_digit_char(
                #[trigger] s@.subrange(from as int, to as int)[i],
            ) by {
                assert(s@.subrange(from as int, to as int)[i] == s@[i + from]);
            }
        }
        lemma_digits_val_bound(s@.subrange(from as int, to as int));
        assert(ten_pow(0) == 1);
        assert(ten_pow(1) == 10);
        assert(ten_pow(2) == 100);
        assert(ten_pow(3) == 1000);
        assert(ten_pow(4) == 10000);
    }
    let mut v: u32 = 0;
    let mut k = from;
    while k < to
        invariant
            from <= k <= to,
            v == digits_val(s@.subrange(from as int, k as int)),
            v < ten_pow((k - from) as nat),
        decreases to - k,
    {
        let c = s.get_char(k);
        proof {
            crate::decimal::lemma_digit_roundtrip(c);
            let pre = s@.subrange(from as int, k as int);
            let post = s@.subrange(from as int, k + 1 as int);
            assert(post.drop_last() =~= pre);
            assert(post.last() == s@[k as int]);
            assert(all_digits(pre)) by {
                assert forall|i: int| 0 <= i < k - from implies is_digit_char(
                    #[trigger] pre[i],
                ) by {
                    assert(pre[i] == s@[i + from]);
                }
            }
            lemma_digits_val_bound(pre);
        }
        v = v * 10 + (c as u32 - 48);
        k += 1;
    }
    v
}

impl VarDate {
    /// Every date value holds one of the four shapes: construction admits
    /// nothing else.
    #[verifier::type_invariant]
    spec fn shape_inv(self) -> bool {
        date_wf(self@)
    }

    /// Reads a date text: a complete RFC 3339 timestamp, or the longest
    /// year / year-month / year-month-day prefix. Fails only when the text
    /// does not even begin with a four-digit year.
    #[verifier::loop_isolation(false)]
    pub fn parse(s: &str) -> (r: Result<VarDate, DateError>)
        ensures
            match r {
                Ok(d) => date_parse(s@) == Some(d@) && date_wf(d@),
                Err(_) => date_parse(s@) is None,
            },
    {
        if let Some(text) = parse_full_stamp(s) {
            return Ok(VarDate { y: None, m: None, d: None, dt: Some(text) });
        }
        let n = s.unicode_len();
        // the year: four digits
        let mut k: usize = 0;
        while k < 4 && k < n && is_digit(s.get_char(k))
            invariant
                0 <= k <= 4,
                k <= n,
                forall|t: int| 0 <= t < k ==> is_digit_char(#[trigger] s@[t]),
            decreases 4 - k,
        {
            k += 1;
        }
        if k < 4 {
            proof {
                if partial_year_ok(s@) {
                    assert(is_digit_char(s@.subrange(0, 4)[k as int]));
                    assert(s@.subrange(0, 4)[k as int] == s@[k as int]);
                }
            }
            return Err(DateError);
        }
        assert(partial_year_ok(s@)) by {
            assert forall|t: int| 0 <= t < 4 implies is_digit_char(
                #[trigger] s@.subrange(0, 4)[t],
            ) by {
                assert(s@.subrange(0, 4)[t] == s@[t]);
            }
        }
        let year = read_digits(s, 0, 4);
        proof {
            assert(year as nat == digits_val(s@.subrange(0, 4)));
        }
        // the month: a dash and two digits in range
        let have_month: bool = month_part_ok(s, n);
        if !have_month {
            return Ok(VarDate { y: Some(year as i32), m: None, d: None, dt: None });
        }
        assert(forall|t: int| 5 <= t < 7 ==> is_digit_char(#[trigger] s@[t])) by {
            assert forall|t: int| 5 <= t < 7 implies is_digit_char(#[trigger] s@[t]) by {
                assert(s@.subrange(5, 7)[t - 5] == s@[t]);
            }
        }
        let month = read_digits(s, 5, 7);
        // the day: a dash and two digits in range
        let have_day: bool = day_part_ok(s, n);
        if !have_day {
            return Ok(VarDate { y: Some(year as i32), m: Some(month), d: None, dt: None });
        }
        assert(forall|t: int| 8 <= t < 10 ==> is_digit_char(#[trigger] s@[t])) by {
            assert forall|t: int| 8 <= t < 10 implies is_digit_char(#[trigger] s@[t]) by {
                assert(s@.subrange(8, 10)[t - 8] == s@[t]);
            }
        }
        let day = read_digits(s, 8, 10);
        Ok(VarDate { y: Some(year as i32), m: Some(month), d: Some(day), dt: None })
    }

    /// A date value holding a fully resolved instant.
    pub fn from_instant(i: Instant) -> (r: VarDate)
        ensures
            r@ == (VarDateV { y: None, m: None, d: None, dt: Some(i@) }),
            date_wf(r@),
    {
        VarDate { y: None, m: None, d: None, dt: Some(i.to_string()) }
    }

    /// The year, when the shape is not a resolved timestamp.
    pub fn year(&self) -> (r: Option<i32>)
        ensures
            r == self@.y,
    {
        self.y
    }

    /// The month, when the shape holds one.
    pub fn month(&self) -> (r: Option<u32>)
        ensures
            r == self@.m,
    {
        self.m
    }

    /// The day, when the shape holds one.
    pub fn day(&self) -> (r: Option<u32>)
        ensures
            r == self@.d,
    {
        self.d
    }

    /// Whether the shape is a fully resolved timestamp.
    pub fn has_stamp(&self) -> (r: bool)
        ensures
            r == (self@.dt is Some),
    {
        self.dt.is_some()
    }

    /// The rendering chosen by the populated shape.
    pub fn to_string(&self) -> (r: String)
        ensures
            r@ == date_render(self@),
    {
        proof {
            use_type_invariant(&*self);
        }
        match &self.dt {
            Some(t) => t.clone(),
            None => {
                let y = match self.y {
                    Some(y) => y,
                    None => 0,  // unreachable: a well-formed date without a stamp has a year
                };
                let mut out = i64_to_string(y as i64);
                match (self.m, self.d) {
                    (Some(m), Some(d)) => {
                        proof {
                            reveal_strlit("-");
                            assert("-"@ =~= seq!['-']);
                        }
                        out.append("-");
                        let ms = padded2_u32(m);
                        out.append(ms.as_str());
                        out.append("-");
                        let ds = padded2_u32(d);
                        out.append(ds.as_str());
                        proof {
                            assert(out@ =~= date_render(self@));
                        }
                        out
                    },
                    (Some(m), None) => {
                        proof {
                            reveal_strlit("-");
                            assert("-"@ =~= seq!['-']);
                        }
                        out.append("-");
                        let ms = padded2_u32(m);
                        out.append(ms.as_str());
                        proof {
                            assert(out@ =~= date_render(self@));
                        }
                        out
                    },
                    _ => out,
                }
            },
        }
    }
}

/// Whether a valid month part follows the four-digit year.
#[verifier::loop_isolation(false)]
fn month_part_ok(s: &str, n: usize) -> (b: bool)
    requires
        n == s@.len(),
        partial_year_ok(s@),
    ensures
        b == partial_month_ok(s@),
{
    if n < 7 {
        return false;
    }
    if s.get_char(4) != '-' {
        return false;
    }
    if !is_digit(s.get_char(5)) || !is_digit(s.get_char(6)) {
        proof {
            if partial_month_ok(s@) {
                assert(is_digit_char(s@.subrange(5, 7)[0]));
                assert(is_digit_char(s@.subrange(5, 7)[1]));
            }
        }
        return false;
    }
    assert(all_digits(s@.subrange(5, 7))) by {
        assert forall|t: int| 0 <= t < 2 implies is_digit_char(#[trigger] s@.subrange(5, 7)[t]) by {
            assert(s@.subrange(5, 7)[t] == s@[t + 5]);
        }
    }
    let m = read_digits(s, 5, 7);
    1 <= m && m <= 12
}

/// Whether a valid day part follows the month.
#[verifier::loop_isolation(false)]
fn day_part_ok(s: &str, n: usize) -> (b: bool)
    requires
        n == s@.len(),
        partial_month_ok(s@),
    ensures
        b == partial_day_ok(s@),
{
    if n < 10 {
        return false;
    }
    if s.get_char(7) != '-' {
        return false;
    }
    if !is_digit(s.get_char(8)) || !is_digit(s.get_char(9)) {
        proof {
            if partial_day_ok(s@) {
                assert(is_digit_char(s@.subrange(8, 10)[0]));
                assert(is_digit_char(s@.subrange(8, 10)[1]));
            }
        }
        return false;
    }
    assert(all_digits(s@.subrange(8, 10))) by {
        assert forall|t: int| 0 <= t < 2 implies is_digit_char(#[trigger] s@.subrange(8, 10)[t]) by {
            assert(s@.subrange(8, 10)[t] == s@[t + 8]);
        }
    }
    let d = read_digits(s, 8, 10);
    1 <= d && d <= 31
}

} // verus!
