//! A decimal number that remembers how many fractional digits its original
//! textual form carried, so that rendering reproduces the text's precision
//! exactly (`"0.10"` stays `"0.10"`), independent of any binary value.

use vstd::prelude::*;
use crate::render::{digit_char, digit_val, digit_to_str, is_digit, is_digit_char};

verus! {

/// The mathematical content of a [`Dec`]: sign and the exact digit sequences
/// of the integer and fractional parts.
pub struct DecV {
    pub neg: bool,
    pub int_digits: Seq<char>,
    pub frac_digits: Seq<char>,
}

/// A decimal value: a sign, the digits before the point, and the digits after
/// the point. The number of fractional digits is the value's precision.
pub struct Dec {
    neg: bool,
    int_digits: String,
    frac_digits: String,
}

impl View for Dec {
    type V = DecV;

    closed spec fn view(&self) -> DecV {
        DecV { neg: self.neg, int_digits: self.int_digits@, frac_digits: self.frac_digits@ }
    }
}

/// Whether every character of `s` is an ASCII decimal digit.
pub open spec fn all_digits(s: Seq<char>) -> bool {
    forall|i: int| 0 <= i < s.len() ==> is_digit_char(#[trigger] s[i])
}

/// Well-formedness of a decimal: digit-only parts and a normalized integer
/// part (no leading zero unless the part is exactly `0`).
pub open spec fn dec_wf(d: DecV) -> bool {
    &&& d.int_digits.len() >= 1
    &&& all_digits(d.int_digits)
    &&& all_digits(d.frac_digits)
    &&& (d.int_digits[0] == '0' ==> d.int_digits.len() == 1)
}

/// The canonical rendering: optional minus sign, integer digits, and — only
/// when the precision is nonzero — a point followed by the fractional digits.
pub open spec fn dec_render(d: DecV) -> Seq<char> {
    (if d.neg {
        seq!['-']
    } else {
        Seq::<char>::empty()
    }) + d.int_digits + (if d.frac_digits.len() > 0 {
        seq!['.'] + d.frac_digits
    } else {
        Seq::<char>::empty()
    })
}

/// `s` with its leading zero characters removed.
pub open spec fn strip_leading_zeros(s: Seq<char>) -> Seq<char>
    decreases s.len(),
{
    if s.len() > 0 && s[0] == '0' {
        strip_leading_zeros(s.skip(1))
    } else {
        s
    }
}

/// The normalized integer part for a scanned digit run: leading zeros are
/// dropped, and an empty run stands for zero.
pub open spec fn norm_int(s: Seq<char>) -> Seq<char> {
    let t = strip_leading_zeros(s);
    if t.len() == 0 {
        seq!['0']
    } else {
        t
    }
}

/// The parse of the part of the text after the optional sign.
pub open spec fn dec_parse_body(neg: bool, body: Seq<char>) -> Option<DecV> {
    if body.len() >= 1 && all_digits(body) {
        Some(DecV { neg, int_digits: norm_int(body), frac_digits: Seq::empty() })
    } else if exists|k: int| 0 <= k < body.len() && body[k] == '.' {
        let k = choose|k: int| 0 <= k < body.len() && body[k] == '.';
        let ip = body.subrange(0, k);
        let fp = body.subrange(k + 1, body.len() as int);
        if all_digits(ip) && all_digits(fp) && ip.len() + fp.len() >= 1 {
            Some(DecV { neg, int_digits: norm_int(ip), frac_digits: fp })
        } else {
            None
        }
    } else {
        None
    }
}

/// The decimal accepted from a piece of text: an optional sign, digits, and
/// at most one point, with at least one digit overall.
pub open spec fn dec_parse(s: Seq<char>) -> Option<DecV> {
    if s.len() == 0 {
        None
    } else if s[0] == '-' {
        dec_parse_body(true, s.skip(1))
    } else if s[0] == '+' {
        dec_parse_body(false, s.skip(1))
    } else {
        dec_parse_body(false, s)
    }
}

/// An ASCII digit character is recovered from its numeric value.
pub proof fn lemma_digit_roundtrip(c: char)
    requires
        is_digit_char(c),
    ensures
        digit_val(c) < 10,
        digit_char(digit_val(c)) == c,
{
}

/// In a split whose two sides hold only digits, the splitting point is the
/// only point character of the text.
proof fn lemma_dot_unique(body: Seq<char>, k1: int, k2: int)
    requires
        0 <= k1 < body.len(),
        all_digits(body.subrange(0, k1)),
        all_digits(body.subrange(k1 + 1, body.len() as int)),
        0 <= k2 < body.len(),
        body[k2] == '.',
    ensures
        k2 == k1,
{
    if k2 < k1 {
        assert(body.subrange(0, k1)[k2] == '.');
    } else if k2 > k1 {
        assert(body.subrange(k1 + 1, body.len() as int)[k2 - k1 - 1] == '.');
    }
}

/// A digit run with no leading zero is already normalized.
proof fn lemma_norm_identity(s: Seq<char>)
    requires
        s.len() >= 1,
        s[0] == '0' ==> s.len() == 1,
    ensures
        norm_int(s) == s,
{
    if s[0] == '0' {
        assert(s.skip(1).len() == 0);
        assert(strip_leading_zeros(s.skip(1)) == s.skip(1));
        assert(strip_leading_zeros(s) == strip_leading_zeros(s.skip(1)));
        assert(norm_int(s) =~= s);
    }
}

/// The substring of `s` from `from` (inclusive) to `to` (exclusive), which
/// must hold only digit characters, as a fresh string.
fn digits_substring(s: &str, from: usize, to: usize) -> (r: String)
    requires
        from <= to <= s@.len(),
        forall|t: int| from <= t < to ==> is_digit_char(#[trigger] s@[t]),
    ensures
        r@ == s@.subrange(from as int, to as int),
{
    let mut out = String::new();
    let mut k = from;
    while k < to
        invariant
            from <= k <= to <= s@.len(),
            forall|t: int| from <= t < to ==> is_digit_char(#[trigger] s@[t]),
            out@ == s@.subrange(from as int, k as int),
        decreases to - k,
    {
        let c = s.get_char(k);
        proof {
            lemma_digit_roundtrip(c);
        }
        let v: u64 = (c as u64) - 48;
        out.append(digit_to_str(v));
        proof {
            assert(out@ =~= s@.subrange(from as int, k + 1 as int));
        }
        k += 1;
    }
    out
}

impl Dec {
    /// Reads a decimal from text: an optional leading sign, digits, and at
    /// most one point. Malformed text (no digits, a second point, any other
    /// character) is rejected.
    #[verifier::loop_isolation(false)]
    pub fn from_str(s: &str) -> (r: Result<Dec, ()>)
        ensures
            match r {
                Ok(d) => dec_parse(s@) == Some(d@) && dec_wf(d@),
                Err(_) => dec_parse(s@) is None,
            },
    {
        let n = s.unicode_len();
        if n == 0 {
            return Err(());
        }
        let first = s.get_char(0);
        let neg = first == '-';
        let mut i: usize = if first == '-' || first == '+' {
            1
        } else {
            0
        };
        let ghost body_start = i as int;
        let int_start = i;
        while i < n && is_digit(s.get_char(i))
            invariant
                int_start <= i <= n,
                n == s@.len(),
                forall|t: int| int_start <= t < i ==> is_digit_char(#[trigger] s@[t]),
            decreases n - i,
        {
            i += 1;
        }
        let int_end = i;
        let frac_start: usize;
        if i < n {
            if s.get_char(i) != '.' {
                proof {
                    lemma_reject(s@, body_start, int_start as int, i as int);
                }
                return Err(());
            }
            frac_start = i + 1;
            let mut j = frac_start;
            while j < n
                invariant
                    frac_start <= j <= n,
                    n == s@.len(),
                    frac_start <= n,
                    forall|t: int| frac_start <= t < j ==> is_digit_char(#[trigger] s@[t]),
                decreases n - j,
            {
                if !is_digit(s.get_char(j)) {
                    proof {
                        lemma_reject_frac(
                            s@,
                            body_start,
                            int_start as int,
                            int_end as int,
                            j as int,
                        );
                    }
                    return Err(());
                }
                j += 1;
            }
        } else {
            frac_start = n;
        }
        if int_end == int_start && frac_start >= n {
            // no digit anywhere: the text was just a sign, or a sign and a point
            proof {
                lemma_reject_empty(s@, body_start, int_start as int, int_end as int);
            }
            return Err(());
        }
        // normalize the integer part: drop leading zeros
        let mut z = int_start;
        while z < int_end && s.get_char(z) == '0'
            invariant
                int_start <= z <= int_end <= n,
                n == s@.len(),
                forall|t: int| int_start <= t < z ==> s@[t] == '0',
            decreases int_end - z,
        {
            z += 1;
        }
        let int_digits: String = if z == int_end {
            let r = String::from_str("0");
            proof {
                reveal_strlit("0");
                assert(r@ =~= seq!['0']);
            }
            r
        } else {
            digits_substring(s, z, int_end)
        };
        let frac_digits: String = if frac_start >= n {
            String::new()
        } else {
            digits_substring(s, frac_start, n)
        };
        let d = Dec { neg, int_digits, frac_digits };
        proof {
            lemma_accept(
                s@,
                body_start,
                int_start as int,
                int_end as int,
                frac_start as int,
                z as int,
                d@,
            );
        }
        Ok(d)
    }

    /// The number of fractional digits of the original text.
    pub fn precision(&self) -> (p: usize)
        ensures
            p == self@.frac_digits.len(),
    {
        self.frac_digits.as_str().unicode_len()
    }

    /// The canonical rendering, reproducing exactly the parsed precision.
    pub fn to_string(&self) -> (r: String)
        ensures
            r@ == dec_render(self@),
    {
        let mut out = String::new();
        if self.neg {
            proof {
                reveal_strlit("-");
                assert("-"@ =~= seq!['-']);
            }
            out.append("-");
        }
        out.append(self.int_digits.as_str());
        if !self.frac_digits.as_str().is_empty() {
            proof {
                reveal_strlit(".");
                assert("."@ =~= seq!['.']);
            }
            out.append(".");
            out.append(self.frac_digits.as_str());
        }
        proof {
            assert(out@ =~= dec_render(self@));
        }
        out
    }
}

/// How the sign prefix relates the whole text's parse to the parse of its
/// body.
proof fn lemma_body_dispatch(s: Seq<char>, body_start: int)
    requires
        s.len() > 0,
        body_start == 0 || body_start == 1,
        body_start == 1 ==> (s[0] == '-' || s[0] == '+'),
        body_start == 0 ==> !(s[0] == '-' || s[0] == '+'),
    ensures
        dec_parse(s) == dec_parse_body(s[0] == '-', s.subrange(body_start, s.len() as int)),
{
    let body = s.subrange(body_start, s.len() as int);
    if body_start == 1 {
        assert(body =~= s.skip(1));
    } else {
        assert(body =~= s);
    }
}

/// The scan stopped at a character that is neither a digit nor the first
/// point: no parse of the text exists.
proof fn lemma_reject(s: Seq<char>, body_start: int, int_start: int, i: int)
    requires
        0 <= body_start <= int_start <= i < s.len(),
        body_start == int_start,
        body_start == 0 || body_start == 1,
        s.len() > 0,
        body_start == 1 ==> (s[0] == '-' || s[0] == '+'),
        body_start == 0 ==> !(s[0] == '-' || s[0] == '+'),
        forall|t: int| int_start <= t < i ==> is_digit_char(#[trigger] s[t]),
        !is_digit_char(s[i]),
        s[i] != '.',
    ensures
        dec_parse(s) is None,
{
    lemma_body_dispatch(s, body_start);
    let body = s.subrange(body_start, s.len() as int);
    let bi = i - body_start;
    assert(body[bi] == s[i]);
    assert(!all_digits(body)) by {
        assert(!is_digit_char(body[bi]));
    }
    if exists|k: int| 0 <= k < body.len() && body[k] == '.' {
        let k = choose|k: int| 0 <= k < body.len() && body[k] == '.';
        let ip = body.subrange(0, k);
        let fp = body.subrange(k + 1, body.len() as int);
        if all_digits(ip) && all_digits(fp) {
            // the stopping character would sit in one of the digit-only parts
            if bi < k {
                assert(ip[bi] == s[i]);
            } else if bi > k {
                assert(fp[bi - k - 1] == s[i]);
            }
            assert(false);
        }
    }
}

/// A non-digit character after the point: no parse of the text exists.
proof fn lemma_reject_frac(s: Seq<char>, body_start: int, int_start: int, int_end: int, j: int)
    requires
        0 <= body_start <= int_start <= int_end < s.len(),
        body_start == int_start,
        body_start == 0 || body_start == 1,
        s.len() > 0,
        body_start == 1 ==> (s[0] == '-' || s[0] == '+'),
        body_start == 0 ==> !(s[0] == '-' || s[0] == '+'),
        forall|t: int| int_start <= t < int_end ==> is_digit_char(#[trigger] s[t]),
        s[int_end] == '.',
        int_end < j < s.len(),
        forall|t: int| int_end + 1 <= t < j ==> is_digit_char(#[trigger] s[t]),
        !is_digit_char(s[j]),
    ensures
        dec_parse(s) is None,
{
    lemma_body_dispatch(s, body_start);
    let body = s.subrange(body_start, s.len() as int);
    let dot = int_end - body_start;
    assert(body[dot] == '.');
    assert(!all_digits(body)) by {
        assert(!is_digit_char(body[dot]));
    }
    let k = choose|k: int| 0 <= k < body.len() && body[k] == '.';
    let ip = body.subrange(0, k);
    let fp = body.subrange(k + 1, body.len() as int);
    if all_digits(ip) && all_digits(fp) {
        lemma_dot_unique(body, k, dot);
        assert(fp[j - body_start - k - 1] == s[j]);
        assert(false);
    }
}

/// The text held no digit at all: no parse of the text exists.
proof fn lemma_reject_empty(s: Seq<char>, body_start: int, int_start: int, int_end: int)
    requires
        0 <= body_start <= s.len(),
        s.len() > 0,
        body_start == int_start,
        int_start == int_end,
        body_start == 0 || body_start == 1,
        body_start == 1 ==> (s[0] == '-' || s[0] == '+'),
        body_start == 0 ==> !(s[0] == '-' || s[0] == '+'),
        int_end < s.len() ==> s[int_end] == '.',
        int_end < s.len() ==> int_end + 1 >= s.len(),
    ensures
        dec_parse(s) is None,
{
    lemma_body_dispatch(s, body_start);
    let body = s.subrange(body_start, s.len() as int);
    if body.len() == 0 {
        assert(dec_parse(s) is None);
    } else {
        // the body is exactly the single character "."
        assert(body[0] == s[int_end]);
        assert(body.len() == 1);
        assert(!all_digits(body)) by {
            assert(!is_digit_char(body[0]));
        }
        if exists|k: int| 0 <= k < body.len() && body[k] == '.' {
            let k = choose|k: int| 0 <= k < body.len() && body[k] == '.';
            assert(k == 0);
            let ip = body.subrange(0, k);
            let fp = body.subrange(k + 1, body.len() as int);
            assert(ip.len() + fp.len() == 0);
        }
    }
}

/// The scan succeeded: the built value is the parse of the text.
proof fn lemma_accept(
    s: Seq<char>,
    body_start: int,
    int_start: int,
    int_end: int,
    frac_start: int,
    z: int,
    d: DecV,
)
    requires
        0 <= body_start <= int_start <= int_end <= s.len(),
        s.len() > 0,
        body_start == int_start,
        body_start == 0 || body_start == 1,
        body_start == 1 ==> (s[0] == '-' || s[0] == '+'),
        body_start == 0 ==> !(s[0] == '-' || s[0] == '+'),
        d.neg == (s[0] == '-'),
        forall|t: int| int_start <= t < int_end ==> is_digit_char(#[trigger] s[t]),
        int_end < s.len() ==> s[int_end] == '.',
        int_end < s.len() ==> frac_start == int_end + 1,
        int_end >= s.len() ==> frac_start == s.len(),
        forall|t: int| frac_start <= t < s.len() ==> is_digit_char(#[trigger] s[t]),
        !(int_end == int_start && frac_start >= s.len()),
        int_start <= z <= int_end,
        forall|t: int| int_start <= t < z ==> s[t] == '0',
        z < int_end ==> s[z] != '0',
        d.int_digits == if z == int_end {
            seq!['0']
        } else {
            s.subrange(z, int_end)
        },
        d.frac_digits == if frac_start >= s.len() {
            Seq::<char>::empty()
        } else {
            s.subrange(frac_start, s.len() as int)
        },
    ensures
        dec_parse(s) == Some(d),
        dec_wf(d),
{
    lemma_body_dispatch(s, body_start);
    let body = s.subrange(body_start, s.len() as int);
    let raw_int = s.subrange(int_start, int_end);
    lemma_strip_run(s, int_start, int_end, z);
    if int_end >= s.len() {
        // no point: the whole body is the digit run
        assert(body =~= raw_int);
        assert(all_digits(body));
        assert(body.len() >= 1);
        assert(dec_parse_body(d.neg, body) == Some(DecV {
            neg: d.neg,
            int_digits: norm_int(body),
            frac_digits: Seq::empty(),
        }));
        assert(norm_int(body) == d.int_digits);
    } else {
        let dot = int_end - body_start;
        assert(body[dot] == '.');
        assert(!all_digits(body)) by {
            assert(!is_digit_char(body[dot]));
        }
        assert(exists|k: int| 0 <= k < body.len() && body[k] == '.') by {
            assert(body[dot] == '.');
        }
        let ip = body.subrange(0, dot);
        let fp = body.subrange(dot + 1, body.len() as int);
        assert(ip =~= raw_int);
        assert(fp =~= s.subrange(frac_start, s.len() as int));
        assert(all_digits(ip));
        assert(all_digits(fp));
        let k = choose|k: int| 0 <= k < body.len() && body[k] == '.';
        lemma_dot_unique(body, dot, k);
        assert(ip.len() + fp.len() >= 1);
        assert(norm_int(ip) == d.int_digits);
        if fp.len() == 0 {
            assert(d.frac_digits =~= fp);
        }
    }
    assert(dec_wf(d));
}

/// Stripping leading zeros from a digit run stops exactly at the first
/// non-zero digit.
proof fn lemma_strip_run(s: Seq<char>, int_start: int, int_end: int, z: int)
    requires
        0 <= int_start <= z <= int_end <= s.len(),
        forall|t: int| int_start <= t < int_end ==> is_digit_char(#[trigger] s[t]),
        forall|t: int| int_start <= t < z ==> s[t] == '0',
        z < int_end ==> s[z] != '0',
    ensures
        norm_int(s.subrange(int_start, int_end)) == if z == int_end {
            seq!['0']
        } else {
            s.subrange(z, int_end)
        },
    decreases z - int_start,
{
    let run = s.subrange(int_start, int_end);
    if int_start == z {
        if run.len() == 0 {
            assert(strip_leading_zeros(run) == run);
            assert(norm_int(run) =~= seq!['0']);
        } else {
            assert(run[0] == s[int_start]);
            assert(run[0] != '0');
            assert(strip_leading_zeros(run) == run);
        }
    } else {
        assert(run[0] == s[int_start]);
        assert(run[0] == '0');
        assert(run.skip(1) =~= s.subrange(int_start + 1, int_end));
        lemma_strip_run(s, int_start + 1, int_end, z);
    }
}

/// DECIMAL ROUND-TRIP. A text with an optional minus sign, a normalized
/// integer part, and a point followed by at least one fractional digit is
/// reproduced exactly by rendering its parse, trailing zeros included.
pub proof fn lemma_decimal_round_trip(s: Seq<char>)
    requires
        is_canonical_decimal_text(s),
    ensures
        dec_parse(s) matches Some(d) && dec_render(d) == s,
{
    let body = if s[0] == '-' {
        s.skip(1)
    } else {
        s
    };
    let k = choose|k: int| 0 <= k < body.len() && #[trigger] canonical_split(body, k);
    let ip = body.subrange(0, k);
    let fp = body.subrange(k + 1, body.len() as int);
    assert(!all_digits(body)) by {
        assert(!is_digit_char(body[k]));
    }
    if s[0] == '-' {
        assert(s.skip(1) =~= s.subrange(1, s.len() as int));
    }
    assert(exists|j: int| 0 <= j < body.len() && body[j] == '.') by {
        assert(body[k] == '.');
    }
    let j = choose|j: int| 0 <= j < body.len() && body[j] == '.';
    lemma_dot_unique(body, k, j);
    lemma_norm_identity(ip);
    let d = dec_parse(s)->Some_0;
    assert(d.int_digits == ip);
    assert(d.frac_digits == fp);
    assert(d.neg == (s[0] == '-'));
    assert(dec_render(d) =~= s);
}

/// Whether a split point of the body makes the text canonical: digits on both
/// sides of the point, a nonempty integer part without a leading zero, and a
/// nonempty fraction.
pub open spec fn canonical_split(body: Seq<char>, k: int) -> bool {
    &&& 0 <= k < body.len()
    &&& body[k] == '.'
    &&& 1 <= k
    &&& k + 1 < body.len()
    &&& all_digits(body.subrange(0, k))
    &&& all_digits(body.subrange(k + 1, body.len() as int))
    &&& (body[0] == '0' ==> k == 1)
}

/// A canonical decimal text: an optional minus sign, an integer part with no
/// leading zero, and a point followed by at least one digit.
pub open spec fn is_canonical_decimal_text(s: Seq<char>) -> bool {
    &&& s.len() > 0
    &&& {
        let body = if s[0] == '-' {
            s.skip(1)
        } else {
            s
        };
        exists|k: int| 0 <= k < body.len() && #[trigger] canonical_split(body, k)
    }
}

} // verus!
