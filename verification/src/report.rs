//! Parsing of the resource-measurement report.
//!
//! The measurement wrapper writes a small text file holding two
//! whitespace-separated fields: elapsed wall time in seconds, as digits with
//! an optional fraction, and peak memory as an integer in the machine's
//! reported unit. The parser turns that into integral microseconds and a
//! memory count; fractional digits past the microsecond are dropped. A
//! report in any other shape, or one whose values do not fit the result
//! type, is a parse failure, which the caller surfaces as an internal
//! fault.

use vstd::prelude::*;

verus! {

/// Elapsed time and peak memory read back from one run.
#[derive(Debug, PartialEq, Eq, Clone, Copy)]
pub struct ResourceUsage {
    /// Elapsed wall time, in microseconds.
    pub time_micros: u64,
    /// Peak memory, in the unit the measurement facility reports.
    pub memory: u64,
}

/// Why a report could not be read.
#[derive(Debug, PartialEq, Eq, Clone, Copy)]
pub enum ReportError {
    /// The text does not hold two fields of the expected shape.
    Malformed,
    /// The fields are well-formed but a value does not fit.
    TooLarge,
}

/// ASCII whitespace, as a field separator.
pub open spec fn is_ws(b: u8) -> bool {
    b == 32 || b == 9 || b == 10 || b == 13 || b == 12
}

/// An ASCII decimal digit.
pub open spec fn is_digit(b: u8) -> bool {
    48 <= b <= 57
}

/// Every byte is a digit.
pub open spec fn all_digits(t: Seq<u8>) -> bool {
    forall|i: int| 0 <= i < t.len() ==> is_digit(#[trigger] t[i])
}

/// The first index at or past `i` holding a non-whitespace byte, or the
/// end.
pub open spec fn skip_ws(s: Seq<u8>, i: int) -> int
    recommends
        0 <= i <= s.len(),
    decreases s.len() - i when 0 <= i <= s.len()
{
    if i < s.len() && is_ws(s[i]) {
        skip_ws(s, i + 1)
    } else {
        i
    }
}

/// The first index at or past `i` holding whitespace, or the end.
pub open spec fn token_end(s: Seq<u8>, i: int) -> int
    recommends
        0 <= i <= s.len(),
    decreases s.len() - i when 0 <= i <= s.len()
{
    if i < s.len() && !is_ws(s[i]) {
        token_end(s, i + 1)
    } else {
        i
    }
}

/// The first index at or past `i` holding a dot, or the end.
pub open spec fn find_dot(t: Seq<u8>, i: int) -> int
    recommends
        0 <= i <= t.len(),
    decreases t.len() - i when 0 <= i <= t.len()
{
    if i < t.len() && t[i] != 46 {
        find_dot(t, i + 1)
    } else {
        i
    }
}

/// The value of a digit string, most significant first.
pub open spec fn dec_val(t: Seq<u8>) -> int
    decreases t.len(),
{
    if t.len() == 0 {
        0
    } else {
        dec_val(t.drop_last()) * 10 + (t.last() - 48)
    }
}

/// Ten to the `n`th.
pub open spec fn pow10(n: nat) -> int
    decreases n,
{
    if n == 0 {
        1
    } else {
        10 * pow10((n - 1) as nat)
    }
}

/// The fraction digits, truncated or zero-padded to microsecond precision.
pub open spec fn pad6(f: Seq<u8>) -> Seq<u8> {
    Seq::new(6, |i: int| if i < f.len() { f[i] } else { 48 })
}

/// A seconds field: digits with at most one dot and a digit on at least one
/// side of it.
pub open spec fn seconds_token_ok(t: Seq<u8>) -> bool {
    let d = find_dot(t, 0);
    &&& t.len() > 0
    &&& all_digits(t.subrange(0, d))
    &&& (d < t.len() ==> all_digits(t.subrange(d + 1, t.len() as int)))
    &&& (d > 0 || d + 1 < t.len())
}

/// The microseconds a well-formed seconds field denotes.
pub open spec fn seconds_micros(t: Seq<u8>) -> int {
    let d = find_dot(t, 0);
    let frac = if d < t.len() {
        t.subrange(d + 1, t.len() as int)
    } else {
        Seq::<u8>::empty()
    };
    dec_val(t.subrange(0, d)) * 1000000 + dec_val(pad6(frac))
}

/// The report's two fields, if it has at least two; text past the second
/// field is ignored.
pub open spec fn report_fields(s: Seq<u8>) -> Option<(Seq<u8>, Seq<u8>)> {
    let a = skip_ws(s, 0);
    let b = token_end(s, a);
    let c = skip_ws(s, b);
    let d = token_end(s, c);
    if a == b || c == d {
        None
    } else {
        Some((s.subrange(a, b), s.subrange(c, d)))
    }
}

/// What a report denotes: microseconds and a memory count, or nothing if it
/// is not two well-formed fields.
pub open spec fn spec_parse_report(s: Seq<u8>) -> Option<(int, int)> {
    match report_fields(s) {
        None => None,
        Some((t, m)) => {
            if seconds_token_ok(t) && m.len() > 0 && all_digits(m) {
                Some((seconds_micros(t), dec_val(m)))
            } else {
                None
            }
        },
    }
}

/// A scan never moves backwards nor past the end.
proof fn lemma_scan_bounds(s: Seq<u8>, i: int)
    requires
        0 <= i <= s.len(),
    ensures
        i <= skip_ws(s, i) <= s.len(),
        i <= token_end(s, i) <= s.len(),
        i <= find_dot(s, i) <= s.len(),
    decreases s.len() - i,
{
    if i < s.len() {
        lemma_scan_bounds(s, i + 1);
    }
}

/// A digit string's value is at least zero.
proof fn lemma_dec_val_nonneg(t: Seq<u8>)
    requires
        all_digits(t),
    ensures
        dec_val(t) >= 0,
    decreases t.len(),
{
    if t.len() > 0 {
        assert(all_digits(t.drop_last()));
        lemma_dec_val_nonneg(t.drop_last());
    }
}

/// A digit string's value is below ten to its length.
proof fn lemma_dec_val_bound(t: Seq<u8>)
    requires
        all_digits(t),
    ensures
        0 <= dec_val(t) < pow10(t.len()),
    decreases t.len(),
{
    if t.len() > 0 {
        assert(all_digits(t.drop_last()));
        lemma_dec_val_bound(t.drop_last());
    }
}

/// Extending a digit string never shrinks its value.
proof fn lemma_dec_val_prefix_mono(t: Seq<u8>, i: int)
    requires
        all_digits(t),
        0 <= i <= t.len(),
    ensures
        dec_val(t.take(i)) <= dec_val(t),
    decreases t.len() - i,
{
    if i < t.len() {
        lemma_dec_val_prefix_mono(t, i + 1);
        assert(t.take(i + 1).drop_last() =~= t.take(i));
        assert(all_digits(t.take(i)));
        lemma_dec_val_nonneg(t.take(i));
        assert(dec_val(t.take(i + 1)) == dec_val(t.take(i)) * 10 + (t[i] - 48));
    } else {
        assert(t.take(i) =~= t);
    }
}

/// How one parse outcome relates to the digit string it read.
enum DigitsOutcome {
    Val(u64),
    NotDigits,
    TooBig,
}

/// Reads a digit string's value, telling a malformed string apart from one
/// whose value does not fit.
fn parse_digits(t: &[u8]) -> (r: DigitsOutcome)
    ensures
        match r {
            DigitsOutcome::Val(v) => all_digits(t@) && v as int == dec_val(t@),
            DigitsOutcome::NotDigits => !all_digits(t@),
            DigitsOutcome::TooBig => all_digits(t@) && dec_val(t@) > u64::MAX,
        },
{
    let n = t.len();
    let mut acc: u64 = 0;
    let mut i: usize = 0;
    while i < n
        invariant
            n == t@.len(),
            i <= n,
            all_digits(t@.take(i as int)),
            acc as int == dec_val(t@.take(i as int)),
        decreases n - i,
    {
        let b = t[i];
        if b < 48 || b > 57 {
            return DigitsOutcome::NotDigits;
        }
        proof {
            assert(t@.take(i as int + 1).drop_last() =~= t@.take(i as int));
            assert(t@.take(i as int + 1).last() == t@[i as int]);
            assert forall|j: int| 0 <= j < i + 1 implies is_digit(
                #[trigger] t@.take(i as int + 1)[j],
            ) by {
                if j < i {
                    assert(t@.take(i as int)[j] == t@.take(i as int + 1)[j]);
                }
            }
        }
        let step = match acc.checked_mul(10) {
            Some(x) => x.checked_add((b - 48) as u64),
            None => None,
        };
        match step {
            Some(v) => {
                acc = v;
            },
            None => {
                proof {
                    lemma_dec_val_nonneg(t@.take(i as int));
                }
                // the value read so far is already past the limit; scan the
                // rest only to tell digits from garbage
                let ghost k = i + 1;
                assert(dec_val(t@.take(k as int)) > u64::MAX);
                let mut j: usize = i + 1;
                while j < n
                    invariant
                        n == t@.len(),
                        k <= j <= n,
                        all_digits(t@.take(j as int)),
                        dec_val(t@.take(k as int)) > u64::MAX,
                        k <= n,
                    decreases n - j,
                {
                    let c = t[j];
                    if c < 48 || c > 57 {
                        return DigitsOutcome::NotDigits;
                    }
                    proof {
                        assert(t@.take(j as int + 1).drop_last() =~= t@.take(j as int));
                        assert(t@.take(j as int + 1).last() == t@[j as int]);
                        assert forall|j2: int| 0 <= j2 < j + 1 implies is_digit(
                            #[trigger] t@.take(j as int + 1)[j2],
                        ) by {
                            if j2 < j {
                                assert(t@.take(j as int)[j2] == t@.take(j as int + 1)[j2]);
                            }
                        }
                    }
                    j += 1;
                }
                proof {
                    assert(t@.take(n as int) =~= t@);
                    lemma_dec_val_prefix_mono(t@, k as int);
                }
                return DigitsOutcome::TooBig;
            },
        }
        i += 1;
    }
    proof {
        assert(t@.take(n as int) =~= t@);
    }
    DigitsOutcome::Val(acc)
}

/// Reads the fraction digits to microsecond precision; digits past the
/// sixth are dropped.
fn parse_frac6(f: &[u8]) -> (r: u64)
    requires
        all_digits(f@),
    ensures
        r as int == dec_val(pad6(f@)),
        r < 1000000,
{
    let mut acc: u64 = 0;
    let mut k: usize = 0;
    while k < 6
        invariant
            all_digits(f@),
            k <= 6,
            acc as int == dec_val(pad6(f@).take(k as int)),
            acc < pow10(k as nat),
        decreases 6 - k,
    {
        let d: u64 = if k < f.len() {
            (f[k] - 48) as u64
        } else {
            0
        };
        proof {
            assert(pad6(f@).take(k as int + 1).drop_last() =~= pad6(f@).take(k as int));
            assert(pad6(f@).take(k as int + 1).last() == pad6(f@)[k as int]);
            lemma_pow10_small();
            assert(pow10(k as nat + 1) == 10 * pow10(k as nat));
            assert(pow10(k as nat) <= pow10(5)) by {
                lemma_pow10_mono(k as nat, 5);
            }
        }
        acc = acc * 10 + d;
        k += 1;
    }
    proof {
        assert(pad6(f@).take(6) =~= pad6(f@));
        lemma_pow10_small();
    }
    acc
}

/// The first few powers of ten, spelled out.
proof fn lemma_pow10_small()
    ensures
        pow10(0) == 1,
        pow10(1) == 10,
        pow10(2) == 100,
        pow10(3) == 1000,
        pow10(4) == 10000,
        pow10(5) == 100000,
        pow10(6) == 1000000,
{
    assert(pow10(0) == 1);
    assert(pow10(1) == 10);
    assert(pow10(2) == 100);
    assert(pow10(3) == 1000);
    assert(pow10(4) == 10000);
    assert(pow10(5) == 100000);
    assert(pow10(6) == 1000000);
}

/// Ten to the `n`th is positive.
proof fn lemma_pow10_pos(n: nat)
    ensures
        pow10(n) > 0,
    decreases n,
{
    if n > 0 {
        lemma_pow10_pos((n - 1) as nat);
    }
}

/// Ten to the `n`th grows with `n`.
proof fn lemma_pow10_mono(a: nat, b: nat)
    requires
        a <= b,
    ensures
        0 < pow10(a) <= pow10(b),
    decreases b,
{
    lemma_pow10_pos(a);
    if a < b {
        lemma_pow10_mono(a, (b - 1) as nat);
    }
}

/// Parses a resource report: the elapsed seconds become microseconds, the
/// memory field a count. `Ok` exactly when the report is two well-formed
/// fields whose values fit; a malformed report and an oversized value are
/// told apart.
pub fn parse_report(s: &[u8]) -> (r: Result<ResourceUsage, ReportError>)
    ensures
        match r {
            Ok(u) => spec_parse_report(s@) == Some((u.time_micros as int, u.memory as int)),
            Err(ReportError::Malformed) => spec_parse_report(s@) is None,
            Err(ReportError::TooLarge) => spec_parse_report(s@) matches Some(v) && (v.0
                > u64::MAX || v.1 > u64::MAX),
        },
{
    let n = s.len();
    proof {
        lemma_scan_bounds(s@, 0);
    }
    let mut a: usize = 0;
    while a < n && is_ws_byte(s[a])
        invariant
            n == s@.len(),
            0 <= a <= n,
            skip_ws(s@, 0) == skip_ws(s@, a as int),
        decreases n - a,
    {
        a += 1;
    }
    let mut b: usize = a;
    while b < n && !is_ws_byte(s[b])
        invariant
            n == s@.len(),
            a <= b <= n,
            token_end(s@, a as int) == token_end(s@, b as int),
        decreases n - b,
    {
        b += 1;
    }
    let mut c: usize = b;
    while c < n && is_ws_byte(s[c])
        invariant
            n == s@.len(),
            b <= c <= n,
            skip_ws(s@, b as int) == skip_ws(s@, c as int),
        decreases n - c,
    {
        c += 1;
    }
    let mut d: usize = c;
    while d < n && !is_ws_byte(s[d])
        invariant
            n == s@.len(),
            c <= d <= n,
            token_end(s@, c as int) == token_end(s@, d as int),
        decreases n - d,
    {
        d += 1;
    }
    if a == b || c == d {
        return Err(ReportError::Malformed);
    }

    let ghost t = s@.subrange(a as int, b as int);
    let ghost m = s@.subrange(c as int, d as int);

    // the memory field: digits only
    let memory: u64;
    match parse_digits(&s[c..d]) {
        DigitsOutcome::Val(v) => {
            memory = v;
        },
        DigitsOutcome::NotDigits => {
            return Err(ReportError::Malformed);
        },
        DigitsOutcome::TooBig => {
            if seconds_ok_exec(s, a, b) {
                return Err(ReportError::TooLarge);
            } else {
                return Err(ReportError::Malformed);
            }
        },
    }

    // the seconds field: split at the first dot
    let mut e: usize = a;
    while e < b && s[e] != 46
        invariant
            n == s@.len(),
            a <= e <= b,
            b <= n,
            find_dot(t, 0) == find_dot(t, (e - a) as int),
            t == s@.subrange(a as int, b as int),
        decreases b - e,
    {
        proof {
            assert(t[(e - a) as int] == s@[e as int]);
        }
        e += 1;
    }
    proof {
        lemma_scan_bounds(t, 0);
        if e < b {
            assert(t[(e - a) as int] == s@[e as int]);
        }
        assert(find_dot(t, 0) == (e - a) as int);
    }
    proof {
        lemma_report_ok(s@, a as int, b as int, c as int, d as int);
        assert(t.subrange(0, (e - a) as int) =~= s@.subrange(a as int, e as int));
        if e < b {
            assert(t.subrange((e - a) as int + 1, t.len() as int) =~= s@.subrange(
                e as int + 1,
                b as int,
            ));
        }
    }
    if e == a && e + 1 >= b {
        // a lone dot, or an empty field, names no number
        return Err(ReportError::Malformed);
    }

    let ghost frac = if (e as int) < b as int {
        t.subrange((e - a) as int + 1, t.len() as int)
    } else {
        Seq::<u8>::empty()
    };

    let int_val: u64;
    match parse_digits(&s[a..e]) {
        DigitsOutcome::Val(v) => {
            int_val = v;
        },
        DigitsOutcome::NotDigits => {
            return Err(ReportError::Malformed);
        },
        DigitsOutcome::TooBig => {
            if seconds_ok_exec(s, a, b) {
                proof {
                    lemma_seconds_overflow(t, m);
                }
                return Err(ReportError::TooLarge);
            } else {
                return Err(ReportError::Malformed);
            }
        },
    }

    let frac_val: u64;
    if e < b {
        match parse_digits(&s[e + 1..b]) {
            DigitsOutcome::Val(_) => {},
            DigitsOutcome::NotDigits => {
                return Err(ReportError::Malformed);
            },
            DigitsOutcome::TooBig => {},
        }
        frac_val = parse_frac6(&s[e + 1..b]);
    } else {
        frac_val = parse_frac6(&s[b..b]);
        proof {
            assert(s@.subrange(b as int, b as int) =~= Seq::<u8>::empty());
            assert(pad6(Seq::<u8>::empty()) =~= pad6(s@.subrange(b as int, b as int)));
        }
    }
    proof {
        assert(seconds_token_ok(t));
        assert(frac_val as int == dec_val(pad6(frac)));
        lemma_dec_val_nonneg(pad6(frac));
        assert(seconds_micros(t) == dec_val(s@.subrange(a as int, e as int)) * 1000000 + dec_val(
            pad6(frac),
        ));
    }

    let time = match int_val.checked_mul(1000000) {
        Some(x) => x.checked_add(frac_val),
        None => None,
    };
    match time {
        Some(v) => Ok(ResourceUsage { time_micros: v, memory }),
        None => Err(ReportError::TooLarge),
    }
}

/// Whether a byte separates fields.
fn is_ws_byte(b: u8) -> (r: bool)
    ensures
        r == is_ws(b),
{
    b == 32 || b == 9 || b == 10 || b == 13 || b == 12
}

/// Checks the shape of the seconds field alone.
fn seconds_ok_exec(s: &[u8], a: usize, b: usize) -> (r: bool)
    requires
        a < b <= s@.len(),
    ensures
        r == seconds_token_ok(s@.subrange(a as int, b as int)),
{
    let ghost t = s@.subrange(a as int, b as int);
    let mut e: usize = a;
    while e < b && s[e] != 46
        invariant
            a <= e <= b,
            b <= s@.len(),
            find_dot(t, 0) == find_dot(t, (e - a) as int),
            t == s@.subrange(a as int, b as int),
        decreases b - e,
    {
        proof {
            assert(t[(e - a) as int] == s@[e as int]);
        }
        e += 1;
    }
    proof {
        lemma_scan_bounds(t, 0);
        if e < b {
            assert(t[(e - a) as int] == s@[e as int]);
        }
        assert(find_dot(t, 0) == (e - a) as int);
        assert(t.subrange(0, (e - a) as int) =~= s@.subrange(a as int, e as int));
        if e < b {
            assert(t.subrange((e - a) as int + 1, t.len() as int) =~= s@.subrange(
                e as int + 1,
                b as int,
            ));
        }
    }
    if e == a && e + 1 >= b {
        return false;
    }
    let ip = all_digits_exec(s, a, e);
    if !ip {
        return false;
    }
    if e < b {
        all_digits_exec(s, e + 1, b)
    } else {
        true
    }
}

/// Checks a byte range for digits only.
fn all_digits_exec(s: &[u8], from: usize, to: usize) -> (r: bool)
    requires
        from <= to <= s@.len(),
    ensures
        r == all_digits(s@.subrange(from as int, to as int)),
{
    let ghost t = s@.subrange(from as int, to as int);
    let mut i: usize = from;
    while i < to
        invariant
            from <= i <= to,
            to <= s@.len(),
            t == s@.subrange(from as int, to as int),
            forall|j: int| 0 <= j < i - from ==> is_digit(#[trigger] t[j]),
        decreases to - i,
    {
        let b = s[i];
        proof {
            assert(t[(i - from) as int] == s@[i as int]);
        }
        if b < 48 || b > 57 {
            return false;
        }
        i += 1;
    }
    true
}

/// If the integer digits already overflow, the whole report's time value
/// overflows.
proof fn lemma_seconds_overflow(t: Seq<u8>, m: Seq<u8>)
    requires
        seconds_token_ok(t),
        dec_val(t.subrange(0, find_dot(t, 0))) > u64::MAX,
    ensures
        seconds_micros(t) > u64::MAX,
{
    let d = find_dot(t, 0);
    let frac = if d < t.len() {
        t.subrange(d + 1, t.len() as int)
    } else {
        Seq::<u8>::empty()
    };
    assert(all_digits(pad6(frac)));
    lemma_dec_val_nonneg(pad6(frac));
}

/// Ties the scanned bounds back to what the report denotes.
proof fn lemma_report_ok(s: Seq<u8>, a: int, b: int, c: int, d: int)
    requires
        skip_ws(s, 0) == a,
        token_end(s, a) == b,
        skip_ws(s, b) == c,
        token_end(s, c) == d,
        a < b,
        c < d,
    ensures
        report_fields(s) == Some((s.subrange(a, b), s.subrange(c, d))),
{
}

} // verus!
