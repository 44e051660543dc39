//! Name splitting and the numeric transform library.
//!
//! Samples are `i64` values.  Sums, differences and products that leave the
//! representable range saturate at `i64::MIN` / `i64::MAX`; a difference
//! quotient with a zero run saturates by the sign of the rise, the analog of
//! the unbounded slope a chart would show at a vertical step.  Division
//! truncates toward zero, as the machine division does.

use vstd::arithmetic::div_mod::{lemma_div_nonincreasing, lemma_div_pos_is_pos};
use vstd::prelude::*;
use vstd::string::*;

use crate::diag::{ErrV, Error};

verus! {

/// Clamps a mathematical integer into the `i64` range.
pub open spec fn sat64(v: int) -> int {
    if v > i64::MAX {
        i64::MAX as int
    } else if v < i64::MIN {
        i64::MIN as int
    } else {
        v
    }
}

/// Division truncating toward zero, defined for `d != 0`.
pub open spec fn trunc_div(x: int, d: int) -> int {
    if x == 0 {
        0
    } else if x > 0 && d > 0 {
        x / d
    } else if x < 0 && d < 0 {
        (x * -1) / (d * -1)
    } else if x < 0 {
        ((x * -1) / d) * -1
    } else {
        (x / (d * -1)) * -1
    }
}

/// The quotient of two values in `i64` range never falls below `i64::MIN`,
/// and exceeds `i64::MAX` only for `i64::MIN / -1`.
pub proof fn lemma_trunc_div_range(x: int, d: int)
    requires
        i64::MIN <= x <= i64::MAX,
        d != 0,
    ensures
        i64::MIN <= trunc_div(x, d) <= i64::MAX + 1,
{
    if x > 0 && d > 0 {
        lemma_div_pos_is_pos(x, d);
        lemma_div_nonincreasing(x, d);
    } else if x < 0 && d < 0 {
        lemma_div_pos_is_pos(x * -1, d * -1);
        lemma_div_nonincreasing(x * -1, d * -1);
    } else if x < 0 && d > 0 {
        lemma_div_pos_is_pos(x * -1, d);
        lemma_div_nonincreasing(x * -1, d);
    } else if x > 0 && d < 0 {
        lemma_div_pos_is_pos(x, d * -1);
        lemma_div_nonincreasing(x, d * -1);
    }
}

/// The slope of a rise `dy` over a run `dx`: the truncated quotient, clamped
/// into range.  A zero run saturates by the sign of the rise.
pub open spec fn slope(dy: int, dx: int) -> int {
    if dx == 0 {
        if dy > 0 {
            i64::MAX as int
        } else if dy < 0 {
            i64::MIN as int
        } else {
            0
        }
    } else {
        sat64(trunc_div(dy, dx))
    }
}

/// Saturating addition.
pub fn sat_add(a: i64, b: i64) -> (r: i64)
    ensures
        r as int == sat64(a + b),
{
    match a.checked_add(b) {
        Some(v) => v,
        None => if b > 0 {
            i64::MAX
        } else {
            i64::MIN
        },
    }
}

/// Saturating subtraction.
pub fn sat_sub(a: i64, b: i64) -> (r: i64)
    ensures
        r as int == sat64(a - b),
{
    match a.checked_sub(b) {
        Some(v) => v,
        None => if b < 0 {
            i64::MAX
        } else {
            i64::MIN
        },
    }
}

/// Saturating multiplication.
pub fn sat_mul(a: i64, b: i64) -> (r: i64)
    ensures
        r as int == sat64(a * b),
{
    match a.checked_mul(b) {
        Some(v) => v,
        None => {
            proof {
                assert(a != 0 && b != 0) by (nonlinear_arith)
                    requires
                        a * b > i64::MAX || a * b < i64::MIN,
                ;
                assert((a > 0) == (b > 0) ==> a * b > 0) by (nonlinear_arith)
                    requires
                        a != 0 && b != 0,
                ;
                assert((a > 0) != (b > 0) ==> a * b < 0) by (nonlinear_arith)
                    requires
                        a != 0 && b != 0,
                ;
            }
            if (a > 0) == (b > 0) {
                i64::MAX
            } else {
                i64::MIN
            }
        },
    }
}

/// Halves a value, truncating toward zero.
pub fn half(a: i64) -> (r: i64)
    ensures
        r as int == trunc_div(a as int, 2),
{
    match a.checked_div(2) {
        Some(v) => v,
        None => 0,
    }
}

/// The slope of `dy` over `dx`, per `slope`.
pub fn slope_div(dy: i64, dx: i64) -> (r: i64)
    ensures
        r as int == slope(dy as int, dx as int),
{
    if dx == 0 {
        if dy > 0 {
            i64::MAX
        } else if dy < 0 {
            i64::MIN
        } else {
            0
        }
    } else {
        match dy.checked_div(dx) {
            Some(v) => v,
            None => {
                proof {
                    lemma_trunc_div_range(dy as int, dx as int);
                }
                i64::MAX
            },
        }
    }
}

/// The x midpoint of two adjacent points.
pub open spec fn mid_x(x1: i64, x2: i64) -> int {
    sat64(trunc_div(sat64(x1 + x2), 2))
}

/// One step of the finite-difference derivative.
pub open spec fn diff_pt(p: (i64, i64), q: (i64, i64)) -> (i64, i64) {
    (mid_x(p.0, q.0) as i64, slope(sat64(q.1 - p.1), sat64(q.0 - p.0)) as i64)
}

/// One step of the successive difference.
pub open spec fn delta_pt(p: (i64, i64), q: (i64, i64)) -> (i64, i64) {
    (mid_x(p.0, q.0) as i64, sat64(q.1 - p.1) as i64)
}

/// The trapezoid area over one interval.
pub open spec fn area(p: (i64, i64), q: (i64, i64)) -> int {
    sat64(sat64(q.0 - p.0) * sat64(trunc_div(sat64(p.1 + q.1), 2)))
}

/// Points `(i, y_i)` over a synthetic index axis.
pub open spec fn fake_pts(d: Seq<i64>) -> Seq<(i64, i64)> {
    Seq::new(d.len(), |i: int| (i as i64, d[i]))
}

/// Points pairing two equal-length sequences.
pub open spec fn bound_pts(x: Seq<i64>, y: Seq<i64>) -> Seq<(i64, i64)> {
    Seq::new(x.len(), |i: int| (x[i], y[i]))
}

/// The finite-difference derivative of a point sequence.
pub open spec fn diff_pts(s: Seq<(i64, i64)>) -> Seq<(i64, i64)> {
    if s.len() == 0 {
        Seq::empty()
    } else {
        Seq::new((s.len() - 1) as nat, |i: int| diff_pt(s[i], s[i + 1]))
    }
}

/// The successive difference of a point sequence.
pub open spec fn delta_pts(s: Seq<(i64, i64)>) -> Seq<(i64, i64)> {
    if s.len() == 0 {
        Seq::empty()
    } else {
        Seq::new((s.len() - 1) as nat, |i: int| delta_pt(s[i], s[i + 1]))
    }
}

/// The running trapezoid-rule area over the first `n` intervals.
pub open spec fn integ_total(s: Seq<(i64, i64)>, n: int) -> int
    decreases n,
{
    if n <= 0 {
        0
    } else {
        sat64(integ_total(s, n - 1) + area(s[n - 1], s[n]))
    }
}

/// The cumulative integral series: the running area at each left endpoint.
pub open spec fn integ_pts(s: Seq<(i64, i64)>) -> Seq<(i64, i64)> {
    if s.len() == 0 {
        Seq::empty()
    } else {
        Seq::new((s.len() - 1) as nat, |i: int| (s[i].0, integ_total(s, i + 1) as i64))
    }
}

/// Builds the synthetic index axis: each sample at its row index.
pub fn fake_x_axis(data: &Vec<i64>) -> (points: Vec<(i64, i64)>)
    requires
        data@.len() <= i64::MAX,
    ensures
        points@ == fake_pts(data@),
{
    let mut points: Vec<(i64, i64)> = Vec::new();
    let mut i: usize = 0;
    while i < data.len()
        invariant
            i <= data@.len(),
            data@.len() <= i64::MAX,
            points@ == fake_pts(data@).take(i as int),
        decreases data@.len() - i,
    {
        points.push((i as i64, data[i]));
        proof {
            assert(fake_pts(data@).take(i + 1) =~= fake_pts(data@).take(i as int).push(
                (i as i64, data@[i as int]),
            ));
        }
        i = i + 1;
    }
    proof {
        assert(fake_pts(data@).take(data@.len() as int) =~= fake_pts(data@));
    }
    points
}

/// Pairs each sample with its axis value.  The axis and the channel must
/// agree on sample count; a mismatch is a fatal error.
pub fn bind_axis(x: &Vec<i64>, y: &Vec<i64>) -> (r: Result<Vec<(i64, i64)>, Error>)
    ensures
        match r {
            Ok(points) => x@.len() == y@.len() && points@ == bound_pts(x@, y@),
            Err(e) => x@.len() != y@.len() && e@ == (ErrV::LengthMismatch {
                axis_len: x@.len(),
                data_len: y@.len(),
            }),
        },
{
    if x.len() != y.len() {
        return Err(Error::LengthMismatch { axis_len: x.len(), data_len: y.len() });
    }
    let mut points: Vec<(i64, i64)> = Vec::new();
    let mut i: usize = 0;
    while i < x.len()
        invariant
            i <= x@.len(),
            x@.len() == y@.len(),
            points@ == bound_pts(x@, y@).take(i as int),
        decreases x@.len() - i,
    {
        points.push((x[i], y[i]));
        proof {
            assert(bound_pts(x@, y@).take(i + 1) =~= bound_pts(x@, y@).take(i as int).push(
                (x@[i as int], y@[i as int]),
            ));
        }
        i = i + 1;
    }
    proof {
        assert(bound_pts(x@, y@).take(x@.len() as int) =~= bound_pts(x@, y@));
    }
    Ok(points)
}

/// The finite-difference derivative: for each adjacent pair, the midpoint x
/// and the slope of the segment.  An n-point series yields n-1 points.
pub fn differention(orig: &Vec<(i64, i64)>) -> (out: Vec<(i64, i64)>)
    requires
        orig@.len() >= 1,
    ensures
        out@ == diff_pts(orig@),
        out@.len() == orig@.len() - 1,
{
    let mut out: Vec<(i64, i64)> = Vec::new();
    let mut i: usize = 0;
    while i < orig.len() - 1
        invariant
            orig@.len() >= 1,
            i <= orig@.len() - 1,
            out@ == diff_pts(orig@).take(i as int),
        decreases orig@.len() - 1 - i,
    {
        let (x1, y1) = orig[i];
        let (x2, y2) = orig[i + 1];
        let x = half(sat_add(x1, x2));
        let s = slope_div(sat_sub(y2, y1), sat_sub(x2, x1));
        out.push((x, s));
        proof {
            assert(diff_pts(orig@).take(i + 1) =~= diff_pts(orig@).take(i as int).push(
                diff_pt(orig@[i as int], orig@[i + 1]),
            ));
        }
        i = i + 1;
    }
    proof {
        assert(diff_pts(orig@).take(orig@.len() - 1) =~= diff_pts(orig@));
    }
    out
}

/// The successive difference: for each adjacent pair, the midpoint x and the
/// raw rise.  An n-point series yields n-1 points.
pub fn delta(orig: &Vec<(i64, i64)>) -> (out: Vec<(i64, i64)>)
    requires
        orig@.len() >= 1,
    ensures
        out@ == delta_pts(orig@),
        out@.len() == orig@.len() - 1,
{
    let mut out: Vec<(i64, i64)> = Vec::new();
    let mut i: usize = 0;
    while i < orig.len() - 1
        invariant
            orig@.len() >= 1,
            i <= orig@.len() - 1,
            out@ == delta_pts(orig@).take(i as int),
        decreases orig@.len() - 1 - i,
    {
        let (x1, y1) = orig[i];
        let (x2, y2) = orig[i + 1];
        let x = half(sat_add(x1, x2));
        let d = sat_sub(y2, y1);
        out.push((x, d));
        proof {
            assert(delta_pts(orig@).take(i + 1) =~= delta_pts(orig@).take(i as int).push(
                delta_pt(orig@[i as int], orig@[i + 1]),
            ));
        }
        i = i + 1;
    }
    proof {
        assert(delta_pts(orig@).take(orig@.len() - 1) =~= delta_pts(orig@));
    }
    out
}

/// Trapezoid-rule integration: the running cumulative area emitted at each
/// left endpoint, together with the total area.  The last cumulative value
/// always equals the returned total.
pub fn integration(orig: &Vec<(i64, i64)>) -> (r: (Vec<(i64, i64)>, i64))
    requires
        orig@.len() >= 1,
    ensures
        r.0@ == integ_pts(orig@),
        r.0@.len() == orig@.len() - 1,
        r.1 as int == integ_total(orig@, orig@.len() - 1),
        r.0@.len() > 0 ==> r.0@.last().1 == r.1,
{
    let mut out: Vec<(i64, i64)> = Vec::new();
    let mut total_area: i64 = 0;
    let mut i: usize = 1;
    while i < orig.len()
        invariant
            orig@.len() >= 1,
            1 <= i <= orig@.len(),
            total_area as int == integ_total(orig@, i - 1),
            out@ == integ_pts(orig@).take(i - 1),
        decreases orig@.len() - i,
    {
        let (x1, y1) = orig[i - 1];
        let (x2, y2) = orig[i];
        let delta_x = sat_sub(x2, x1);
        let average = half(sat_add(y1, y2));
        let step = sat_mul(delta_x, average);
        total_area = sat_add(total_area, step);
        out.push((x1, total_area));
        proof {
            assert(integ_pts(orig@).take(i as int) =~= integ_pts(orig@).take(i - 1).push(
                (orig@[i - 1].0, integ_total(orig@, i as int) as i64),
            ));
        }
        i = i + 1;
    }
    proof {
        assert(integ_pts(orig@).take(orig@.len() - 1) =~= integ_pts(orig@));
    }
    (out, total_area)
}

/// The decimal digit character for `d` in `0..10`.
pub open spec fn dec_digit(d: int) -> char {
    ((d + 48) as u8) as char
}

/// The decimal text of a natural number, most significant digit first.
pub open spec fn dec_str(n: nat) -> Seq<char>
    decreases n,
{
    if n < 10 {
        seq![dec_digit(n as int)]
    } else {
        dec_str(n / 10).push(dec_digit((n % 10) as int))
    }
}

/// The decimal text of an integer, with a leading minus sign when negative.
pub open spec fn int_str(v: int) -> Seq<char> {
    if v < 0 {
        seq!['-'] + dec_str((v * -1) as nat)
    } else {
        dec_str(v as nat)
    }
}

/// The digit characters of `ds`, last digit first.
pub open spec fn rev_digits(ds: Seq<u8>) -> Seq<char> {
    Seq::new(ds.len(), |i: int| dec_digit(ds[ds.len() - 1 - i] as int))
}

/// The character sequences of a list of strings.
pub open spec fn str_views(s: Seq<String>) -> Seq<Seq<char>> {
    s.map_values(|x: String| x@)
}

/// Copies a sample vector.
pub fn copy_data(v: &Vec<i64>) -> (r: Vec<i64>)
    ensures
        r@ == v@,
{
    let mut r: Vec<i64> = Vec::new();
    let mut i: usize = 0;
    while i < v.len()
        invariant
            i <= v@.len(),
            r@ == v@.take(i as int),
        decreases v@.len() - i,
    {
        r.push(v[i]);
        proof {
            assert(v@.take(i + 1) =~= v@.take(i as int).push(v@[i as int]));
        }
        i = i + 1;
    }
    proof {
        assert(v@.take(v@.len() as int) =~= v@);
    }
    r
}

/// The one-character text of a decimal digit.
pub fn digit_str(d: u8) -> (s: &'static str)
    requires
        d < 10,
    ensures
        s@ =~= seq![dec_digit(d as int)],
{
    proof {
        reveal_strlit("0");
        reveal_strlit("1");
        reveal_strlit("2");
        reveal_strlit("3");
        reveal_strlit("4");
        reveal_strlit("5");
        reveal_strlit("6");
        reveal_strlit("7");
        reveal_strlit("8");
        reveal_strlit("9");
    }
    match d {
        0 => "0",
        1 => "1",
        2 => "2",
        3 => "3",
        4 => "4",
        5 => "5",
        6 => "6",
        7 => "7",
        8 => "8",
        _ => "9",
    }
}

/// Renders a natural number in decimal.
pub fn fmt_u64(n: u64) -> (s: String)
    ensures
        s@ == dec_str(n as nat),
{
    if n == 0 {
        let mut s = String::new();
        proof {
            reveal_strlit("0");
            assert(dec_str(0) =~= "0"@);
        }
        s.append("0");
        return s;
    }
    let mut digits: Vec<u8> = Vec::new();
    let mut m: u64 = n;
    while m > 0
        invariant
            n > 0,
            forall|j: int| 0 <= j < digits@.len() ==> digits@[j] < 10,
            if digits@.len() == 0 {
                m == n
            } else if m == 0 {
                dec_str(n as nat) == rev_digits(digits@)
            } else {
                dec_str(n as nat) == dec_str(m as nat) + rev_digits(digits@)
            },
        decreases m,
    {
        let d: u8 = (m % 10) as u8;
        let next: u64 = m / 10;
        let ghost ds_old = digits@;
        digits.push(d);
        proof {
            assert(rev_digits(digits@) =~= seq![dec_digit(d as int)] + rev_digits(ds_old));
            if m >= 10 {
                assert(dec_str(m as nat) =~= dec_str(next as nat) + (seq![dec_digit(d as int)]
                    + rev_digits(ds_old)).take(1));
                assert(dec_str(m as nat) + rev_digits(ds_old) =~= dec_str(next as nat)
                    + rev_digits(digits@));
            } else {
                assert(dec_str(m as nat) =~= seq![dec_digit(d as int)]);
                assert(dec_str(m as nat) + rev_digits(ds_old) =~= rev_digits(digits@));
            }
            if ds_old.len() == 0 {
                if next == 0 {
                    assert(dec_str(n as nat) =~= rev_digits(digits@));
                } else {
                    assert(dec_str(n as nat) =~= dec_str(next as nat) + rev_digits(digits@));
                }
            } else {
                if next == 0 {
                    assert(dec_str(n as nat) =~= rev_digits(digits@));
                } else {
                    assert(dec_str(n as nat) =~= dec_str(next as nat) + rev_digits(digits@));
                }
            }
        }
        m = next;
    }
    let mut s = String::new();
    let mut t: usize = 0;
    let k = digits.len();
    while t < k
        invariant
            t <= k,
            k == digits@.len(),
            forall|j: int| 0 <= j < digits@.len() ==> digits@[j] < 10,
            s@ == rev_digits(digits@).take(t as int),
        decreases k - t,
    {
        let d = digits[k - 1 - t];
        s.append(digit_str(d));
        proof {
            assert(rev_digits(digits@).take(t + 1) =~= rev_digits(digits@).take(t as int).push(
                dec_digit(digits@[k - 1 - t] as int),
            ));
        }
        t = t + 1;
    }
    proof {
        assert(rev_digits(digits@).take(k as int) =~= rev_digits(digits@));
    }
    s
}

/// Renders a signed value in decimal.
pub fn fmt_i64(v: i64) -> (s: String)
    ensures
        s@ == int_str(v as int),
{
    if v >= 0 {
        fmt_u64(v as u64)
    } else {
        let mag: u64 = if v == i64::MIN {
            9223372036854775808u64
        } else {
            (0 - v) as u64
        };
        let mut s = String::new();
        proof {
            reveal_strlit("-");
        }
        s.append("-");
        s.append(fmt_u64(mag).as_str());
        proof {
            assert(s@ =~= int_str(v as int));
        }
        s
    }
}

/// Compares two string slices by their character sequences.
pub fn str_eq_str(a: &str, b: &str) -> (r: bool)
    ensures
        r == (a@ == b@),
{
    let na = a.unicode_len();
    let nb = b.unicode_len();
    if na != nb {
        return false;
    }
    let mut i: usize = 0;
    while i < na
        invariant
            i <= na,
            na == a@.len(),
            na == b@.len(),
            forall|k: int| 0 <= k < i ==> a@[k] == b@[k],
        decreases na - i,
    {
        if a.get_char(i) != b.get_char(i) {
            return false;
        }
        i = i + 1;
    }
    proof {
        assert(a@ =~= b@);
    }
    true
}

/// The index of the last path separator in `s`, or `-1` if there is none.
pub open spec fn last_sep(s: Seq<char>) -> int
    decreases s.len(),
{
    if s.len() == 0 {
        -1
    } else if s.last() == '/' {
        s.len() - 1
    } else {
        last_sep(s.drop_last())
    }
}

/// The hierarchical prefix of a name: everything before the last separator,
/// or empty if there is none.
pub open spec fn folder_of(s: Seq<char>) -> Seq<char> {
    if last_sep(s) < 0 {
        Seq::empty()
    } else {
        s.subrange(0, last_sep(s))
    }
}

/// The display part of a name: everything after the last separator.
pub open spec fn base_of(s: Seq<char>) -> Seq<char> {
    if last_sep(s) < 0 {
        s
    } else {
        s.subrange(last_sep(s) + 1, s.len() as int)
    }
}

/// Splits a hierarchical name at its last path separator into the folder
/// prefix and the base name.  A name with no separator has an empty folder.
pub fn split_name(name: &str) -> (r: (String, String))
    ensures
        r.0@ == folder_of(name@),
        r.1@ == base_of(name@),
{
    let n = name.unicode_len();
    let mut found: Option<usize> = None;
    let mut i: usize = 0;
    while i < n
        invariant
            i <= n,
            n == name@.len(),
            match found {
                None => last_sep(name@.take(i as int)) == -1,
                Some(j) => j < i && last_sep(name@.take(i as int)) == j,
            },
        decreases n - i,
    {
        let c = name.get_char(i);
        proof {
            assert(name@.take(i + 1).last() == name@[i as int]);
            assert(name@.take(i + 1).drop_last() =~= name@.take(i as int));
        }
        if c == '/' {
            found = Some(i);
        }
        i = i + 1;
    }
    proof {
        assert(name@.take(n as int) =~= name@);
    }
    match found {
        None => (String::new(), name.to_owned()),
        Some(j) => {
            let folder = name.substring_char(0, j).to_owned();
            let base = name.substring_char(j + 1, n).to_owned();
            (folder, base)
        },
    }
}

} // verus!
