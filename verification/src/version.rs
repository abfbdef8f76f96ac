//! Semantic version strings: validity, numeric segment values, and the
//! ordering used by constraint evaluation and repository queries.
//!
//! A valid version is a non-empty, dot-separated list of non-empty,
//! all-digit segments: the grammar admits digits and dots only, since
//! the ordering is defined by numeric segment comparison and nothing
//! else. Suffixed forms such as `1.1.1alpha` are therefore not versions
//! here and are rejected wherever a version is required. Versions are
//! ordered by comparing segment values numerically from the left; a
//! missing segment counts as zero, so `1.2` and `1.2.0` are equal.
use vstd::prelude::*;
use vstd::string::*;

verus! {

pub open spec fn is_digit_char(c: char) -> bool {
    48 <= c as u32 <= 57
}

pub open spec fn digit_val(c: char) -> int {
    c as u32 - 48
}

/// A valid version: non-empty, only digits and dots, no empty segment.
pub open spec fn version_valid(s: Seq<char>) -> bool {
    &&& s.len() > 0
    &&& forall|i: int| 0 <= i < s.len() ==> is_digit_char(s[i]) || s[i] == '.'
    &&& s[0] != '.'
    &&& s[s.len() - 1] != '.'
    &&& forall|i: int| 0 <= i < s.len() - 1 ==> !(#[trigger] s[i] == '.' && s[i + 1] == '.')
}

/// Index of the first `'.'` in `s`, or `s.len()` if there is none.
pub open spec fn find_dot(s: Seq<char>) -> nat
    decreases s.len(),
{
    if s.len() == 0 {
        0
    } else if s[0] == '.' {
        0
    } else {
        (1 + find_dot(s.drop_first())) as nat
    }
}

pub proof fn lemma_find_dot(s: Seq<char>)
    ensures
        find_dot(s) <= s.len(),
        forall|i: int| 0 <= i < find_dot(s) ==> s[i] != '.',
        find_dot(s) < s.len() ==> s[find_dot(s) as int] == '.',
    decreases s.len(),
{
    if s.len() == 0 || s[0] == '.' {
    } else {
        lemma_find_dot(s.drop_first());
        assert forall|i: int| 0 <= i < find_dot(s) implies s[i] != '.' by {
            if i > 0 {
                assert(s.drop_first()[i - 1] == s[i]);
            }
        }
        if find_dot(s) < s.len() {
            assert(s.drop_first()[find_dot(s) - 1] == s[find_dot(s) as int]);
        }
    }
}

/// The first dot is exactly where the first dot-free prefix ends.
pub proof fn lemma_find_dot_at(s: Seq<char>, k: int)
    requires
        0 <= k <= s.len(),
        forall|i: int| 0 <= i < k ==> s[i] != '.',
        k < s.len() ==> s[k] == '.',
    ensures
        find_dot(s) == k,
{
    lemma_find_dot(s);
    if find_dot(s) < k {
        assert(s[find_dot(s) as int] != '.');
    }
    if k < find_dot(s) {
        assert(s[k] != '.');
    }
}

/// The dot-separated segments of `s`.
pub open spec fn segments(s: Seq<char>) -> Seq<Seq<char>>
    decreases s.len(),
{
    let d = find_dot(s);
    if d >= s.len() {
        seq![s]
    } else {
        seq![s.subrange(0, d as int)] + segments(s.subrange(d as int + 1, s.len() as int))
    }
}

pub open spec fn pow10(n: nat) -> nat
    decreases n,
{
    if n == 0 {
        1
    } else {
        10 * pow10((n - 1) as nat)
    }
}

/// Numeric value of an all-digit segment (most significant digit first).
pub open spec fn seg_val(s: Seq<char>) -> int
    decreases s.len(),
{
    if s.len() == 0 {
        0
    } else {
        digit_val(s[0]) * pow10((s.len() - 1) as nat) + seg_val(s.drop_first())
    }
}

/// The numeric segment values of a version string.
pub open spec fn version_vals(s: Seq<char>) -> Seq<int> {
    segments(s).map_values(|t: Seq<char>| seg_val(t))
}

pub open spec fn tail_or_empty(a: Seq<int>) -> Seq<int> {
    if a.len() == 0 {
        a
    } else {
        a.drop_first()
    }
}

/// Three-way comparison of two segment-value sequences, padding the
/// shorter one with zeros.
pub open spec fn vals_cmp(a: Seq<int>, b: Seq<int>) -> int
    decreases a.len() + b.len(),
{
    if a.len() == 0 && b.len() == 0 {
        0
    } else {
        let ha = if a.len() > 0 {
            a[0]
        } else {
            0
        };
        let hb = if b.len() > 0 {
            b[0]
        } else {
            0
        };
        if ha < hb {
            -1
        } else if ha > hb {
            1
        } else {
            vals_cmp(tail_or_empty(a), tail_or_empty(b))
        }
    }
}

/// Three-way semantic comparison of two version strings.
pub open spec fn version_cmp(a: Seq<char>, b: Seq<char>) -> int {
    vals_cmp(version_vals(a), version_vals(b))
}

pub open spec fn all_digits(s: Seq<char>) -> bool {
    forall|i: int| 0 <= i < s.len() ==> is_digit_char(s[i])
}

proof fn lemma_pow10_mono(m: nat, n: nat)
    requires
        m <= n,
    ensures
        pow10(m) <= pow10(n),
    decreases n,
{
    if m < n {
        lemma_pow10_mono(m, (n - 1) as nat);
    }
}

proof fn lemma_seg_val_bounds(s: Seq<char>)
    requires
        all_digits(s),
    ensures
        0 <= seg_val(s) < pow10(s.len()),
    decreases s.len(),
{
    if s.len() == 0 {
    } else {
        let d = digit_val(s[0]);
        let p = pow10((s.len() - 1) as nat);
        lemma_seg_val_bounds(s.drop_first());
        assert(0 <= d <= 9);
        assert(p >= 1) by {
            lemma_pow10_mono(0, (s.len() - 1) as nat);
        }
        assert(d * p + p <= 10 * p) by (nonlinear_arith)
            requires
                0 <= d <= 9,
                p >= 0,
        ;
        assert(d * p >= 0) by (nonlinear_arith)
            requires
                d >= 0,
                p >= 0,
        ;
        assert(pow10(s.len()) == 10 * p);
    }
}

proof fn lemma_seg_val_first_nonzero(s: Seq<char>)
    requires
        all_digits(s),
        s.len() > 0,
        digit_val(s[0]) >= 1,
    ensures
        seg_val(s) >= pow10((s.len() - 1) as nat),
{
    assert(is_digit_char(s[0]));
    let d = digit_val(s[0]);
    let p = pow10((s.len() - 1) as nat);
    assert(d >= 1);
    lemma_seg_val_bounds(s.drop_first());
    assert(d * p >= p) by (nonlinear_arith)
        requires
            d >= 1,
            p >= 0,
    ;
}

/// Leading zeros do not change a segment's value.
proof fn lemma_seg_val_strip(s: Seq<char>, k: int)
    requires
        all_digits(s),
        0 <= k <= s.len(),
        forall|i: int| 0 <= i < k ==> digit_val(s[i]) == 0,
    ensures
        seg_val(s) == seg_val(s.skip(k)),
    decreases k,
{
    if k > 0 {
        assert(digit_val(s[0]) == 0);
        assert(seg_val(s) == seg_val(s.drop_first()));
        lemma_seg_val_strip(s.drop_first(), k - 1);
        assert(s.drop_first().skip(k - 1) =~= s.skip(k));
    } else {
        assert(s.skip(0) =~= s);
    }
}

/// Splitting a segment: the value is the prefix value scaled, plus the
/// suffix value.
proof fn lemma_seg_val_split(s: Seq<char>, k: int)
    requires
        all_digits(s),
        0 <= k <= s.len(),
    ensures
        seg_val(s) == seg_val(s.take(k)) * pow10((s.len() - k) as nat) + seg_val(s.skip(k)),
    decreases k,
{
    if k == 0 {
        assert(s.take(0).len() == 0);
        assert(s.skip(0) =~= s);
    } else {
        let t = s.drop_first();
        lemma_seg_val_split(t, k - 1);
        assert(t.take(k - 1) =~= s.take(k).drop_first());
        assert(t.skip(k - 1) =~= s.skip(k));
        let p = pow10((s.len() - k) as nat);
        let q = pow10((s.len() - 1) as nat);
        let d = digit_val(s[0]);
        // q == pow10(k - 1) * p
        lemma_pow10_split((k - 1) as nat, (s.len() - k) as nat);
        let dtk = seg_val(s.take(k));
        assert(dtk == d * pow10((k - 1) as nat) + seg_val(t.take(k - 1)));
        assert(seg_val(s) == d * q + seg_val(t));
        assert(seg_val(t) == seg_val(t.take(k - 1)) * p + seg_val(t.skip(k - 1)));
        assert(d * (pow10((k - 1) as nat) * p) == d * pow10((k - 1) as nat) * p)
            by (nonlinear_arith);
        assert((d * pow10((k - 1) as nat) + seg_val(t.take(k - 1))) * p == d * pow10(
            (k - 1) as nat,
        ) * p + seg_val(t.take(k - 1)) * p) by (nonlinear_arith);
    }
}

proof fn lemma_pow10_split(a: nat, b: nat)
    ensures
        pow10(a + b) == pow10(a) * pow10(b),
    decreases a,
{
    if a == 0 {
        assert(pow10(a) == 1);
        assert(a + b == b);
    } else {
        lemma_pow10_split((a - 1) as nat, b);
        let p = pow10((a - 1) as nat);
        let q = pow10(b);
        assert((a - 1) as nat + b == (a + b - 1) as nat);
        assert(pow10((a + b - 1) as nat) == p * q);
        assert(pow10(a + b) == 10 * pow10((a + b - 1) as nat));
        assert(pow10(a) == 10 * p);
        assert(10 * (p * q) == (10 * p) * q) by (nonlinear_arith);
    }
}

/// A strictly shorter stripped segment has a strictly smaller value.
proof fn lemma_seg_val_shorter(u: Seq<char>, v: Seq<char>)
    requires
        all_digits(u),
        all_digits(v),
        u.len() < v.len(),
        v.len() > 0,
        digit_val(v[0]) >= 1,
    ensures
        seg_val(u) < seg_val(v),
{
    lemma_seg_val_bounds(u);
    lemma_seg_val_first_nonzero(v);
    lemma_pow10_mono(u.len(), (v.len() - 1) as nat);
}

/// Equal-length segments: the first differing digit decides.
proof fn lemma_seg_val_first_diff(u: Seq<char>, v: Seq<char>, k: int)
    requires
        all_digits(u),
        all_digits(v),
        u.len() == v.len(),
        0 <= k < u.len(),
        forall|i: int| 0 <= i < k ==> u[i] == v[i],
        digit_val(u[k]) < digit_val(v[k]),
    ensures
        seg_val(u) < seg_val(v),
{
    lemma_seg_val_split(u, k);
    lemma_seg_val_split(v, k);
    assert(u.take(k) =~= v.take(k));
    let m = (u.len() - k) as nat;
    let us = u.skip(k);
    let vs = v.skip(k);
    assert(us.len() == m && vs.len() == m && m >= 1);
    let p = pow10((m - 1) as nat);
    let du = digit_val(us[0]);
    let dv = digit_val(vs[0]);
    assert(us[0] == u[k] && vs[0] == v[k]);
    assert(seg_val(us) == du * p + seg_val(us.drop_first()));
    assert(seg_val(vs) == dv * p + seg_val(vs.drop_first()));
    lemma_seg_val_bounds(us.drop_first());
    lemma_seg_val_bounds(vs.drop_first());
    assert(du * p + p <= dv * p) by (nonlinear_arith)
        requires
            du < dv,
            p >= 0,
    ;
    assert(seg_val(us) < seg_val(vs));
}

/// Compares two all-digit segments numerically.
///
/// Returns -1, 0 or 1 as `x` is below, equal to or above `y`.
fn seg_cmp(x: &str, y: &str) -> (r: i8)
    requires
        all_digits(x@),
        all_digits(y@),
    ensures
        r as int == int_cmp(seg_val(x@), seg_val(y@)),
{
    let nx = x.unicode_len();
    let ny = y.unicode_len();
    // strip leading zeros
    let mut sx: usize = 0;
    while sx < nx && x.get_char(sx) as u32 == 48
        invariant
            sx <= nx,
            nx == x@.len(),
            forall|i: int| 0 <= i < sx ==> digit_val(x@[i]) == 0,
        decreases nx - sx,
    {
        sx = sx + 1;
    }
    let mut sy: usize = 0;
    while sy < ny && y.get_char(sy) as u32 == 48
        invariant
            sy <= ny,
            ny == y@.len(),
            forall|i: int| 0 <= i < sy ==> digit_val(y@[i]) == 0,
        decreases ny - sy,
    {
        sy = sy + 1;
    }
    let ghost u = x@.skip(sx as int);
    let ghost v = y@.skip(sy as int);
    proof {
        lemma_seg_val_strip(x@, sx as int);
        lemma_seg_val_strip(y@, sy as int);
        assert forall|i: int| 0 <= i < u.len() implies is_digit_char(u[i]) by {
            assert(u[i] == x@[sx + i]);
        }
        assert forall|i: int| 0 <= i < v.len() implies is_digit_char(v[i]) by {
            assert(v[i] == y@[sy + i]);
        }
    }
    if nx - sx < ny - sy {
        proof {
            assert(sy < ny);
            assert(v[0] == y@[sy as int]);
            assert(digit_val(v[0]) >= 1);
            lemma_seg_val_shorter(u, v);
        }
        return -1;
    }
    if nx - sx > ny - sy {
        proof {
            assert(sx < nx);
            assert(u[0] == x@[sx as int]);
            assert(digit_val(u[0]) >= 1);
            lemma_seg_val_shorter(v, u);
        }
        return 1;
    }
    // equal stripped length: first differing digit decides
    let mut k: usize = 0;
    let n = nx - sx;
    while k < n
        invariant
            0 <= k <= n,
            nx == x@.len(),
            ny == y@.len(),
            sx <= nx,
            sy <= ny,
            n == nx - sx == ny - sy,
            u == x@.skip(sx as int),
            v == y@.skip(sy as int),
            all_digits(u),
            all_digits(v),
            seg_val(x@) == seg_val(u),
            seg_val(y@) == seg_val(v),
            forall|i: int| 0 <= i < k ==> u[i] == v[i],
        decreases n - k,
    {
        let cx = x.get_char(sx + k);
        let cy = y.get_char(sy + k);
        proof {
            assert(u[k as int] == x@[sx + k as int]);
            assert(v[k as int] == y@[sy + k as int]);
        }
        if (cx as u32) < (cy as u32) {
            proof {
                lemma_seg_val_first_diff(u, v, k as int);
            }
            return -1;
        }
        if (cx as u32) > (cy as u32) {
            proof {
                lemma_seg_val_first_diff(v, u, k as int);
            }
            return 1;
        }
        proof {
            assert(cx == cy);
        }
        k = k + 1;
    }
    proof {
        assert(u =~= v);
    }
    0
}

pub open spec fn int_cmp(a: int, b: int) -> int {
    if a < b {
        -1
    } else if a > b {
        1
    } else {
        0
    }
}


/// Unfolds one comparison step when both sides have a first segment.
proof fn lemma_vals_cmp_cons(x: int, a2: Seq<int>, y: int, b2: Seq<int>)
    ensures
        vals_cmp(seq![x] + a2, seq![y] + b2) == if x < y {
            -1
        } else if x > y {
            1
        } else {
            vals_cmp(a2, b2)
        },
{
    let a = seq![x] + a2;
    let b = seq![y] + b2;
    assert(a[0] == x && b[0] == y);
    if x == y {
        assert(tail_or_empty(a) =~= a2);
        assert(tail_or_empty(b) =~= b2);
    }
}

/// Unfolds one comparison step when only the right side has segments left.
proof fn lemma_vals_cmp_left_empty(y: int, b2: Seq<int>)
    ensures
        vals_cmp(Seq::empty(), seq![y] + b2) == if 0 < y {
            -1
        } else if 0 > y {
            1
        } else {
            vals_cmp(Seq::<int>::empty(), b2)
        },
{
    let b = seq![y] + b2;
    assert(b[0] == y);
    if y == 0 {
        assert(tail_or_empty(b) =~= b2);
        assert(tail_or_empty(Seq::<int>::empty()) =~= Seq::<int>::empty());
    }
}

/// Unfolds one comparison step when only the left side has segments left.
proof fn lemma_vals_cmp_right_empty(x: int, a2: Seq<int>)
    ensures
        vals_cmp(seq![x] + a2, Seq::empty()) == if x < 0 {
            -1
        } else if x > 0 {
            1
        } else {
            vals_cmp(a2, Seq::<int>::empty())
        },
{
    let a = seq![x] + a2;
    assert(a[0] == x);
    if x == 0 {
        assert(tail_or_empty(a) =~= a2);
        assert(tail_or_empty(Seq::<int>::empty()) =~= Seq::<int>::empty());
    }
}

/// Comparing a value sequence with itself yields zero.
pub proof fn lemma_vals_cmp_refl(a: Seq<int>)
    ensures
        vals_cmp(a, a) == 0,
    decreases a.len(),
{
    if a.len() > 0 {
        lemma_vals_cmp_refl(tail_or_empty(a));
    }
}

/// The comparison is transitive.
pub proof fn lemma_vals_cmp_trans(a: Seq<int>, b: Seq<int>, c: Seq<int>)
    requires
        vals_cmp(a, b) >= 0,
        vals_cmp(b, c) >= 0,
    ensures
        vals_cmp(a, c) >= 0,
        vals_cmp(a, b) > 0 || vals_cmp(b, c) > 0 ==> vals_cmp(a, c) > 0,
    decreases a.len() + b.len() + c.len(),
{
    if a.len() == 0 && b.len() == 0 && c.len() == 0 {
    } else {
        let ha = if a.len() > 0 { a[0] } else { 0 };
        let hb = if b.len() > 0 { b[0] } else { 0 };
        let hc = if c.len() > 0 { c[0] } else { 0 };
        if ha == hb && hb == hc {
            if a.len() == 0 && c.len() == 0 {
                // both comparisons recurse on b's tail alone
                lemma_vals_cmp_trans(
                    tail_or_empty(a),
                    tail_or_empty(b),
                    tail_or_empty(c),
                );
            } else {
                lemma_vals_cmp_trans(
                    tail_or_empty(a),
                    tail_or_empty(b),
                    tail_or_empty(c),
                );
            }
        }
    }
}

/// One resolution step of `version_vals` at a segment boundary: the
/// values of the suffix starting at `i` are the value of the segment
/// `[i, e)` followed by the values after the dot at `e`.
proof fn lemma_version_vals_step(s: Seq<char>, i: int, e: int)
    requires
        0 <= i <= e <= s.len(),
        forall|k: int| i <= k < e ==> s[k] != '.',
        e < s.len() ==> s[e] == '.',
    ensures
        version_vals(s.skip(i)) == seq![seg_val(s.subrange(i, e))] + (if e < s.len() {
            version_vals(s.skip(e + 1))
        } else {
            Seq::<int>::empty()
        }),
{
    let t = s.skip(i);
    assert forall|k: int| 0 <= k < e - i implies t[k] != '.' by {
        assert(t[k] == s[i + k]);
    }
    if e < s.len() {
        assert(t[e - i] == s[e]);
    }
    lemma_find_dot_at(t, e - i);
    if e < s.len() {
        assert(t.subrange(0, e - i) =~= s.subrange(i, e));
        assert(t.subrange(e - i + 1, t.len() as int) =~= s.skip(e + 1));
        assert(segments(t) == seq![s.subrange(i, e)] + segments(s.skip(e + 1)));
        assert(version_vals(s.skip(i)) =~= seq![seg_val(s.subrange(i, e))] + version_vals(
            s.skip(e + 1),
        ));
    } else {
        assert(t =~= s.subrange(i, e));
        assert(segments(t) == seq![t]);
        assert(version_vals(s.skip(i)) =~= seq![seg_val(s.subrange(i, e))]);
    }
}

/// Checks that `s` is a valid version string: non-empty, dot-separated,
/// non-empty all-digit segments.
pub fn check_version(s: &str) -> (r: bool)
    ensures
        r == version_valid(s@),
{
    let n = s.unicode_len();
    if n == 0 {
        return false;
    }
    if s.get_char(0) == '.' || s.get_char(n - 1) == '.' {
        return false;
    }
    let mut i: usize = 0;
    while i < n
        invariant
            0 < n == s@.len(),
            i <= n,
            forall|k: int| 0 <= k < i ==> is_digit_char(s@[k]) || s@[k] == '.',
            forall|k: int| 0 <= k < i - 1 ==> !(#[trigger] s@[k] == '.' && s@[k + 1] == '.'),
            i > 0 ==> s@[0] != '.',
        decreases n - i,
    {
        let c = s.get_char(i);
        let cp = c as u32;
        if !(48 <= cp && cp <= 57) && c != '.' {
            return false;
        }
        if i == 0 && c == '.' {
            return false;
        }
        if i > 0 && c == '.' && s.get_char(i - 1) == '.' {
            return false;
        }
        i = i + 1;
    }
    true
}

/// Compares two valid version strings semantically.
///
/// Returns -1, 0 or 1 as `a` is below, equal to or above `b`; trailing
/// zero segments do not matter.
pub fn compare_versions(a: &str, b: &str) -> (r: i8)
    requires
        version_valid(a@),
        version_valid(b@),
    ensures
        r as int == version_cmp(a@, b@),
{
    let na = a.unicode_len();
    let nb = b.unicode_len();
    let mut i: usize = 0;
    let mut j: usize = 0;
    let mut a_done = false;
    let mut b_done = false;
    let ghost mut ra = version_vals(a@);
    let ghost mut rb = version_vals(b@);
    proof {
        assert(a@.skip(0) =~= a@);
        assert(b@.skip(0) =~= b@);
    }
    loop
        invariant
            version_valid(a@),
            version_valid(b@),
            na == a@.len(),
            nb == b@.len(),
            i <= na,
            j <= nb,
            !a_done ==> ra == version_vals(a@.skip(i as int)),
            a_done ==> ra == Seq::<int>::empty(),
            !b_done ==> rb == version_vals(b@.skip(j as int)),
            b_done ==> rb == Seq::<int>::empty(),
            vals_cmp(version_vals(a@), version_vals(b@)) == vals_cmp(ra, rb),
        ensures
            vals_cmp(version_vals(a@), version_vals(b@)) == vals_cmp(ra, rb),
            a_done && b_done,
            ra == Seq::<int>::empty(),
            rb == Seq::<int>::empty(),
        decreases (if a_done { 0int } else { na - i + 1 }) + (if b_done { 0int } else { nb - j + 1 }),
    {
        if a_done && b_done {
            break;
        }
        // scan the current segment of each side
        let mut ea: usize = i;
        if !a_done {
            while ea < na && a.get_char(ea) != '.'
                invariant
                    i <= ea <= na,
                    na == a@.len(),
                    forall|k: int| i <= k < ea ==> a@[k] != '.',
                decreases na - ea,
            {
                ea = ea + 1;
            }
        }
        let mut eb: usize = j;
        if !b_done {
            while eb < nb && b.get_char(eb) != '.'
                invariant
                    j <= eb <= nb,
                    nb == b@.len(),
                    forall|k: int| j <= k < eb ==> b@[k] != '.',
                decreases nb - eb,
            {
                eb = eb + 1;
            }
        }
        let seg_a = if a_done {
            ""
        } else {
            a.substring_char(i, ea)
        };
        let seg_b = if b_done {
            ""
        } else {
            b.substring_char(j, eb)
        };
        proof {
            reveal_strlit("");
            if !a_done {
                assert forall|k: int| 0 <= k < seg_a@.len() implies is_digit_char(seg_a@[k]) by {
                    assert(seg_a@[k] == a@[i + k]);
                    assert(is_digit_char(a@[i + k]) || a@[i + k] == '.');
                }
                lemma_version_vals_step(a@, i as int, ea as int);
            } else {
                assert(seg_a@ =~= Seq::<char>::empty());
            }
            if !b_done {
                assert forall|k: int| 0 <= k < seg_b@.len() implies is_digit_char(seg_b@[k]) by {
                    assert(seg_b@[k] == b@[j + k]);
                    assert(is_digit_char(b@[j + k]) || b@[j + k] == '.');
                }
                lemma_version_vals_step(b@, j as int, eb as int);
            } else {
                assert(seg_b@ =~= Seq::<char>::empty());
            }
        }
        let ghost va = seg_val(seg_a@);
        let ghost vb = seg_val(seg_b@);
        let ghost ra2 = if !a_done && ea < na {
            version_vals(a@.skip(ea as int + 1))
        } else {
            Seq::<int>::empty()
        };
        let ghost rb2 = if !b_done && eb < nb {
            version_vals(b@.skip(eb as int + 1))
        } else {
            Seq::<int>::empty()
        };
        proof {
            if !a_done && !b_done {
                lemma_vals_cmp_cons(va, ra2, vb, rb2);
            } else if a_done && !b_done {
                lemma_vals_cmp_left_empty(vb, rb2);
                assert(va == 0);
            } else if !a_done && b_done {
                lemma_vals_cmp_right_empty(va, ra2);
                assert(vb == 0);
            }
        }
        let c = seg_cmp(seg_a, seg_b);
        if c != 0 {
            proof {
                assert(vals_cmp(ra, rb) == c as int);
            }
            return c;
        }
        proof {
            ra = ra2;
            rb = rb2;
        }
        if !a_done {
            if ea < na {
                i = ea + 1;
            } else {
                i = na;
                a_done = true;
            }
        }
        if !b_done {
            if eb < nb {
                j = eb + 1;
            } else {
                j = nb;
                b_done = true;
            }
        }
    }
    proof {
        assert(vals_cmp(ra, rb) == 0);
    }
    0
}


/// `a` ranks strictly above `b` for "latest version" purposes: a valid
/// version beats an invalid one, and between valid versions the semantic
/// comparison decides.
pub open spec fn version_gt(a: Seq<char>, b: Seq<char>) -> bool {
    if version_valid(a) && version_valid(b) {
        version_cmp(a, b) > 0
    } else {
        version_valid(a) && !version_valid(b)
    }
}

/// The "ranks above" relation is transitive.
pub proof fn lemma_version_gt_trans(a: Seq<char>, b: Seq<char>, c: Seq<char>)
    requires
        version_gt(a, b),
        version_gt(b, c),
    ensures
        version_gt(a, c),
{
    if version_valid(c) {
        lemma_vals_cmp_trans(version_vals(a), version_vals(b), version_vals(c));
    }
}

/// Decides whether `a` ranks strictly above `b`.
pub fn version_gt_exec(a: &str, b: &str) -> (r: bool)
    ensures
        r == version_gt(a@, b@),
{
    let va = check_version(a);
    let vb = check_version(b);
    if va && vb {
        compare_versions(a, b) > 0
    } else {
        va && !vb
    }
}

} // verus!

