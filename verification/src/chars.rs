//! Character-level helpers shared by the parsers: whitespace trimming and
//! string equality, specified over `Seq<char>` views.
use vstd::prelude::*;
use vstd::string::*;

verus! {

/// The whitespace characters that trimming removes.
pub open spec fn is_space_char(c: char) -> bool {
    c == ' ' || c == '\t' || c == '\r' || c == '\n'
}

/// Number of whitespace characters at the front of `s`.
pub open spec fn leading_spaces(s: Seq<char>) -> nat
    decreases s.len(),
{
    if s.len() == 0 || !is_space_char(s[0]) {
        0
    } else {
        (1 + leading_spaces(s.drop_first())) as nat
    }
}

/// Number of whitespace characters at the back of `s`.
pub open spec fn trailing_spaces(s: Seq<char>) -> nat
    decreases s.len(),
{
    if s.len() == 0 || !is_space_char(s[s.len() - 1]) {
        0
    } else {
        (1 + trailing_spaces(s.drop_last())) as nat
    }
}

/// `s` with leading and trailing whitespace removed.
pub open spec fn spec_trim(s: Seq<char>) -> Seq<char> {
    if leading_spaces(s) == s.len() {
        Seq::empty()
    } else {
        s.subrange(leading_spaces(s) as int, s.len() - trailing_spaces(s))
    }
}

pub proof fn lemma_leading_spaces(s: Seq<char>)
    ensures
        leading_spaces(s) <= s.len(),
        forall|i: int| 0 <= i < leading_spaces(s) ==> is_space_char(s[i]),
        leading_spaces(s) < s.len() ==> !is_space_char(s[leading_spaces(s) as int]),
    decreases s.len(),
{
    if s.len() == 0 || !is_space_char(s[0]) {
    } else {
        lemma_leading_spaces(s.drop_first());
        assert forall|i: int| 0 <= i < leading_spaces(s) implies is_space_char(s[i]) by {
            if i > 0 {
                assert(s.drop_first()[i - 1] == s[i]);
            }
        }
        if leading_spaces(s) < s.len() {
            assert(s.drop_first()[leading_spaces(s) - 1] == s[leading_spaces(s) as int]);
        }
    }
}

pub proof fn lemma_trailing_spaces(s: Seq<char>)
    ensures
        trailing_spaces(s) <= s.len(),
        forall|i: int| s.len() - trailing_spaces(s) <= i < s.len() ==> is_space_char(s[i]),
        trailing_spaces(s) < s.len() ==> !is_space_char(s[s.len() - trailing_spaces(s) - 1]),
    decreases s.len(),
{
    if s.len() == 0 || !is_space_char(s[s.len() - 1]) {
    } else {
        lemma_trailing_spaces(s.drop_last());
        assert forall|i: int| s.len() - trailing_spaces(s) <= i < s.len() implies is_space_char(
            s[i],
        ) by {
            if i < s.len() - 1 {
                assert(s.drop_last()[i] == s[i]);
            }
        }
        if trailing_spaces(s) < s.len() {
            assert(trailing_spaces(s.drop_last()) < s.drop_last().len());
            assert(s.drop_last()[s.len() - trailing_spaces(s) - 1] == s[s.len() - trailing_spaces(
                s,
            ) - 1]);
        }
    }
}

/// A sequence without whitespace at either end trims to itself.
pub proof fn lemma_trim_identity(s: Seq<char>)
    requires
        s.len() > 0 ==> !is_space_char(s[0]) && !is_space_char(s[s.len() - 1]),
    ensures
        spec_trim(s) == s,
{
    if s.len() == 0 {
        assert(spec_trim(s) =~= s);
    } else {
        assert(leading_spaces(s) == 0);
        assert(trailing_spaces(s) == 0);
        assert(spec_trim(s) =~= s);
    }
}

/// The result of trimming never has whitespace at either end.
pub proof fn lemma_trim_trimmed(s: Seq<char>)
    ensures
        spec_trim(s).len() > 0 ==> !is_space_char(spec_trim(s)[0]) && !is_space_char(
            spec_trim(s)[spec_trim(s).len() - 1],
        ),
{
    lemma_leading_spaces(s);
    lemma_trailing_spaces(s);
    if spec_trim(s).len() > 0 {
        let l = leading_spaces(s) as int;
        let t = trailing_spaces(s) as int;
        assert(l < s.len());
        assert(spec_trim(s)[0] == s[l]);
        if is_space_char(s[l]) {
            assert(false);
        }
        assert(t < s.len());
        assert(spec_trim(s)[spec_trim(s).len() - 1] == s[s.len() - t - 1]);
    }
}

/// Removes leading and trailing whitespace from a string.
pub fn trim(s: &str) -> (r: String)
    ensures
        r@ == spec_trim(s@),
{
    let n = s.unicode_len();
    let mut start: usize = 0;
    while start < n && is_space(s.get_char(start))
        invariant
            start <= n,
            n == s@.len(),
            forall|i: int| 0 <= i < start ==> is_space_char(s@[i]),
        decreases n - start,
    {
        start = start + 1;
    }
    proof {
        lemma_leading_spaces(s@);
        // start and leading_spaces(s@) satisfy the same characterization
        if start < leading_spaces(s@) {
            assert(is_space_char(s@[start as int]));
        }
        if start > leading_spaces(s@) {
            assert(is_space_char(s@[leading_spaces(s@) as int]));
        }
        assert(start == leading_spaces(s@));
    }
    if start == n {
        let r = String::new();
        proof {
            assert(r@ =~= spec_trim(s@));
        }
        return r;
    }
    let mut end: usize = n;
    while end > start && is_space(s.get_char(end - 1))
        invariant
            start <= end <= n,
            n == s@.len(),
            start == leading_spaces(s@),
            start < n,
            !is_space_char(s@[start as int]),
            forall|i: int| end <= i < n ==> is_space_char(s@[i]),
        decreases end,
    {
        end = end - 1;
    }
    proof {
        lemma_trailing_spaces(s@);
        let t = trailing_spaces(s@) as int;
        // end and n - trailing_spaces(s@) satisfy the same characterization
        if end < n - t {
            assert(is_space_char(s@[end as int]));
        }
        if end > n - t {
            assert(t < s@.len());
            assert(is_space_char(s@[n - t - 1]));
        }
        assert(end == n - t);
    }
    let r = s.substring_char(start, end);
    r.to_owned()
}

/// Whether `c` is one of the whitespace characters that trimming removes.
pub fn is_space(c: char) -> (r: bool)
    ensures
        r == is_space_char(c),
{
    c == ' ' || c == '\t' || c == '\r' || c == '\n'
}

/// Character-by-character string equality.
pub fn str_eq(a: &str, b: &str) -> (r: bool)
    ensures
        r == (a@ == b@),
{
    let na = a.unicode_len();
    let nb = b.unicode_len();
    if na != nb {
        proof {
            assert(a@.len() != b@.len());
        }
        return false;
    }
    let mut i: usize = 0;
    while i < na
        invariant
            i <= na,
            na == a@.len(),
            na == b@.len(),
            forall|j: int| 0 <= j < i ==> a@[j] == b@[j],
        decreases na - i,
    {
        if a.get_char(i) != b.get_char(i) {
            proof {
                assert(a@[i as int] != b@[i as int]);
            }
            return false;
        }
        i = i + 1;
    }
    proof {
        assert(a@ =~= b@);
    }
    true
}


/// Index of the first occurrence of `c` in `s`, or `s.len()` if none.
pub open spec fn find_char(s: Seq<char>, c: char) -> nat
    decreases s.len(),
{
    if s.len() == 0 {
        0
    } else if s[0] == c {
        0
    } else {
        (1 + find_char(s.drop_first(), c)) as nat
    }
}

pub proof fn lemma_find_char(s: Seq<char>, c: char)
    ensures
        find_char(s, c) <= s.len(),
        forall|i: int| 0 <= i < find_char(s, c) ==> s[i] != c,
        find_char(s, c) < s.len() ==> s[find_char(s, c) as int] == c,
    decreases s.len(),
{
    if s.len() == 0 || s[0] == c {
    } else {
        lemma_find_char(s.drop_first(), c);
        assert forall|i: int| 0 <= i < find_char(s, c) implies s[i] != c by {
            if i > 0 {
                assert(s.drop_first()[i - 1] == s[i]);
            }
        }
        if find_char(s, c) < s.len() {
            assert(s.drop_first()[find_char(s, c) - 1] == s[find_char(s, c) as int]);
        }
    }
}

/// The first occurrence of `c` is exactly where the `c`-free prefix ends.
pub proof fn lemma_find_char_at(s: Seq<char>, c: char, k: int)
    requires
        0 <= k <= s.len(),
        forall|i: int| 0 <= i < k ==> s[i] != c,
        k < s.len() ==> s[k] == c,
    ensures
        find_char(s, c) == k,
{
    lemma_find_char(s, c);
    if find_char(s, c) < k {
        assert(s[find_char(s, c) as int] != c);
    }
    if k < find_char(s, c) {
        assert(s[k] != c);
    }
}


/// The views of a sequence of strings, in order.
pub open spec fn strings_view(ss: Seq<String>) -> Seq<Seq<char>> {
    ss.map_values(|s: String| s@)
}


/// `pat` occurs in `s` starting at `i`.
pub open spec fn matches_at(s: Seq<char>, i: int, pat: Seq<char>) -> bool {
    &&& 0 <= i
    &&& i + pat.len() <= s.len()
    &&& s.subrange(i, i + pat.len() as int) == pat
}

/// Index of the first occurrence of `pat` in `s`, or `s.len()` if none.
pub open spec fn find_sub(s: Seq<char>, pat: Seq<char>) -> nat
    decreases s.len(),
{
    if s.len() == 0 {
        0
    } else if matches_at(s, 0, pat) {
        0
    } else {
        (1 + find_sub(s.drop_first(), pat)) as nat
    }
}

pub proof fn lemma_find_sub(s: Seq<char>, pat: Seq<char>)
    ensures
        find_sub(s, pat) <= s.len(),
        forall|i: int| 0 <= i < find_sub(s, pat) ==> !matches_at(s, i, pat),
        find_sub(s, pat) < s.len() ==> matches_at(s, find_sub(s, pat) as int, pat),
    decreases s.len(),
{
    if s.len() == 0 || matches_at(s, 0, pat) {
    } else {
        let t = s.drop_first();
        lemma_find_sub(t, pat);
        assert forall|i: int| 0 <= i < find_sub(s, pat) implies !matches_at(s, i, pat) by {
            if i > 0 && matches_at(s, i, pat) {
                assert(t.subrange(i - 1, i - 1 + pat.len() as int) =~= s.subrange(
                    i,
                    i + pat.len() as int,
                ));
                assert(matches_at(t, i - 1, pat));
            }
        }
        if find_sub(s, pat) < s.len() {
            let p = find_sub(s, pat) as int;
            assert(matches_at(t, p - 1, pat));
            assert(s.subrange(p, p + pat.len() as int) =~= t.subrange(
                p - 1,
                p - 1 + pat.len() as int,
            ));
        }
    }
}

/// The first occurrence is exactly where the occurrence-free prefix ends.
pub proof fn lemma_find_sub_at(s: Seq<char>, pat: Seq<char>, k: int)
    requires
        0 <= k <= s.len(),
        forall|i: int| 0 <= i < k ==> !matches_at(s, i, pat),
        k < s.len() ==> matches_at(s, k, pat),
    ensures
        find_sub(s, pat) == k,
{
    lemma_find_sub(s, pat);
    if find_sub(s, pat) < k {
        assert(matches_at(s, find_sub(s, pat) as int, pat));
    }
    if k < find_sub(s, pat) {
        assert(!matches_at(s, k, pat));
    }
}

/// `s` with every occurrence of `pat` replaced by `rep`, scanning from
/// the left.
pub open spec fn spec_replace(s: Seq<char>, pat: Seq<char>, rep: Seq<char>) -> Seq<char>
    decreases s.len(),
    when pat.len() > 0
    via spec_replace_decreases
{
    let f = find_sub(s, pat) as int;
    if f >= s.len() {
        s
    } else {
        s.subrange(0, f) + rep + spec_replace(s.skip(f + pat.len() as int), pat, rep)
    }
}

#[via_fn]
proof fn spec_replace_decreases(s: Seq<char>, pat: Seq<char>, rep: Seq<char>) {
    lemma_find_sub(s, pat);
}

/// Replaces every occurrence of `pat` in `s` with `rep`.
pub fn replace_all(s: &str, pat: &str, rep: &str) -> (r: String)
    requires
        pat@.len() > 0,
    ensures
        r@ == spec_replace(s@, pat@, rep@),
{
    let n = s.unicode_len();
    let plen = pat.unicode_len();
    let mut out = String::new();
    let mut i: usize = 0;
    proof {
        assert(s@.skip(0) =~= s@);
        assert(out@ + spec_replace(s@, pat@, rep@) =~= spec_replace(s@, pat@, rep@));
    }
    while i < n
        invariant
            i <= n,
            n == s@.len(),
            plen == pat@.len(),
            plen > 0,
            spec_replace(s@, pat@, rep@) == out@ + spec_replace(s@.skip(i as int), pat@, rep@),
        decreases n - i,
    {
        let ghost rem = s@.skip(i as int);
        // scan for the next occurrence at or after i
        let mut j: usize = i;
        let mut found = false;
        while j < n && !found
            invariant
                i <= j <= n,
                n == s@.len(),
                plen == pat@.len(),
                plen > 0,
                rem == s@.skip(i as int),
                forall|k: int| 0 <= k < j - i ==> !matches_at(rem, k, pat@),
                found ==> j + plen <= n && matches_at(rem, j - i, pat@),
            decreases n - j + (if found { 0int } else { 1int }),
        {
            if plen <= n - j && str_eq(s.substring_char(j, j + plen), pat) {
                proof {
                    assert(s@.subrange(j as int, j + plen) =~= rem.subrange(
                        j - i,
                        j - i + plen,
                    ));
                }
                found = true;
            } else {
                proof {
                    if matches_at(rem, j - i, pat@) {
                        assert(rem.subrange(j - i, j - i + plen) =~= s@.subrange(
                            j as int,
                            j + plen,
                        ));
                    }
                }
                j = j + 1;
            }
        }
        if found {
            let ghost out0 = out@;
            proof {
                lemma_find_sub_at(rem, pat@, j - i);
            }
            out.append(s.substring_char(i, j));
            out.append(rep);
            proof {
                assert(s@.subrange(i as int, j as int) =~= rem.subrange(0, j - i));
                assert(rem.skip(j - i + plen) =~= s@.skip(j + plen));
                assert(spec_replace(rem, pat@, rep@) == rem.subrange(0, j - i) + rep@
                    + spec_replace(rem.skip(j - i + plen), pat@, rep@));
                assert(out@ + spec_replace(s@.skip(j + plen), pat@, rep@) =~= out0 + spec_replace(
                    rem,
                    pat@,
                    rep@,
                ));
            }
            i = j + plen;
        } else {
            proof {
                lemma_find_sub_at(rem, pat@, n - i);
            }
            out.append(s.substring_char(i, n));
            proof {
                assert(s@.subrange(i as int, n as int) =~= rem);
                assert(spec_replace(rem, pat@, rep@) == rem);
            }
            i = n;
        }
    }
    proof {
        assert(s@.skip(n as int) =~= Seq::<char>::empty());
        assert(spec_replace(Seq::<char>::empty(), pat@, rep@) =~= Seq::<char>::empty());
    }
    out
}


/// Relies on core::str::from_utf8: the UTF-8 decoding of the bytes,
/// which succeeds exactly when they are valid UTF-8.
#[verifier::external_body]
pub(crate) fn bytes_to_string(v: &Vec<u8>) -> (r: Option<String>)
    ensures
        r matches Some(s) ==> vstd::utf8::valid_utf8(v@) && s@ == vstd::utf8::decode_utf8(v@),
        vstd::utf8::valid_utf8(v@) ==> r is Some,
{
    match core::str::from_utf8(v.as_slice()) {
        Ok(s) => Some(s.to_owned()),
        Err(_) => None,
    }
}


/// `p` is a prefix of `s`.
pub open spec fn spec_has_prefix(s: Seq<char>, p: Seq<char>) -> bool {
    s.len() >= p.len() && s.subrange(0, p.len() as int) == p
}

/// Whether `s` starts with `p`.
pub fn has_prefix(s: &str, p: &str) -> (r: bool)
    ensures
        r == spec_has_prefix(s@, p@),
{
    let n = s.unicode_len();
    let m = p.unicode_len();
    if m > n {
        return false;
    }
    str_eq(s.substring_char(0, m), p)
}

} // verus!
