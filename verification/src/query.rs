//! Dependency constraint strings: `<name><operator><version>` with
//! operator one of `=`, `<`, `>`, `<=`, `>=`.
//!
//! The parser looks for the first occurrence of a two-character operator
//! (`>=`, `<=`) and only then falls back to the first single-character
//! operator, so `a>=1.0` is never misread as `a>` followed by `=1.0`.
use vstd::prelude::*;
use vstd::string::*;
use crate::chars::{is_space_char, lemma_trim_identity, lemma_trim_trimmed, spec_trim, trim};
use crate::version::{check_version, compare_versions, version_cmp, version_valid};

verus! {

/// Why a constraint string was rejected.
#[derive(Debug, Clone, Copy, PartialEq, Eq, Structural)]
pub enum ParseError {
    /// No operator, or an empty name or version.
    InvalidFormat,
    /// The operator text is not one of the five accepted operators.
    InvalidOperator,
    /// The version part is not a valid version string: only dotted
    /// all-digit forms are versions (see the version module).
    InvalidVersion,
}

/// A parsed dependency constraint.
#[derive(Debug, Clone)]
pub struct PackageQuery {
    pub name: String,
    pub version: String,
    pub comparison_operator: String,
}

/// A two-character operator (`>=` or `<=`) starts at `i`.
pub open spec fn op2_at(s: Seq<char>, i: int) -> bool {
    &&& 0 <= i
    &&& i + 1 < s.len()
    &&& (s[i] == '>' || s[i] == '<')
    &&& s[i + 1] == '='
}

/// A single-character operator (`=`, `<` or `>`) stands at `i`.
pub open spec fn op1_at(s: Seq<char>, i: int) -> bool {
    &&& 0 <= i < s.len()
    &&& (s[i] == '=' || s[i] == '<' || s[i] == '>')
}

/// Position of the first two-character operator, or `s.len()` if none.
pub open spec fn first_op2(s: Seq<char>) -> nat
    decreases s.len(),
{
    if s.len() < 2 {
        s.len()
    } else if (s[0] == '>' || s[0] == '<') && s[1] == '=' {
        0
    } else {
        (1 + first_op2(s.drop_first())) as nat
    }
}

/// Position of the first single-character operator, or `s.len()` if none.
pub open spec fn first_op1(s: Seq<char>) -> nat
    decreases s.len(),
{
    if s.len() == 0 {
        0
    } else if s[0] == '=' || s[0] == '<' || s[0] == '>' {
        0
    } else {
        (1 + first_op1(s.drop_first())) as nat
    }
}

pub proof fn lemma_first_op2(s: Seq<char>)
    ensures
        first_op2(s) <= s.len(),
        forall|i: int| 0 <= i < first_op2(s) ==> !op2_at(s, i),
        first_op2(s) < s.len() ==> op2_at(s, first_op2(s) as int),
    decreases s.len(),
{
    if s.len() < 2 || ((s[0] == '>' || s[0] == '<') && s[1] == '=') {
    } else {
        lemma_first_op2(s.drop_first());
        assert forall|i: int| 0 <= i < first_op2(s) implies !op2_at(s, i) by {
            if i > 0 && i + 1 < s.len() {
                assert(s.drop_first()[i - 1] == s[i]);
                assert(s.drop_first()[i] == s[i + 1]);
                assert(!op2_at(s.drop_first(), i - 1));
            }
        }
        if first_op2(s) < s.len() {
            let p = first_op2(s) as int;
            assert(op2_at(s.drop_first(), p - 1));
            assert(s.drop_first()[p - 1] == s[p]);
            assert(s.drop_first()[p] == s[p + 1]);
        }
    }
}

pub proof fn lemma_first_op2_at(s: Seq<char>, k: int)
    requires
        0 <= k <= s.len(),
        forall|i: int| 0 <= i < k ==> !op2_at(s, i),
        k < s.len() ==> op2_at(s, k),
    ensures
        first_op2(s) == k,
{
    lemma_first_op2(s);
    if first_op2(s) < k {
        assert(op2_at(s, first_op2(s) as int));
    }
    if k < first_op2(s) {
        assert(!op2_at(s, k));
    }
}

pub proof fn lemma_first_op1(s: Seq<char>)
    ensures
        first_op1(s) <= s.len(),
        forall|i: int| 0 <= i < first_op1(s) ==> !op1_at(s, i),
        first_op1(s) < s.len() ==> op1_at(s, first_op1(s) as int),
    decreases s.len(),
{
    if s.len() == 0 || s[0] == '=' || s[0] == '<' || s[0] == '>' {
    } else {
        lemma_first_op1(s.drop_first());
        assert forall|i: int| 0 <= i < first_op1(s) implies !op1_at(s, i) by {
            if i > 0 {
                assert(s.drop_first()[i - 1] == s[i]);
                assert(!op1_at(s.drop_first(), i - 1));
            }
        }
        if first_op1(s) < s.len() {
            let p = first_op1(s) as int;
            assert(s.drop_first()[p - 1] == s[p]);
        }
    }
}

pub proof fn lemma_first_op1_at(s: Seq<char>, k: int)
    requires
        0 <= k <= s.len(),
        forall|i: int| 0 <= i < k ==> !op1_at(s, i),
        k < s.len() ==> op1_at(s, k),
    ensures
        first_op1(s) == k,
{
    lemma_first_op1(s);
    if first_op1(s) < k {
        assert(op1_at(s, first_op1(s) as int));
    }
    if k < first_op1(s) {
        assert(!op1_at(s, k));
    }
}

/// The string holds an operator somewhere.
pub open spec fn has_op(s: Seq<char>) -> bool {
    first_op2(s) < s.len() || first_op1(s) < s.len()
}

/// Where the operator that splits the string starts.
pub open spec fn op_pos(s: Seq<char>) -> int {
    if first_op2(s) < s.len() {
        first_op2(s) as int
    } else {
        first_op1(s) as int
    }
}

/// How many characters the splitting operator has.
pub open spec fn op_width(s: Seq<char>) -> int {
    if first_op2(s) < s.len() {
        2
    } else {
        1
    }
}

/// The name part a successful parse returns.
pub open spec fn spec_name(s: Seq<char>) -> Seq<char> {
    spec_trim(s.subrange(0, op_pos(s)))
}

/// The operator text a successful parse returns.
pub open spec fn spec_op(s: Seq<char>) -> Seq<char> {
    s.subrange(op_pos(s), op_pos(s) + op_width(s))
}

/// The version part a successful parse returns.
pub open spec fn spec_ver(s: Seq<char>) -> Seq<char> {
    spec_trim(s.subrange(op_pos(s) + op_width(s), s.len() as int))
}

/// A constraint string parses successfully.
pub open spec fn parse_ok(s: Seq<char>) -> bool {
    &&& has_op(s)
    &&& spec_name(s).len() > 0
    &&& spec_ver(s).len() > 0
    &&& version_valid(spec_ver(s))
}

/// The error a failing parse reports.
pub open spec fn parse_err(s: Seq<char>) -> ParseError {
    if !has_op(s) {
        ParseError::InvalidFormat
    } else if spec_name(s).len() == 0 || spec_ver(s).len() == 0 {
        ParseError::InvalidFormat
    } else {
        ParseError::InvalidVersion
    }
}

/// The operator text is one of the five accepted operators.
pub open spec fn valid_op(op: Seq<char>) -> bool {
    ||| op =~= seq!['=']
    ||| op =~= seq!['<']
    ||| op =~= seq!['>']
    ||| op =~= seq!['<', '=']
    ||| op =~= seq!['>', '=']
}

/// `candidate` satisfies the constraint `op` / `cver`: it is a valid
/// version whose semantic comparison against `cver` matches the operator.
pub open spec fn constraint_satisfied(op: Seq<char>, cver: Seq<char>, candidate: Seq<char>) -> bool {
    &&& version_valid(candidate)
    &&& ({
        let c = version_cmp(candidate, cver);
        if op =~= seq!['='] {
            c == 0
        } else if op =~= seq!['<'] {
            c < 0
        } else if op =~= seq!['>'] {
            c > 0
        } else if op =~= seq!['<', '='] {
            c <= 0
        } else if op =~= seq!['>', '='] {
            c >= 0
        } else {
            false
        }
    })
}

impl PackageQuery {
    /// A well-formed parsed constraint: one of the five operators, a
    /// non-empty name, and a valid version.
    pub open spec fn wf(self) -> bool {
        &&& self.eval_wf()
        &&& self.name@.len() > 0
    }

    /// What evaluation needs: one of the five operators and a valid
    /// version; the name does not take part.
    pub open spec fn eval_wf(self) -> bool {
        &&& valid_op(self.comparison_operator@)
        &&& version_valid(self.version@)
    }

    /// Splits a constraint string such as `libfoo>=1.2.0` into name,
    /// operator and version; name and version are trimmed, the version
    /// must be a valid version string.
    pub fn parse(query: &str) -> (r: Result<PackageQuery, ParseError>)
        ensures
            r is Ok <==> parse_ok(query@),
            r matches Ok(q) ==> q.name@ == spec_name(query@) && q.comparison_operator@ == spec_op(
                query@,
            ) && q.version@ == spec_ver(query@) && q.wf(),
            r matches Err(e) ==> e == parse_err(query@),
    {
        let n = query.unicode_len();
        // look for the first two-character operator
        let mut p2: usize = n;
        let mut i: usize = 0;
        while n > 1 && i < n - 1
            invariant
                i <= n,
                n == query@.len(),
                p2 == n || (p2 == i && i < n && op2_at(query@, i as int)),
                forall|k: int| 0 <= k < i ==> !op2_at(query@, k),
            ensures
                i <= n,
                p2 == n || (p2 == i && i < n && op2_at(query@, i as int)),
                forall|k: int| 0 <= k < i ==> !op2_at(query@, k),
                p2 == n ==> i + 1 >= n,
            decreases n - i,
        {
            let c = query.get_char(i);
            let c2 = query.get_char(i + 1);
            if (c == '>' || c == '<') && c2 == '=' {
                p2 = i;
                break ;
            }
            i = i + 1;
        }
        proof {
            if p2 < n {
                lemma_first_op2_at(query@, p2 as int);
            } else {
                assert forall|k: int| 0 <= k < query@.len() implies !op2_at(query@, k) by {
                    if k < i {
                    } else {
                        assert(k + 1 >= query@.len());
                    }
                }
                lemma_first_op2_at(query@, n as int);
            }
        }
        let (pos, width): (usize, usize) = if p2 < n {
            (p2, 2)
        } else {
            // fall back to the first single-character operator
            let mut p1: usize = n;
            let mut j: usize = 0;
            while j < n
                invariant
                    j <= n,
                    n == query@.len(),
                    p1 == n || (p1 == j && j < n && op1_at(query@, j as int)),
                    forall|k: int| 0 <= k < j ==> !op1_at(query@, k),
                ensures
                    j <= n,
                    p1 == n || (p1 == j && j < n && op1_at(query@, j as int)),
                    forall|k: int| 0 <= k < j ==> !op1_at(query@, k),
                    p1 == n ==> j >= n,
                decreases n - j,
            {
                let c = query.get_char(j);
                if c == '=' || c == '<' || c == '>' {
                    p1 = j;
                    break ;
                }
                j = j + 1;
            }
            proof {
                lemma_first_op1_at(query@, p1 as int);
            }
            if p1 == n {
                proof {
                    assert(!has_op(query@));
                }
                return Err(ParseError::InvalidFormat);
            }
            (p1, 1)
        };
        proof {
            assert(pos as int == op_pos(query@));
            assert(width as int == op_width(query@));
        }
        let left = query.substring_char(0, pos);
        let right = query.substring_char(pos + width, n);
        let op = query.substring_char(pos, pos + width);
        let name = trim(left);
        let version = trim(right);
        if name.as_str().unicode_len() == 0 || version.as_str().unicode_len() == 0 {
            return Err(ParseError::InvalidFormat);
        }
        if !check_version(version.as_str()) {
            return Err(ParseError::InvalidVersion);
        }
        let q = PackageQuery { name, version, comparison_operator: op.to_owned() };
        proof {
            assert(op_pos(query@) < query@.len());
            if width == 2 {
                assert(op2_at(query@, pos as int));
                assert(q.comparison_operator@ =~= seq!['>', '='] || q.comparison_operator@
                    =~= seq!['<', '=']);
            } else {
                assert(op1_at(query@, pos as int));
                assert(q.comparison_operator@ =~= seq!['='] || q.comparison_operator@
                    =~= seq!['<'] || q.comparison_operator@ =~= seq!['>']);
            }
        }
        Ok(q)
    }

    /// Renders the constraint back to `name`, operator, `version`,
    /// with the whitespace of the source text dropped.
    pub fn to_query_string(&self) -> (r: String)
        ensures
            r@ == self.name@ + self.comparison_operator@ + self.version@,
    {
        let mut out = self.name.clone();
        out.append(self.comparison_operator.as_str());
        out.append(self.version.as_str());
        out
    }

    /// Whether `candidate` satisfies this constraint: `candidate` must be
    /// a valid version and compare against the constraint's version as
    /// the operator demands.
    pub fn evaluate(&self, candidate: &str) -> (r: bool)
        requires
            self.eval_wf(),
        ensures
            r == constraint_satisfied(self.comparison_operator@, self.version@, candidate@),
    {
        if !check_version(candidate) {
            return false;
        }
        let c = compare_versions(candidate, self.version.as_str());
        let op = self.comparison_operator.as_str();
        let oplen = op.unicode_len();
        proof {
            reveal_strlit("=");
            reveal_strlit("<");
            reveal_strlit(">");
        }
        if oplen == 1 {
            let oc = op.get_char(0);
            if oc == '=' {
                proof {
                    assert(self.comparison_operator@ =~= seq!['=']);
                }
                c == 0
            } else if oc == '<' {
                proof {
                    assert(self.comparison_operator@ =~= seq!['<']);
                }
                c < 0
            } else {
                proof {
                    assert(self.comparison_operator@ =~= seq!['>']);
                }
                c > 0
            }
        } else {
            let oc = op.get_char(0);
            if oc == '<' {
                proof {
                    assert(self.comparison_operator@ =~= seq!['<', '=']);
                }
                c <= 0
            } else {
                proof {
                    assert(self.comparison_operator@ =~= seq!['>', '=']);
                }
                c >= 0
            }
        }
    }
}


/// The characters of `spec_name(s)` sit inside `s` before the operator.
proof fn lemma_name_embeds(s: Seq<char>)
    requires
        has_op(s),
    ensures
        ({
            let u = s.subrange(0, op_pos(s));
            let lead = crate::chars::leading_spaces(u) as int;
            &&& 0 <= lead
            &&& lead + spec_name(s).len() <= op_pos(s)
            &&& forall|i: int|
                0 <= i < spec_name(s).len() ==> spec_name(s)[i] == s[lead + i]
        }),
{
    let u = s.subrange(0, op_pos(s));
    let lead = crate::chars::leading_spaces(u) as int;
    crate::chars::lemma_leading_spaces(u);
    crate::chars::lemma_trailing_spaces(u);
    lemma_first_op2(s);
    lemma_first_op1(s);
    if crate::chars::leading_spaces(u) == u.len() {
        assert(spec_name(s).len() == 0);
    } else {
        assert forall|i: int| 0 <= i < spec_name(s).len() implies spec_name(s)[i] == s[lead + i] by {
            assert(spec_name(s)[i] == u[lead + i]);
        }
    }
}

/// A valid version's characters are digits or dots: never an operator
/// character and never whitespace.
proof fn lemma_version_chars(v: Seq<char>)
    requires
        version_valid(v),
    ensures
        forall|k: int|
            0 <= k < v.len() ==> v[k] != '=' && v[k] != '<' && v[k] != '>' && !is_space_char(v[k]),
{
    assert forall|k: int|
        0 <= k < v.len() implies v[k] != '=' && v[k] != '<' && v[k] != '>' && !is_space_char(
        v[k],
    ) by {
        assert(crate::version::is_digit_char(v[k]) || v[k] == '.');
        assert('=' as u32 == 61 && '<' as u32 == 60 && '>' as u32 == 62);
        assert('.' as u32 == 46);
        assert(' ' as u32 == 32 && '\t' as u32 == 9 && '\r' as u32 == 13 && '\n' as u32 == 10);
    }
}

/// Parsing round-trips: rendering a successfully parsed constraint as
/// `name + operator + version` and parsing that text again yields the
/// same name, the same operator and the same version.
pub proof fn lemma_parse_round_trip(s: Seq<char>)
    requires
        parse_ok(s),
    ensures
        ({
            let r = spec_name(s) + spec_op(s) + spec_ver(s);
            &&& parse_ok(r)
            &&& spec_name(r) == spec_name(s)
            &&& spec_op(r) == spec_op(s)
            &&& spec_ver(r) == spec_ver(s)
        }),
{
    let p = op_pos(s);
    let w = op_width(s);
    let name = spec_name(s);
    let op = spec_op(s);
    let ver = spec_ver(s);
    let r = name + op + ver;
    let n = name.len() as int;
    lemma_first_op2(s);
    lemma_first_op1(s);
    lemma_name_embeds(s);
    lemma_version_chars(ver);
    let u = s.subrange(0, p);
    let lead = crate::chars::leading_spaces(u) as int;
    lemma_trim_trimmed(u);
    lemma_trim_trimmed(s.subrange(p + w, s.len() as int));
    // how r's characters decompose
    assert(r.len() == n + w + ver.len());
    assert(forall|i: int| 0 <= i < n ==> r[i] == name[i]);
    assert(forall|i: int| 0 <= i < w ==> r[n + i] == op[i]);
    assert(forall|i: int| 0 <= i < ver.len() ==> r[n + w + i] == ver[i]);
    if w == 2 {
        // the operator of s is its first two-character operator
        assert(op2_at(s, p));
        assert(op[0] == s[p] && op[1] == s[p + 1]);
        assert(op[0] == '>' || op[0] == '<');
        assert(op[1] == '=');
        // no two-character operator starts before position n in r
        assert forall|i: int| 0 <= i < n implies !op2_at(r, i) by {
            if i + 1 < n {
                if op2_at(r, i) {
                    assert(name[i] == s[lead + i] && name[i + 1] == s[lead + i + 1]);
                    assert(op2_at(s, lead + i));
                    assert(!op2_at(s, lead + i));
                }
            } else {
                // boundary pair: the operator starts with '>' or '<', not '='
                assert(i == n - 1 ==> r[i + 1] == op[0]);
            }
        }
        assert(op2_at(r, n));
        lemma_first_op2_at(r, n);
        assert(op_pos(r) == n && op_width(r) == 2);
        assert(spec_op(r) =~= op);
        assert(r.subrange(0, n) =~= name);
        lemma_trim_identity(name);
        assert(r.subrange(n + 2, r.len() as int) =~= ver);
        lemma_trim_identity(ver);
    } else {
        // no two-character operator anywhere in s, and p is the first
        // single-character operator
        assert(first_op2(s) == s.len());
        assert(op1_at(s, p));
        assert(op[0] == s[p]);
        assert(op[0] == '=' || op[0] == '<' || op[0] == '>');
        // the name holds no operator character at all
        assert forall|i: int| 0 <= i < n implies !(name[i] == '=' || name[i] == '<' || name[i]
            == '>') by {
            if op1_at(name, i) {
                assert(name[i] == s[lead + i]);
                assert(op1_at(s, lead + i));
                assert(!op1_at(s, lead + i));
            }
        }
        // no two-character operator anywhere in r
        assert forall|i: int| 0 <= i < r.len() implies !op2_at(r, i) by {
            if op2_at(r, i) {
                if i < n {
                    assert(r[i] == name[i]);
                } else if i == n {
                    assert(r[i + 1] == ver[0]);
                } else {
                    assert(r[i] == ver[i - n - 1]);
                }
            }
        }
        lemma_first_op2_at(r, r.len() as int);
        // the first single-character operator of r is at n
        assert forall|i: int| 0 <= i < n implies !op1_at(r, i) by {
            if op1_at(r, i) {
                assert(r[i] == name[i]);
            }
        }
        assert(op1_at(r, n));
        lemma_first_op1_at(r, n);
        assert(op_pos(r) == n && op_width(r) == 1);
        assert(spec_op(r) =~= op);
        assert(r.subrange(0, n) =~= name);
        lemma_trim_identity(name);
        assert(r.subrange(n + 1, r.len() as int) =~= ver);
        lemma_trim_identity(ver);
    }
}

} // verus!

