//! Parameters of the line-oriented command reader: each carries its raw
//! text and a classification as quoted text, a numeric literal, or an
//! identifier.

use vstd::prelude::*;
use vstd::string::StringExecFns;
use crate::num::{all_digits, is_digit, sp_find_char, lemma_find_char};
use crate::strutil::string_to_chars;

verus! {

/// One command parameter: its raw text and its classification.
pub struct Param {
    /// `"String"`, `"Number"` or `"Identifier"`.
    pub param_type: String,
    /// The raw parameter text.
    pub param: String,
}

/// `a` is `b` or its upper-case form, for a lower-case letter `b`.
pub open spec fn ci_eq_char(a: char, b: char) -> bool {
    a == b || ('a' <= b && b <= 'z' && a as u32 == b as u32 - 32)
}

/// `s` equals the lower-case word `l` up to letter case.
pub open spec fn ci_eq(s: Seq<char>, l: Seq<char>) -> bool {
    s.len() == l.len() && forall|i: int| 0 <= i < s.len() ==> ci_eq_char(s[i], l[i])
}

/// `s` without one leading sign character.
pub open spec fn sp_after_sign(s: Seq<char>) -> Seq<char> {
    if s.len() > 0 && (s[0] == '+' || s[0] == '-') {
        s.drop_first()
    } else {
        s
    }
}

/// First position of an exponent marker.
pub open spec fn sp_find_exp(s: Seq<char>) -> Option<nat>
    decreases s.len(),
{
    if s.len() == 0 {
        None
    } else if s[0] == 'e' || s[0] == 'E' {
        Some(0)
    } else {
        match sp_find_exp(s.drop_first()) {
            Some(i) => Some((i + 1) as nat),
            None => None,
        }
    }
}

pub proof fn lemma_find_exp(s: Seq<char>)
    ensures
        match sp_find_exp(s) {
            Some(i) => i < s.len() && (s[i as int] == 'e' || s[i as int] == 'E') && forall|j: int|
                0 <= j < i ==> s[j] != 'e' && s[j] != 'E',
            None => forall|j: int| 0 <= j < s.len() ==> s[j] != 'e' && s[j] != 'E',
        },
    decreases s.len(),
{
    if s.len() > 0 && s[0] != 'e' && s[0] != 'E' {
        let t = s.drop_first();
        lemma_find_exp(t);
        assert(forall|j: int| 1 <= j < s.len() ==> s[j] == t[j - 1]);
    }
}

/// A digit run with at most one dot and at least one digit.
pub open spec fn sp_is_mantissa(m: Seq<char>) -> bool {
    match sp_find_char(m, '.') {
        None => m.len() >= 1 && all_digits(m),
        Some(i) => {
            let ip = m.subrange(0, i as int);
            let fp = m.subrange(i as int + 1, m.len() as int);
            all_digits(ip) && all_digits(fp) && ip.len() + fp.len() >= 1
        },
    }
}

/// An optional sign followed by at least one digit.
pub open spec fn sp_is_exp_part(e: Seq<char>) -> bool {
    sp_after_sign(e).len() >= 1 && all_digits(sp_after_sign(e))
}

/// The floating-point literal shapes: an optional sign, then `inf`,
/// `infinity` or `nan` up to case, or a decimal mantissa with an optional
/// exponent.
pub open spec fn sp_is_float_lit(v: Seq<char>) -> bool {
    let t = sp_after_sign(v);
    ci_eq(t, "inf"@) || ci_eq(t, "infinity"@) || ci_eq(t, "nan"@) || (match sp_find_exp(t) {
        None => sp_is_mantissa(t),
        Some(k) => sp_is_mantissa(t.subrange(0, k as int)) && sp_is_exp_part(
            t.subrange(k as int + 1, t.len() as int),
        ),
    })
}

/// How a raw parameter is classified: quote-delimited text is a `String`,
/// a floating-point literal is a `Number`, anything else an `Identifier`.
pub open spec fn sp_param_type(v: Seq<char>) -> Seq<char> {
    if v.len() >= 1 && v[0] == '"' && v.last() == '"' {
        "String"@
    } else if sp_is_float_lit(v) {
        "Number"@
    } else {
        "Identifier"@
    }
}

/// The parameter keeps the raw text and carries its classification.
pub open spec fn param_matches(p: Param, v: Seq<char>) -> bool {
    p.param@ == v && p.param_type@ == sp_param_type(v)
}

/// Is every character of `v[a..b]` a digit?
#[verifier::loop_isolation(false)]
fn digits_in_range(v: &Vec<char>, a: usize, b: usize) -> (r: bool)
    requires
        a <= b <= v@.len(),
    ensures
        r == all_digits(v@.subrange(a as int, b as int)),
{
    let ghost w = v@.subrange(a as int, b as int);
    let mut i: usize = a;
    while i < b
        invariant
            a <= i <= b,
            forall|j: int| 0 <= j < i - a ==> is_digit(w[j]),
        decreases b - i,
    {
        let c = v[i];
        proof {
            assert(w[i - a] == v@[i as int]);
        }
        if !('0' <= c && c <= '9') {
            return false;
        }
        i = i + 1;
    }
    true
}

/// Does `v[a..]` equal the lower-case word `lit` up to case?
#[verifier::loop_isolation(false)]
fn ci_eq_tail(v: &Vec<char>, a: usize, lit: &str) -> (r: bool)
    requires
        a <= v@.len(),
    ensures
        r == ci_eq(v@.subrange(a as int, v@.len() as int), lit@),
{
    let ghost w = v@.subrange(a as int, v@.len() as int);
    let l = string_to_chars(&String::from_str(lit));
    if v.len() - a != l.len() {
        return false;
    }
    let mut i: usize = 0;
    while i < l.len()
        invariant
            i <= l@.len(),
            w.len() == l@.len(),
            forall|j: int| 0 <= j < i ==> ci_eq_char(w[j], l@[j]),
        decreases l@.len() - i,
    {
        let c = v[a + i];
        let b = l[i];
        proof {
            assert(w[i as int] == v@[a + i]);
        }
        let same = c == b;
        let upper = 'a' <= b && b <= 'z' && (b as u32) - 32 == (c as u32);
        if !(same || upper) {
            proof {
                assert(!ci_eq_char(w[i as int], l@[i as int]));
            }
            return false;
        }
        proof {
            assert(ci_eq_char(w[i as int], l@[i as int]));
        }
        i = i + 1;
    }
    true
}

/// Does the text parse as a floating-point literal?
#[verifier::loop_isolation(false)]
#[verifier::spinoff_prover]
#[verifier::rlimit(100)]
pub fn is_float_lit_chars(v: &Vec<char>) -> (r: bool)
    ensures
        r == sp_is_float_lit(v@),
{
    let start: usize = if v.len() > 0 && (v[0] == '+' || v[0] == '-') {
        1
    } else {
        0
    };
    let ghost t = sp_after_sign(v@);
    proof {
        assert(t =~= v@.subrange(start as int, v@.len() as int));
    }
    if ci_eq_tail(v, start, "inf") || ci_eq_tail(v, start, "infinity") || ci_eq_tail(
        v,
        start,
        "nan",
    ) {
        return true;
    }
    // find the exponent marker within `t`
    proof {
        lemma_find_exp(t);
    }
    let mut k: usize = start;
    while k < v.len() && !(v[k] == 'e' || v[k] == 'E')
        invariant
            start <= k <= v@.len(),
            forall|j: int| start <= j < k ==> v@[j] != 'e' && v@[j] != 'E',
        decreases v@.len() - k,
    {
        k = k + 1;
    }
    let mend: usize = k;
    proof {
        assert(forall|j: int| 0 <= j < t.len() ==> t[j] == v@[start + j]);
        if mend == v@.len() {
            match sp_find_exp(t) {
                Some(i) => {
                    assert(t[i as int] == v@[start + i]);
                    assert(false);
                },
                None => {},
            }
        } else {
            assert(sp_find_exp(t) == Some((mend - start) as nat)) by {
                match sp_find_exp(t) {
                    Some(i) => {
                        if i < mend - start {
                            assert(v@[start + i] == t[i as int]);
                        }
                        if i > mend - start {
                            assert(t[mend - start] == v@[mend as int]);
                        }
                    },
                    None => {
                        assert(t[mend - start] == v@[mend as int]);
                    },
                }
            }
        }
    }
    // the mantissa is v[start..mend]
    let ghost m = if mend == v@.len() {
        t
    } else {
        t.subrange(0, mend - start)
    };
    proof {
        assert(m =~= v@.subrange(start as int, mend as int));
        lemma_find_char(m, '.');
    }
    let mut d: usize = start;
    while d < mend && v[d] != '.'
        invariant
            start <= d <= mend <= v@.len(),
            forall|j: int| start <= j < d ==> v@[j] != '.',
        decreases mend - d,
    {
        d = d + 1;
    }
    proof {
        assert(forall|j: int| 0 <= j < m.len() ==> m[j] == v@[start + j]);
        if d == mend {
            match sp_find_char(m, '.') {
                Some(i) => {
                    assert(m[i as int] == v@[start + i]);
                    assert(false);
                },
                None => {},
            }
        } else {
            assert(sp_find_char(m, '.') == Some((d - start) as nat)) by {
                match sp_find_char(m, '.') {
                    Some(i) => {
                        if i < d - start {
                            assert(v@[start + i] == m[i as int]);
                        }
                        if i > d - start {
                            assert(m[d - start] == v@[d as int]);
                        }
                    },
                    None => {
                        assert(m[d - start] == v@[d as int]);
                    },
                }
            }
        }
    }
    let mant_ok: bool = if d == mend {
        let nonempty = mend > start;
        let dg = digits_in_range(v, start, mend);
        proof {
            assert(v@.subrange(start as int, mend as int) =~= m);
        }
        nonempty && dg
    } else {
        let ip_ok = digits_in_range(v, start, d);
        let fp_ok = digits_in_range(v, d + 1, mend);
        proof {
            assert(m.subrange(0, d - start) =~= v@.subrange(start as int, d as int));
            assert(m.subrange(d - start + 1, m.len() as int) =~= v@.subrange(
                d as int + 1,
                mend as int,
            ));
        }
        ip_ok && fp_ok && (d > start || d + 1 < mend)
    };
    if mend == v.len() {
        return mant_ok;
    }
    // the exponent part is v[mend + 1 ..]
    let ghost ep = t.subrange(mend - start + 1, t.len() as int);
    proof {
        assert(ep =~= v@.subrange(mend as int + 1, v@.len() as int));
    }
    let es: usize = if mend + 1 < v.len() && (v[mend + 1] == '+' || v[mend + 1] == '-') {
        mend + 2
    } else {
        mend + 1
    };
    proof {
        assert(sp_after_sign(ep) =~= v@.subrange(es as int, v@.len() as int));
    }
    let exp_ok = es < v.len() && digits_in_range(v, es, v.len());
    mant_ok && exp_ok
}

impl Param {
    /// Classify one raw parameter.
    pub fn new_param(param_value: String) -> (r: Param)
        ensures
            param_matches(r, param_value@),
    {
        let cs = string_to_chars(&param_value);
        let quoted = cs.len() >= 1 && cs[0] == '"' && cs[cs.len() - 1] == '"';
        let ptype: &str = if quoted {
            "String"
        } else if is_float_lit_chars(&cs) {
            "Number"
        } else {
            "Identifier"
        };
        Param { param_type: String::from_str(ptype), param: param_value }
    }

    /// Classify each raw parameter of a list, in order.
    #[verifier::loop_isolation(false)]
    pub fn param_from_vec(param_as_string_vec: Vec<String>) -> (r: Vec<Param>)
        ensures
            r@.len() == param_as_string_vec@.len(),
            forall|i: int|
                0 <= i < r@.len() ==> param_matches(
                    #[trigger] r@[i],
                    param_as_string_vec@[i]@,
                ),
    {
        let mut r: Vec<Param> = Vec::new();
        let mut i: usize = 0;
        while i < param_as_string_vec.len()
            invariant
                i <= param_as_string_vec@.len(),
                r@.len() == i,
                forall|j: int|
                    0 <= j < i ==> param_matches(#[trigger] r@[j], param_as_string_vec@[j]@),
            decreases param_as_string_vec@.len() - i,
        {
            let p = Param::new_param(param_as_string_vec[i].clone());
            r.push(p);
            i = i + 1;
        }
        r
    }

    /// The raw text, for a parameter classified as an identifier.
    pub fn get_value_as_varname(&self) -> (r: &str)
        requires
            self.param_type@ == "Identifier"@,
        ensures
            r@ == self.param@,
    {
        core::ops::Deref::deref(&self.param)
    }
}

} // verus!
