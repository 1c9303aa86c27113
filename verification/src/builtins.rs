//! Executable helpers for the evaluator: the operator application, token
//! splitting and classification, and the small conversions the built-in
//! commands use.  Each matches the corresponding specification function.

use vstd::prelude::*;
use vstd::string::StringExecFns;
use crate::num::Num;
use crate::data::{Data, DataV, data_wf, datas_wf, data_view, data_views, lemma_data_views_len};
use crate::ast::Ast;
use crate::errors::{Error, ErrV};
use crate::strutil::{str_is, chars_to_string};
use crate::strmap::StrMap;
use crate::eval::{
    sp_apply_binop, sp_classify_token, sp_inputf_convert, sp_find_seq, sp_split, sp_occurs_at,
    lemma_find_seq, lemma_inputf_err, strs_view, chvecs_view,
};

verus! {

/// Does the string vector hold this name?
#[verifier::loop_isolation(false)]
pub fn contains_str(v: &Vec<String>, s: &String) -> (r: bool)
    ensures
        r == strs_view(v@).contains(s@),
{
    let mut i: usize = 0;
    while i < v.len()
        invariant
            i <= v@.len(),
            forall|j: int| 0 <= j < i ==> strs_view(v@)[j] != s@,
        decreases v@.len() - i,
    {
        if v[i].eq(s) {
            proof {
                assert(strs_view(v@)[i as int] == s@);
            }
            return true;
        }
        i = i + 1;
    }
    proof {
        if strs_view(v@).contains(s@) {
            let j = choose|j: int| 0 <= j < strs_view(v@).len() && strs_view(v@)[j] == s@;
            assert(strs_view(v@)[j] == s@);
        }
    }
    false
}


/// A deep copy of a function table with the same model.
#[verifier::loop_isolation(false)]
pub fn dup_fn_map(m: &crate::strmap::StrMap<Ast>) -> (r: crate::strmap::StrMap<Ast>)
    requires
        m.wf(),
    ensures
        r@ == m@,
        r.wf(),
{
    let mut pairs: Vec<(String, Ast)> = Vec::new();
    let mut i: usize = 0;
    while i < m.pairs.len()
        invariant
            i <= m.pairs@.len(),
            pairs@.len() == i,
            forall|j: int|
                0 <= j < i ==> pairs@[j].0@ == m.pairs@[j].0@ && pairs@[j].1@ == m.pairs@[j].1@,
        decreases m.pairs@.len() - i,
    {
        pairs.push((m.pairs[i].0.clone(), m.pairs[i].1.dup()));
        i = i + 1;
    }
    proof {
        crate::strmap::lemma_map_of_congruence(pairs@, m.pairs@);
    }
    crate::strmap::StrMap { pairs }
}


/// A copy of `v[lo..hi]`.
#[verifier::loop_isolation(false)]
pub fn sub_chars(v: &Vec<char>, lo: usize, hi: usize) -> (r: Vec<char>)
    requires
        lo <= hi <= v@.len(),
    ensures
        r@ == v@.subrange(lo as int, hi as int),
{
    let mut r: Vec<char> = Vec::new();
    let mut i: usize = lo;
    while i < hi
        invariant
            lo <= i <= hi,
            r@ == v@.subrange(lo as int, i as int),
        decreases hi - i,
    {
        r.push(v[i]);
        i = i + 1;
        proof {
            assert(r@ =~= v@.subrange(lo as int, i as int));
        }
    }
    r
}


/// First occurrence of `d` in `v` at or after `from`.
#[verifier::loop_isolation(false)]
pub fn find_seq_chars(v: &Vec<char>, d: &Vec<char>, from: usize) -> (r: Option<usize>)
    requires
        d@.len() >= 1,
        from <= v@.len(),
    ensures
        match r {
            Some(i) => from <= i && sp_occurs_at(v@, d@, i as int) && forall|j: int|
                from <= j < i ==> !sp_occurs_at(v@, d@, j),
            None => forall|j: int| from <= j < v@.len() ==> !sp_occurs_at(v@, d@, j),
        },
{
    if d.len() > v.len() {
        return None;
    }
    let last_start: usize = v.len() - d.len();
    let mut i: usize = from;
    while i <= last_start
        invariant
            from <= i,
            d@.len() >= 1,
            last_start == v@.len() - d@.len(),
            forall|j: int| from <= j < i ==> !sp_occurs_at(v@, d@, j),
        decreases v@.len() - i,
    {
        let mut k: usize = 0;
        let mut ok: bool = true;
        while k < d.len()
            invariant
                k <= d@.len(),
                i + d@.len() <= v@.len(),
                ok == (forall|m: int| 0 <= m < k ==> v@[i + m] == d@[m]),
            decreases d@.len() - k,
        {
            if v[i + k] != d[k] {
                ok = false;
                k = d.len();
            } else {
                k = k + 1;
            }
        }
        if ok {
            proof {
                assert(v@.subrange(i as int, i + d@.len() as int) =~= d@);
            }
            return Some(i);
        }
        proof {
            assert(!sp_occurs_at(v@, d@, i as int)) by {
                if sp_occurs_at(v@, d@, i as int) {
                    let m = choose|m: int| 0 <= m < d@.len() && v@[i + m] != d@[m];
                    assert(v@.subrange(i as int, i + d@.len() as int)[m] == v@[i + m]);
                }
            }
        }
        i = i + 1;
    }
    proof {
        assert forall|j: int| from <= j < v@.len() implies !sp_occurs_at(v@, d@, j) by {
            if j + d@.len() <= v@.len() {
                assert(j <= last_start);
            }
        }
    }
    None
}


/// Split a character vector on a delimiter, as `sp_split` describes.
#[verifier::loop_isolation(false)]
pub fn split_chars(v: &Vec<char>, d: &Vec<char>) -> (r: Vec<Vec<char>>)
    ensures
        chvecs_view(r@) == sp_split(v@, d@),
{
    let mut r: Vec<Vec<char>> = Vec::new();
    if d.len() == 0 {
        r.push(sub_chars(v, 0, v.len()));
        proof {
            assert(v@.subrange(0, v@.len() as int) =~= v@);
            assert(chvecs_view(r@) =~= sp_split(v@, d@));
        }
        return r;
    }
    let mut p: usize = 0;
    let mut done: bool = false;
    proof {
        assert(v@.subrange(0, v@.len() as int) =~= v@);
        assert(chvecs_view(r@) + sp_split(v@, d@) =~= sp_split(v@, d@));
    }
    while !done
        invariant
            d@.len() >= 1,
            p <= v@.len(),
            !done ==> sp_split(v@, d@) == chvecs_view(r@) + sp_split(
                v@.subrange(p as int, v@.len() as int),
                d@,
            ),
            done ==> sp_split(v@, d@) == chvecs_view(r@),
        decreases v@.len() - p + (if done { 0int } else { 1int }),
    {
        let ghost rest = v@.subrange(p as int, v@.len() as int);
        proof {
            lemma_find_seq(rest, d@);
        }
        match find_seq_chars(v, d, p) {
            Some(i) => {
                proof {
                    // the absolute occurrence corresponds to one in `rest`
                    assert(sp_occurs_at(rest, d@, i - p)) by {
                        assert(rest.subrange(i - p, i - p + d@.len() as int) =~= v@.subrange(
                            i as int,
                            i + d@.len() as int,
                        ));
                    }
                    assert(sp_find_seq(rest, d@) == Some((i - p) as nat)) by {
                        match sp_find_seq(rest, d@) {
                            Some(k) => {
                                if k < i - p {
                                    assert(sp_occurs_at(rest, d@, k as int));
                                    assert(sp_occurs_at(v@, d@, p + k)) by {
                                        assert(v@.subrange(p + k, p + k + d@.len() as int)
                                            =~= rest.subrange(k as int, k + d@.len() as int));
                                    }
                                }
                                if k > i - p {
                                    assert(!sp_occurs_at(rest, d@, i - p));
                                }
                            },
                            None => {
                                assert(!sp_occurs_at(rest, d@, i - p));
                            },
                        }
                    }
                }
                let tok = sub_chars(v, p, i);
                let ghost old_r = r@;
                r.push(tok);
                proof {
                    assert(chvecs_view(r@) =~= chvecs_view(old_r).push(tok@));
                    assert(tok@ =~= rest.subrange(0, i - p));
                    let newrest = v@.subrange(i + d@.len() as int, v@.len() as int);
                    assert(rest.subrange(
                        i - p + d@.len() as int,
                        rest.len() as int,
                    ) =~= newrest);
                    assert(sp_split(rest, d@) == seq![rest.subrange(0, i - p)] + sp_split(
                        newrest,
                        d@,
                    ));
                    assert(chvecs_view(old_r) + sp_split(rest, d@) =~= chvecs_view(r@) + sp_split(
                        newrest,
                        d@,
                    ));
                }
                let vlen = v.len();
                proof {
                    assert(sp_occurs_at(v@, d@, i as int));
                    assert(i + d@.len() <= vlen);
                }
                p = i + d.len();
            },
            None => {
                proof {
                    assert(sp_find_seq(rest, d@) is None) by {
                        match sp_find_seq(rest, d@) {
                            Some(k) => {
                                assert(sp_occurs_at(rest, d@, k as int));
                                assert(sp_occurs_at(v@, d@, p + k)) by {
                                    assert(v@.subrange(p + k, p + k + d@.len() as int)
                                        =~= rest.subrange(k as int, k + d@.len() as int));
                                }
                            },
                            None => {},
                        }
                    }
                    assert(sp_split(rest, d@) == seq![rest]);
                }
                let tok = sub_chars(v, p, v.len());
                let ghost old_r = r@;
                r.push(tok);
                proof {
                    assert(chvecs_view(r@) =~= chvecs_view(old_r).push(tok@));
                    assert(chvecs_view(old_r) + seq![rest] =~= chvecs_view(r@));
                    assert(sp_split(v@, d@) == chvecs_view(r@));
                }
                done = true;
            },
        }
    }
    proof {
        assert(sp_split(v@, d@) == chvecs_view(r@));
    }
    r
}


/// Apply one binary (or postfix) operator, as `sp_apply_binop` describes.
pub fn apply_binop(op: &String, l: &Data, r: &Data) -> (res: Result<Data, crate::errors::Error>)
    requires
        data_wf(l@),
        data_wf(r@),
    ensures
        (match res {
            Ok(d) => sp_apply_binop(op@, l@, r@) == Ok::<DataV, ErrV>(d@) && data_wf(d@),
            Err(e) => sp_apply_binop(op@, l@, r@) == Err::<DataV, ErrV>(e@),
        }),
{
    let an = match l.as_number() {
        Some(n) => n,
        None => {
            return Err(Error::type_err("value is not a number"));
        },
    };
    let bn = match r.as_number() {
        Some(n) => n,
        None => {
            return Err(Error::type_err("value is not a number"));
        },
    };
    if str_is(op, "+") {
        match crate::arith::num_add(&an, &bn) {
            Some(n) => Ok(Data::Number(n)),
            None => Err(Error::NumericOverflow),
        }
    } else if str_is(op, "-") {
        match crate::arith::num_sub(&an, &bn) {
            Some(n) => Ok(Data::Number(n)),
            None => Err(Error::NumericOverflow),
        }
    } else if str_is(op, "*") {
        match crate::arith::num_mul(&an, &bn) {
            Some(n) => Ok(Data::Number(n)),
            None => Err(Error::NumericOverflow),
        }
    } else if str_is(op, "/") {
        if bn.mantissa == 0 {
            Err(Error::DivisionByZero)
        } else {
            match crate::arith::num_div(&an, &bn) {
                Some(n) => Ok(Data::Number(n)),
                None => Err(Error::NumericOverflow),
            }
        }
    } else if str_is(op, "^") {
        match crate::arith::num_pow(&an, &bn) {
            Some(n) => Ok(Data::Number(n)),
            None => Err(Error::NumericOverflow),
        }
    } else if str_is(op, "==") {
        Ok(Data::Bool(crate::arith::num_eq(&an, &bn)))
    } else if str_is(op, "!=") {
        Ok(Data::Bool(!crate::arith::num_eq(&an, &bn)))
    } else if str_is(op, "<") {
        Ok(Data::Bool(crate::arith::num_lt(&an, &bn)))
    } else if str_is(op, ">") {
        Ok(Data::Bool(crate::arith::num_lt(&bn, &an)))
    } else if str_is(op, "<=") {
        Ok(Data::Bool(crate::arith::num_le(&an, &bn)))
    } else if str_is(op, ">=") {
        Ok(Data::Bool(crate::arith::num_le(&bn, &an)))
    } else if str_is(op, "!") {
        match an.to_int() {
            None => Err(Error::type_err("factorial of a non-integer")),
            Some(v) => {
                if v < 0 {
                    Err(Error::domain_err("factorial of a negative number"))
                } else {
                    match Num::factorial(v as u128) {
                        Some(n) => Ok(Data::Number(n)),
                        None => Err(Error::NumericOverflow),
                    }
                }
            },
        }
    } else {
        Err(Error::type_err("unknown operator"))
    }
}


/// Classify one `split` token, as `sp_classify_token` describes.
pub fn classify_token(t: &Vec<char>) -> (r: Data)
    ensures
        r@ == sp_classify_token(t@),
        data_wf(r@),
{
    match crate::num::parse_dec_chars(t) {
        Some(n) => Data::Number(n),
        None => {
            let s = chars_to_string(t);
            if str_is(&s, "true") {
                Data::Bool(true)
            } else if str_is(&s, "false") {
                Data::Bool(false)
            } else {
                Data::String(s)
            }
        },
    }
}


/// Convert `inputf` tokens by their specifiers, as `sp_inputf_convert`
/// describes.
#[verifier::loop_isolation(false)]
pub fn inputf_convert(specs: &Vec<Vec<char>>, toks: &Vec<Vec<char>>) -> (r: Result<
    Vec<Data>,
    crate::errors::Error,
>)
    requires
        specs@.len() == toks@.len(),
    ensures
        (match r {
            Ok(ds) => sp_inputf_convert(chvecs_view(specs@), chvecs_view(toks@))
                == Ok::<Seq<DataV>, ErrV>(data_views(ds@)) && datas_wf(
                data_views(ds@),
            ),
            Err(e) => sp_inputf_convert(chvecs_view(specs@), chvecs_view(toks@)) == Err::<
                Seq<DataV>,
                ErrV,
            >(e@),
        }),
{
    let ghost sv = chvecs_view(specs@);
    let ghost tv = chvecs_view(toks@);
    let mut ds: Vec<Data> = Vec::new();
    let mut i: usize = 0;
    while i < specs.len()
        invariant
            i <= specs@.len(),
            sp_inputf_convert(sv.subrange(0, i as int), tv.subrange(0, i as int)) == Ok::<
                Seq<DataV>,
                ErrV,
            >(data_views(ds@)),
            datas_wf(data_views(ds@)),
        decreases specs@.len() - i,
    {
        let sp = chars_to_string(&specs[i]);
        let tk = &toks[i];
        proof {
            assert(sv.subrange(0, i as int + 1).drop_last() =~= sv.subrange(0, i as int));
            assert(tv.subrange(0, i as int + 1).drop_last() =~= tv.subrange(0, i as int));
            assert(sv.subrange(0, i as int + 1).last() == sv[i as int]);
            assert(tv.subrange(0, i as int + 1).last() == tv[i as int]);
            assert(sv[i as int] == specs@[i as int]@);
            assert(tv[i as int] == toks@[i as int]@);
        }
        let ghost prev = ds@;
        if str_is(&sp, "%Number") {
            match crate::num::parse_dec_chars(tk) {
                Some(n) => {
                    ds.push(Data::Number(n));
                },
                None => {
                    proof {
                        lemma_inputf_err(sv, tv, i as int + 1);
                    }
                    return Err(Error::InputFormatError(String::from_str("invalid number")));
                },
            }
        } else if str_is(&sp, "%String") {
            let s2 = chars_to_string(tk);
            ds.push(Data::String(s2));
        } else if str_is(&sp, "%Bool") {
            let s2 = chars_to_string(tk);
            if str_is(&s2, "true") {
                ds.push(Data::Bool(true));
            } else if str_is(&s2, "false") {
                ds.push(Data::Bool(false));
            } else {
                proof {
                    lemma_inputf_err(sv, tv, i as int + 1);
                }
                return Err(Error::InputFormatError(String::from_str("invalid boolean")));
            }
        } else {
            proof {
                lemma_inputf_err(sv, tv, i as int + 1);
            }
            return Err(Error::InputFormatError(String::from_str("unknown format specifier")));
        }
        proof {
            assert(ds@.drop_last() =~= prev);
            lemma_data_views_len(ds@);
            lemma_data_views_len(prev);
            assert(data_views(ds@).drop_last() =~= data_views(prev));
            assert(data_views(ds@) == data_views(prev).push(data_view(ds@.last())));
            assert(sp_inputf_convert(sv.subrange(0, i as int + 1), tv.subrange(0, i as int + 1))
                == Ok::<Seq<DataV>, ErrV>(data_views(ds@)));
            assert forall|j: int| 0 <= j < data_views(ds@).len() implies data_wf(
                #[trigger] data_views(ds@)[j],
            ) by {
                if j < prev.len() {
                    assert(data_views(ds@)[j] == data_views(prev)[j]);
                }
            }
        }
        i = i + 1;
    }
    proof {
        assert(sv.subrange(0, specs@.len() as int) =~= sv);
        assert(tv.subrange(0, toks@.len() as int) =~= tv);
    }
    Ok(ds)
}


/// A copy of the values `v[lo..hi]`.
#[verifier::loop_isolation(false)]
pub fn sub_datas(v: &Vec<Data>, lo: usize, hi: usize) -> (r: Vec<Data>)
    requires
        lo <= hi <= v@.len(),
    ensures
        data_views(r@) == data_views(v@).subrange(lo as int, hi as int),
        r@.len() == hi - lo,
{
    proof {
        lemma_data_views_len(v@);
    }
    let mut r: Vec<Data> = Vec::new();
    let mut i: usize = lo;
    while i < hi
        invariant
            lo <= i <= hi,
            r@.len() == i - lo,
            data_views(r@) == data_views(v@).subrange(lo as int, i as int),
        decreases hi - i,
    {
        let ghost prev = r@;
        r.push(v[i].dup());
        i = i + 1;
        proof {
            assert(r@.drop_last() =~= prev);
            lemma_data_views_len(r@);
            lemma_data_views_len(prev);
            assert(data_views(r@) =~= data_views(v@).subrange(lo as int, i as int));
        }
    }
    r
}


} // verus!
