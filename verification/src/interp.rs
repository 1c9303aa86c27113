//! The executable tree walker: expression evaluation, statement execution
//! and the interpreter state, each proved equal to the specified semantics
//! in `eval`.

use vstd::prelude::*;
use vstd::string::StringExecFns;
use crate::num::{Num, num_wf, MAX_MANTISSA, MAX_SCALE};
use crate::data::{Data, DataV, data_wf, datas_wf, data_view, data_views, lemma_data_views_len};
use crate::ast::{Ast, AstV};
use crate::errors::{Error, ErrV};
use crate::strutil::str_is;
use crate::strmap::StrMap;
use crate::builtins::{
    contains_str, dup_fn_map, split_chars, sub_datas, apply_binop, classify_token, inputf_convert,
};
use crate::eval::{
    StV, EvalOut, ListOut, StepOut, ReturnType, DEFAULT_FUEL, ast_wf, ast_wf_all, vars_wf,
    funcs_wf, sp_eval, sp_eval_index, sp_eval_call, sp_eval_list, sp_print_args, sp_print_result,
    sp_call_user, sp_exec_stmt, sp_exec_stmts, sp_exec_block_node, sp_run_for, sp_bind_params,
    sp_check_args, sp_split_values, sp_join_values, sp_inputf_result, sp_classify_all, sp_assign_elem,
    sp_classify_token, strs_view, chvecs_view, st_of, eval_matches, list_matches, step_matches,
    sp_list_append, sp_list_vals_of, lemma_vars_wf_insert, lemma_funcs_wf_insert,
    funcs_extends, lemma_funcs_extends_trans,
    lemma_eval_list_len, lemma_call_user_vars,
};

verus! {

/// Evaluate an expression against the current frame and streams.
#[verifier::loop_isolation(false)]
pub fn eval_expr(
    e: &Ast,
    vars: &StrMap<Data>,
    funcs: &StrMap<Ast>,
    stdc: &Vec<String>,
    out: &mut Vec<String>,
    inp: &mut Vec<String>,
    fuel: u64,
) -> (r: Result<Data, Error>)
    requires
        ast_wf(e@),
        vars.wf(),
        funcs.wf(),
        vars_wf(vars@),
        funcs_wf(funcs@),
    ensures
        eval_matches(
            sp_eval(
                e@,
                st_of(
                    vars@,
                    funcs@,
                    strs_view(stdc@),
                    strs_view(old(out)@),
                    strs_view(old(inp)@),
                ),
                fuel as nat,
            ),
            r,
            strs_view(final(out)@),
            strs_view(final(inp)@),
        ),
        e@ is Ident ==> final(out)@ == old(out)@ && final(inp)@ == old(inp)@,
    decreases fuel, e, 0nat, 0nat,
{
    match e {
        Ast::Int(n) => {
            if n.scale <= MAX_SCALE && -MAX_MANTISSA <= n.mantissa && n.mantissa <= MAX_MANTISSA {
                Ok(Data::Number(*n))
            } else {
                Err(Error::NumericOverflow)
            }
        },
        Ast::String(s) => Ok(Data::String(s.clone())),
        Ast::Bool(b) => Ok(Data::Bool(*b)),
        Ast::Identifier(id) => match vars.get(id) {
            Some(v) => {
                proof {
                    assert(data_wf(vars@[id@]));
                }
                Ok(v.dup())
            },
            None => Err(Error::VariableNotFound(id.clone())),
        },
        Ast::Array(es) => {
            proof {
                crate::ast::lemma_ast_views_len(es@);
            }
            match eval_list(es, vars, funcs, stdc, out, inp, fuel) {
                Ok(ds) => Ok(Data::Array(ds)),
                Err(er) => Err(er),
            }
        },
        Ast::BinaryOp { op, left, right } => {
            proof {
                assert(ast_wf(crate::ast::ast_view(**left)));
                assert(ast_wf(crate::ast::ast_view(**right)));
            }
            let lv = match eval_expr(&**left, vars, funcs, stdc, out, inp, fuel) {
                Ok(v) => v,
                Err(er) => {
                    return Err(er);
                },
            };
            let rv = match eval_expr(&**right, vars, funcs, stdc, out, inp, fuel) {
                Ok(v) => v,
                Err(er) => {
                    return Err(er);
                },
            };
            match apply_binop(op, &lv, &rv) {
                Ok(d) => Ok(d),
                Err(er) => Err(er),
            }
        },
        Ast::ArrayAccess { expr, whereto } => {
            proof {
                assert(ast_wf(crate::ast::ast_view(**expr)));
                assert(ast_wf(crate::ast::ast_view(**whereto)));
            }
            let av = match eval_expr(&**expr, vars, funcs, stdc, out, inp, fuel) {
                Ok(v) => v,
                Err(er) => {
                    return Err(er);
                },
            };
            match av {
                Data::Array(items) => {
                    proof {
                        assert(data_wf(av@));
                    }
                    eval_index(&items, &**whereto, vars, funcs, stdc, out, inp, fuel)
                },
                _ => Err(Error::type_err("expected an array")),
            }
        },
        Ast::FunctionCall { id, args } => {
            proof {
                crate::ast::lemma_ast_views_len(args@);
            }
            eval_call(id, args, vars, funcs, stdc, out, inp, fuel)
        },
        _ => Err(Error::type_err("not an expression")),
    }
}

/// Read an array at a syntactic index, as `sp_eval_index` describes.
#[verifier::loop_isolation(false)]
pub fn eval_index(
    items: &Vec<Data>,
    idx: &Ast,
    vars: &StrMap<Data>,
    funcs: &StrMap<Ast>,
    stdc: &Vec<String>,
    out: &mut Vec<String>,
    inp: &mut Vec<String>,
    fuel: u64,
) -> (r: Result<Data, Error>)
    requires
        ast_wf(idx@),
        datas_wf(data_views(items@)),
        vars.wf(),
        funcs.wf(),
        vars_wf(vars@),
        funcs_wf(funcs@),
    ensures
        eval_matches(
            sp_eval_index(
                data_views(items@),
                idx@,
                st_of(
                    vars@,
                    funcs@,
                    strs_view(stdc@),
                    strs_view(old(out)@),
                    strs_view(old(inp)@),
                ),
                fuel as nat,
            ),
            r,
            strs_view(final(out)@),
            strs_view(final(inp)@),
        ),
    decreases fuel, idx, 1nat, 0nat,
{
    proof {
        lemma_data_views_len(items@);
    }
    match idx {
        Ast::Int(n) => {
            proof {
                assert(num_wf(n@));
            }
            match n.to_int() {
            None => Err(Error::type_err("array index must be an integer")),
            Some(v) => {
                if 0 <= v && v < items.len() as i128 {
                    Ok(items[v as usize].dup())
                } else {
                    Err(Error::IndexOutOfBounds)
                }
            },
        }
        },
        Ast::AstSlice { from, to } => {
            let lo: i128 = match from {
                Some(ebox) => {
                    proof {
                        crate::ast::lemma_opt_ast_view_some(*from, *ebox);
                        assert(ast_wf(crate::ast::ast_view(**ebox)));
                    }
                    let fv = match eval_expr(&**ebox, vars, funcs, stdc, out, inp, fuel) {
                        Ok(v) => v,
                        Err(er) => {
                            return Err(er);
                        },
                    };
                    match fv {
                        Data::Number(fnum) => {
                            proof {
                                assert(data_wf(fv@));
                                assert(num_wf(fnum@));
                            }
                            match fnum.to_int() {
                                Some(v) => v,
                                None => {
                                    return Err(Error::type_err("array index must be an integer"));
                                },
                            }
                        },
                        _ => {
                            return Err(Error::type_err("slice bound must be a number"));
                        },
                    }
                },
                None => 0,
            };
            let hi: i128 = match to {
                Some(ebox) => {
                    proof {
                        crate::ast::lemma_opt_ast_view_some(*to, *ebox);
                        assert(ast_wf(crate::ast::ast_view(**ebox)));
                    }
                    let tv = match eval_expr(&**ebox, vars, funcs, stdc, out, inp, fuel) {
                        Ok(v) => v,
                        Err(er) => {
                            return Err(er);
                        },
                    };
                    match tv {
                        Data::Number(tnum) => {
                            proof {
                                assert(data_wf(tv@));
                                assert(num_wf(tnum@));
                            }
                            match tnum.to_int() {
                                Some(v) => v,
                                None => {
                                    return Err(Error::type_err("array index must be an integer"));
                                },
                            }
                        },
                        _ => {
                            return Err(Error::type_err("slice bound must be a number"));
                        },
                    }
                },
                None => items.len() as i128 - 1,
            };
            if 0 <= lo && lo <= hi + 1 && hi + 1 <= items.len() as i128 {
                let part = sub_datas(items, lo as usize, (hi + 1) as usize);
                proof {
                    assert forall|j: int|
                        0 <= j < data_views(part@).len() implies data_wf(
                        #[trigger] data_views(part@)[j],
                    ) by {
                        assert(data_views(part@)[j] == data_views(items@)[lo + j]);
                    }
                }
                Ok(Data::Array(part))
            } else {
                Err(Error::IndexOutOfBounds)
            }
        },
        _ => Err(Error::type_err("expected an index or a slice")),
    }
}

/// Evaluate the expressions of a list left to right.
#[verifier::loop_isolation(false)]
pub fn eval_list(
    es: &Vec<Ast>,
    vars: &StrMap<Data>,
    funcs: &StrMap<Ast>,
    stdc: &Vec<String>,
    out: &mut Vec<String>,
    inp: &mut Vec<String>,
    fuel: u64,
) -> (r: Result<Vec<Data>, Error>)
    requires
        ast_wf_all(crate::ast::ast_views(es@)),
        vars.wf(),
        funcs.wf(),
        vars_wf(vars@),
        funcs_wf(funcs@),
    ensures
        list_matches(
            sp_eval_list(
                crate::ast::ast_views(es@),
                st_of(
                    vars@,
                    funcs@,
                    strs_view(stdc@),
                    strs_view(old(out)@),
                    strs_view(old(inp)@),
                ),
                fuel as nat,
            ),
            r,
            strs_view(final(out)@),
            strs_view(final(inp)@),
        ),
    decreases fuel, es, 0nat, 1nat,
{
    let ghost av = crate::ast::ast_views(es@);
    let ghost st0 = st_of(vars@, funcs@, strs_view(stdc@), strs_view(out@), strs_view(inp@));
    proof {
        crate::ast::lemma_ast_views_len(es@);
        assert(av.skip(0) =~= av);
        assert(Seq::<DataV>::empty() + sp_list_vals_of(sp_eval_list(av, st0, fuel as nat))
            =~= sp_list_vals_of(sp_eval_list(av, st0, fuel as nat)));
        assert(data_views(Seq::<Data>::empty()) =~= Seq::<DataV>::empty());
        match sp_eval_list(av, st0, fuel as nat) {
            ListOut::Vals(vs, o2, n2) => {
                assert(Seq::<DataV>::empty() + vs =~= vs);
            },
            ListOut::Fail(e2) => {},
        }
    }
    let mut ds: Vec<Data> = Vec::new();
    let mut i: usize = 0;
    while i < es.len()
        invariant
            i <= es@.len(),
            datas_wf(data_views(ds@)),
            sp_eval_list(av, st0, fuel as nat) == sp_list_append(
                data_views(ds@),
                sp_eval_list(
                    av.skip(i as int),
                    st_of(vars@, funcs@, strs_view(stdc@), strs_view(out@), strs_view(inp@)),
                    fuel as nat,
                ),
            ),
        decreases es@.len() - i,
    {
        let ghost st_top = st_of(vars@, funcs@, strs_view(stdc@), strs_view(out@), strs_view(inp@));
        proof {
            assert(av.skip(i as int)[0] == av[i as int]);
            assert(av[i as int] == es@[i as int]@);
            assert(ast_wf(av[i as int]));
        }
        let v = match eval_expr(&es[i], vars, funcs, stdc, out, inp, fuel) {
            Ok(v) => v,
            Err(er) => {
                proof {
                    assert(sp_eval_list(av.skip(i as int), st_top, fuel as nat) == ListOut::Fail(
                        er@,
                    ));
                }
                return Err(er);
            },
        };
        let ghost vv = v@;
        let ghost st_now = st_of(
            vars@,
            funcs@,
            strs_view(stdc@),
            strs_view(out@),
            strs_view(inp@),
        );
        let ghost prev = ds@;
        proof {
            assert((StV { out: st_now.out, inp: st_now.inp, ..st_top }) == st_now);
            assert(av.skip(i as int).drop_first() =~= av.skip(i as int + 1));
        }
        ds.push(v);
        i = i + 1;
        proof {
            assert(ds@.drop_last() =~= prev);
            lemma_data_views_len(ds@);
            lemma_data_views_len(prev);
            assert(data_views(ds@) =~= data_views(prev).push(vv));
            assert forall|j: int| 0 <= j < data_views(ds@).len() implies data_wf(
                #[trigger] data_views(ds@)[j],
            ) by {
                if j < prev.len() {
                    assert(data_views(ds@)[j] == data_views(prev)[j]);
                }
            }
            match sp_eval_list(av.skip(i as int), st_now, fuel as nat) {
                ListOut::Vals(vs2, o2, n2) => {
                    assert(data_views(prev) + (seq![vv] + vs2) =~= data_views(ds@) + vs2);
                },
                ListOut::Fail(e2) => {},
            }
        }
    }
    proof {
        assert(av.skip(es@.len() as int) =~= Seq::<AstV>::empty());
        match sp_eval_list(av, st0, fuel as nat) {
            ListOut::Vals(vs, o2, n2) => {},
            ListOut::Fail(e2) => {},
        }
        assert(data_views(ds@) + Seq::<DataV>::empty() =~= data_views(ds@));
    }
    Ok(ds)
}


/// Evaluate a call: built-ins first, then user functions.
#[verifier::loop_isolation(false)]
#[verifier::spinoff_prover]
#[verifier::rlimit(100)]
pub fn eval_call(
    id: &String,
    args: &Vec<Ast>,
    vars: &StrMap<Data>,
    funcs: &StrMap<Ast>,
    stdc: &Vec<String>,
    out: &mut Vec<String>,
    inp: &mut Vec<String>,
    fuel: u64,
) -> (r: Result<Data, Error>)
    requires
        ast_wf_all(crate::ast::ast_views(args@)),
        vars.wf(),
        funcs.wf(),
        vars_wf(vars@),
        funcs_wf(funcs@),
    ensures
        eval_matches(
            sp_eval_call(
                id@,
                crate::ast::ast_views(args@),
                st_of(
                    vars@,
                    funcs@,
                    strs_view(stdc@),
                    strs_view(old(out)@),
                    strs_view(old(inp)@),
                ),
                fuel as nat,
            ),
            r,
            strs_view(final(out)@),
            strs_view(final(inp)@),
        ),
        (!strs_view(stdc@).contains(id@) && funcs@.contains_key(id@)) ==> (match funcs@[id@] {
            AstV::FnDef { id: fid, params, body } => params.len() != args@.len() ==> (r matches
                Err(e) && e@ == ErrV::ArityMismatch(params.len(), args@.len()) && final(out)@
                == old(out)@ && final(inp)@ == old(inp)@),
            _ => true,
        }),
    decreases fuel, args, 2nat, 0nat,
{
    let ghost av = crate::ast::ast_views(args@);
    let ghost st0 = st_of(vars@, funcs@, strs_view(stdc@), strs_view(out@), strs_view(inp@));
    proof {
        crate::ast::lemma_ast_views_len(args@);
    }
    if contains_str(stdc, id) {
        if str_is(id, "print") {
            builtin_print(args, vars, funcs, stdc, out, inp, fuel)
        } else if str_is(id, "return") {
            if args.len() != 1 {
                Err(Error::ArityMismatch(1, args.len()))
            } else {
                proof {
                    assert(av[0] == args@[0]@);
                    assert(ast_wf(av[0]));
                }
                eval_expr(&args[0], vars, funcs, stdc, out, inp, fuel)
            }
        } else if str_is(id, "input") {
            if args.len() != 0 {
                Err(Error::ArityMismatch(0, args.len()))
            } else if inp.len() > 0 {
                let line = inp.remove(0);
                proof {
                    assert(strs_view(old(inp)@)[0] == line@);
                    assert(strs_view(inp@) =~= strs_view(old(inp)@).drop_first());
                }
                Ok(Data::String(line))
            } else {
                let ghost e = Seq::<char>::empty();
                let r = String::new();
                Ok(Data::String(r))
            }
        } else if str_is(id, "inputf") {
            if args.len() != 1 {
                Err(Error::ArityMismatch(1, args.len()))
            } else {
                proof {
                    assert(av[0] == args@[0]@);
                    assert(ast_wf(av[0]));
                }
                let fv = match eval_expr(&args[0], vars, funcs, stdc, out, inp, fuel) {
                    Ok(v) => v,
                    Err(er) => {
                        return Err(er);
                    },
                };
                let fmt = match fv.as_string() {
                    Some(s) => s,
                    None => {
                        return Err(Error::type_err("value is not convertible to text"));
                    },
                };
                let ghost inp_mid = strs_view(inp@);
                let line: String = if inp.len() > 0 {
                    let l = inp.remove(0);
                    proof {
                        assert(inp_mid[0] == l@);
                        assert(strs_view(inp@) =~= inp_mid.drop_first());
                    }
                    l
                } else {
                    String::new()
                };
                match inputf_result(&fmt, &line) {
                    Ok(d) => Ok(d),
                    Err(e) => Err(e),
                }
            }
        } else if str_is(id, "split") {
            if args.len() != 1 && args.len() != 2 {
                Err(Error::ArityMismatch(2, args.len()))
            } else {
                let vs = match eval_list(args, vars, funcs, stdc, out, inp, fuel) {
                    Ok(v) => v,
                    Err(er) => {
                        return Err(er);
                    },
                };
                proof {
                    lemma_eval_list_len(av, st0, fuel as nat);
                    lemma_data_views_len(vs@);
                }
                match split_values(&vs) {
                    Ok(d) => Ok(d),
                    Err(e) => Err(e),
                }
            }
        } else if str_is(id, "join") {
            if args.len() != 2 {
                Err(Error::ArityMismatch(2, args.len()))
            } else {
                let vs = match eval_list(args, vars, funcs, stdc, out, inp, fuel) {
                    Ok(v) => v,
                    Err(er) => {
                        return Err(er);
                    },
                };
                proof {
                    lemma_eval_list_len(av, st0, fuel as nat);
                    lemma_data_views_len(vs@);
                }
                match join_values(&vs) {
                    Ok(d) => Ok(d),
                    Err(e) => Err(e),
                }
            }
        } else {
            Err(Error::FeatureDisabled(id.clone()))
        }
    } else {
        match funcs.get(id) {
            Some(f) => {
                let plen: usize = match f {
                    Ast::FunctionDefinition { params, .. } => params.len(),
                    _ => {
                        return Err(Error::type_err("not a function"));
                    },
                };
                if plen != args.len() {
                    return Err(Error::ArityMismatch(plen, args.len()));
                }
                let vals = match eval_list(args, vars, funcs, stdc, out, inp, fuel) {
                    Ok(v) => v,
                    Err(er) => {
                        return Err(er);
                    },
                };
                if fuel == 0 {
                    return Err(Error::RecursionLimit);
                }
                let def = f.dup();
                proof {
                    assert(ast_wf(def@));
                    lemma_eval_list_len(av, st0, fuel as nat);
                    lemma_data_views_len(vals@);
                }
                let ghost st_mid = st_of(
                    vars@,
                    funcs@,
                    strs_view(stdc@),
                    strs_view(out@),
                    strs_view(inp@),
                );
                let res = call_user(&def, vals, funcs, stdc, out, inp, fuel - 1);
                proof {
                    lemma_call_user_vars(
                        def@,
                        data_views(vals@),
                        st_of(
                            Map::<Seq<char>, DataV>::empty(),
                            funcs@,
                            strs_view(stdc@),
                            st_mid.out,
                            st_mid.inp,
                        ),
                        StV { out: st_mid.out, inp: st_mid.inp, ..st0 },
                        (fuel - 1) as nat,
                    );
                }
                res
            },
            None => Err(Error::UndefinedFunction(id.clone())),
        }
    }
}


/// The `split` built-in over its evaluated arguments, as `sp_split_values`
/// describes.
#[verifier::loop_isolation(false)]
pub fn split_values(vs: &Vec<Data>) -> (r: Result<Data, Error>)
    requires
        datas_wf(data_views(vs@)),
        1 <= vs@.len() <= 2,
    ensures
        (match r {
            Ok(d) => sp_split_values(data_views(vs@)) == Ok::<DataV, ErrV>(d@) && data_wf(d@),
            Err(e) => sp_split_values(data_views(vs@)) == Err::<DataV, ErrV>(e@),
        }),
{
    proof {
        lemma_data_views_len(vs@);
    }
    let sv = match vs[0].as_string() {
        Some(s) => s,
        None => {
            return Err(Error::type_err("value is not convertible to text"));
        },
    };
    let dstr: String = if vs.len() == 2 {
        match vs[1].as_string() {
            Some(s) => s,
            None => {
                return Err(Error::type_err("value is not convertible to text"));
            },
        }
    } else {
        String::from_str(" ")
    };
    let sv_chars = crate::strutil::string_to_chars(&sv);
    let trimmed = crate::strutil::trim_chars(&sv_chars);
    let d_chars = crate::strutil::string_to_chars(&dstr);
    let toks = split_chars(&trimmed, &d_chars);
    let mut res: Vec<Data> = Vec::new();
    let ghost tv = chvecs_view(toks@);
    proof {
        assert(sp_classify_all(tv).take(0) =~= data_views(res@));
    }
    let mut i: usize = 0;
    while i < toks.len()
        invariant
            i <= toks@.len(),
            tv == chvecs_view(toks@),
            data_views(res@) == sp_classify_all(tv).take(i as int),
            datas_wf(data_views(res@)),
            res@.len() == i,
        decreases toks@.len() - i,
    {
        let d = classify_token(&toks[i]);
        let ghost prev = res@;
        res.push(d);
        i = i + 1;
        proof {
            assert(res@.drop_last() =~= prev);
            lemma_data_views_len(res@);
            lemma_data_views_len(prev);
            assert(tv[i as int - 1] == toks@[i as int - 1]@);
            assert(sp_classify_all(tv)[i as int - 1] == sp_classify_token(tv[i as int - 1]));
            assert(data_views(res@) =~= sp_classify_all(tv).take(i as int));
            assert forall|j: int| 0 <= j < data_views(res@).len() implies data_wf(
                #[trigger] data_views(res@)[j],
            ) by {
                if j < prev.len() {
                    assert(data_views(res@)[j] == data_views(prev)[j]);
                }
            }
        }
    }
    proof {
        assert(sp_classify_all(tv).take(toks@.len() as int) =~= sp_classify_all(tv));
    }
    Ok(Data::Array(res))
}

/// The `join` built-in over its evaluated arguments, as `sp_join_values`
/// describes.
pub fn join_values(vs: &Vec<Data>) -> (r: Result<Data, Error>)
    requires
        datas_wf(data_views(vs@)),
        vs@.len() == 2,
    ensures
        (match r {
            Ok(d) => sp_join_values(data_views(vs@)) == Ok::<DataV, ErrV>(d@) && data_wf(d@),
            Err(e) => sp_join_values(data_views(vs@)) == Err::<DataV, ErrV>(e@),
        }),
{
    proof {
        lemma_data_views_len(vs@);
    }
    let both = match (&vs[0], &vs[1]) {
        (Data::Array(_), Data::Array(_)) => true,
        _ => false,
    };
    if !both {
        return Err(Error::type_err("join needs two arrays"));
    }
    match (&vs[0], &vs[1]) {
        (Data::Array(a), Data::Array(b)) => {
            proof {
                lemma_data_views_len(a@);
                lemma_data_views_len(b@);
            }
            let mut c = sub_datas(a, 0, a.len());
            let mut b2 = sub_datas(b, 0, b.len());
            proof {
                assert(data_views(c@) =~= data_views(a@));
                assert(data_views(b2@) =~= data_views(b@));
            }
            let ghost c_pre = c@;
            let ghost b_pre = b2@;
            c.append(&mut b2);
            proof {
                assert(c@ =~= c_pre + b_pre);
                crate::data::lemma_data_views_concat(c_pre, b_pre);
                lemma_data_views_len(c@);
                assert forall|j: int| 0 <= j < data_views(c@).len() implies data_wf(
                    #[trigger] data_views(c@)[j],
                ) by {
                    assert(data_views(c@) == data_views(c_pre) + data_views(b_pre));
                    if j < data_views(c_pre).len() {
                        assert(data_views(c@)[j] == data_views(a@)[j]);
                    } else {
                        assert(data_views(c@)[j] == data_views(b@)[j - data_views(c_pre).len()]);
                    }
                }
            }
            Ok(Data::Array(c))
        },
        _ => {
            proof {
                assert(false);
            }
            Err(Error::IndexOutOfBounds)
        },
    }
}

/// The `inputf` built-in over its format text and input line, as
/// `sp_inputf_result` describes.
pub fn inputf_result(fmt: &String, line: &String) -> (r: Result<Data, Error>)
    ensures
        (match r {
            Ok(d) => sp_inputf_result(fmt@, line@) == Ok::<DataV, ErrV>(d@) && data_wf(d@),
            Err(e) => sp_inputf_result(fmt@, line@) == Err::<DataV, ErrV>(e@),
        }),
{
    let fmt_chars = crate::strutil::string_to_chars(fmt);
    let fmt_trim = crate::strutil::trim_chars(&fmt_chars);
    let line_chars = crate::strutil::string_to_chars(line);
    let line_trim = crate::strutil::trim_chars(&line_chars);
    let mut spd: Vec<char> = Vec::new();
    spd.push(' ');
    proof {
        reveal_strlit(" ");
        assert(spd@ =~= " "@);
    }
    let specs = split_chars(&fmt_trim, &spd);
    let toks = split_chars(&line_trim, &spd);
    proof {
        assert(chvecs_view(specs@).len() == specs@.len());
        assert(chvecs_view(toks@).len() == toks@.len());
    }
    if specs.len() != toks.len() {
        return Err(Error::InputFormatError(String::from_str("input does not match the format")));
    }
    match inputf_convert(&specs, &toks) {
        Ok(ds) => {
            proof {
                lemma_data_views_len(ds@);
            }
            Ok(Data::Array(ds))
        },
        Err(e) => Err(e),
    }
}

/// The `print` built-in: evaluate each argument left to right and write
/// one line per argument.
#[verifier::loop_isolation(false)]
pub fn builtin_print(
    args: &Vec<Ast>,
    vars: &StrMap<Data>,
    funcs: &StrMap<Ast>,
    stdc: &Vec<String>,
    out: &mut Vec<String>,
    inp: &mut Vec<String>,
    fuel: u64,
) -> (r: Result<Data, Error>)
    requires
        ast_wf_all(crate::ast::ast_views(args@)),
        vars.wf(),
        funcs.wf(),
        vars_wf(vars@),
        funcs_wf(funcs@),
    ensures
        eval_matches(
            sp_print_result(
                crate::ast::ast_views(args@),
                st_of(
                    vars@,
                    funcs@,
                    strs_view(stdc@),
                    strs_view(old(out)@),
                    strs_view(old(inp)@),
                ),
                fuel as nat,
            ),
            r,
            strs_view(final(out)@),
            strs_view(final(inp)@),
        ),
    decreases fuel, args, 1nat, 0nat,
{
    let ghost av = crate::ast::ast_views(args@);
    let ghost st0 = st_of(vars@, funcs@, strs_view(stdc@), strs_view(out@), strs_view(inp@));
    proof {
        crate::ast::lemma_ast_views_len(args@);
    }
            let ghost mut acc: Seq<DataV> = Seq::empty();
            proof {
                assert(av.skip(0) =~= av);
                match sp_print_args(av, st0, fuel as nat) {
                    ListOut::Vals(vs, o2, n2) => {
                        assert(Seq::<DataV>::empty() + vs =~= vs);
                    },
                    ListOut::Fail(_) => {},
                }
            }
            let mut i: usize = 0;
            while i < args.len()
                invariant
                    i <= args@.len(),
                    sp_print_args(av, st0, fuel as nat) == sp_list_append(
                        acc,
                        sp_print_args(
                            av.skip(i as int),
                            st_of(
                                vars@,
                                funcs@,
                                strs_view(stdc@),
                                strs_view(out@),
                                strs_view(inp@),
                            ),
                            fuel as nat,
                        ),
                    ),
                decreases args@.len() - i,
            {
                let ghost st_top = st_of(
                    vars@,
                    funcs@,
                    strs_view(stdc@),
                    strs_view(out@),
                    strs_view(inp@),
                );
                proof {
                    assert(av.skip(i as int)[0] == av[i as int]);
                    assert(av[i as int] == args@[i as int]@);
                    assert(ast_wf(av[i as int]));
                    assert(av.skip(i as int).drop_first() =~= av.skip(i as int + 1));
                }
                let v = match eval_expr(&args[i], vars, funcs, stdc, out, inp, fuel) {
                    Ok(v) => v,
                    Err(er) => {
                        proof {
                            assert(sp_print_args(av.skip(i as int), st_top, fuel as nat)
                                == ListOut::Fail(er@));
                        }
                        return Err(er);
                    },
                };
                let line = match v.as_string() {
                    Some(l) => l,
                    None => {
                        proof {
                            assert(sp_print_args(av.skip(i as int), st_top, fuel as nat)
                                == ListOut::Fail(
                                ErrV::TypeError("value is not convertible to text"@),
                            ));
                        }
                        return Err(Error::type_err("value is not convertible to text"));
                    },
                };
                let ghost out_before_push = strs_view(out@);
                out.push(line);
                proof {
                    assert(strs_view(out@) =~= out_before_push.push(out@.last()@));
                }
                let ghost vv = v@;
                proof {
                    let st_mid = st_of(
                        vars@,
                        funcs@,
                        strs_view(stdc@),
                        strs_view(out@),
                        strs_view(inp@),
                    );
                    assert((StV { out: st_mid.out, inp: st_mid.inp, ..st_top }) == st_mid);
                    match sp_print_args(av.skip(i as int + 1), st_mid, fuel as nat) {
                        ListOut::Vals(vs2, o2, n2) => {
                            assert(acc + (seq![vv] + vs2) =~= acc.push(vv) + vs2);
                        },
                        ListOut::Fail(_) => {},
                    }
                    acc = acc.push(vv);
                }
                i = i + 1;
            }
            proof {
                assert(av.skip(args@.len() as int) =~= Seq::<AstV>::empty());
                assert(acc + Seq::<DataV>::empty() =~= acc);
            }
            Ok(Data::Number(Num { mantissa: 0, scale: 0 }))
}

/// Run a user function body in a fresh frame, as `sp_call_user` describes.
#[verifier::loop_isolation(false)]
pub fn call_user(
    def: &Ast,
    vals: Vec<Data>,
    funcs: &StrMap<Ast>,
    stdc: &Vec<String>,
    out: &mut Vec<String>,
    inp: &mut Vec<String>,
    fuel: u64,
) -> (r: Result<Data, Error>)
    requires
        ast_wf(def@),
        funcs.wf(),
        funcs_wf(funcs@),
        datas_wf(data_views(vals@)),
        def@ matches AstV::FnDef { params, .. } ==> params.len() == vals@.len(),
    ensures
        eval_matches(
            sp_call_user(
                def@,
                data_views(vals@),
                st_of(
                    Map::<Seq<char>, DataV>::empty(),
                    funcs@,
                    strs_view(stdc@),
                    strs_view(old(out)@),
                    strs_view(old(inp)@),
                ),
                fuel as nat,
            ),
            r,
            strs_view(final(out)@),
            strs_view(final(inp)@),
        ),
    decreases fuel, def, 0nat, 2nat,
{
    proof {
        lemma_data_views_len(vals@);
    }
    match def {
        Ast::FunctionDefinition { id, params, body } => {
            let ghost psv = params@.map_values(|p: (String, String)| (p.0@, p.1@));
            let ghost vsv = data_views(vals@);
            proof {
                assert(psv.skip(0) =~= psv);
                assert(vsv.skip(0) =~= vsv);
            }
            let mut i: usize = 0;
            while i < params.len()
                invariant
                    i <= params@.len(),
                    vals@.len() == params@.len(),
                    sp_check_args(psv, vsv) == sp_check_args(
                        psv.skip(i as int),
                        vsv.skip(i as int),
                    ),
                decreases params@.len() - i,
            {
                proof {
                    assert(psv.skip(i as int)[0] == psv[i as int]);
                    assert(psv[i as int] == (params@[i as int].0@, params@[i as int].1@));
                    assert(vsv.skip(i as int)[0] == vsv[i as int]);
                    assert(psv.skip(i as int).drop_first() =~= psv.skip(i as int + 1));
                    assert(vsv.skip(i as int).drop_first() =~= vsv.skip(i as int + 1));
                }
                let tag = &params[i].1;
                let is_num = str_is(tag, "Number");
                let is_str = str_is(tag, "String");
                let is_arr = str_is(tag, "Array");
                let is_bool = str_is(tag, "Bool");
                if !(is_num || is_str || is_arr || is_bool) {
                    return Err(Error::type_err("unknown type tag"));
                }
                let ok: bool = if is_num {
                    matches!(&vals[i], Data::Number(_))
                } else if is_str {
                    matches!(&vals[i], Data::String(_))
                } else if is_arr {
                    matches!(&vals[i], Data::Array(_))
                } else {
                    matches!(&vals[i], Data::Bool(_))
                };
                if !ok {
                    return Err(Error::type_err("wrong argument type"));
                }
                i = i + 1;
            }
            proof {
                assert(psv.skip(params@.len() as int) =~= Seq::<(Seq<char>, Seq<char>)>::empty());
                assert(vsv.skip(vals@.len() as int) =~= Seq::<DataV>::empty());
            }
            let mut frame: StrMap<Data> = StrMap::new();
            let mut j: usize = 0;
            proof {
                assert(psv.take(0) =~= Seq::<(Seq<char>, Seq<char>)>::empty());
                assert(vsv.take(0) =~= Seq::<DataV>::empty());
            }
            while j < params.len()
                invariant
                    j <= params@.len(),
                    vals@.len() == params@.len(),
                    frame.wf(),
                    vars_wf(frame@),
                    frame@ == sp_bind_params(psv.take(j as int), vsv.take(j as int)),
                decreases params@.len() - j,
            {
                proof {
                    assert(psv.take(j as int + 1).drop_last() =~= psv.take(j as int));
                    assert(vsv.take(j as int + 1).drop_last() =~= vsv.take(j as int));
                    assert(psv.take(j as int + 1).last() == psv[j as int]);
                    assert(psv[j as int] == (params@[j as int].0@, params@[j as int].1@));
                    assert(vsv.take(j as int + 1).last() == vsv[j as int]);
                    lemma_vars_wf_insert(frame@, params@[j as int].0@, vsv[j as int]);
                }
                frame.insert(params[j].0.clone(), vals[j].dup());
                j = j + 1;
            }
            proof {
                assert(psv.take(params@.len() as int) =~= psv);
                assert(vsv.take(vals@.len() as int) =~= vsv);
            }
            let mut f2 = dup_fn_map(funcs);
            let res = exec_block_node(&**body, &mut frame, &mut f2, stdc, out, inp, fuel);
            match res {
                Ok(ReturnType::Normal) => Ok(Data::Number(Num { mantissa: 0, scale: 0 })),
                Ok(ReturnType::Return(d)) => Ok(d),
                Err(e) => Err(e),
            }
        },
        _ => Err(Error::type_err("not a function")),
    }
}


/// Write through an array-element assignment target, as `sp_assign_elem`
/// describes.
#[verifier::loop_isolation(false)]
#[verifier::spinoff_prover]
#[verifier::rlimit(100)]
pub fn assign_elem(
    access: &Ast,
    v: Data,
    vars: &mut StrMap<Data>,
    funcs: &StrMap<Ast>,
    stdc: &Vec<String>,
    out: &mut Vec<String>,
    inp: &mut Vec<String>,
    fuel: u64,
) -> (r: Result<ReturnType, Error>)
    requires
        ast_wf(access@),
        data_wf(v@),
        old(vars).wf(),
        funcs.wf(),
        vars_wf(old(vars)@),
        funcs_wf(funcs@),
    ensures
        final(vars).wf(),
        vars_wf(final(vars)@),
        step_matches(
            sp_assign_elem(
                access@,
                v@,
                st_of(
                    old(vars)@,
                    funcs@,
                    strs_view(stdc@),
                    strs_view(old(out)@),
                    strs_view(old(inp)@),
                ),
                fuel as nat,
            ),
            r,
            st_of(final(vars)@, funcs@, strs_view(stdc@), strs_view(final(out)@), strs_view(final(inp)@)),
        ),
    decreases fuel, access, 0nat, 0nat,
{
    match access {
        Ast::ArrayAccess { expr: arrbox, whereto } => match &**arrbox {
            Ast::Identifier(name) => {
                proof {
                    assert(ast_wf(crate::ast::ast_view(**arrbox)));
                    assert(ast_wf(crate::ast::ast_view(**whereto)));
                }
                let kind: u8 = match vars.get(name) {
                    Some(c) => match c {
                        Data::Array(_) => 0,
                        _ => 1,
                    },
                    None => 2,
                };
                if kind == 2 {
                    return Err(Error::VariableNotFound(name.clone()));
                }
                if kind == 1 {
                    return Err(Error::type_err("variable is not an array"));
                }
                let iv = match eval_expr(&**whereto, vars, funcs, stdc, out, inp, fuel) {
                    Ok(x) => x,
                    Err(er) => {
                        return Err(er);
                    },
                };
                let nv = match iv.as_number() {
                    Some(n) => n,
                    None => {
                        return Err(Error::type_err("value is not a number"));
                    },
                };
                let ix = match nv.to_int() {
                    Some(x) => x,
                    None => {
                        return Err(Error::type_err("array index must be an integer"));
                    },
                };
                proof {
                    assert(data_wf(vars@[name@]));
                }
                let cur = match vars.get(name) {
                    Some(c) => c.dup(),
                    None => {
                        proof {
                            assert(false);
                        }
                        return Err(Error::IndexOutOfBounds);
                    },
                };
                match cur {
                    Data::Array(mut items) => {
                        proof {
                            lemma_data_views_len(items@);
                        }
                        if ix < 0 || ix >= items.len() as i128 {
                            return Err(Error::IndexOutOfBounds);
                        }
                        let ixu: usize = ix as usize;
                        proof {
                            assert(ixu as int == ix as int);
                        }
                        let ghost olditems = items@;
                        let ghost vv = v@;
                        items.set(ixu, v);
                        proof {
                            crate::data::lemma_data_views_update(
                                olditems,
                                ixu as int,
                                items@[ixu as int],
                            );
                            assert(items@[ixu as int] == olditems.update(
                                ixu as int,
                                items@[ixu as int],
                            )[ixu as int]);
                            assert(data_view(items@[ixu as int]) == vv);
                            assert(items@ =~= olditems.update(ixu as int, items@[ixu as int]));
                            assert(data_views(items@) == data_views(olditems).update(
                                ixu as int,
                                vv,
                            ));
                            assert(data_wf(DataV::Arr(data_views(olditems))));
                            assert forall|j: int|
                                0 <= j < data_views(items@).len() implies data_wf(
                                #[trigger] data_views(items@)[j],
                            ) by {
                                lemma_data_views_len(items@);
                                lemma_data_views_len(olditems);
                                if j == ixu as int {
                                    assert(data_views(items@)[j] == vv);
                                } else {
                                    assert(data_views(items@)[j] == data_views(olditems)[j]);
                                    assert(data_wf(data_views(olditems)[j]));
                                }
                            }
                            lemma_vars_wf_insert(vars@, name@, DataV::Arr(data_views(items@)));
                        }
                        vars.insert(name.clone(), Data::Array(items));
                        Ok(ReturnType::Normal)
                    },
                    _ => {
                        proof {
                            assert(false);
                        }
                        Err(Error::IndexOutOfBounds)
                    },
                }
            },
            _ => Err(Error::type_err("invalid assignment target")),
        },
        _ => Err(Error::type_err("invalid assignment target")),
    }
}


/// One statement case of `sp_exec_stmt`.
#[verifier::loop_isolation(false)]
#[verifier::spinoff_prover]
#[verifier::rlimit(100)]
fn stmt_assign(
    s: &Ast,
    vars: &mut StrMap<Data>,
    funcs: &mut StrMap<Ast>,
    stdc: &Vec<String>,
    out: &mut Vec<String>,
    inp: &mut Vec<String>,
    fuel: u64,
) -> (r: Result<ReturnType, Error>)
    requires
        ast_wf(s@),
        old(vars).wf(),
        old(funcs).wf(),
        vars_wf(old(vars)@),
        funcs_wf(old(funcs)@),
        *s matches Ast::Assign { .. },
    ensures
        final(vars).wf(),
        final(funcs).wf(),
        vars_wf(final(vars)@),
        funcs_wf(final(funcs)@),
        funcs_extends(final(funcs)@, old(funcs)@),
        (match s@ {
            AstV::FnDef { id, params, body } => (old(funcs)@.contains_key(id) || strs_view(
                stdc@,
            ).contains(id)) ==> (r matches Err(e) && e@ == ErrV::FunctionRedefinition(id)
                && final(vars)@ == old(vars)@ && final(funcs)@ == old(funcs)@ && final(out)@
                == old(out)@ && final(inp)@ == old(inp)@),
            _ => true,
        }),
        step_matches(
            sp_exec_stmt(
                s@,
                st_of(
                    old(vars)@,
                    old(funcs)@,
                    strs_view(stdc@),
                    strs_view(old(out)@),
                    strs_view(old(inp)@),
                ),
                fuel as nat,
            ),
            r,
            st_of(
                final(vars)@,
                final(funcs)@,
                strs_view(stdc@),
                strs_view(final(out)@),
                strs_view(final(inp)@),
            ),
        ),
    decreases fuel, s, 0nat, 1nat,
{
    match s {
        Ast::Assign { id, expr } => {
            proof {
                assert(ast_wf(crate::ast::ast_view(**id)));
                assert(ast_wf(crate::ast::ast_view(**expr)));
            }
            let v = match eval_expr(&**expr, vars, funcs, stdc, out, inp, fuel) {
                Ok(v) => v,
                Err(er) => {
                    return Err(er);
                },
            };
            match &**id {
                Ast::Identifier(name) => {
                    proof {
                        lemma_vars_wf_insert(vars@, name@, v@);
                    }
                    vars.insert(name.clone(), v);
                    Ok(ReturnType::Normal)
                },
                Ast::ArrayAccess { expr: arrbox, whereto } => assign_elem(
                    &**id,
                    v,
                    vars,
                    funcs,
                    stdc,
                    out,
                    inp,
                    fuel,
                ),
                _ => Err(Error::type_err("invalid assignment target")),
            }
        },
        _ => {
            proof {
                assert(false);
            }
            Err(Error::RecursionLimit)
        },
    }
}

/// One statement case of `sp_exec_stmt`.
#[verifier::loop_isolation(false)]
#[verifier::spinoff_prover]
#[verifier::rlimit(100)]
fn stmt_if(
    s: &Ast,
    vars: &mut StrMap<Data>,
    funcs: &mut StrMap<Ast>,
    stdc: &Vec<String>,
    out: &mut Vec<String>,
    inp: &mut Vec<String>,
    fuel: u64,
) -> (r: Result<ReturnType, Error>)
    requires
        ast_wf(s@),
        old(vars).wf(),
        old(funcs).wf(),
        vars_wf(old(vars)@),
        funcs_wf(old(funcs)@),
        *s matches Ast::If { .. },
    ensures
        final(vars).wf(),
        final(funcs).wf(),
        vars_wf(final(vars)@),
        funcs_wf(final(funcs)@),
        funcs_extends(final(funcs)@, old(funcs)@),
        step_matches(
            sp_exec_stmt(
                s@,
                st_of(
                    old(vars)@,
                    old(funcs)@,
                    strs_view(stdc@),
                    strs_view(old(out)@),
                    strs_view(old(inp)@),
                ),
                fuel as nat,
            ),
            r,
            st_of(
                final(vars)@,
                final(funcs)@,
                strs_view(stdc@),
                strs_view(final(out)@),
                strs_view(final(inp)@),
            ),
        ),
    decreases fuel, s, 0nat, 1nat,
{
    match s {
        Ast::If { condition, block } => {
            proof {
                assert(ast_wf(crate::ast::ast_view(**condition)));
                assert(ast_wf(crate::ast::ast_view(**block)));
            }
            let cv = match eval_expr(&**condition, vars, funcs, stdc, out, inp, fuel) {
                Ok(v) => v,
                Err(er) => {
                    return Err(er);
                },
            };
            match cv {
                Data::Bool(b) => {
                    if b {
                        let r2 = exec_block_node(&**block, vars, funcs, stdc, out, inp, fuel);
                        proof {
                            let st0 = st_of(
                                old(vars)@,
                                old(funcs)@,
                                strs_view(stdc@),
                                strs_view(old(out)@),
                                strs_view(old(inp)@),
                            );
                            let stn = st_of(
                                vars@,
                                funcs@,
                                strs_view(stdc@),
                                strs_view(out@),
                                strs_view(inp@),
                            );
                            assert(step_matches(sp_exec_stmt(s@, st0, fuel as nat), r2, stn));
                        }
                        r2
                    } else {
                        Ok(ReturnType::Normal)
                    }
                },
                _ => Err(Error::type_err("condition must be a boolean")),
            }
        },
        _ => {
            proof {
                assert(false);
            }
            Err(Error::RecursionLimit)
        },
    }
}

/// One statement case of `sp_exec_stmt`.
#[verifier::loop_isolation(false)]
#[verifier::spinoff_prover]
#[verifier::rlimit(100)]
fn stmt_for(
    s: &Ast,
    vars: &mut StrMap<Data>,
    funcs: &mut StrMap<Ast>,
    stdc: &Vec<String>,
    out: &mut Vec<String>,
    inp: &mut Vec<String>,
    fuel: u64,
) -> (r: Result<ReturnType, Error>)
    requires
        ast_wf(s@),
        old(vars).wf(),
        old(funcs).wf(),
        vars_wf(old(vars)@),
        funcs_wf(old(funcs)@),
        *s matches Ast::ForLoop { .. },
    ensures
        final(vars).wf(),
        final(funcs).wf(),
        vars_wf(final(vars)@),
        funcs_wf(final(funcs)@),
        funcs_extends(final(funcs)@, old(funcs)@),
        step_matches(
            sp_exec_stmt(
                s@,
                st_of(
                    old(vars)@,
                    old(funcs)@,
                    strs_view(stdc@),
                    strs_view(old(out)@),
                    strs_view(old(inp)@),
                ),
                fuel as nat,
            ),
            r,
            st_of(
                final(vars)@,
                final(funcs)@,
                strs_view(stdc@),
                strs_view(final(out)@),
                strs_view(final(inp)@),
            ),
        ),
    decreases fuel, s, 0nat, 1nat,
{
    match s {
        Ast::ForLoop { element, elements, block } => match &**element {
            Ast::Identifier(name) => {
                proof {
                    assert(crate::ast::ast_view(**element) == AstV::Ident(name@));
                    assert(ast_wf(crate::ast::ast_view(**elements)));
                    assert(ast_wf(crate::ast::ast_view(**block)));
                }
                let cv = match eval_expr(&**elements, vars, funcs, stdc, out, inp, fuel) {
                    Ok(v) => v,
                    Err(er) => {
                        return Err(er);
                    },
                };
                match cv {
                    Data::Array(items) => {
                        proof {
                            assert(data_wf(cv@));
                        }
                        let r2 = run_for(name, items, &**block, vars, funcs, stdc, out, inp, fuel);
                        proof {
                            let st0 = st_of(
                                old(vars)@,
                                old(funcs)@,
                                strs_view(stdc@),
                                strs_view(old(out)@),
                                strs_view(old(inp)@),
                            );
                            let stn = st_of(
                                vars@,
                                funcs@,
                                strs_view(stdc@),
                                strs_view(out@),
                                strs_view(inp@),
                            );
                            assert(step_matches(sp_exec_stmt(s@, st0, fuel as nat), r2, stn));
                        }
                        r2
                    },
                    _ => Err(Error::type_err("for loop needs an array")),
                }
            },
            _ => Err(Error::type_err("loop variable must be an identifier")),
        },
        _ => {
            proof {
                assert(false);
            }
            Err(Error::RecursionLimit)
        },
    }
}

/// One statement case of `sp_exec_stmt`.
#[verifier::loop_isolation(false)]
#[verifier::spinoff_prover]
#[verifier::rlimit(100)]
fn stmt_call(
    s: &Ast,
    vars: &mut StrMap<Data>,
    funcs: &mut StrMap<Ast>,
    stdc: &Vec<String>,
    out: &mut Vec<String>,
    inp: &mut Vec<String>,
    fuel: u64,
) -> (r: Result<ReturnType, Error>)
    requires
        ast_wf(s@),
        old(vars).wf(),
        old(funcs).wf(),
        vars_wf(old(vars)@),
        funcs_wf(old(funcs)@),
        *s matches Ast::FunctionCall { .. },
    ensures
        final(vars).wf(),
        final(funcs).wf(),
        vars_wf(final(vars)@),
        funcs_wf(final(funcs)@),
        funcs_extends(final(funcs)@, old(funcs)@),
        step_matches(
            sp_exec_stmt(
                s@,
                st_of(
                    old(vars)@,
                    old(funcs)@,
                    strs_view(stdc@),
                    strs_view(old(out)@),
                    strs_view(old(inp)@),
                ),
                fuel as nat,
            ),
            r,
            st_of(
                final(vars)@,
                final(funcs)@,
                strs_view(stdc@),
                strs_view(final(out)@),
                strs_view(final(inp)@),
            ),
        ),
    decreases fuel, s, 0nat, 1nat,
{
    match s {
        Ast::FunctionCall { id, args } => {
            if str_is(id, "return") && contains_str(stdc, id) {
                if args.len() != 1 {
                    proof {
                        let st0 = st_of(
                            old(vars)@,
                            old(funcs)@,
                            strs_view(stdc@),
                            strs_view(old(out)@),
                            strs_view(old(inp)@),
                        );
                        crate::ast::lemma_ast_views_len(args@);
                        assert(sp_exec_stmt(s@, st0, fuel as nat) == StepOut::Fail(
                            ErrV::ArityMismatch(1, args@.len() as nat),
                        ));
                    }
                    Err(Error::ArityMismatch(1, args.len()))
                } else {
                    proof {
                        crate::ast::lemma_ast_views_len(args@);
                        assert(ast_wf_all(crate::ast::ast_views(args@)));
                        assert(ast_wf(crate::ast::ast_views(args@)[0]));
                        assert(crate::ast::ast_views(args@)[0] == args@[0]@);
                        assert(ast_wf(args@[0]@));
                    }
                    match eval_expr(&args[0], vars, funcs, stdc, out, inp, fuel) {
                        Ok(v) => {
                            proof {
                                let st0 = st_of(
                                    old(vars)@,
                                    old(funcs)@,
                                    strs_view(stdc@),
                                    strs_view(old(out)@),
                                    strs_view(old(inp)@),
                                );
                                let stn = st_of(
                                    vars@,
                                    funcs@,
                                    strs_view(stdc@),
                                    strs_view(out@),
                                    strs_view(inp@),
                                );
                                assert(sp_exec_stmt(s@, st0, fuel as nat) == StepOut::Ret(
                                    v@,
                                    stn,
                                ));
                            }
                            Ok(ReturnType::Return(v))
                        },
                        Err(er) => {
                            proof {
                                let st0 = st_of(
                                    old(vars)@,
                                    old(funcs)@,
                                    strs_view(stdc@),
                                    strs_view(old(out)@),
                                    strs_view(old(inp)@),
                                );
                                assert(sp_exec_stmt(s@, st0, fuel as nat) == StepOut::Fail(er@));
                            }
                            Err(er)
                        },
                    }
                }
            } else {
                match eval_expr(s, vars, funcs, stdc, out, inp, fuel) {
                    Ok(_) => {
                        proof {
                            let st0 = st_of(
                                old(vars)@,
                                old(funcs)@,
                                strs_view(stdc@),
                                strs_view(old(out)@),
                                strs_view(old(inp)@),
                            );
                            let stn = st_of(
                                vars@,
                                funcs@,
                                strs_view(stdc@),
                                strs_view(out@),
                                strs_view(inp@),
                            );
                            assert(sp_exec_stmt(s@, st0, fuel as nat) == StepOut::Norm(stn));
                        }
                        Ok(ReturnType::Normal)
                    },
                    Err(er) => {
                        proof {
                            let st0 = st_of(
                                old(vars)@,
                                old(funcs)@,
                                strs_view(stdc@),
                                strs_view(old(out)@),
                                strs_view(old(inp)@),
                            );
                            assert(sp_exec_stmt(s@, st0, fuel as nat) == StepOut::Fail(er@));
                        }
                        Err(er)
                    },
                }
            }
        },
        _ => {
            proof {
                assert(false);
            }
            Err(Error::RecursionLimit)
        },
    }
}

/// Execute one statement, as `sp_exec_stmt` describes.
#[verifier::loop_isolation(false)]
pub fn exec_stmt(
    s: &Ast,
    vars: &mut StrMap<Data>,
    funcs: &mut StrMap<Ast>,
    stdc: &Vec<String>,
    out: &mut Vec<String>,
    inp: &mut Vec<String>,
    fuel: u64,
) -> (r: Result<ReturnType, Error>)
    requires
        ast_wf(s@),
        old(vars).wf(),
        old(funcs).wf(),
        vars_wf(old(vars)@),
        funcs_wf(old(funcs)@),
    ensures
        final(vars).wf(),
        final(funcs).wf(),
        vars_wf(final(vars)@),
        funcs_wf(final(funcs)@),
        funcs_extends(final(funcs)@, old(funcs)@),
        step_matches(
            sp_exec_stmt(
                s@,
                st_of(
                    old(vars)@,
                    old(funcs)@,
                    strs_view(stdc@),
                    strs_view(old(out)@),
                    strs_view(old(inp)@),
                ),
                fuel as nat,
            ),
            r,
            st_of(
                final(vars)@,
                final(funcs)@,
                strs_view(stdc@),
                strs_view(final(out)@),
                strs_view(final(inp)@),
            ),
        ),
    decreases fuel, s, 0nat, 2nat,
{
    match s {
        Ast::Assign { .. } => stmt_assign(s, vars, funcs, stdc, out, inp, fuel),
        Ast::If { .. } => stmt_if(s, vars, funcs, stdc, out, inp, fuel),
        Ast::ForLoop { .. } => stmt_for(s, vars, funcs, stdc, out, inp, fuel),
        Ast::FunctionDefinition { id, params, body } => {
            if funcs.contains_key(id) || contains_str(stdc, id) {
                Err(Error::FunctionRedefinition(id.clone()))
            } else {
                proof {
                    lemma_funcs_wf_insert(funcs@, id@, s@);
                }
                funcs.insert(id.clone(), s.dup());
                Ok(ReturnType::Normal)
            }
        },
        Ast::FunctionCall { .. } => stmt_call(s, vars, funcs, stdc, out, inp, fuel),
        _ => {
            proof {
                match s {
                    Ast::Block(..) => {
                        assert(s@ is Block);
                    },
                    Ast::String(..) => {
                        assert(s@ is Str);
                    },
                    Ast::Int(..) => {
                        assert(s@ is Int);
                    },
                    Ast::Identifier(..) => {
                        assert(s@ is Ident);
                    },
                    Ast::BinaryOp { .. } => {
                        assert(s@ is BinOp);
                    },
                    Ast::Array(..) => {
                        assert(s@ is Arr);
                    },
                    Ast::ArrayAccess { .. } => {
                        assert(s@ is Access);
                    },
                    Ast::AstSlice { .. } => {
                        assert(s@ is SliceRange);
                    },
                    Ast::Bool(..) => {
                        assert(s@ is Bool);
                    },
                    _ => {
                        assert(false);
                    },
                }
            }
            match eval_expr(s, vars, funcs, stdc, out, inp, fuel) {
                Ok(_) => {
                    proof {
                        let st0 = st_of(
                            old(vars)@,
                            old(funcs)@,
                            strs_view(stdc@),
                            strs_view(old(out)@),
                            strs_view(old(inp)@),
                        );
                        let stn = st_of(
                            vars@,
                            funcs@,
                            strs_view(stdc@),
                            strs_view(out@),
                            strs_view(inp@),
                        );
                        assert(sp_eval(s@, st0, fuel as nat) matches EvalOut::Val(v0, o0, n0)
                            && o0 == strs_view(out@) && n0 == strs_view(inp@));
                        assert(vars@ == old(vars)@);
                        assert(funcs@ == old(funcs)@);
                        assert(sp_exec_stmt(s@, st0, fuel as nat) == StepOut::Norm(stn));
                    }
                    Ok(ReturnType::Normal)
                },
                Err(er) => {
                    proof {
                        let st0 = st_of(
                            old(vars)@,
                            old(funcs)@,
                            strs_view(stdc@),
                            strs_view(old(out)@),
                            strs_view(old(inp)@),
                        );
                        assert(sp_eval(s@, st0, fuel as nat) == EvalOut::Fail(er@));
                        assert(sp_exec_stmt(s@, st0, fuel as nat) == StepOut::Fail(er@));
                    }
                    Err(er)
                },
            }
        },
    }
}

/// Execute the statements of a block in order, as `sp_exec_stmts` describes.
#[verifier::loop_isolation(false)]
#[verifier::spinoff_prover]
#[verifier::rlimit(100)]
pub fn exec_stmts(
    ss: &Vec<Ast>,
    vars: &mut StrMap<Data>,
    funcs: &mut StrMap<Ast>,
    stdc: &Vec<String>,
    out: &mut Vec<String>,
    inp: &mut Vec<String>,
    fuel: u64,
) -> (r: Result<ReturnType, Error>)
    requires
        ast_wf_all(crate::ast::ast_views(ss@)),
        old(vars).wf(),
        old(funcs).wf(),
        vars_wf(old(vars)@),
        funcs_wf(old(funcs)@),
    ensures
        final(vars).wf(),
        final(funcs).wf(),
        vars_wf(final(vars)@),
        funcs_wf(final(funcs)@),
        funcs_extends(final(funcs)@, old(funcs)@),
        step_matches(
            sp_exec_stmts(
                crate::ast::ast_views(ss@),
                st_of(
                    old(vars)@,
                    old(funcs)@,
                    strs_view(stdc@),
                    strs_view(old(out)@),
                    strs_view(old(inp)@),
                ),
                fuel as nat,
            ),
            r,
            st_of(
                final(vars)@,
                final(funcs)@,
                strs_view(stdc@),
                strs_view(final(out)@),
                strs_view(final(inp)@),
            ),
        ),
    decreases fuel, ss, 0nat, 0nat,
{
    let ghost av = crate::ast::ast_views(ss@);
    let ghost st0 = st_of(vars@, funcs@, strs_view(stdc@), strs_view(out@), strs_view(inp@));
    proof {
        crate::ast::lemma_ast_views_len(ss@);
        assert(av.skip(0) =~= av);
    }
    let mut i: usize = 0;
    while i < ss.len()
        invariant
            i <= ss@.len(),
            vars.wf(),
            funcs.wf(),
            vars_wf(vars@),
            funcs_wf(funcs@),
            funcs_extends(funcs@, old(funcs)@),
            sp_exec_stmts(av, st0, fuel as nat) == sp_exec_stmts(
                av.skip(i as int),
                st_of(vars@, funcs@, strs_view(stdc@), strs_view(out@), strs_view(inp@)),
                fuel as nat,
            ),
        decreases ss@.len() - i,
    {
        proof {
            assert(av.skip(i as int)[0] == av[i as int]);
            assert(av[i as int] == ss@[i as int]@);
            assert(ast_wf(av[i as int]));
            assert(av.skip(i as int).drop_first() =~= av.skip(i as int + 1));
        }
        let ghost fpre = funcs@;
        let res = exec_stmt(&ss[i], vars, funcs, stdc, out, inp, fuel);
        proof {
            lemma_funcs_extends_trans(old(funcs)@, fpre, funcs@);
        }
        match res {
            Ok(ReturnType::Normal) => {},
            Ok(ReturnType::Return(d)) => {
                return Ok(ReturnType::Return(d));
            },
            Err(e) => {
                return Err(e);
            },
        }
        i = i + 1;
    }
    proof {
        assert(av.skip(ss@.len() as int) =~= Seq::<AstV>::empty());
    }
    Ok(ReturnType::Normal)
}

/// Execute a node that must be a block.
#[verifier::loop_isolation(false)]
pub fn exec_block_node(
    b: &Ast,
    vars: &mut StrMap<Data>,
    funcs: &mut StrMap<Ast>,
    stdc: &Vec<String>,
    out: &mut Vec<String>,
    inp: &mut Vec<String>,
    fuel: u64,
) -> (r: Result<ReturnType, Error>)
    requires
        ast_wf(b@),
        old(vars).wf(),
        old(funcs).wf(),
        vars_wf(old(vars)@),
        funcs_wf(old(funcs)@),
    ensures
        final(vars).wf(),
        final(funcs).wf(),
        vars_wf(final(vars)@),
        funcs_wf(final(funcs)@),
        funcs_extends(final(funcs)@, old(funcs)@),
        step_matches(
            sp_exec_block_node(
                b@,
                st_of(
                    old(vars)@,
                    old(funcs)@,
                    strs_view(stdc@),
                    strs_view(old(out)@),
                    strs_view(old(inp)@),
                ),
                fuel as nat,
            ),
            r,
            st_of(
                final(vars)@,
                final(funcs)@,
                strs_view(stdc@),
                strs_view(final(out)@),
                strs_view(final(inp)@),
            ),
        ),
    decreases fuel, b, 1nat, 0nat,
{
    match b {
        Ast::Block(ss) => exec_stmts(ss, vars, funcs, stdc, out, inp, fuel),
        _ => Err(Error::type_err("not a statement block")),
    }
}

/// Run a `for` body once per element, as `sp_run_for` describes.
#[verifier::loop_isolation(false)]
pub fn run_for(
    name: &String,
    items: Vec<Data>,
    b: &Ast,
    vars: &mut StrMap<Data>,
    funcs: &mut StrMap<Ast>,
    stdc: &Vec<String>,
    out: &mut Vec<String>,
    inp: &mut Vec<String>,
    fuel: u64,
) -> (r: Result<ReturnType, Error>)
    requires
        ast_wf(b@),
        datas_wf(data_views(items@)),
        old(vars).wf(),
        old(funcs).wf(),
        vars_wf(old(vars)@),
        funcs_wf(old(funcs)@),
    ensures
        final(vars).wf(),
        final(funcs).wf(),
        vars_wf(final(vars)@),
        funcs_wf(final(funcs)@),
        funcs_extends(final(funcs)@, old(funcs)@),
        step_matches(
            sp_run_for(
                name@,
                data_views(items@),
                b@,
                st_of(
                    old(vars)@,
                    old(funcs)@,
                    strs_view(stdc@),
                    strs_view(old(out)@),
                    strs_view(old(inp)@),
                ),
                fuel as nat,
            ),
            r,
            st_of(
                final(vars)@,
                final(funcs)@,
                strs_view(stdc@),
                strs_view(final(out)@),
                strs_view(final(inp)@),
            ),
        ),
    decreases fuel, b, items@.len() + 1, 1nat,
{
    let ghost iv = data_views(items@);
    let ghost st0 = st_of(vars@, funcs@, strs_view(stdc@), strs_view(out@), strs_view(inp@));
    proof {
        lemma_data_views_len(items@);
        assert(iv.skip(0) =~= iv);
    }
    let mut i: usize = 0;
    while i < items.len()
        invariant
            i <= items@.len(),
            vars.wf(),
            funcs.wf(),
            vars_wf(vars@),
            funcs_wf(funcs@),
            funcs_extends(funcs@, old(funcs)@),
            sp_run_for(name@, iv, b@, st0, fuel as nat) == sp_run_for(
                name@,
                iv.skip(i as int),
                b@,
                st_of(vars@, funcs@, strs_view(stdc@), strs_view(out@), strs_view(inp@)),
                fuel as nat,
            ),
        decreases items@.len() - i,
    {
        proof {
            assert(iv.skip(i as int)[0] == iv[i as int]);
            assert(iv[i as int] == data_views(items@)[i as int]);
            assert(data_wf(iv[i as int]));
            assert(iv.skip(i as int).drop_first() =~= iv.skip(i as int + 1));
            lemma_vars_wf_insert(vars@, name@, iv[i as int]);
        }
        let d = items[i].dup();
        vars.insert(name.clone(), d);
        let ghost fpre = funcs@;
        let res = exec_block_node(b, vars, funcs, stdc, out, inp, fuel);
        proof {
            lemma_funcs_extends_trans(old(funcs)@, fpre, funcs@);
        }
        match res {
            Ok(ReturnType::Normal) => {},
            Ok(ReturnType::Return(d2)) => {
                return Ok(ReturnType::Return(d2));
            },
            Err(e) => {
                return Err(e);
            },
        }
        i = i + 1;
    }
    Ok(ReturnType::Normal)
}

/// The interpreter: the program tree, the current frame, the user function
/// table, the enabled built-ins, and the output and input line streams.
pub struct Program {
    /// The program, a `Block`.
    pub commands: Ast,
    /// Kept for compatibility; the tree walker does not use it.
    pub current_line: usize,
    /// The variable frame.
    pub variable: StrMap<Data>,
    /// The user function table.
    pub function: StrMap<Ast>,
    /// The enabled built-in command names.
    pub std_commands: Vec<String>,
    /// Lines written by `print`, in order.
    pub output: Vec<String>,
    /// Input lines not yet consumed by `input`/`inputf`.
    pub input_lines: Vec<String>,
}

impl Program {
    /// The parts the evaluator relies on are well-formed.
    pub open spec fn wf(&self) -> bool {
        ast_wf(self.commands@) && self.variable.wf() && self.function.wf() && vars_wf(
            self.variable@,
        ) && funcs_wf(self.function@)
    }

    /// The state model of this interpreter.
    pub open spec fn st(&self) -> StV {
        st_of(
            self.variable@,
            self.function@,
            strs_view(self.std_commands@),
            strs_view(self.output@),
            strs_view(self.input_lines@),
        )
    }

    /// A fresh interpreter over a parsed program.
    pub fn new(commands: Ast, std_commands: Vec<String>, input_lines: Vec<String>) -> (r: Program)
        requires
            ast_wf(commands@),
        ensures
            r.wf(),
            r.commands@ == commands@,
            r.variable@ == Map::<Seq<char>, DataV>::empty(),
            r.function@ == Map::<Seq<char>, AstV>::empty(),
            r.std_commands@ == std_commands@,
            r.output@.len() == 0,
            r.input_lines@ == input_lines@,
    {
        Program {
            commands,
            current_line: 0,
            variable: StrMap::new(),
            function: StrMap::new(),
            std_commands,
            output: Vec::new(),
            input_lines,
        }
    }

    /// Run the program: execute the top-level block with the default fuel.
    /// The result, the variables left behind, the lines written and the
    /// input left unread are exactly those of the specified semantics.
    pub fn run_loop(&mut self) -> (r: Result<ReturnType, Error>)
        requires
            old(self).wf(),
        ensures
            final(self).wf(),
            final(self).commands@ == old(self).commands@,
            final(self).std_commands@ == old(self).std_commands@,
            funcs_extends(final(self).function@, old(self).function@),
            step_matches(
                sp_exec_block_node(
                    old(self).commands@,
                    old(self).st(),
                    DEFAULT_FUEL as nat,
                ),
                r,
                final(self).st(),
            ),
    {
        let cmds = self.commands.dup();
        match &cmds {
            Ast::Block(ss) => {
                proof {
                    assert(cmds@ == old(self).commands@);
                    assert(ast_wf_all(crate::ast::ast_views(ss@)));
                }
                exec_stmts(
                    ss,
                    &mut self.variable,
                    &mut self.function,
                    &self.std_commands,
                    &mut self.output,
                    &mut self.input_lines,
                    DEFAULT_FUEL,
                )
            },
            _ => Err(Error::type_err("not a statement block")),
        }
    }
}


} // verus!
