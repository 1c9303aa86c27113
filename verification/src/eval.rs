//! The tree-walking evaluator.
//!
//! The semantics is given first as a family of spec functions over the AST
//! and state models; the executable evaluator then mirrors them and each of
//! its results is proved equal to the specified one.  A fuel parameter
//! bounds the depth of user-function calls; exhausting it is the
//! `RecursionLimit` error.

use vstd::prelude::*;
use vstd::string::StringExecFns;
use crate::num::{
    Num, NumV, num_wf, num_eq_v, num_lt_v, num_le_v, sp_fact, sp_parse_dec, MAX_MANTISSA,
    MAX_SCALE,
};
use crate::arith::{dec_add, dec_sub, dec_mul, dec_div, dec_pow};
use crate::data::{Data, DataV, data_wf, datas_wf, data_views, sp_as_number, sp_as_string};
use crate::ast::{Ast, AstV};
use crate::data::lemma_data_views_len;
use crate::errors::{Error, ErrV};
use crate::strutil::{str_is, chars_to_string};

verus! {

/// Model of the interpreter state: the variable frame, the user function
/// table, the enabled built-ins, the lines written so far and the input
/// lines not yet read.
pub struct StV {
    pub vars: Map<Seq<char>, DataV>,
    pub funcs: Map<Seq<char>, AstV>,
    pub std: Seq<Seq<char>>,
    pub out: Seq<Seq<char>>,
    pub inp: Seq<Seq<char>>,
}

/// Outcome of evaluating an expression: a value together with the output
/// and input streams after it (expressions never touch the frame), or an
/// error.
pub enum EvalOut {
    Val(DataV, Seq<Seq<char>>, Seq<Seq<char>>),
    Fail(ErrV),
}

/// Outcome of evaluating an argument list.
pub enum ListOut {
    Vals(Seq<DataV>, Seq<Seq<char>>, Seq<Seq<char>>),
    Fail(ErrV),
}

/// Outcome of executing a statement or block.
pub enum StepOut {
    Norm(StV),
    Ret(DataV, StV),
    Fail(ErrV),
}

/// Every decimal literal in the tree is within the representable range.
pub open spec fn ast_wf(a: AstV) -> bool
    decreases a,
{
    match a {
        AstV::Int(n) => num_wf(n),
        AstV::Block(ss) => ast_wf_all(ss),
        AstV::BinOp { op, left, right } => ast_wf(*left) && ast_wf(*right),
        AstV::Assign { id, expr } => ast_wf(*id) && ast_wf(*expr),
        AstV::FnDef { id, params, body } => ast_wf(*body),
        AstV::Call { id, args } => ast_wf_all(args),
        AstV::Arr(ss) => ast_wf_all(ss),
        AstV::Access { arr, idx } => ast_wf(*arr) && ast_wf(*idx),
        AstV::SliceRange { from, to } => (match from {
            Some(e) => ast_wf(*e),
            None => true,
        }) && (match to {
            Some(e) => ast_wf(*e),
            None => true,
        }),
        AstV::If { cond, block } => ast_wf(*cond) && ast_wf(*block),
        AstV::For { elem, iter, block } => ast_wf(*elem) && ast_wf(*iter) && ast_wf(*block),
        _ => true,
    }
}

/// Well-formedness of a node sequence.
pub open spec fn ast_wf_all(ss: Seq<AstV>) -> bool
    decreases ss,
{
    forall|i: int| 0 <= i < ss.len() ==> ast_wf(#[trigger] ss[i])
}

/// Every value in the frame is well-formed.
pub open spec fn vars_wf(m: Map<Seq<char>, DataV>) -> bool {
    forall|k: Seq<char>| m.contains_key(k) ==> data_wf(#[trigger] m[k])
}

/// Every stored function is well-formed.
pub open spec fn funcs_wf(m: Map<Seq<char>, AstV>) -> bool {
    forall|k: Seq<char>| m.contains_key(k) ==> ast_wf(#[trigger] m[k])
}

/// Well-formedness of a state model.
pub open spec fn st_wf(st: StV) -> bool {
    vars_wf(st.vars) && funcs_wf(st.funcs)
}

/// The result of one binary (or postfix) operator on coerced numbers.
pub open spec fn sp_apply_binop(op: Seq<char>, l: DataV, r: DataV) -> Result<DataV, ErrV> {
    match (sp_as_number(l), sp_as_number(r)) {
        (Some(a), Some(b)) => {
            if op == "+"@ {
                match dec_add(a, b) {
                    Some(n) => Ok(DataV::Num(n)),
                    None => Err(ErrV::NumericOverflow),
                }
            } else if op == "-"@ {
                match dec_sub(a, b) {
                    Some(n) => Ok(DataV::Num(n)),
                    None => Err(ErrV::NumericOverflow),
                }
            } else if op == "*"@ {
                match dec_mul(a, b) {
                    Some(n) => Ok(DataV::Num(n)),
                    None => Err(ErrV::NumericOverflow),
                }
            } else if op == "/"@ {
                if b.m == 0 {
                    Err(ErrV::DivisionByZero)
                } else {
                    match dec_div(a, b) {
                        Some(n) => Ok(DataV::Num(n)),
                        None => Err(ErrV::NumericOverflow),
                    }
                }
            } else if op == "^"@ {
                match dec_pow(a, b) {
                    Some(n) => Ok(DataV::Num(n)),
                    None => Err(ErrV::NumericOverflow),
                }
            } else if op == "=="@ {
                Ok(DataV::Bool(num_eq_v(a, b)))
            } else if op == "!="@ {
                Ok(DataV::Bool(!num_eq_v(a, b)))
            } else if op == "<"@ {
                Ok(DataV::Bool(num_lt_v(a, b)))
            } else if op == ">"@ {
                Ok(DataV::Bool(num_lt_v(b, a)))
            } else if op == "<="@ {
                Ok(DataV::Bool(num_le_v(a, b)))
            } else if op == ">="@ {
                Ok(DataV::Bool(num_le_v(b, a)))
            } else if op == "!"@ {
                match Num::sp_int_val(a) {
                    None => Err(ErrV::TypeError("factorial of a non-integer"@)),
                    Some(v) => {
                        if v < 0 {
                            Err(ErrV::DomainError("factorial of a negative number"@))
                        } else if sp_fact(v as nat) > MAX_MANTISSA as nat {
                            Err(ErrV::NumericOverflow)
                        } else {
                            Ok(DataV::Num(NumV { m: sp_fact(v as nat) as int, s: 0 }))
                        }
                    },
                }
            } else {
                Err(ErrV::TypeError("unknown operator"@))
            }
        },
        _ => Err(ErrV::TypeError("value is not a number"@)),
    }
}

/// First position at which `d` occurs in `s`.
pub open spec fn sp_find_seq(s: Seq<char>, d: Seq<char>) -> Option<nat>
    decreases s.len(),
{
    if d.len() == 0 {
        Some(0)
    } else if s.len() < d.len() {
        None
    } else if s.subrange(0, d.len() as int) == d {
        Some(0)
    } else {
        match sp_find_seq(s.drop_first(), d) {
            Some(i) => Some((i + 1) as nat),
            None => None,
        }
    }
}

/// Split `s` on every occurrence of the non-empty delimiter `d`; with an
/// empty delimiter the whole string is one token.
pub open spec fn sp_split(s: Seq<char>, d: Seq<char>) -> Seq<Seq<char>>
    decreases s.len(),
{
    if d.len() == 0 {
        seq![s]
    } else {
        match sp_find_seq(s, d) {
            Some(i) => {
                if i + d.len() <= s.len() {
                    seq![s.subrange(0, i as int)] + sp_split(
                        s.subrange((i + d.len()) as int, s.len() as int),
                        d,
                    )
                } else {
                    seq![s]
                }
            },
            None => seq![s],
        }
    }
}

/// How `split` classifies one token: a decimal if it parses as one, then a
/// boolean, otherwise text.
pub open spec fn sp_classify_token(t: Seq<char>) -> DataV {
    match sp_parse_dec(t) {
        Some(n) => DataV::Num(n),
        None => {
            if t == "true"@ {
                DataV::Bool(true)
            } else if t == "false"@ {
                DataV::Bool(false)
            } else {
                DataV::Str(t)
            }
        },
    }
}

/// Classification of every token.
pub open spec fn sp_classify_all(ts: Seq<Seq<char>>) -> Seq<DataV> {
    ts.map_values(|t: Seq<char>| sp_classify_token(t))
}

/// Conversion of `inputf` tokens by their format specifiers.
pub open spec fn sp_inputf_convert(specs: Seq<Seq<char>>, toks: Seq<Seq<char>>) -> Result<
    Seq<DataV>,
    ErrV,
>
    decreases specs.len(),
{
    if specs.len() == 0 {
        Ok(Seq::empty())
    } else {
        let rest = sp_inputf_convert(specs.drop_last(), toks.drop_last());
        match rest {
            Err(e) => Err(e),
            Ok(vs) => {
                let sp = specs.last();
                let tk = toks.last();
                if sp == "%Number"@ {
                    match sp_parse_dec(tk) {
                        Some(n) => Ok(vs.push(DataV::Num(n))),
                        None => Err(ErrV::InputFormatError("invalid number"@)),
                    }
                } else if sp == "%String"@ {
                    Ok(vs.push(DataV::Str(tk)))
                } else if sp == "%Bool"@ {
                    if tk == "true"@ {
                        Ok(vs.push(DataV::Bool(true)))
                    } else if tk == "false"@ {
                        Ok(vs.push(DataV::Bool(false)))
                    } else {
                        Err(ErrV::InputFormatError("invalid boolean"@))
                    }
                } else {
                    Err(ErrV::InputFormatError("unknown format specifier"@))
                }
            },
        }
    }
}

/// The frame a user call starts from: exactly the parameters, bound in
/// order.
pub open spec fn sp_bind_params(ps: Seq<(Seq<char>, Seq<char>)>, vs: Seq<DataV>) -> Map<
    Seq<char>,
    DataV,
>
    decreases ps.len(),
{
    if ps.len() == 0 {
        Map::empty()
    } else {
        sp_bind_params(ps.drop_last(), vs.drop_last()).insert(ps.last().0, vs.last())
    }
}

/// The first argument whose value does not match its type tag decides the
/// error; unknown tags are themselves errors.
pub open spec fn sp_check_args(ps: Seq<(Seq<char>, Seq<char>)>, vs: Seq<DataV>) -> Option<ErrV>
    decreases ps.len(),
{
    if ps.len() == 0 {
        None
    } else {
        let tag = ps[0].1;
        let v = vs[0];
        let ok = if tag == "Number"@ {
            v is Num
        } else if tag == "String"@ {
            v is Str
        } else if tag == "Array"@ {
            v is Arr
        } else if tag == "Bool"@ {
            v is Bool
        } else {
            false
        };
        let known = tag == "Number"@ || tag == "String"@ || tag == "Array"@ || tag == "Bool"@;
        if !known {
            Some(ErrV::TypeError("unknown type tag"@))
        } else if !ok {
            Some(ErrV::TypeError("wrong argument type"@))
        } else {
            sp_check_args(ps.drop_first(), vs.drop_first())
        }
    }
}


/// The `split` built-in applied to its evaluated arguments: coerce the
/// subject (and optional delimiter) to text, trim, split and classify.
pub open spec fn sp_split_values(vs: Seq<DataV>) -> Result<DataV, ErrV> {
    match sp_as_string(vs[0]) {
        None => Err(ErrV::TypeError("value is not convertible to text"@)),
        Some(sv) => {
            let dres: Result<Seq<char>, ErrV> = if vs.len() == 2 {
                match sp_as_string(vs[1]) {
                    Some(dv) => Ok(dv),
                    None => Err(ErrV::TypeError("value is not convertible to text"@)),
                }
            } else {
                Ok(" "@)
            };
            match dres {
                Err(er) => Err(er),
                Ok(d) => Ok(
                    DataV::Arr(sp_classify_all(sp_split(crate::strutil::sp_trim(sv), d))),
                ),
            }
        },
    }
}

/// The `join` built-in applied to its evaluated arguments: the
/// concatenation of two arrays.
pub open spec fn sp_join_values(vs: Seq<DataV>) -> Result<DataV, ErrV> {
    match (vs[0], vs[1]) {
        (DataV::Arr(a), DataV::Arr(b)) => Ok(DataV::Arr(a + b)),
        _ => Err(ErrV::TypeError("join needs two arrays"@)),
    }
}

/// The `inputf` built-in applied to its format text and input line: both
/// are trimmed and split on single spaces, and the tokens are converted by
/// the format specifiers.
pub open spec fn sp_inputf_result(fmt: Seq<char>, line: Seq<char>) -> Result<DataV, ErrV> {
    let specs = sp_split(crate::strutil::sp_trim(fmt), " "@);
    let toks = sp_split(crate::strutil::sp_trim(line), " "@);
    if specs.len() != toks.len() {
        Err(ErrV::InputFormatError("input does not match the format"@))
    } else {
        match sp_inputf_convert(specs, toks) {
            Ok(vals) => Ok(DataV::Arr(vals)),
            Err(er) => Err(er),
        }
    }
}

/// Evaluate an expression.
pub open spec fn sp_eval(e: AstV, st: StV, fuel: nat) -> EvalOut
    decreases fuel, e, 0nat, 0nat,
{
    match e {
        AstV::Int(n) => {
            if num_wf(n) {
                EvalOut::Val(DataV::Num(n), st.out, st.inp)
            } else {
                EvalOut::Fail(ErrV::NumericOverflow)
            }
        },
        AstV::Str(s) => EvalOut::Val(DataV::Str(s), st.out, st.inp),
        AstV::Bool(b) => EvalOut::Val(DataV::Bool(b), st.out, st.inp),
        AstV::Ident(id) => {
            if st.vars.contains_key(id) {
                EvalOut::Val(st.vars[id], st.out, st.inp)
            } else {
                EvalOut::Fail(ErrV::VariableNotFound(id))
            }
        },
        AstV::Arr(es) => match sp_eval_list(es, st, fuel) {
            ListOut::Vals(vs, out, inp) => EvalOut::Val(DataV::Arr(vs), out, inp),
            ListOut::Fail(er) => EvalOut::Fail(er),
        },
        AstV::BinOp { op, left, right } => match sp_eval(*left, st, fuel) {
            EvalOut::Val(lv, out1, inp1) => {
                match sp_eval(*right, StV { out: out1, inp: inp1, ..st }, fuel) {
                    EvalOut::Val(rv, out2, inp2) => match sp_apply_binop(op, lv, rv) {
                        Ok(v) => EvalOut::Val(v, out2, inp2),
                        Err(er) => EvalOut::Fail(er),
                    },
                    EvalOut::Fail(er) => EvalOut::Fail(er),
                }
            },
            EvalOut::Fail(er) => EvalOut::Fail(er),
        },
        AstV::Access { arr, idx } => match sp_eval(*arr, st, fuel) {
            EvalOut::Val(av, out1, inp1) => match av {
                DataV::Arr(items) => sp_eval_index(items, *idx, StV { out: out1, inp: inp1, ..st }, fuel),
                _ => EvalOut::Fail(ErrV::TypeError("expected an array"@)),
            },
            EvalOut::Fail(er) => EvalOut::Fail(er),
        },
        AstV::Call { id, args } => sp_eval_call(id, args, st, fuel),
        _ => EvalOut::Fail(ErrV::TypeError("not an expression"@)),
    }
}

/// Read an array at a syntactic index: a literal single index, or a slice
/// whose bounds are evaluated.
pub open spec fn sp_eval_index(items: Seq<DataV>, idx: AstV, st: StV, fuel: nat) -> EvalOut
    decreases fuel, idx, 1nat, 0nat,
{
    match idx {
        AstV::Int(n) => match Num::sp_int_val(n) {
            None => EvalOut::Fail(ErrV::TypeError("array index must be an integer"@)),
            Some(v) => {
                if 0 <= v < items.len() {
                    EvalOut::Val(items[v], st.out, st.inp)
                } else {
                    EvalOut::Fail(ErrV::IndexOutOfBounds)
                }
            },
        },
        AstV::SliceRange { from, to } => {
            let fr = match from {
                Some(e) => sp_eval(*e, st, fuel),
                None => EvalOut::Val(DataV::Num(NumV { m: 0, s: 0 }), st.out, st.inp),
            };
            match fr {
                EvalOut::Fail(er) => EvalOut::Fail(er),
                EvalOut::Val(fv, out1, inp1) => match fv {
                    DataV::Num(fn_) => match Num::sp_int_val(fn_) {
                        None => EvalOut::Fail(ErrV::TypeError("array index must be an integer"@)),
                        Some(lo) => {
                            let st1 = StV { out: out1, inp: inp1, ..st };
                            let tr = match to {
                                Some(e) => sp_eval(*e, st1, fuel),
                                None => EvalOut::Val(
                                    DataV::Num(NumV { m: items.len() as int - 1, s: 0 }),
                                    st1.out,
                                    st1.inp,
                                ),
                            };
                            match tr {
                                EvalOut::Fail(er) => EvalOut::Fail(er),
                                EvalOut::Val(tv, out2, inp2) => match tv {
                                    DataV::Num(tn) => match Num::sp_int_val(tn) {
                                        None => EvalOut::Fail(
                                            ErrV::TypeError("array index must be an integer"@),
                                        ),
                                        Some(hi) => {
                                            if 0 <= lo && lo <= hi + 1 && hi + 1 <= items.len() {
                                                EvalOut::Val(
                                                    DataV::Arr(items.subrange(lo, hi + 1)),
                                                    out2,
                                                    inp2,
                                                )
                                            } else {
                                                EvalOut::Fail(ErrV::IndexOutOfBounds)
                                            }
                                        },
                                    },
                                    _ => EvalOut::Fail(
                                        ErrV::TypeError("slice bound must be a number"@),
                                    ),
                                },
                            }
                        },
                    },
                    _ => EvalOut::Fail(ErrV::TypeError("slice bound must be a number"@)),
                },
            }
        },
        _ => EvalOut::Fail(ErrV::TypeError("expected an index or a slice"@)),
    }
}

/// The value and streams `print` yields: one line per argument, result
/// zero.
pub open spec fn sp_print_result(args: Seq<AstV>, st: StV, fuel: nat) -> EvalOut
    decreases fuel, args, 1nat, 0nat,
{
    match sp_print_args(args, st, fuel) {
        ListOut::Vals(vs, o, n) => EvalOut::Val(DataV::Num(NumV { m: 0, s: 0 }), o, n),
        ListOut::Fail(er) => EvalOut::Fail(er),
    }
}

/// Evaluate a call expression: built-ins first, then user functions.
pub open spec fn sp_eval_call(id: Seq<char>, args: Seq<AstV>, st: StV, fuel: nat) -> EvalOut
    decreases fuel, args, 2nat, 0nat,
{
    if st.std.contains(id) {
        if id == "print"@ {
            sp_print_result(args, st, fuel)
        } else if id == "return"@ {
            if args.len() != 1 {
                EvalOut::Fail(ErrV::ArityMismatch(1, args.len()))
            } else {
                sp_eval(args[0], st, fuel)
            }
        } else if id == "input"@ {
            if args.len() != 0 {
                EvalOut::Fail(ErrV::ArityMismatch(0, args.len()))
            } else if st.inp.len() > 0 {
                EvalOut::Val(DataV::Str(st.inp[0]), st.out, st.inp.drop_first())
            } else {
                EvalOut::Val(DataV::Str(Seq::empty()), st.out, st.inp)
            }
        } else if id == "inputf"@ {
            if args.len() != 1 {
                EvalOut::Fail(ErrV::ArityMismatch(1, args.len()))
            } else {
                match sp_eval(args[0], st, fuel) {
                    EvalOut::Fail(er) => EvalOut::Fail(er),
                    EvalOut::Val(fv, out1, inp1) => match sp_as_string(fv) {
                        None => EvalOut::Fail(ErrV::TypeError("value is not convertible to text"@)),
                        Some(fmt) => {
                            let line = if inp1.len() > 0 {
                                inp1[0]
                            } else {
                                Seq::empty()
                            };
                            let inp2 = if inp1.len() > 0 {
                                inp1.drop_first()
                            } else {
                                inp1
                            };
                            match sp_inputf_result(fmt, line) {
                                Ok(d) => EvalOut::Val(d, out1, inp2),
                                Err(er) => EvalOut::Fail(er),
                            }
                        },
                    },
                }
            }
        } else if id == "split"@ {
            if args.len() != 1 && args.len() != 2 {
                EvalOut::Fail(ErrV::ArityMismatch(2, args.len()))
            } else {
                match sp_eval_list(args, st, fuel) {
                    ListOut::Fail(er) => ListOut_fail_to_eval(er),
                    ListOut::Vals(vs, out1, inp1) => match sp_split_values(vs) {
                        Ok(d) => EvalOut::Val(d, out1, inp1),
                        Err(er) => EvalOut::Fail(er),
                    },
                }
            }
        } else if id == "join"@ {
            if args.len() != 2 {
                EvalOut::Fail(ErrV::ArityMismatch(2, args.len()))
            } else {
                match sp_eval_list(args, st, fuel) {
                    ListOut::Fail(er) => ListOut_fail_to_eval(er),
                    ListOut::Vals(vs, out1, inp1) => match sp_join_values(vs) {
                        Ok(d) => EvalOut::Val(d, out1, inp1),
                        Err(er) => EvalOut::Fail(er),
                    },
                }
            }
        } else {
            EvalOut::Fail(ErrV::FeatureDisabled(id))
        }
    } else if st.funcs.contains_key(id) {
        match st.funcs[id] {
            AstV::FnDef { id: fid, params, body } => {
                if params.len() != args.len() {
                    EvalOut::Fail(ErrV::ArityMismatch(params.len(), args.len()))
                } else {
                    match sp_eval_list(args, st, fuel) {
                        ListOut::Fail(er) => ListOut_fail_to_eval(er),
                        ListOut::Vals(vs, out1, inp1) => {
                            if fuel == 0 {
                                EvalOut::Fail(ErrV::RecursionLimit)
                            } else {
                                sp_call_user(
                                    st.funcs[id],
                                    vs,
                                    StV { out: out1, inp: inp1, ..st },
                                    (fuel - 1) as nat,
                                )
                            }
                        },
                    }
                }
            },
            _ => EvalOut::Fail(ErrV::TypeError("not a function"@)),
        }
    } else {
        EvalOut::Fail(ErrV::UndefinedFunction(id))
    }
}

/// An argument-list failure, as an expression failure.
pub open spec fn ListOut_fail_to_eval(er: ErrV) -> EvalOut {
    EvalOut::Fail(er)
}

/// Evaluate expressions left to right, collecting their values.
pub open spec fn sp_eval_list(es: Seq<AstV>, st: StV, fuel: nat) -> ListOut
    decreases fuel, es, 0nat, 1nat,
{
    if es.len() == 0 {
        ListOut::Vals(Seq::empty(), st.out, st.inp)
    } else {
        match sp_eval(es[0], st, fuel) {
            EvalOut::Fail(er) => ListOut::Fail(er),
            EvalOut::Val(v, out1, inp1) => {
                match sp_eval_list(es.drop_first(), StV { out: out1, inp: inp1, ..st }, fuel) {
                    ListOut::Vals(vs, out2, inp2) => ListOut::Vals(
                        seq![v] + vs,
                        out2,
                        inp2,
                    ),
                    ListOut::Fail(er) => ListOut::Fail(er),
                }
            },
        }
    }
}

/// Evaluate `print`'s arguments left to right, writing one line per
/// argument as it is evaluated.
pub open spec fn sp_print_args(args: Seq<AstV>, st: StV, fuel: nat) -> ListOut
    decreases fuel, args, 0nat, 2nat,
{
    if args.len() == 0 {
        ListOut::Vals(Seq::empty(), st.out, st.inp)
    } else {
        match sp_eval(args[0], st, fuel) {
            EvalOut::Fail(er) => ListOut::Fail(er),
            EvalOut::Val(v, out1, inp1) => match sp_as_string(v) {
                None => ListOut::Fail(ErrV::TypeError("value is not convertible to text"@)),
                Some(line) => {
                    match sp_print_args(
                        args.drop_first(),
                        StV { out: out1.push(line), inp: inp1, ..st },
                        fuel,
                    ) {
                        ListOut::Vals(vs, out2, inp2) => ListOut::Vals(seq![v] + vs, out2, inp2),
                        ListOut::Fail(er) => ListOut::Fail(er),
                    }
                },
            },
        }
    }
}

/// Run a user function: type-check the arguments, bind a fresh frame, run
/// the body, and yield its returned value or zero.
pub open spec fn sp_call_user(def: AstV, vals: Seq<DataV>, st: StV, fuel: nat) -> EvalOut
    decreases fuel, def, 0nat, 2nat,
{
    match def {
        AstV::FnDef { id, params, body } => match sp_check_args(params, vals) {
            Some(er) => EvalOut::Fail(er),
            None => {
                let frame = sp_bind_params(params, vals);
                let st2 = StV { vars: frame, ..st };
                match sp_exec_block_node(*body, st2, fuel) {
                    StepOut::Norm(st3) => EvalOut::Val(
                        DataV::Num(NumV { m: 0, s: 0 }),
                        st3.out,
                        st3.inp,
                    ),
                    StepOut::Ret(v, st3) => EvalOut::Val(v, st3.out, st3.inp),
                    StepOut::Fail(er) => EvalOut::Fail(er),
                }
            },
        },
        _ => EvalOut::Fail(ErrV::TypeError("not a function"@)),
    }
}

/// Write through an array-element assignment target: the named variable
/// must hold an array, the index expression is evaluated and coerced to an
/// in-range integer, and the element is replaced.
pub open spec fn sp_assign_elem(access: AstV, v: DataV, st: StV, fuel: nat) -> StepOut
    decreases fuel, access, 0nat, 0nat,
{
    match access {
        AstV::Access { arr, idx } => match *arr {
            AstV::Ident(name) => {
                if !st.vars.contains_key(name) {
                    StepOut::Fail(ErrV::VariableNotFound(name))
                } else {
                    match st.vars[name] {
                        DataV::Arr(items) => match sp_eval(*idx, st, fuel) {
                            EvalOut::Fail(er) => StepOut::Fail(er),
                            EvalOut::Val(iv, out2, inp2) => {
                                let st2 = StV { out: out2, inp: inp2, ..st };
                                match sp_as_number(iv) {
                                    None => StepOut::Fail(
                                        ErrV::TypeError("value is not a number"@),
                                    ),
                                    Some(nv) => match Num::sp_int_val(nv) {
                                        None => StepOut::Fail(
                                            ErrV::TypeError("array index must be an integer"@),
                                        ),
                                        Some(ix) => {
                                            if 0 <= ix < items.len() {
                                                StepOut::Norm(
                                                    StV {
                                                        vars: st2.vars.insert(
                                                            name,
                                                            DataV::Arr(items.update(ix, v)),
                                                        ),
                                                        ..st2
                                                    },
                                                )
                                            } else {
                                                StepOut::Fail(ErrV::IndexOutOfBounds)
                                            }
                                        },
                                    },
                                }
                            },
                        },
                        _ => StepOut::Fail(ErrV::TypeError("variable is not an array"@)),
                    }
                }
            },
            _ => StepOut::Fail(ErrV::TypeError("invalid assignment target"@)),
        },
        _ => StepOut::Fail(ErrV::TypeError("invalid assignment target"@)),
    }
}

/// Execute one statement.
pub open spec fn sp_exec_stmt(s: AstV, st: StV, fuel: nat) -> StepOut
    decreases fuel, s, 0nat, 1nat,
{
    match s {
        AstV::Assign { id, expr } => match sp_eval(*expr, st, fuel) {
            EvalOut::Fail(er) => StepOut::Fail(er),
            EvalOut::Val(v, out1, inp1) => {
                let st1 = StV { out: out1, inp: inp1, ..st };
                match *id {
                    AstV::Ident(name) => StepOut::Norm(
                        StV { vars: st1.vars.insert(name, v), ..st1 },
                    ),
                    AstV::Access { arr, idx } => sp_assign_elem(*id, v, st1, fuel),
                    _ => StepOut::Fail(ErrV::TypeError("invalid assignment target"@)),
                }
            },
        },
        AstV::If { cond, block } => match sp_eval(*cond, st, fuel) {
            EvalOut::Fail(er) => StepOut::Fail(er),
            EvalOut::Val(cv, out1, inp1) => {
                let st1 = StV { out: out1, inp: inp1, ..st };
                match cv {
                    DataV::Bool(b) => {
                        if b {
                            sp_exec_block_node(*block, st1, fuel)
                        } else {
                            StepOut::Norm(st1)
                        }
                    },
                    _ => StepOut::Fail(ErrV::TypeError("condition must be a boolean"@)),
                }
            },
        },
        AstV::For { elem, iter, block } => match *elem {
            AstV::Ident(name) => match sp_eval(*iter, st, fuel) {
                EvalOut::Fail(er) => StepOut::Fail(er),
                EvalOut::Val(cv, out1, inp1) => {
                    let st1 = StV { out: out1, inp: inp1, ..st };
                    match cv {
                        DataV::Arr(items) => sp_run_for(name, items, *block, st1, fuel),
                        _ => StepOut::Fail(ErrV::TypeError("for loop needs an array"@)),
                    }
                },
            },
            _ => StepOut::Fail(ErrV::TypeError("loop variable must be an identifier"@)),
        },
        AstV::FnDef { id, params, body } => {
            if st.funcs.contains_key(id) || st.std.contains(id) {
                StepOut::Fail(ErrV::FunctionRedefinition(id))
            } else {
                StepOut::Norm(StV { funcs: st.funcs.insert(id, s), ..st })
            }
        },
        AstV::Call { id, args } => {
            if id == "return"@ && st.std.contains("return"@) {
                if args.len() != 1 {
                    StepOut::Fail(ErrV::ArityMismatch(1, args.len()))
                } else {
                    match sp_eval(args[0], st, fuel) {
                        EvalOut::Fail(er) => StepOut::Fail(er),
                        EvalOut::Val(v, out1, inp1) => StepOut::Ret(
                            v,
                            StV { out: out1, inp: inp1, ..st },
                        ),
                    }
                }
            } else {
                match sp_eval(s, st, fuel) {
                    EvalOut::Fail(er) => StepOut::Fail(er),
                    EvalOut::Val(_, out1, inp1) => StepOut::Norm(
                        StV { out: out1, inp: inp1, ..st },
                    ),
                }
            }
        },
        _ => match sp_eval(s, st, fuel) {
            EvalOut::Fail(er) => StepOut::Fail(er),
            EvalOut::Val(_, out1, inp1) => StepOut::Norm(StV { out: out1, inp: inp1, ..st }),
        },
    }
}

/// Execute the statements of a block in order.
pub open spec fn sp_exec_stmts(ss: Seq<AstV>, st: StV, fuel: nat) -> StepOut
    decreases fuel, ss, 0nat, 0nat,
{
    if ss.len() == 0 {
        StepOut::Norm(st)
    } else {
        match sp_exec_stmt(ss[0], st, fuel) {
            StepOut::Norm(st1) => sp_exec_stmts(ss.drop_first(), st1, fuel),
            StepOut::Ret(v, st1) => StepOut::Ret(v, st1),
            StepOut::Fail(er) => StepOut::Fail(er),
        }
    }
}

/// Execute a node that must be a block.
pub open spec fn sp_exec_block_node(b: AstV, st: StV, fuel: nat) -> StepOut
    decreases fuel, b, 0nat, 0nat,
{
    match b {
        AstV::Block(ss) => sp_exec_stmts(ss, st, fuel),
        _ => StepOut::Fail(ErrV::TypeError("not a statement block"@)),
    }
}

/// Run a `for` body once per element, binding the loop variable each time;
/// the body shares and keeps mutating the caller's frame.
pub open spec fn sp_run_for(name: Seq<char>, items: Seq<DataV>, b: AstV, st: StV, fuel: nat) -> StepOut
    decreases fuel, b, items.len(), 1nat,
{
    if items.len() == 0 {
        StepOut::Norm(st)
    } else {
        let st1 = StV { vars: st.vars.insert(name, items[0]), ..st };
        match sp_exec_block_node(b, st1, fuel) {
            StepOut::Norm(st2) => sp_run_for(name, items.drop_first(), b, st2, fuel),
            StepOut::Ret(v, st2) => StepOut::Ret(v, st2),
            StepOut::Fail(er) => StepOut::Fail(er),
        }
    }
}

/// Views of a sequence of strings.
pub open spec fn strs_view(s: Seq<String>) -> Seq<Seq<char>> {
    s.map_values(|x: String| x@)
}

/// Views of a sequence of character vectors.
pub open spec fn chvecs_view(s: Seq<Vec<char>>) -> Seq<Seq<char>> {
    s.map_values(|x: Vec<char>| x@)
}

/// The state model the executable pieces are at.
pub open spec fn st_of(
    vars: Map<Seq<char>, DataV>,
    funcs: Map<Seq<char>, AstV>,
    std: Seq<Seq<char>>,
    out: Seq<Seq<char>>,
    inp: Seq<Seq<char>>,
) -> StV {
    StV { vars, funcs, std, out, inp }
}

/// `d` occurs in `s` at position `i`.
pub open spec fn sp_occurs_at(s: Seq<char>, d: Seq<char>, i: int) -> bool {
    0 <= i && i + d.len() <= s.len() && s.subrange(i, i + d.len() as int) == d
}

/// `sp_find_seq` finds the first occurrence, if any.
pub proof fn lemma_find_seq(s: Seq<char>, d: Seq<char>)
    requires
        d.len() >= 1,
    ensures
        match sp_find_seq(s, d) {
            Some(i) => sp_occurs_at(s, d, i as int) && forall|j: int|
                0 <= j < i ==> !sp_occurs_at(s, d, j),
            None => forall|j: int| 0 <= j < s.len() ==> !sp_occurs_at(s, d, j),
        },
    decreases s.len(),
{
    if s.len() < d.len() {
        assert forall|j: int| 0 <= j < s.len() implies !sp_occurs_at(s, d, j) by {}
    } else if s.subrange(0, d.len() as int) == d {
        assert(sp_occurs_at(s, d, 0));
    } else {
        let t = s.drop_first();
        lemma_find_seq(t, d);
        assert forall|j: int| 1 <= j && j + d.len() <= s.len() implies (sp_occurs_at(s, d, j)
            <==> sp_occurs_at(t, d, j - 1)) by {
            assert(s.subrange(j, j + d.len() as int) =~= t.subrange(j - 1, j - 1 + d.len() as int));
        }
        match sp_find_seq(t, d) {
            Some(i) => {
                assert(sp_occurs_at(t, d, i as int));
                assert(sp_occurs_at(s, d, i + 1int));
                assert(!sp_occurs_at(s, d, 0)) by {
                    assert(s.subrange(0, d.len() as int) != d);
                }
            },
            None => {
                assert forall|j: int| 0 <= j < s.len() implies !sp_occurs_at(s, d, j) by {
                    if j == 0 {
                        assert(s.subrange(0, d.len() as int) != d);
                    } else if j + d.len() <= s.len() {
                        assert(!sp_occurs_at(t, d, j - 1));
                    }
                }
            },
        }
    }
}

/// A failing prefix decides the whole conversion.
pub proof fn lemma_inputf_err(specs: Seq<Seq<char>>, toks: Seq<Seq<char>>, i: int)
    requires
        0 <= i <= specs.len(),
        toks.len() == specs.len(),
        sp_inputf_convert(specs.subrange(0, i), toks.subrange(0, i)) is Err,
    ensures
        sp_inputf_convert(specs, toks) == sp_inputf_convert(
            specs.subrange(0, i),
            toks.subrange(0, i),
        ),
    decreases specs.len() - i,
{
    if i == specs.len() {
        assert(specs.subrange(0, i) =~= specs);
        assert(toks.subrange(0, i) =~= toks);
    } else {
        assert(specs.subrange(0, i + 1).drop_last() =~= specs.subrange(0, i));
        assert(toks.subrange(0, i + 1).drop_last() =~= toks.subrange(0, i));
        lemma_inputf_err(specs, toks, i + 1);
    }
}

/// `sp_call_user` reads nothing of the caller's frame.
pub proof fn lemma_call_user_vars(def: AstV, vs: Seq<DataV>, a: StV, b: StV, fuel: nat)
    requires
        a.funcs == b.funcs,
        a.std == b.std,
        a.out == b.out,
        a.inp == b.inp,
    ensures
        sp_call_user(def, vs, a, fuel) == sp_call_user(def, vs, b, fuel),
{
    match def {
        AstV::FnDef { id, params, body } => {
            let frame = sp_bind_params(params, vs);
            assert(StV { vars: frame, ..a } == StV { vars: frame, ..b });
        },
        _ => {},
    }
}

/// The control outcome of a statement or block.
#[derive(Debug)]
pub enum ReturnType {
    /// The block finished without an explicit return.
    Normal,
    /// An early `return(value)` unwinding to the enclosing function.
    Return(Data),
}

/// How many nested user-function calls may be in flight at once.
pub const DEFAULT_FUEL: u64 = 10000;

/// The specified outcome agrees with the executable one.
pub open spec fn eval_matches(
    res: EvalOut,
    r: Result<Data, Error>,
    out_now: Seq<Seq<char>>,
    inp_now: Seq<Seq<char>>,
) -> bool {
    match r {
        Ok(d) => res == EvalOut::Val(d@, out_now, inp_now) && data_wf(d@),
        Err(e) => res == EvalOut::Fail(e@),
    }
}

/// The specified list outcome agrees with the executable one.
pub open spec fn list_matches(
    res: ListOut,
    r: Result<Vec<Data>, Error>,
    out_now: Seq<Seq<char>>,
    inp_now: Seq<Seq<char>>,
) -> bool {
    match r {
        Ok(ds) => res == ListOut::Vals(data_views(ds@), out_now, inp_now) && datas_wf(
            data_views(ds@),
        ),
        Err(e) => res == ListOut::Fail(e@),
    }
}

/// The specified step outcome agrees with the executable one.
pub open spec fn step_matches(res: StepOut, r: Result<ReturnType, Error>, st_now: StV) -> bool {
    match r {
        Ok(ReturnType::Normal) => res == StepOut::Norm(st_now),
        Ok(ReturnType::Return(d)) => res == StepOut::Ret(d@, st_now) && data_wf(d@),
        Err(e) => res == StepOut::Fail(e@),
    }
}


/// Prefix some already-collected values onto a list outcome.
pub open spec fn sp_list_append(pre: Seq<DataV>, o: ListOut) -> ListOut {
    match o {
        ListOut::Vals(vs, out2, inp2) => ListOut::Vals(pre + vs, out2, inp2),
        ListOut::Fail(e) => ListOut::Fail(e),
    }
}

/// The values of a successful list outcome.
pub open spec fn sp_list_vals_of(o: ListOut) -> Seq<DataV> {
    match o {
        ListOut::Vals(vs, out2, inp2) => vs,
        ListOut::Fail(e) => Seq::empty(),
    }
}

/// The function table only grows: every definition of `prev` is kept in
/// `next`, unchanged.  This holds of statement execution whether it
/// succeeds, returns early or fails.
pub open spec fn funcs_extends(next: Map<Seq<char>, AstV>, prev: Map<Seq<char>, AstV>) -> bool {
    forall|k: Seq<char>| #[trigger] prev.contains_key(k) ==> next.contains_key(k) && next[k]
        == prev[k]
}

/// Growth of the function table is transitive.
pub proof fn lemma_funcs_extends_trans(
    a: Map<Seq<char>, AstV>,
    b: Map<Seq<char>, AstV>,
    c: Map<Seq<char>, AstV>,
)
    requires
        funcs_extends(b, a),
        funcs_extends(c, b),
    ensures
        funcs_extends(c, a),
{
    assert forall|k: Seq<char>| #[trigger] a.contains_key(k) implies c.contains_key(k) && c[k]
        == a[k] by {
        assert(b.contains_key(k));
    }
}

/// Inserting a well-formed value keeps the frame well-formed.
pub proof fn lemma_vars_wf_insert(m: Map<Seq<char>, DataV>, k: Seq<char>, v: DataV)
    requires
        vars_wf(m),
        data_wf(v),
    ensures
        vars_wf(m.insert(k, v)),
{
    assert forall|x: Seq<char>| m.insert(k, v).contains_key(x) implies data_wf(
        #[trigger] m.insert(k, v)[x],
    ) by {
        if x != k {
            assert(m.contains_key(x));
        }
    }
}

/// Inserting a well-formed definition keeps the table well-formed.
pub proof fn lemma_funcs_wf_insert(m: Map<Seq<char>, AstV>, k: Seq<char>, v: AstV)
    requires
        funcs_wf(m),
        ast_wf(v),
    ensures
        funcs_wf(m.insert(k, v)),
{
    assert forall|x: Seq<char>| m.insert(k, v).contains_key(x) implies ast_wf(
        #[trigger] m.insert(k, v)[x],
    ) by {
        if x != k {
            assert(m.contains_key(x));
        }
    }
}

/// A successful list evaluation yields one value per expression.
pub proof fn lemma_eval_list_len(es: Seq<AstV>, st: StV, fuel: nat)
    ensures
        sp_eval_list(es, st, fuel) matches ListOut::Vals(vs, o, n) ==> vs.len() == es.len(),
    decreases es.len(),
{
    if es.len() > 0 {
        match sp_eval(es[0], st, fuel) {
            EvalOut::Val(v, o1, n1) => {
                lemma_eval_list_len(es.drop_first(), StV { out: o1, inp: n1, ..st }, fuel);
            },
            EvalOut::Fail(_) => {},
        }
    }
}

} // verus!
