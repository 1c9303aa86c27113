//! Laws of the evaluation semantics, stated and proved over the
//! specification functions of `eval`.

use vstd::prelude::*;
use crate::num::{
    Num, NumV, num_wf, num_eq_v, sp_norm, sp_num_str, sp_parse_dec, lemma_num_str_roundtrip,
    lemma_norm_unique,
    lemma_norm_value, MAX_MANTISSA,
};
use crate::data::DataV;
use crate::ast::AstV;
use crate::eval::{
    StV, EvalOut, ListOut, StepOut, sp_eval, sp_eval_list, sp_eval_index, sp_exec_stmt,
    sp_assign_elem, sp_classify_token,
};

verus! {

/// Law: a printed number reads back as the same number.  The canonical text
/// of a well-formed decimal — what `print` writes for it — parses as its
/// normal form, so the token classifier that `split` and `inputf` use turns
/// the text back into a numerically equal value.  This is the number case of
/// the literal round trip.
pub proof fn lemma_number_text_roundtrip(n: NumV)
    requires
        num_wf(n),
    ensures
        sp_parse_dec(sp_num_str(n)) == Some(sp_norm(n)),
        sp_classify_token(sp_num_str(n)) == DataV::Num(sp_norm(n)),
        num_eq_v(sp_norm(n), n),
{
    lemma_num_str_roundtrip(n);
    lemma_norm_value(n);
}

/// Law: numerically equal decimals print alike.  Value equality implies
/// equal normal forms, and the canonical text a number prints as depends on
/// its normal form alone.
pub proof fn lemma_equal_numbers_print_alike(a: NumV, b: NumV)
    requires
        num_eq_v(a, b),
    ensures
        sp_norm(a) == sp_norm(b),
        sp_num_str(a) == sp_num_str(b),
{
    lemma_norm_unique(a, b);
}

/// Law: a call statement never changes the variable frame or the function
/// table.  A user function runs in a fresh frame bound from its argument
/// values alone, and whatever it defines or assigns dies with that frame;
/// built-ins touch only the output and input streams.
pub proof fn lemma_call_statement_keeps_frame(
    id: Seq<char>,
    args: Seq<AstV>,
    st: StV,
    fuel: nat,
)
    ensures
        (match sp_exec_stmt(AstV::Call { id, args }, st, fuel) {
            StepOut::Norm(st2) => st2.vars == st.vars && st2.funcs == st.funcs,
            StepOut::Ret(v, st2) => st2.vars == st.vars && st2.funcs == st.funcs,
            StepOut::Fail(_) => true,
        }),
{
}

/// Law: the arguments of a two-argument call are evaluated left to right:
/// the second argument starts from exactly the output and input streams
/// the first argument left behind, so any line the first writes stands
/// before any line the second writes.
pub proof fn lemma_args_left_to_right(a: AstV, b: AstV, st: StV, fuel: nat)
    ensures
        sp_eval(a, st, fuel) matches EvalOut::Val(va, o1, n1) ==> sp_eval_list(
            seq![a, b],
            st,
            fuel,
        ) == (match sp_eval(b, StV { out: o1, inp: n1, ..st }, fuel) {
            EvalOut::Val(vb, o2, n2) => ListOut::Vals(seq![va, vb], o2, n2),
            EvalOut::Fail(e) => ListOut::Fail(e),
        }),
{
    let two = seq![a, b];
    assert(two[0] == a);
    assert(two.drop_first() =~= seq![b]);
    match sp_eval(a, st, fuel) {
        EvalOut::Val(va, o1, n1) => {
            let st1 = StV { out: o1, inp: n1, ..st };
            let one = seq![b];
            assert(one[0] == b);
            assert(one.drop_first() =~= Seq::<AstV>::empty());
            match sp_eval(b, st1, fuel) {
                EvalOut::Val(vb, o2, n2) => {
                    let st2 = StV { out: o2, inp: n2, ..st1 };
                    assert(sp_eval_list(Seq::<AstV>::empty(), st2, fuel) == ListOut::Vals(
                        Seq::<DataV>::empty(),
                        o2,
                        n2,
                    ));
                    assert(seq![vb] + Seq::<DataV>::empty() =~= seq![vb]);
                    assert(sp_eval_list(one, st1, fuel) == ListOut::Vals(seq![vb], o2, n2));
                    assert(seq![va] + seq![vb] =~= seq![va, vb]);
                    assert(sp_eval_list(two, st, fuel) == ListOut::Vals(seq![va, vb], o2, n2));
                },
                EvalOut::Fail(e) => {
                    assert(sp_eval_list(one, st1, fuel) == ListOut::Fail(e));
                    assert(sp_eval_list(two, st, fuel) == ListOut::Fail(e));
                },
            }
        },
        EvalOut::Fail(_) => {},
    }
}

/// Law: writing an array element back to its own place is a no-op:
/// executing `name[i] = name[i]` leaves the whole state unchanged, for any
/// array variable and any in-range literal index.
pub proof fn lemma_array_write_idempotent(name: Seq<char>, i: NumV, st: StV, fuel: nat)
    requires
        num_wf(i),
        st.vars.contains_key(name),
        st.vars[name] matches DataV::Arr(items) && (Num::sp_int_val(i) matches Some(v) && 0 <= v
            < items.len()),
    ensures
        sp_exec_stmt(
            AstV::Assign {
                id: Box::new(
                    AstV::Access {
                        arr: Box::new(AstV::Ident(name)),
                        idx: Box::new(AstV::Int(i)),
                    },
                ),
                expr: Box::new(
                    AstV::Access {
                        arr: Box::new(AstV::Ident(name)),
                        idx: Box::new(AstV::Int(i)),
                    },
                ),
            },
            st,
            fuel,
        ) == StepOut::Norm(st),
{
    let items = match st.vars[name] {
        DataV::Arr(items) => items,
        _ => Seq::empty(),
    };
    let v = Num::sp_int_val(i).unwrap();
    let access = AstV::Access { arr: Box::new(AstV::Ident(name)), idx: Box::new(AstV::Int(i)) };
    assert(sp_eval_index(items, AstV::Int(i), st, fuel) == EvalOut::Val(
        items[v],
        st.out,
        st.inp,
    ));
    assert(sp_eval(access, st, fuel) == EvalOut::Val(items[v], st.out, st.inp));
    assert(StV { out: st.out, inp: st.inp, ..st } == st);
    assert(sp_assign_elem(access, items[v], st, fuel) == StepOut::Norm(
        StV { vars: st.vars.insert(name, DataV::Arr(items.update(v, items[v]))), ..st },
    ));
    assert(items.update(v, items[v]) =~= items);
    assert(st.vars.insert(name, st.vars[name]) =~= st.vars);
    assert(StV { vars: st.vars.insert(name, DataV::Arr(items.update(v, items[v]))), ..st }
        == st);
}

/// Law: the full slice of a non-empty array is the array itself: reading
/// `a[0..len-1]` (both bounds inclusive) yields every element back.
pub proof fn lemma_full_slice_total(items: Seq<DataV>, st: StV, fuel: nat)
    requires
        items.len() >= 1,
        items.len() - 1 <= MAX_MANTISSA as int,
    ensures
        sp_eval_index(
            items,
            AstV::SliceRange {
                from: Some(Box::new(AstV::Int(NumV { m: 0, s: 0 }))),
                to: Some(Box::new(AstV::Int(NumV { m: items.len() - 1, s: 0 }))),
            },
            st,
            fuel,
        ) == EvalOut::Val(DataV::Arr(items), st.out, st.inp),
{
    let zero = NumV { m: 0, s: 0 };
    let last = NumV { m: items.len() - 1, s: 0 };
    assert(num_wf(zero));
    assert(num_wf(last));
    assert(Num::sp_int_val(zero) == Some(0int));
    assert(Num::sp_int_val(last) == Some(items.len() - 1));
    assert(sp_eval(AstV::Int(zero), st, fuel) == EvalOut::Val(
        DataV::Num(zero),
        st.out,
        st.inp,
    ));
    assert(StV { out: st.out, inp: st.inp, ..st } == st);
    assert(sp_eval(AstV::Int(last), st, fuel) == EvalOut::Val(
        DataV::Num(last),
        st.out,
        st.inp,
    ));
    assert(items.subrange(0, items.len() as int) =~= items);
}

} // verus!
