//! Runtime values: a tagged sum of exact decimal numbers, strings, booleans
//! and heterogeneous arrays, with the coercions the operators use.

use vstd::prelude::*;
use vstd::string::StringExecFns;
use crate::num::{Num, NumV, num_wf, num_eq_v, sp_num_str};
use crate::strutil::chars_to_string;

verus! {

/// A runtime value.
#[derive(Debug)]
pub enum Data {
    /// Unicode text.
    String(String),
    /// An exact fixed-point decimal.
    Number(Num),
    /// An ordered, heterogeneous sequence of values.
    Array(Vec<Data>),
    /// A boolean.
    Bool(bool),
}

/// Model of a runtime value.
pub enum DataV {
    Str(Seq<char>),
    Num(NumV),
    Arr(Seq<DataV>),
    Bool(bool),
}

/// Model of a value.
pub open spec fn data_view(d: Data) -> DataV
    decreases d,
{
    match d {
        Data::String(s) => DataV::Str(s@),
        Data::Number(n) => DataV::Num(n@),
        Data::Array(v) => DataV::Arr(data_views(v@)),
        Data::Bool(b) => DataV::Bool(b),
    }
}

/// Models of a sequence of values.
pub open spec fn data_views(s: Seq<Data>) -> Seq<DataV>
    decreases s,
{
    if s.len() == 0 {
        Seq::empty()
    } else {
        data_views(s.drop_last()).push(data_view(s.last()))
    }
}

pub proof fn lemma_data_views_len(s: Seq<Data>)
    ensures
        data_views(s).len() == s.len(),
        forall|i: int| 0 <= i < s.len() ==> data_views(s)[i] == data_view(s[i]),
    decreases s,
{
    if s.len() > 0 {
        lemma_data_views_len(s.drop_last());
    }
}

/// Updating one element updates one model.
pub proof fn lemma_data_views_update(s: Seq<Data>, i: int, d: Data)
    requires
        0 <= i < s.len(),
    ensures
        data_views(s.update(i, d)) == data_views(s).update(i, data_view(d)),
    decreases s,
{
    let t = s.update(i, d);
    lemma_data_views_len(s);
    lemma_data_views_len(t);
    if i == s.len() - 1 {
        assert(t.drop_last() =~= s.drop_last());
        assert(t.last() == d);
        assert(data_views(t) =~= data_views(s).update(i, data_view(d)));
    } else {
        assert(t.drop_last() =~= s.drop_last().update(i, d));
        assert(t.last() == s.last());
        lemma_data_views_update(s.drop_last(), i, d);
        assert(data_views(t) =~= data_views(s).update(i, data_view(d)));
    }
}

/// The models of a concatenation are the concatenated models.
pub proof fn lemma_data_views_concat(a: Seq<Data>, b: Seq<Data>)
    ensures
        data_views(a + b) == data_views(a) + data_views(b),
    decreases b,
{
    if b.len() == 0 {
        assert(a + b =~= a);
        assert(data_views(a) + data_views(b) =~= data_views(a));
    } else {
        lemma_data_views_concat(a, b.drop_last());
        assert((a + b).drop_last() =~= a + b.drop_last());
        assert((a + b).last() == b.last());
        assert(data_views(a + b) =~= data_views(a) + data_views(b));
    }
}

impl View for Data {
    type V = DataV;

    open spec fn view(&self) -> DataV {
        data_view(*self)
    }
}

/// Every number in the value is within the representable decimal range.
pub open spec fn data_wf(d: DataV) -> bool
    decreases d,
{
    match d {
        DataV::Num(n) => num_wf(n),
        DataV::Arr(s) => forall|i: int| 0 <= i < s.len() ==> data_wf(#[trigger] s[i]),
        _ => true,
    }
}

/// Every value of the sequence is well-formed.
pub open spec fn datas_wf(s: Seq<DataV>) -> bool {
    forall|i: int| 0 <= i < s.len() ==> data_wf(#[trigger] s[i])
}

/// Language-level value equality: numbers by their denoted decimal value,
/// arrays pointwise, strings and booleans structurally.
pub open spec fn val_equiv(a: DataV, b: DataV) -> bool
    decreases a,
{
    match (a, b) {
        (DataV::Num(x), DataV::Num(y)) => num_eq_v(x, y),
        (DataV::Str(x), DataV::Str(y)) => x == y,
        (DataV::Bool(x), DataV::Bool(y)) => x == y,
        (DataV::Arr(x), DataV::Arr(y)) => x.len() == y.len() && forall|i: int|
            0 <= i < x.len() ==> val_equiv(#[trigger] x[i], y[i]),
        _ => false,
    }
}

/// The numeric coercion: numbers are themselves, booleans are one or zero,
/// nothing else converts.
pub open spec fn sp_as_number(d: DataV) -> Option<NumV> {
    match d {
        DataV::Num(n) => Some(n),
        DataV::Bool(b) => Some(NumV { m: if b { 1 } else { 0 }, s: 0 }),
        _ => None,
    }
}

/// The text coercion: numbers in canonical decimal text, strings themselves,
/// booleans as `true`/`false`; arrays do not convert.
pub open spec fn sp_as_string(d: DataV) -> Option<Seq<char>> {
    match d {
        DataV::Num(n) => Some(sp_num_str(n)),
        DataV::Str(s) => Some(s),
        DataV::Bool(b) => Some(if b { "true"@ } else { "false"@ }),
        _ => None,
    }
}

impl Data {
    /// A deep copy with the same model.
    #[verifier::loop_isolation(false)]
    pub fn dup(&self) -> (r: Data)
        ensures
            r@ == self@,
        decreases self,
    {
        match self {
            Data::String(s) => Data::String(s.clone()),
            Data::Number(n) => Data::Number(*n),
            Data::Bool(b) => Data::Bool(*b),
            Data::Array(v) => {
                let mut out: Vec<Data> = Vec::new();
                let mut i: usize = 0;
                while i < v.len()
                    invariant
                        i <= v.len(),
                        data_views(out@) == data_views(v@.subrange(0, i as int)),
                        out@.len() == i,
                    decreases v.len() - i,
                {
                    let ghost prev = out@;
                    out.push(v[i].dup());
                    i = i + 1;
                    proof {
                        assert(out@.drop_last() =~= prev);
                        let pre = v@.subrange(0, i as int);
                        assert(pre.drop_last() =~= v@.subrange(0, i as int - 1));
                        assert(pre.last() == v@[i as int - 1]);
                    }
                }
                proof {
                    assert(v@.subrange(0, v@.len() as int) =~= v@);
                }
                Data::Array(out)
            },
        }
    }

    /// Coerce to a number, as `sp_as_number` describes.
    pub fn as_number(&self) -> (r: Option<Num>)
        ensures
            match r {
                Some(n) => sp_as_number(self@) == Some(n@) && (data_wf(self@) ==> n.wf()),
                None => sp_as_number(self@) is None,
            },
    {
        match self {
            Data::Number(n) => Some(*n),
            Data::Bool(b) => Some(
                if *b {
                    Num { mantissa: 1, scale: 0 }
                } else {
                    Num { mantissa: 0, scale: 0 }
                },
            ),
            _ => None,
        }
    }

    /// Coerce to text, as `sp_as_string` describes.
    pub fn as_string(&self) -> (r: Option<String>)
        requires
            data_wf(self@),
        ensures
            match r {
                Some(s) => sp_as_string(self@) == Some(s@),
                None => sp_as_string(self@) is None,
            },
    {
        match self {
            Data::Number(n) => {
                let cs = n.to_chars();
                Some(chars_to_string(&cs))
            },
            Data::String(s) => Some(s.clone()),
            Data::Bool(b) => Some(
                String::from_str(
                    if *b {
                        "true"
                    } else {
                        "false"
                    },
                ),
            ),
            _ => None,
        }
    }
}

} // verus!
