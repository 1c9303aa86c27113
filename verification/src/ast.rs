//! The abstract syntax tree the parser emits and the evaluator consumes.

use vstd::prelude::*;
use crate::num::{Num, NumV};

verus! {

/// A node of the syntax tree.
#[derive(Debug)]
pub enum Ast {
    /// An ordered sequence of statements.
    Block(Vec<Ast>),
    /// A string literal, escapes already resolved.
    String(String),
    /// A decimal literal.
    Int(Num),
    /// An identifier: a variable, function or type name.
    Identifier(String),
    /// A binary (or postfix) operator application.
    BinaryOp { op: String, left: Box<Ast>, right: Box<Ast> },
    /// An assignment; the target is an identifier or an array access.
    Assign { id: Box<Ast>, expr: Box<Ast> },
    /// A function definition with typed parameters.
    FunctionDefinition { id: String, params: Vec<(String, String)>, body: Box<Ast> },
    /// A call, either to a built-in or to a user function.
    FunctionCall { id: String, args: Vec<Ast> },
    /// An array literal.
    Array(Vec<Ast>),
    /// Reading an array at an index or slice.
    ArrayAccess { expr: Box<Ast>, whereto: Box<Ast> },
    /// A slice with optional inclusive bounds.
    AstSlice { from: Option<Box<Ast>>, to: Option<Box<Ast>> },
    /// A boolean literal.
    Bool(bool),
    /// A conditional without an else branch.
    If { condition: Box<Ast>, block: Box<Ast> },
    /// Iteration over the elements of an array.
    ForLoop { element: Box<Ast>, elements: Box<Ast>, block: Box<Ast> },
}

/// Model of a syntax tree node.
pub enum AstV {
    Block(Seq<AstV>),
    Str(Seq<char>),
    Int(NumV),
    Ident(Seq<char>),
    BinOp { op: Seq<char>, left: Box<AstV>, right: Box<AstV> },
    Assign { id: Box<AstV>, expr: Box<AstV> },
    FnDef { id: Seq<char>, params: Seq<(Seq<char>, Seq<char>)>, body: Box<AstV> },
    Call { id: Seq<char>, args: Seq<AstV> },
    Arr(Seq<AstV>),
    Access { arr: Box<AstV>, idx: Box<AstV> },
    SliceRange { from: Option<Box<AstV>>, to: Option<Box<AstV>> },
    Bool(bool),
    If { cond: Box<AstV>, block: Box<AstV> },
    For { elem: Box<AstV>, iter: Box<AstV>, block: Box<AstV> },
}

/// Model of a node.
pub open spec fn ast_view(a: Ast) -> AstV
    decreases a,
{
    match a {
        Ast::Block(v) => AstV::Block(ast_views(v@)),
        Ast::String(s) => AstV::Str(s@),
        Ast::Int(n) => AstV::Int(n@),
        Ast::Identifier(s) => AstV::Ident(s@),
        Ast::BinaryOp { op, left, right } => AstV::BinOp {
            op: op@,
            left: Box::new(ast_view(*left)),
            right: Box::new(ast_view(*right)),
        },
        Ast::Assign { id, expr } => AstV::Assign {
            id: Box::new(ast_view(*id)),
            expr: Box::new(ast_view(*expr)),
        },
        Ast::FunctionDefinition { id, params, body } => AstV::FnDef {
            id: id@,
            params: params@.map_values(|p: (String, String)| (p.0@, p.1@)),
            body: Box::new(ast_view(*body)),
        },
        Ast::FunctionCall { id, args } => AstV::Call { id: id@, args: ast_views(args@) },
        Ast::Array(v) => AstV::Arr(ast_views(v@)),
        Ast::ArrayAccess { expr, whereto } => AstV::Access {
            arr: Box::new(ast_view(*expr)),
            idx: Box::new(ast_view(*whereto)),
        },
        Ast::AstSlice { from, to } => AstV::SliceRange {
            from: opt_ast_view(from),
            to: opt_ast_view(to),
        },
        Ast::Bool(b) => AstV::Bool(b),
        Ast::If { condition, block } => AstV::If {
            cond: Box::new(ast_view(*condition)),
            block: Box::new(ast_view(*block)),
        },
        Ast::ForLoop { element, elements, block } => AstV::For {
            elem: Box::new(ast_view(*element)),
            iter: Box::new(ast_view(*elements)),
            block: Box::new(ast_view(*block)),
        },
    }
}

/// Model of an optional node.
pub open spec fn opt_ast_view(o: Option<Box<Ast>>) -> Option<Box<AstV>>
    decreases o,
{
    match o {
        Some(b) => Some(Box::new(ast_view(*b))),
        None => None,
    }
}

/// The model of a present optional node.
pub proof fn lemma_opt_ast_view_some(o: Option<Box<Ast>>, b: Box<Ast>)
    requires
        o == Some(b),
    ensures
        opt_ast_view(o) == Some(Box::new(ast_view(*b))),
{
}

/// Models of a sequence of nodes.
pub open spec fn ast_views(s: Seq<Ast>) -> Seq<AstV>
    decreases s,
{
    if s.len() == 0 {
        Seq::empty()
    } else {
        ast_views(s.drop_last()).push(ast_view(s.last()))
    }
}

pub proof fn lemma_ast_views_len(s: Seq<Ast>)
    ensures
        ast_views(s).len() == s.len(),
        forall|i: int| 0 <= i < s.len() ==> ast_views(s)[i] == ast_view(s[i]),
    decreases s,
{
    if s.len() > 0 {
        lemma_ast_views_len(s.drop_last());
    }
}

impl View for Ast {
    type V = AstV;

    open spec fn view(&self) -> AstV {
        ast_view(*self)
    }
}

/// A deep copy of a node sequence with the same models.
#[verifier::loop_isolation(false)]
pub fn dup_asts(v: &Vec<Ast>) -> (r: Vec<Ast>)
    ensures
        ast_views(r@) == ast_views(v@),
        r@.len() == v@.len(),
    decreases v,
{
    let mut out: Vec<Ast> = Vec::new();
    let mut i: usize = 0;
    while i < v.len()
        invariant
            i <= v.len(),
            out@.len() == i,
            ast_views(out@) == ast_views(v@.subrange(0, i as int)),
        decreases v.len() - i,
    {
        let ghost prev = out@;
        out.push(v[i].dup());
        i = i + 1;
        proof {
            assert(out@.drop_last() =~= prev);
            let pre = v@.subrange(0, i as int);
            assert(pre.drop_last() =~= v@.subrange(0, i as int - 1));
            assert(pre.last() == v@[i as int - 1]);
        }
    }
    proof {
        assert(v@.subrange(0, v@.len() as int) =~= v@);
    }
    out
}

impl Ast {
    /// A deep copy with the same model.
    #[verifier::loop_isolation(false)]
    pub fn dup(&self) -> (r: Ast)
        ensures
            r@ == self@,
        decreases self,
    {
        match self {
            Ast::Block(v) => Ast::Block(dup_asts(v)),
            Ast::String(s) => Ast::String(s.clone()),
            Ast::Int(n) => Ast::Int(*n),
            Ast::Identifier(s) => Ast::Identifier(s.clone()),
            Ast::BinaryOp { op, left, right } => Ast::BinaryOp {
                op: op.clone(),
                left: Box::new(left.dup()),
                right: Box::new(right.dup()),
            },
            Ast::Assign { id, expr } => Ast::Assign {
                id: Box::new(id.dup()),
                expr: Box::new(expr.dup()),
            },
            Ast::FunctionDefinition { id, params, body } => {
                let mut ps: Vec<(String, String)> = Vec::new();
                let mut i: usize = 0;
                while i < params.len()
                    invariant
                        i <= params.len(),
                        ps@.len() == i,
                        forall|j: int|
                            0 <= j < i ==> ps@[j].0@ == params@[j].0@ && ps@[j].1@
                                == params@[j].1@,
                    decreases params.len() - i,
                {
                    ps.push((params[i].0.clone(), params[i].1.clone()));
                    i = i + 1;
                }
                proof {
                    assert(ps@.map_values(|p: (String, String)| (p.0@, p.1@))
                        =~= params@.map_values(|p: (String, String)| (p.0@, p.1@)));
                }
                Ast::FunctionDefinition { id: id.clone(), params: ps, body: Box::new(body.dup()) }
            },
            Ast::FunctionCall { id, args } => Ast::FunctionCall {
                id: id.clone(),
                args: dup_asts(args),
            },
            Ast::Array(v) => Ast::Array(dup_asts(v)),
            Ast::ArrayAccess { expr, whereto } => Ast::ArrayAccess {
                expr: Box::new(expr.dup()),
                whereto: Box::new(whereto.dup()),
            },
            Ast::AstSlice { from, to } => {
                let f: Option<Box<Ast>> = match from {
                    Some(b) => {
                        let d = Box::new(b.dup());
                        proof {
                            assert(opt_ast_view(Some(d)) == opt_ast_view(*from));
                        }
                        Some(d)
                    },
                    None => None,
                };
                let t: Option<Box<Ast>> = match to {
                    Some(b) => {
                        let d = Box::new(b.dup());
                        proof {
                            assert(opt_ast_view(Some(d)) == opt_ast_view(*to));
                        }
                        Some(d)
                    },
                    None => None,
                };
                proof {
                    assert(opt_ast_view(f) == opt_ast_view(*from));
                    assert(opt_ast_view(t) == opt_ast_view(*to));
                }
                Ast::AstSlice { from: f, to: t }
            },
            Ast::Bool(b) => Ast::Bool(*b),
            Ast::If { condition, block } => Ast::If {
                condition: Box::new(condition.dup()),
                block: Box::new(block.dup()),
            },
            Ast::ForLoop { element, elements, block } => Ast::ForLoop {
                element: Box::new(element.dup()),
                elements: Box::new(elements.dup()),
                block: Box::new(block.dup()),
            },
        }
    }
}

} // verus!
