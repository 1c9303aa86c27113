//! The line-oriented command reader: `name(p1, p2, ...)` entries separated
//! by semicolons, with comma-separated parameters that respect double
//! quotes.

use vstd::prelude::*;
use vstd::string::StringExecFns;
use crate::num::sp_find_char;
use crate::num::lemma_find_char;
use crate::strutil::{sp_trim, string_to_chars, chars_to_string, trim_chars};
use crate::eval::{sp_split, chvecs_view, strs_view};
use crate::builtins::{split_chars, sub_chars};
use crate::param::{Param, param_matches};

verus! {

/// A parsed command: its name and its classified parameters.
pub struct Command {
    /// The text before the opening parenthesis.
    pub commands_name: String,
    /// The comma-separated parameters, classified.
    pub commands_param: Vec<Param>,
}

/// Split a parameter list on the commas that stand outside double quotes,
/// trimming each piece; quote characters stay in the pieces.
pub open spec fn sp_split_params_rec(s: Seq<char>, i: int, buf: Seq<char>, inq: bool) -> Seq<
    Seq<char>,
>
    decreases s.len() - i,
{
    if i < 0 || i >= s.len() {
        seq![sp_trim(buf)]
    } else {
        let c = s[i];
        if c == '"' {
            sp_split_params_rec(s, i + 1, buf.push(c), !inq)
        } else if c == ',' && !inq {
            seq![sp_trim(buf)] + sp_split_params_rec(s, i + 1, Seq::empty(), inq)
        } else {
            sp_split_params_rec(s, i + 1, buf.push(c), inq)
        }
    }
}

/// The trimmed comma-separated pieces of a parameter list.
pub open spec fn sp_split_params(s: Seq<char>) -> Seq<Seq<char>> {
    sp_split_params_rec(s, 0, Seq::empty(), false)
}

/// A parenthesis character.
pub open spec fn is_paren(c: char) -> bool {
    c == '(' || c == ')'
}

/// `s` without leading parentheses.
pub open spec fn sp_trim_parens_start(s: Seq<char>) -> Seq<char>
    decreases s.len(),
{
    if s.len() > 0 && is_paren(s[0]) {
        sp_trim_parens_start(s.drop_first())
    } else {
        s
    }
}

/// `s` without trailing parentheses.
pub open spec fn sp_trim_parens_end(s: Seq<char>) -> Seq<char>
    decreases s.len(),
{
    if s.len() > 0 && is_paren(s.last()) {
        sp_trim_parens_end(s.drop_last())
    } else {
        s
    }
}

/// `s` without leading and trailing parentheses.
pub open spec fn sp_trim_parens(s: Seq<char>) -> Seq<char> {
    sp_trim_parens_end(sp_trim_parens_start(s))
}

/// Where a command's parameter list starts: at the first opening
/// parenthesis, or at the end when there is none.
pub open spec fn sp_paren_ix(p: Seq<char>) -> int {
    match sp_find_char(p, '(') {
        Some(i) => i as int,
        None => p.len() as int,
    }
}

/// The name part of one command entry.
pub open spec fn sp_piece_name(p: Seq<char>) -> Seq<char> {
    sp_trim(p.subrange(0, sp_paren_ix(p)))
}

/// The raw parameter-list part of one command entry.
pub open spec fn sp_piece_params(p: Seq<char>) -> Seq<char> {
    sp_trim_parens(p.subrange(sp_paren_ix(p), p.len() as int))
}

/// The name and parameter text of each non-empty entry, in order.
pub open spec fn sp_pieces_of(ps: Seq<Seq<char>>) -> Seq<(Seq<char>, Seq<char>)>
    decreases ps.len(),
{
    if ps.len() == 0 {
        Seq::empty()
    } else {
        let rest = sp_pieces_of(ps.drop_last());
        if ps.last().len() > 0 {
            rest.push((sp_piece_name(ps.last()), sp_piece_params(ps.last())))
        } else {
            rest
        }
    }
}

/// The command entries of a source text: the text is trimmed, split on
/// semicolons, and each non-empty piece parsed into a name and parameters.
pub open spec fn sp_command_pieces(s: Seq<char>) -> Seq<(Seq<char>, Seq<char>)> {
    sp_pieces_of(sp_split(sp_trim(s), ";"@))
}

/// The command carries this name and the classified pieces of this
/// parameter text.
pub open spec fn cmd_matches(c: Command, name: Seq<char>, params: Seq<char>) -> bool {
    c.commands_name@ == name && c.commands_param@.len() == sp_split_params(params).len()
        && forall|j: int|
        0 <= j < c.commands_param@.len() ==> param_matches(
            #[trigger] c.commands_param@[j],
            sp_split_params(params)[j],
        )
}

/// Strip parentheses from both ends of a character vector.
#[verifier::loop_isolation(false)]
fn trim_parens_chars(v: &Vec<char>) -> (r: Vec<char>)
    ensures
        r@ == sp_trim_parens(v@),
{
    let mut lo: usize = 0;
    proof {
        assert(v@.subrange(0, v@.len() as int) =~= v@);
    }
    while lo < v.len() && (v[lo] == '(' || v[lo] == ')')
        invariant
            lo <= v.len(),
            sp_trim_parens_start(v@) == sp_trim_parens_start(
                v@.subrange(lo as int, v@.len() as int),
            ),
        decreases v.len() - lo,
    {
        proof {
            let cur = v@.subrange(lo as int, v@.len() as int);
            assert(cur.drop_first() =~= v@.subrange(lo as int + 1, v@.len() as int));
        }
        lo = lo + 1;
    }
    let mut hi: usize = v.len();
    proof {
        let cur = v@.subrange(lo as int, v@.len() as int);
        assert(sp_trim_parens_start(cur) == cur);
        assert(sp_trim_parens(v@) == sp_trim_parens_end(v@.subrange(lo as int, hi as int)));
    }
    while hi > lo && (v[hi - 1] == '(' || v[hi - 1] == ')')
        invariant
            lo <= hi <= v.len(),
            sp_trim_parens(v@) == sp_trim_parens_end(v@.subrange(lo as int, hi as int)),
        decreases hi,
    {
        proof {
            let cur = v@.subrange(lo as int, hi as int);
            assert(cur.drop_last() =~= v@.subrange(lo as int, hi as int - 1));
        }
        hi = hi - 1;
    }
    proof {
        let cur = v@.subrange(lo as int, hi as int);
        assert(sp_trim_parens_end(cur) == cur);
    }
    sub_chars(v, lo, hi)
}

impl Command {
    /// Parse one command from its name and raw parameter text: the
    /// parameters are split on commas outside quotes, trimmed and
    /// classified.
    #[verifier::loop_isolation(false)]
    #[verifier::spinoff_prover]
    #[verifier::rlimit(100)]
    pub fn new(name: String, param: String) -> (r: Command)
        ensures
            cmd_matches(r, name@, param@),
    {
        let cs = string_to_chars(&param);
        let mut tokens: Vec<String> = Vec::new();
        let mut buf: Vec<char> = Vec::new();
        let mut inq: bool = false;
        let mut i: usize = 0;
        proof {
            assert(strs_view(tokens@) =~= Seq::<Seq<char>>::empty());
            assert(Seq::<Seq<char>>::empty() + sp_split_params_rec(cs@, 0, buf@, false)
                =~= sp_split_params_rec(cs@, 0, buf@, false));
        }
        while i < cs.len()
            invariant
                i <= cs@.len(),
                sp_split_params(param@) == strs_view(tokens@) + sp_split_params_rec(
                    cs@,
                    i as int,
                    buf@,
                    inq,
                ),
            decreases cs@.len() - i,
        {
            let c = cs[i];
            let ghost old_buf = buf@;
            let ghost old_tokens = tokens@;
            if c == '"' {
                buf.push(c);
                inq = !inq;
            } else if c == ',' && !inq {
                let t = trim_chars(&buf);
                tokens.push(chars_to_string(&t));
                buf = Vec::new();
                proof {
                    assert(strs_view(tokens@) =~= strs_view(old_tokens).push(sp_trim(old_buf)));
                    assert(strs_view(old_tokens) + (seq![sp_trim(old_buf)]
                        + sp_split_params_rec(cs@, i as int + 1, buf@, inq)) =~= strs_view(
                        tokens@,
                    ) + sp_split_params_rec(cs@, i as int + 1, buf@, inq));
                }
            } else {
                buf.push(c);
            }
            i = i + 1;
        }
        let t = trim_chars(&buf);
        let ghost old_tokens = tokens@;
        tokens.push(chars_to_string(&t));
        proof {
            assert(strs_view(tokens@) =~= strs_view(old_tokens).push(sp_trim(buf@)));
            assert(strs_view(old_tokens) + seq![sp_trim(buf@)] =~= strs_view(tokens@));
        }
        let params = Param::param_from_vec(tokens);
        proof {
            assert(strs_view(tokens@).len() == tokens@.len());
        }
        Command { commands_name: name, commands_param: params }
    }

    /// Parse a source text of semicolon-separated commands; empty pieces
    /// are skipped.
    #[verifier::loop_isolation(false)]
    #[verifier::spinoff_prover]
    #[verifier::rlimit(100)]
    pub fn from_text(contents: String) -> (r: Vec<Command>)
        ensures
            r@.len() == sp_command_pieces(contents@).len(),
            forall|i: int|
                0 <= i < r@.len() ==> cmd_matches(
                    #[trigger] r@[i],
                    sp_command_pieces(contents@)[i].0,
                    sp_command_pieces(contents@)[i].1,
                ),
    {
        let cs = string_to_chars(&contents);
        let trimmed = trim_chars(&cs);
        let mut semi: Vec<char> = Vec::new();
        semi.push(';');
        proof {
            reveal_strlit(";");
            assert(semi@ =~= ";"@);
        }
        let pieces = split_chars(&trimmed, &semi);
        let ghost pv = chvecs_view(pieces@);
        let mut r: Vec<Command> = Vec::new();
        let mut i: usize = 0;
        proof {
            assert(pv.take(0) =~= Seq::<Seq<char>>::empty());
        }
        while i < pieces.len()
            invariant
                i <= pieces@.len(),
                pv == chvecs_view(pieces@),
                r@.len() == sp_pieces_of(pv.take(i as int)).len(),
                forall|j: int|
                    0 <= j < r@.len() ==> cmd_matches(
                        #[trigger] r@[j],
                        sp_pieces_of(pv.take(i as int))[j].0,
                        sp_pieces_of(pv.take(i as int))[j].1,
                    ),
            decreases pieces@.len() - i,
        {
            let p = &pieces[i];
            proof {
                assert(pv.take(i as int + 1).drop_last() =~= pv.take(i as int));
                assert(pv.take(i as int + 1).last() == pv[i as int]);
                assert(pv[i as int] == pieces@[i as int]@);
            }
            if p.len() > 0 {
                proof {
                    lemma_find_char(p@, '(');
                }
                let mut ix: usize = 0;
                while ix < p.len() && p[ix] != '('
                    invariant
                        ix <= p@.len(),
                        forall|j: int| 0 <= j < ix ==> p@[j] != '(',
                    decreases p@.len() - ix,
                {
                    ix = ix + 1;
                }
                proof {
                    if ix == p@.len() {
                        match sp_find_char(p@, '(') {
                            Some(q) => {
                                assert(p@[q as int] == '(');
                                assert(false);
                            },
                            None => {},
                        }
                    } else {
                        assert(sp_find_char(p@, '(') == Some(ix as nat)) by {
                            match sp_find_char(p@, '(') {
                                Some(q) => {
                                    if q < ix {
                                        assert(p@[q as int] == '(');
                                    }
                                    if q > ix {
                                        assert(p@[ix as int] != '(');
                                    }
                                },
                                None => {
                                    assert(p@[ix as int] != '(');
                                },
                            }
                        }
                    }
                    assert(sp_paren_ix(p@) == ix as int);
                }
                let name_part = sub_chars(p, 0, ix);
                let name_trimmed = trim_chars(&name_part);
                let params_part = sub_chars(p, ix, p.len());
                let params_trimmed = trim_parens_chars(&params_part);
                let c = Command::new(
                    chars_to_string(&name_trimmed),
                    chars_to_string(&params_trimmed),
                );
                r.push(c);
            }
            i = i + 1;
        }
        proof {
            assert(pv.take(pieces@.len() as int) =~= pv);
        }
        r
    }
}

} // verus!
