use super::nodes::{ast_of, lemma_views_push, views, Ast, Node, NodeType};
use super::position::Position;
use super::tokens::{Tok, Token, TokenType};
use super::lexer::token_views;
use crate::error::{Error, ErrorView};
use vstd::prelude::*;

verus! {

/// A parsed tree and the index of the first token after it, or an error.
pub type Parsed = Result<(Ast, int), ErrorView>;

/// Parsed trees and the index of the first token after them, or an error.
pub type ParsedList = Result<(Seq<Ast>, int), ErrorView>;

pub open spec fn tok_at(ts: Seq<Tok>, i: int) -> Option<Tok> {
    if 0 <= i < ts.len() {
        Some(ts[i])
    } else {
        None
    }
}

/// Whether the token at `i` is the payload-free category `t`.
pub open spec fn plain_at(ts: Seq<Tok>, i: int, t: TokenType) -> bool {
    tok_at(ts, i) == Some(Tok::Plain(t))
}

/// The error for a missing `t` at `i`.
pub open spec fn expected(ts: Seq<Tok>, i: int, t: TokenType) -> ErrorView {
    ErrorView::ExpectedToken(Tok::Plain(t), tok_at(ts, i))
}

/// Whether a sub-parse from `i` ended at `k`, having read at least one token.
pub open spec fn step(i: int, k: int, n: int) -> bool {
    i < k <= n
}

/// The binary operators of each precedence level, lowest first: `or`;
/// `and`; comparisons; `..`; `+ -`; `* / %`.
pub open spec fn level_op(lv: int, t: Tok) -> bool {
    match t {
        Tok::Plain(p) => {
            if lv == 0 {
                p == TokenType::Or
            } else if lv == 1 {
                p == TokenType::And
            } else if lv == 2 {
                p == TokenType::EQ || p == TokenType::NE || p == TokenType::LT || p
                    == TokenType::GT || p == TokenType::LE || p == TokenType::GE
            } else if lv == 3 {
                p == TokenType::Concat
            } else if lv == 4 {
                p == TokenType::Add || p == TokenType::Sub
            } else if lv == 5 {
                p == TokenType::Mul || p == TokenType::Div || p == TokenType::Mod
            } else {
                false
            }
        },
        _ => false,
    }
}

/// Whether `t` ends a statement sequence: `end`, and with `else_arms` also
/// `elseif` and `else`.
pub open spec fn is_terminator(t: Tok, else_arms: bool) -> bool {
    t == Tok::Plain(TokenType::End) || (else_arms && (t == Tok::Plain(TokenType::Elseif) || t
        == Tok::Plain(TokenType::Else)))
}

/// An atom: a literal, an identifier or a parenthesized expression.
pub open spec fn p_atom(ts: Seq<Tok>, i: int) -> Parsed
    decreases ts.len() - i, 8int,
{
    match tok_at(ts, i) {
        None => Err(ErrorView::UnexpectedEOF),
        Some(Tok::Name(s)) => Ok((Ast::ID(s), i + 1)),
        Some(Tok::Num(n)) => Ok((Ast::Number(n), i + 1)),
        Some(Tok::Text(s)) => Ok((Ast::Str(s), i + 1)),
        Some(Tok::Plain(TokenType::Boolean(b))) => Ok((Ast::Boolean(b), i + 1)),
        Some(Tok::Plain(TokenType::Nil)) => Ok((Ast::Nil, i + 1)),
        Some(Tok::Plain(TokenType::EvalIn)) => if i + 1 <= ts.len() {
            match p_expr(ts, i + 1) {
                Err(x) => Err(x),
                Ok((e, k)) => if plain_at(ts, k, TokenType::EvalOut) {
                    Ok((Ast::Expr(Box::new(e)), k + 1))
                } else {
                    Err(expected(ts, k, TokenType::EvalOut))
                },
            }
        } else {
            Err(ErrorView::UnexpectedEOF)
        },
        Some(t) => Err(ErrorView::UnexpectedToken(t)),
    }
}

/// Field accesses following `left`, whose text ends before `k`.
pub open spec fn p_field_rest(ts: Seq<Tok>, k: int, left: Ast) -> Parsed
    decreases ts.len() - k, 9int,
{
    if plain_at(ts, k, TokenType::Field) {
        match p_atom(ts, k + 1) {
            Err(x) => Err(x),
            Ok((r, k2)) => if step(k, k2, ts.len() as int) {
                p_field_rest(ts, k2, Ast::Field(Box::new(left), Box::new(r)))
            } else {
                Err(ErrorView::UnexpectedEOF)
            },
        }
    } else if plain_at(ts, k, TokenType::IndexIn) {
        match p_expr(ts, k + 1) {
            Err(x) => Err(x),
            Ok((r, k2)) => if !plain_at(ts, k2, TokenType::IndexOut) {
                Err(expected(ts, k2, TokenType::IndexOut))
            } else if step(k, k2, ts.len() as int) {
                p_field_rest(ts, k2 + 1, Ast::Field(Box::new(left), Box::new(r)))
            } else {
                Err(ErrorView::UnexpectedEOF)
            },
        }
    } else {
        Ok((left, k))
    }
}

/// An atom followed by any `.name` or `[expr]` accesses.
pub open spec fn p_field(ts: Seq<Tok>, i: int) -> Parsed
    decreases ts.len() - i, 10int,
{
    match p_atom(ts, i) {
        Err(x) => Err(x),
        Ok((a, k)) => if step(i, k, ts.len() as int) {
            p_field_rest(ts, k, a)
        } else {
            Err(ErrorView::UnexpectedEOF)
        },
    }
}

/// Calls following `left`, whose text ends before `k`.
pub open spec fn p_call_rest(ts: Seq<Tok>, k: int, left: Ast) -> Parsed
    decreases ts.len() - k, 11int,
{
    if plain_at(ts, k, TokenType::EvalIn) {
        if plain_at(ts, k + 1, TokenType::EvalOut) {
            p_call_rest(ts, k + 2, Ast::Call(Box::new(left), Seq::empty()))
        } else {
            match p_args(ts, k + 1) {
                Err(x) => Err(x),
                Ok((args, k2)) => if !plain_at(ts, k2, TokenType::EvalOut) {
                    Err(expected(ts, k2, TokenType::EvalOut))
                } else if step(k, k2, ts.len() as int) {
                    p_call_rest(ts, k2 + 1, Ast::Call(Box::new(left), args))
                } else {
                    Err(ErrorView::UnexpectedEOF)
                },
            }
        }
    } else if plain_at(ts, k, TokenType::Rep) {
        match tok_at(ts, k + 1) {
            None => Err(ErrorView::UnexpectedEOF),
            Some(Tok::Name(id)) => if !plain_at(ts, k + 2, TokenType::EvalIn) {
                Err(expected(ts, k + 2, TokenType::EvalIn))
            } else if plain_at(ts, k + 3, TokenType::EvalOut) {
                p_call_rest(ts, k + 4, Ast::SelfCall(Box::new(left), id, Seq::empty()))
            } else {
                match p_args(ts, k + 3) {
                    Err(x) => Err(x),
                    Ok((args, k2)) => if !plain_at(ts, k2, TokenType::EvalOut) {
                        Err(expected(ts, k2, TokenType::EvalOut))
                    } else if step(k, k2, ts.len() as int) {
                        p_call_rest(ts, k2 + 1, Ast::SelfCall(Box::new(left), id, args))
                    } else {
                        Err(ErrorView::UnexpectedEOF)
                    },
                }
            },
            Some(t) => Err(ErrorView::UnexpectedToken(t)),
        }
    } else if plain_at(ts, k, TokenType::TableIn) || tok_at(ts, k) matches Some(Tok::Text(_)) {
        match p_atom(ts, k) {
            Err(x) => Err(x),
            Ok((a, k2)) => if step(k, k2, ts.len() as int) {
                p_call_rest(ts, k2, Ast::Call(Box::new(left), seq![a]))
            } else {
                Err(ErrorView::UnexpectedEOF)
            },
        }
    } else {
        Ok((left, k))
    }
}

/// A field expression followed by any calls: `(args)`, `:name(args)`, or a
/// single string or table argument.
pub open spec fn p_call(ts: Seq<Tok>, i: int) -> Parsed
    decreases ts.len() - i, 12int,
{
    match p_field(ts, i) {
        Err(x) => Err(x),
        Ok((a, k)) => if step(i, k, ts.len() as int) {
            p_call_rest(ts, k, a)
        } else {
            Err(ErrorView::UnexpectedEOF)
        },
    }
}

/// `^` operations following `left`.
pub open spec fn p_power_rest(ts: Seq<Tok>, k: int, left: Ast) -> Parsed
    decreases ts.len() - k, 13int,
{
    if plain_at(ts, k, TokenType::Pow) {
        match p_call(ts, k + 1) {
            Err(x) => Err(x),
            Ok((r, k2)) => if step(k, k2, ts.len() as int) {
                p_power_rest(
                    ts,
                    k2,
                    Ast::Binary(Box::new(left), Tok::Plain(TokenType::Pow), Box::new(r)),
                )
            } else {
                Err(ErrorView::UnexpectedEOF)
            },
        }
    } else {
        Ok((left, k))
    }
}

/// Call expressions joined by `^`, grouped to the left.
pub open spec fn p_power(ts: Seq<Tok>, i: int) -> Parsed
    decreases ts.len() - i, 14int,
{
    match p_call(ts, i) {
        Err(x) => Err(x),
        Ok((a, k)) => if step(i, k, ts.len() as int) {
            p_power_rest(ts, k, a)
        } else {
            Err(ErrorView::UnexpectedEOF)
        },
    }
}

/// Any number of prefix `not` and `-` before a power expression.
pub open spec fn p_factor(ts: Seq<Tok>, i: int) -> Parsed
    decreases ts.len() - i, 16int,
{
    match tok_at(ts, i) {
        None => Err(ErrorView::UnexpectedEOF),
        Some(t) => if t == Tok::Plain(TokenType::Not) || t == Tok::Plain(TokenType::Sub) {
            match p_factor(ts, i + 1) {
                Err(x) => Err(x),
                Ok((n, k)) => Ok((Ast::Unary(t, Box::new(n)), k)),
            }
        } else {
            p_power(ts, i)
        },
    }
}

/// An operand of level `lv`: the next level up, or a factor above the last.
pub open spec fn p_operand(ts: Seq<Tok>, i: int, lv: int) -> Parsed
    decreases ts.len() - i, 27 - 2 * lv,
{
    if 0 <= lv < 5 {
        p_level(ts, i, lv + 1)
    } else if lv == 5 {
        p_factor(ts, i)
    } else {
        Err(ErrorView::UnexpectedEOF)
    }
}

/// Operators of level `lv` and their right operands following `left`.
pub open spec fn p_level_rest(ts: Seq<Tok>, k: int, lv: int, left: Ast) -> Parsed
    decreases ts.len() - k, 27 - 2 * lv,
{
    if 0 <= lv <= 5 && tok_at(ts, k) is Some && level_op(lv, ts[k]) {
        match p_operand(ts, k + 1, lv) {
            Err(x) => Err(x),
            Ok((r, k2)) => if step(k, k2, ts.len() as int) {
                p_level_rest(ts, k2, lv, Ast::Binary(Box::new(left), ts[k], Box::new(r)))
            } else {
                Err(ErrorView::UnexpectedEOF)
            },
        }
    } else {
        Ok((left, k))
    }
}

/// Operands of level `lv` joined by its operators, grouped to the left.
pub open spec fn p_level(ts: Seq<Tok>, i: int, lv: int) -> Parsed
    decreases ts.len() - i, 28 - 2 * lv,
{
    if 0 <= lv <= 5 {
        match p_operand(ts, i, lv) {
            Err(x) => Err(x),
            Ok((a, k)) => if step(i, k, ts.len() as int) {
                p_level_rest(ts, k, lv, a)
            } else {
                Err(ErrorView::UnexpectedEOF)
            },
        }
    } else {
        Err(ErrorView::UnexpectedEOF)
    }
}

/// A full expression.
pub open spec fn p_expr(ts: Seq<Tok>, i: int) -> Parsed
    decreases ts.len() - i, 30int,
{
    p_level(ts, i, 0)
}

/// Further `, expr` items after the items `acc`.
pub open spec fn p_list_rest(ts: Seq<Tok>, k: int, acc: Seq<Ast>) -> ParsedList
    decreases ts.len() - k, 32int,
{
    if plain_at(ts, k, TokenType::Sep) {
        match p_expr(ts, k + 1) {
            Err(x) => Err(x),
            Ok((e, k2)) => if step(k, k2, ts.len() as int) {
                p_list_rest(ts, k2, acc.push(e))
            } else {
                Err(ErrorView::UnexpectedEOF)
            },
        }
    } else {
        Ok((acc, k))
    }
}

/// One or more expressions separated by commas.
pub open spec fn p_args(ts: Seq<Tok>, i: int) -> ParsedList
    decreases ts.len() - i, 33int,
{
    match p_expr(ts, i) {
        Err(x) => Err(x),
        Ok((e, k)) => if step(i, k, ts.len() as int) {
            p_list_rest(ts, k, seq![e])
        } else {
            Err(ErrorView::UnexpectedEOF)
        },
    }
}

/// The `elseif` and `else` arms of an `if` after the arms read so far; the
/// token at `k` ends the last body.
#[verifier::opaque]
pub open spec fn p_if_rest(ts: Seq<Tok>, k: int, conds: Seq<Ast>, cases: Seq<Ast>) -> Parsed
    decreases ts.len() - k, 39int,
{
    if plain_at(ts, k, TokenType::Elseif) {
        match p_expr(ts, k + 1) {
            Err(x) => Err(x),
            Ok((c, k1)) => if !plain_at(ts, k1, TokenType::Then) {
                Err(expected(ts, k1, TokenType::Then))
            } else if !step(k, k1, ts.len() as int) {
                Err(ErrorView::UnexpectedEOF)
            } else {
                match p_body_rest(ts, k1 + 1, Seq::empty(), true) {
                    Err(x) => Err(x),
                    Ok((b, k2)) => if step(k, k2, ts.len() as int) {
                        p_if_rest(ts, k2, conds.push(c), cases.push(Ast::Body(b)))
                    } else {
                        Err(ErrorView::UnexpectedEOF)
                    },
                }
            },
        }
    } else if plain_at(ts, k, TokenType::Else) {
        match p_body_rest(ts, k + 1, Seq::empty(), false) {
            Err(x) => Err(x),
            Ok((b, k2)) => Ok((Ast::If(conds, cases, Some(Box::new(Ast::Body(b)))), k2 + 1)),
        }
    } else {
        Ok((Ast::If(conds, cases, None), k + 1))
    }
}

/// A `local` declaration whose keyword stands at `i`.
#[verifier::opaque]
pub open spec fn p_local(ts: Seq<Tok>, i: int) -> Parsed {
    let n = ts.len() as int;
    match p_expr(ts, i + 1) {
        Err(x) => Err(x),
        Ok((var, k)) => if !step(i, k, n) {
            Err(ErrorView::UnexpectedEOF)
        } else if plain_at(ts, k, TokenType::Sep) {
            match p_list_rest(ts, k, seq![var]) {
                Err(x) => Err(x),
                Ok((vars, k2)) => if !plain_at(ts, k2, TokenType::Assign) {
                    Err(expected(ts, k2, TokenType::Assign))
                } else {
                    match p_args(ts, k2 + 1) {
                        Err(x) => Err(x),
                        Ok((es, k3)) => Ok((Ast::LocalAssignVars(vars, es), k3)),
                    }
                },
            }
        } else if !plain_at(ts, k, TokenType::Assign) {
            Err(expected(ts, k, TokenType::Assign))
        } else {
            match p_expr(ts, k + 1) {
                Err(x) => Err(x),
                Ok((e, k3)) => Ok((Ast::LocalAssign(Box::new(var), Box::new(e)), k3)),
            }
        },
    }
}

/// A `while` loop whose keyword stands at `i`.
#[verifier::opaque]
pub open spec fn p_while(ts: Seq<Tok>, i: int) -> Parsed
    decreases ts.len() - i, 39int,
{
    match p_expr(ts, i + 1) {
        Err(x) => Err(x),
        Ok((c, k)) => if !plain_at(ts, k, TokenType::Do) {
            Err(expected(ts, k, TokenType::Do))
        } else if !step(i, k, ts.len() as int) {
            Err(ErrorView::UnexpectedEOF)
        } else {
            match p_body_rest(ts, k + 1, Seq::empty(), false) {
                Err(x) => Err(x),
                Ok((b, k2)) => Ok((Ast::While(Box::new(c), Box::new(Ast::Body(b))), k2 + 1)),
            }
        },
    }
}

/// An `if` statement whose keyword stands at `i`.
#[verifier::opaque]
pub open spec fn p_if(ts: Seq<Tok>, i: int) -> Parsed
    decreases ts.len() - i, 39int,
{
    match p_expr(ts, i + 1) {
        Err(x) => Err(x),
        Ok((c, k)) => if !plain_at(ts, k, TokenType::Then) {
            Err(expected(ts, k, TokenType::Then))
        } else if !step(i, k, ts.len() as int) {
            Err(ErrorView::UnexpectedEOF)
        } else {
            match p_body_rest(ts, k + 1, Seq::empty(), true) {
                Err(x) => Err(x),
                Ok((b, k2)) => if step(i, k2, ts.len() as int) {
                    p_if_rest(ts, k2, seq![c], seq![Ast::Body(b)])
                } else {
                    Err(ErrorView::UnexpectedEOF)
                },
            }
        },
    }
}

/// A `do` block whose keyword stands at `i`.
#[verifier::opaque]
pub open spec fn p_do(ts: Seq<Tok>, i: int) -> Parsed
    decreases ts.len() - i, 39int,
{
    if i + 1 <= ts.len() {
        match p_body_rest(ts, i + 1, Seq::empty(), false) {
            Err(x) => Err(x),
            Ok((b, k)) => Ok((Ast::DoBlock(b), k + 1)),
        }
    } else {
        Err(ErrorView::UnexpectedEOF)
    }
}

/// A statement that begins with an expression: an assignment to one or
/// more names, or a call.
#[verifier::opaque]
pub open spec fn p_expr_stat(ts: Seq<Tok>, i: int) -> Parsed {
    match p_expr(ts, i) {
        Err(x) => Err(x),
        Ok((e, k)) => if e is ID && plain_at(ts, k, TokenType::Assign) {
            match p_expr(ts, k + 1) {
                Err(x) => Err(x),
                Ok((v, k2)) => Ok((Ast::Assign(Box::new(e), Box::new(v)), k2)),
            }
        } else if e is ID && plain_at(ts, k, TokenType::Sep) {
            match p_list_rest(ts, k, seq![e]) {
                Err(x) => Err(x),
                Ok((vars, k2)) => if !plain_at(ts, k2, TokenType::Assign) {
                    Err(expected(ts, k2, TokenType::Assign))
                } else {
                    match p_args(ts, k2 + 1) {
                        Err(x) => Err(x),
                        Ok((es, k3)) => Ok((Ast::AssignVars(vars, es), k3)),
                    }
                },
            }
        } else if e is Call || e is SelfCall {
            Ok((e, k))
        } else {
            Err(ErrorView::UnexpectedNode(e))
        },
    }
}

/// A statement.
pub open spec fn p_stat(ts: Seq<Tok>, i: int) -> Parsed
    decreases ts.len() - i, 40int,
{
    match tok_at(ts, i) {
        None => Err(ErrorView::UnexpectedEOF),
        Some(Tok::Plain(TokenType::Local)) => p_local(ts, i),
        Some(Tok::Plain(TokenType::Return)) => match p_expr(ts, i + 1) {
            Err(x) => Err(x),
            Ok((e, k)) => Ok((Ast::Return(Box::new(e)), k)),
        },
        Some(Tok::Plain(TokenType::Break)) => Ok((Ast::Break, i + 1)),
        Some(Tok::Plain(TokenType::Do)) => p_do(ts, i),
        Some(Tok::Plain(TokenType::While)) => p_while(ts, i),
        Some(Tok::Plain(TokenType::If)) => p_if(ts, i),
        Some(_) => p_expr_stat(ts, i),
    }
}

/// Statements after `acc` up to a terminator, which is not consumed.
#[verifier::opaque]
pub open spec fn p_body_rest(ts: Seq<Tok>, i: int, acc: Seq<Ast>, else_arms: bool) -> ParsedList
    decreases ts.len() - i, 41int,
{
    match tok_at(ts, i) {
        None => Err(ErrorView::UnexpectedEOF),
        Some(t) => if is_terminator(t, else_arms) {
            Ok((acc, i))
        } else {
            match p_stat(ts, i) {
                Err(x) => Err(x),
                Ok((s, k)) => if step(i, k, ts.len() as int) {
                    p_body_rest(ts, k, acc.push(s), else_arms)
                } else {
                    Err(ErrorView::UnexpectedEOF)
                },
            }
        },
    }
}

/// Statements after `acc` up to the end of input.
pub open spec fn p_chunk_rest(ts: Seq<Tok>, i: int, acc: Seq<Ast>) -> Result<Seq<Ast>, ErrorView>
    decreases ts.len() - i, 42int,
{
    if i < 0 || i >= ts.len() {
        Ok(acc)
    } else {
        match p_stat(ts, i) {
            Err(x) => Err(x),
            Ok((s, k)) => if step(i, k, ts.len() as int) {
                p_chunk_rest(ts, k, acc.push(s))
            } else {
                Err(ErrorView::UnexpectedEOF)
            },
        }
    }
}

/// The tree of a whole token sequence: a chunk of its statements.
pub open spec fn parse_tokens(ts: Seq<Tok>) -> Result<Ast, ErrorView> {
    match p_chunk_rest(ts, 0, Seq::empty()) {
        Ok(stmts) => Ok(Ast::Chunk(stmts)),
        Err(x) => Err(x),
    }
}

} // verus!

verus! {

pub open spec fn starts_at(p: Position, q: Position) -> bool {
    p.ln_start == q.ln_start && p.col_start == q.col_start
}

pub open spec fn ends_at(p: Position, q: Position) -> bool {
    p.ln_end == q.ln_end && p.col_end == q.col_end
}

/// Every operation along the left spine of `n` spans from its left
/// operand's start to its right operand's end.
pub open spec fn spine_spans(n: Node) -> bool
    decreases n,
{
    match n.node {
        NodeType::Binary { left, right, .. } => ends_at(n.pos, right.pos) && starts_at(left.pos, n.pos)
            && spine_spans(*left),
        _ => true,
    }
}

proof fn lemma_spine_step(l: Node, n: Node, first: Position)
    requires
        n.node is Binary,
        *n.node->Binary_left == l,
        ends_at(n.pos, n.node->Binary_right.pos),
        starts_at(n.pos, first),
        starts_at(l.pos, first),
        l.node is Binary ==> spine_spans(l),
    ensures
        spine_spans(n),
{
    if !(l.node is Binary) {
        assert(spine_spans(l));
    }
}

/// Where the span of an expression node read from token `i` up to token `k`
/// lies, given the tokens' spans `sp`: it starts at token `i`; a literal
/// takes its token's span; a grouping, a bracket access and a call with
/// parentheses end at their closing token; a unary operation and a `.name`
/// access end where their last part ends; binary operations are spanned as
/// `spine_spans` says.
pub open spec fn expr_span(n: Node, ts: Seq<Tok>, sp: Seq<Position>, i: int, k: int) -> bool {
    &&& starts_at(n.pos, sp[i])
    &&& match n.node {
        NodeType::ID(_) => n.pos == sp[i] && k == i + 1,
        NodeType::Number(_) => n.pos == sp[i] && k == i + 1,
        NodeType::Boolean(_) => n.pos == sp[i] && k == i + 1,
        NodeType::String(_) => n.pos == sp[i] && k == i + 1,
        NodeType::Nil => n.pos == sp[i] && k == i + 1,
        NodeType::Expr(_) => ends_at(n.pos, sp[k - 1]),
        NodeType::Binary { .. } => spine_spans(n),
        NodeType::Unary { node, .. } => ends_at(n.pos, node.pos),
        NodeType::Field { right, .. } => if ts[k - 1] == Tok::Plain(TokenType::IndexOut) {
            ends_at(n.pos, sp[k - 1])
        } else {
            ends_at(n.pos, right.pos)
        },
        NodeType::Call { .. } => ts[k - 1] == Tok::Plain(TokenType::EvalOut) ==> ends_at(n.pos, sp[k - 1]),
        NodeType::SelfCall { .. } => ts[k - 1] == Tok::Plain(TokenType::EvalOut) ==> ends_at(
            n.pos,
            sp[k - 1],
        ),
        _ => true,
    }
}

/// Where the span of a statement read from token `i` up to token `k` lies:
/// it starts at token `i`; an assignment to existing names and `break` keep
/// that token's span; `local` and `return` end where their last value ends;
/// `do`, `while` and `if` end at their `end`; a call keeps its own span.
pub open spec fn stat_span(n: Node, ts: Seq<Tok>, sp: Seq<Position>, i: int, k: int) -> bool {
    &&& starts_at(n.pos, sp[i])
    &&& match n.node {
        NodeType::LocalAssign(_, e) => ends_at(n.pos, e.pos),
        NodeType::LocalAssignVars(_, es) => es@.len() > 0 && ends_at(n.pos, es@.last().pos),
        NodeType::Return(e) => ends_at(n.pos, e.pos),
        NodeType::Assign(..) => n.pos == sp[i],
        NodeType::AssignVars(..) => n.pos == sp[i],
        NodeType::Break => n.pos == sp[i],
        NodeType::DoBlock(_) => ends_at(n.pos, sp[k - 1]),
        NodeType::While { .. } => ends_at(n.pos, sp[k - 1]),
        NodeType::If { .. } => ends_at(n.pos, sp[k - 1]),
        NodeType::Call { .. } => ts[k - 1] == Tok::Plain(TokenType::EvalOut) ==> ends_at(n.pos, sp[k - 1]),
        NodeType::SelfCall { .. } => ts[k - 1] == Tok::Plain(TokenType::EvalOut) ==> ends_at(
            n.pos,
            sp[k - 1],
        ),
        _ => true,
    }
}

/// Whether `r` is what `p` describes, the cursor ending at `k`.
pub open spec fn outcome(r: Result<Node, Error>, p: Parsed, k: int) -> bool {
    match p {
        Ok((a, j)) => r matches Ok(n) && n@ == a && k == j,
        Err(x) => r matches Err(e) && e@ == x,
    }
}

/// Whether `r` is what `p` describes, the cursor ending at `k`.
pub open spec fn outcome_list(r: Result<Vec<Node>, Error>, p: ParsedList, k: int) -> bool {
    match p {
        Ok((a, j)) => r matches Ok(v) && views(v@) == a && k == j,
        Err(x) => r matches Err(e) && e@ == x,
    }
}

/// A cursor over a token sequence that builds a syntax tree from it.
pub struct Parser {
    path: String,
    tokens: Vec<Token>,
    idx: usize,
}

impl Parser {
    pub closed spec fn toks(&self) -> Seq<Tok> {
        token_views(self.tokens@)
    }

    pub closed spec fn index(&self) -> int {
        self.idx as int
    }

    pub closed spec fn wf(&self) -> bool {
        self.idx <= self.tokens@.len()
    }

    /// The source span of each token.
    pub closed spec fn spans(&self) -> Seq<Position> {
        self.tokens@.map_values(|t: Token| t.pos)
    }

    /// What every parsing step keeps: the tokens, and a cursor within them.
    pub open spec fn kept(&self, before: Parser) -> bool {
        &&& self.wf()
        &&& self.toks() == before.toks()
        &&& self.spans() == before.spans()
        &&& self.index() <= self.toks().len()
    }

    pub fn new(path: &String, tokens: Vec<Token>) -> (r: Self)
        ensures
            r.wf(),
            r.toks() == token_views(tokens@),
            r.index() == 0,
    {
        Parser { path: path.clone(), tokens, idx: 0 }
    }

    /// The token under the cursor.
    pub fn get(&self) -> (r: Option<&TokenType>)
        ensures
            r is Some == (0 <= self.index() < self.toks().len()),
            r matches Some(t) ==> t@ == self.toks()[self.index()],
    {
        if self.idx < self.tokens.len() {
            Some(&self.tokens[self.idx].token)
        } else {
            None
        }
    }

    pub fn get_clone(&self) -> (r: Option<TokenType>)
        ensures
            r is Some == (0 <= self.index() < self.toks().len()),
            r matches Some(t) ==> t@ == self.toks()[self.index()],
    {
        if self.idx < self.tokens.len() {
            Some(self.tokens[self.idx].token.cloned())
        } else {
            None
        }
    }

    /// The span of the token under the cursor.
    pub fn pos(&self) -> (r: Option<&Position>)
        ensures
            r is Some == (0 <= self.index() < self.toks().len()),
            r matches Some(p) ==> *p == self.spans()[self.index()],
    {
        if self.idx < self.tokens.len() {
            Some(&self.tokens[self.idx].pos)
        } else {
            None
        }
    }

    pub fn pos_clone(&self) -> (r: Option<Position>)
        ensures
            r is Some == (0 <= self.index() < self.toks().len()),
            r matches Some(p) ==> p == self.spans()[self.index()],
    {
        if self.idx < self.tokens.len() {
            Some(self.tokens[self.idx].pos)
        } else {
            None
        }
    }

    /// Moves past the token under the cursor, if there is one.
    pub fn advance(&mut self)
        requires
            old(self).wf(),
        ensures
            final(self).kept(*old(self)),
            final(self).index() == if old(self).index() < old(self).toks().len() {
                old(self).index() + 1
            } else {
                old(self).index()
            },
    {
        if self.idx < self.tokens.len() {
            self.idx += 1;
        }
    }

    /// Steps back one token, if not at the start.
    pub fn reverse(&mut self)
        requires
            old(self).wf(),
        ensures
            final(self).kept(*old(self)),
            final(self).index() == if old(self).index() > 0 {
                old(self).index() - 1
            } else {
                0
            },
    {
        if self.idx > 0 {
            self.idx -= 1;
        }
    }

    fn peek_is(&self, t: &TokenType) -> (r: bool)
        requires
            t@ is Plain,
        ensures
            r == plain_at(self.toks(), self.index(), *t),
    {
        if self.idx < self.tokens.len() {
            self.tokens[self.idx].token.is(t)
        } else {
            false
        }
    }

    /// Fails unless the token under the cursor is `token`.
    pub fn expect_token(&self, token: TokenType) -> (r: Result<(), Error>)
        ensures
            r is Ok == (tok_at(self.toks(), self.index()) == Some(token@)),
            r matches Err(e) ==> e@ == ErrorView::ExpectedToken(token@, tok_at(self.toks(), self.index())),
    {
        if self.idx < self.tokens.len() && self.tokens[self.idx].token.is(&token) {
            Ok(())
        } else {
            let got = self.get_clone();
            Err(Error::ExpectedToken(token, got))
        }
    }

    /// The span of the token under the cursor, which must exist.
    fn here(&self) -> (r: Position)
        requires
            0 <= self.index() < self.toks().len(),
        ensures
            r == self.spans()[self.index()],
    {
        self.tokens[self.idx].pos
    }

    /// Whether the token under the cursor is an operator of level `lv`.
    fn level_op_here(&self, lv: u8) -> (r: bool)
        ensures
            r == (0 <= self.index() < self.toks().len() && level_op(
                lv as int,
                self.toks()[self.index()],
            )),
    {
        if self.idx >= self.tokens.len() {
            return false;
        }
        let t = &self.tokens[self.idx].token;
        if lv == 0 {
            matches!(t, TokenType::Or)
        } else if lv == 1 {
            matches!(t, TokenType::And)
        } else if lv == 2 {
            matches!(t, TokenType::EQ | TokenType::NE | TokenType::LT | TokenType::GT | TokenType::LE | TokenType::GE)
        } else if lv == 3 {
            matches!(t, TokenType::Concat)
        } else if lv == 4 {
            matches!(t, TokenType::Add | TokenType::Sub)
        } else if lv == 5 {
            matches!(t, TokenType::Mul | TokenType::Div | TokenType::Mod)
        } else {
            false
        }
    }

    pub fn atom(&mut self) -> (r: Result<Node, Error>)
        requires
            old(self).wf(),
        ensures
            final(self).kept(*old(self)),
            outcome(r, p_atom(old(self).toks(), old(self).index()), final(self).index()),
            r is Ok ==> old(self).index() < final(self).index(),
            r matches Ok(n) ==> expr_span(n, old(self).toks(), old(self).spans(), old(self).index(), final(self).index()),
            r is Ok ==> old(self).toks()[final(self).index() - 1] != Tok::Plain(TokenType::IndexOut),
        decreases self.toks().len() - self.index(), 8int,
    {
        let ghost ts = self.toks();
        let token = match self.get_clone() {
            Some(t) => t,
            None => return Err(Error::UnexpectedEOF),
        };
        let mut pos = self.here();
        self.advance();
        match token {
            TokenType::ID(id) => Ok(Node { node: NodeType::ID(id), pos }),
            TokenType::Number(v) => Ok(Node { node: NodeType::Number(v), pos }),
            TokenType::Boolean(v) => Ok(Node { node: NodeType::Boolean(v), pos }),
            TokenType::String(v) => Ok(Node { node: NodeType::String(v), pos }),
            TokenType::Nil => Ok(Node { node: NodeType::Nil, pos }),
            TokenType::EvalIn => {
                let node = match self.expr() {
                    Ok(n) => n,
                    Err(e) => return Err(e),
                };
                match self.expect_token(TokenType::EvalOut) {
                    Ok(()) => {},
                    Err(e) => return Err(e),
                }
                pos.extend(&self.here());
                self.advance();
                Ok(Node { node: NodeType::Expr(Box::new(node)), pos })
            },
            _ => Err(Error::UnexpectedToken(token)),
        }
    }

    pub fn expr(&mut self) -> (r: Result<Node, Error>)
        requires
            old(self).wf(),
        ensures
            final(self).kept(*old(self)),
            outcome(r, p_expr(old(self).toks(), old(self).index()), final(self).index()),
            r is Ok ==> old(self).index() < final(self).index(),
            r matches Ok(n) ==> expr_span(n, old(self).toks(), old(self).spans(), old(self).index(), final(self).index()),
        decreases self.toks().len() - self.index(), 30int,
    {
        self.or()
    }

    pub fn or(&mut self) -> (r: Result<Node, Error>)
        requires
            old(self).wf(),
        ensures
            final(self).kept(*old(self)),
            outcome(r, p_level(old(self).toks(), old(self).index(), 0), final(self).index()),
            r is Ok ==> old(self).index() < final(self).index(),
            r matches Ok(n) ==> expr_span(n, old(self).toks(), old(self).spans(), old(self).index(), final(self).index()),
        decreases self.toks().len() - self.index(), 29int,
    {
        self.binary(0)
    }

    pub fn and(&mut self) -> (r: Result<Node, Error>)
        requires
            old(self).wf(),
        ensures
            final(self).kept(*old(self)),
            outcome(r, p_level(old(self).toks(), old(self).index(), 1), final(self).index()),
            r is Ok ==> old(self).index() < final(self).index(),
            r matches Ok(n) ==> expr_span(n, old(self).toks(), old(self).spans(), old(self).index(), final(self).index()),
    {
        self.binary(1)
    }

    pub fn comp(&mut self) -> (r: Result<Node, Error>)
        requires
            old(self).wf(),
        ensures
            final(self).kept(*old(self)),
            outcome(r, p_level(old(self).toks(), old(self).index(), 2), final(self).index()),
            r is Ok ==> old(self).index() < final(self).index(),
            r matches Ok(n) ==> expr_span(n, old(self).toks(), old(self).spans(), old(self).index(), final(self).index()),
    {
        self.binary(2)
    }

    pub fn concat(&mut self) -> (r: Result<Node, Error>)
        requires
            old(self).wf(),
        ensures
            final(self).kept(*old(self)),
            outcome(r, p_level(old(self).toks(), old(self).index(), 3), final(self).index()),
            r is Ok ==> old(self).index() < final(self).index(),
            r matches Ok(n) ==> expr_span(n, old(self).toks(), old(self).spans(), old(self).index(), final(self).index()),
    {
        self.binary(3)
    }

    pub fn arith(&mut self) -> (r: Result<Node, Error>)
        requires
            old(self).wf(),
        ensures
            final(self).kept(*old(self)),
            outcome(r, p_level(old(self).toks(), old(self).index(), 4), final(self).index()),
            r is Ok ==> old(self).index() < final(self).index(),
            r matches Ok(n) ==> expr_span(n, old(self).toks(), old(self).spans(), old(self).index(), final(self).index()),
    {
        self.binary(4)
    }

    pub fn term(&mut self) -> (r: Result<Node, Error>)
        requires
            old(self).wf(),
        ensures
            final(self).kept(*old(self)),
            outcome(r, p_level(old(self).toks(), old(self).index(), 5), final(self).index()),
            r is Ok ==> old(self).index() < final(self).index(),
            r matches Ok(n) ==> expr_span(n, old(self).toks(), old(self).spans(), old(self).index(), final(self).index()),
    {
        self.binary(5)
    }

    /// Operands of level `lv` joined by its operators, grouped to the left.
    fn binary(&mut self, lv: u8) -> (r: Result<Node, Error>)
        requires
            old(self).wf(),
            lv <= 5,
        ensures
            final(self).kept(*old(self)),
            outcome(r, p_level(old(self).toks(), old(self).index(), lv as int), final(self).index()),
            r is Ok ==> old(self).index() < final(self).index(),
            r matches Ok(n) ==> expr_span(n, old(self).toks(), old(self).spans(), old(self).index(), final(self).index()),
        decreases self.toks().len() - self.index(), 28 - 2 * lv,
    {
        let ghost ts = self.toks();
        let ghost i0 = self.index();
        let start = self.idx;
        let mut left = match self.operand(lv) {
            Ok(n) => n,
            Err(e) => return Err(e),
        };
        let mut pos = self.tokens[start].pos;
        let ghost sp = self.spans();
        while self.level_op_here(lv)
            invariant
                sp == old(self).spans(),
                starts_at(pos, sp[i0]),
                expr_span(left, ts, sp, i0, self.index()),
                self.kept(*old(self)),
                ts == old(self).toks(),
                i0 == old(self).index(),
                lv <= 5,
                i0 < self.index(),
                p_level(ts, i0, lv as int) == p_level_rest(ts, self.index(), lv as int, left@),
            decreases ts.len() - self.index(),
        {
            let op = self.tokens[self.idx].token.cloned();
            self.advance();
            let right = match self.operand(lv) {
                Ok(n) => n,
                Err(e) => return Err(e),
            };
            pos.extend(&right.pos);
            let ghost l0 = left;
            left = Node {
                node: NodeType::Binary { left: Box::new(left), op, right: Box::new(right) },
                pos,
            };
            proof {
                lemma_spine_step(l0, left, sp[i0]);
            }
        }
        Ok(left)
    }

    fn operand(&mut self, lv: u8) -> (r: Result<Node, Error>)
        requires
            old(self).wf(),
            lv <= 5,
        ensures
            final(self).kept(*old(self)),
            outcome(r, p_operand(old(self).toks(), old(self).index(), lv as int), final(self).index()),
            r is Ok ==> old(self).index() < final(self).index(),
            r matches Ok(n) ==> expr_span(n, old(self).toks(), old(self).spans(), old(self).index(), final(self).index()),
        decreases self.toks().len() - self.index(), 27 - 2 * lv,
    {
        if lv < 5 {
            self.binary(lv + 1)
        } else {
            self.factor()
        }
    }

    pub fn factor(&mut self) -> (r: Result<Node, Error>)
        requires
            old(self).wf(),
        ensures
            final(self).kept(*old(self)),
            outcome(r, p_factor(old(self).toks(), old(self).index()), final(self).index()),
            r is Ok ==> old(self).index() < final(self).index(),
            r matches Ok(n) ==> expr_span(n, old(self).toks(), old(self).spans(), old(self).index(), final(self).index()),
        decreases self.toks().len() - self.index(), 16int,
    {
        if self.idx >= self.tokens.len() {
            return Err(Error::UnexpectedEOF);
        }
        let mut pos = self.here();
        if matches!(self.tokens[self.idx].token, TokenType::Not | TokenType::Sub) {
            let op = self.tokens[self.idx].token.cloned();
            self.advance();
            let node = match self.factor() {
                Ok(n) => n,
                Err(e) => return Err(e),
            };
            pos.extend(&node.pos);
            Ok(Node { node: NodeType::Unary { op, node: Box::new(node) }, pos })
        } else {
            self.power()
        }
    }

    pub fn power(&mut self) -> (r: Result<Node, Error>)
        requires
            old(self).wf(),
        ensures
            final(self).kept(*old(self)),
            outcome(r, p_power(old(self).toks(), old(self).index()), final(self).index()),
            r is Ok ==> old(self).index() < final(self).index(),
            r matches Ok(n) ==> expr_span(n, old(self).toks(), old(self).spans(), old(self).index(), final(self).index()),
        decreases self.toks().len() - self.index(), 14int,
    {
        let ghost ts = self.toks();
        let ghost i0 = self.index();
        if self.idx >= self.tokens.len() {
            return Err(Error::UnexpectedEOF);
        }
        let mut pos = self.here();
        let mut left = match self.call() {
            Ok(n) => n,
            Err(e) => return Err(e),
        };
        let ghost sp = self.spans();
        while self.peek_is(&TokenType::Pow)
            invariant
                sp == old(self).spans(),
                starts_at(pos, sp[i0]),
                expr_span(left, ts, sp, i0, self.index()),
                self.kept(*old(self)),
                ts == old(self).toks(),
                i0 == old(self).index(),
                i0 < self.index(),
                p_power(ts, i0) == p_power_rest(ts, self.index(), left@),
            decreases ts.len() - self.index(),
        {
            let op = self.tokens[self.idx].token.cloned();
            self.advance();
            let right = match self.call() {
                Ok(n) => n,
                Err(e) => return Err(e),
            };
            pos.extend(&right.pos);
            let ghost l0 = left;
            left = Node {
                node: NodeType::Binary { left: Box::new(left), op, right: Box::new(right) },
                pos,
            };
            proof {
                lemma_spine_step(l0, left, sp[i0]);
            }
        }
        Ok(left)
    }

    #[verifier::rlimit(100)]
    pub fn call(&mut self) -> (r: Result<Node, Error>)
        requires
            old(self).wf(),
        ensures
            final(self).kept(*old(self)),
            outcome(r, p_call(old(self).toks(), old(self).index()), final(self).index()),
            r is Ok ==> old(self).index() < final(self).index(),
            r matches Ok(n) ==> expr_span(n, old(self).toks(), old(self).spans(), old(self).index(), final(self).index()),
        decreases self.toks().len() - self.index(), 12int,
    {
        let ghost ts = self.toks();
        let ghost i0 = self.index();
        if self.idx >= self.tokens.len() {
            return Err(Error::UnexpectedEOF);
        }
        let mut pos = self.here();
        let mut left = match self.field() {
            Ok(n) => n,
            Err(e) => return Err(e),
        };
        let ghost sp = self.spans();
        loop
            invariant
                sp == old(self).spans(),
                starts_at(pos, sp[i0]),
                expr_span(left, ts, sp, i0, self.index()),
                self.kept(*old(self)),
                ts == old(self).toks(),
                i0 == old(self).index(),
                i0 < self.index(),
                p_call(ts, i0) == p_call_rest(ts, self.index(), left@),
            ensures
                expr_span(left, ts, sp, i0, self.index()),
                p_call(ts, i0) == Ok::<(Ast, int), ErrorView>((left@, self.index())),
                self.kept(*old(self)),
                i0 < self.index(),
            decreases ts.len() - self.index(),
        {
            let ghost k = self.index();
            if self.peek_is(&TokenType::EvalIn) {
                self.advance();
                if self.peek_is(&TokenType::EvalOut) {
                    pos.extend(&self.here());
                    self.advance();
                    left = Node { node: NodeType::Call { head: Box::new(left), args: Vec::new() }, pos };
                    proof {
                        assert(views(Seq::<Node>::empty()) =~= Seq::<Ast>::empty());
                    }
                    continue;
                }
                let args = match self.args() {
                    Ok(a) => a,
                    Err(e) => return Err(e),
                };
                match self.expect_token(TokenType::EvalOut) {
                    Ok(()) => {},
                    Err(e) => return Err(e),
                }
                pos.extend(&self.here());
                self.advance();
                left = Node { node: NodeType::Call { head: Box::new(left), args }, pos };
            } else if self.peek_is(&TokenType::Rep) {
                self.advance();
                let name = match self.get_clone() {
                    Some(t) => t,
                    None => return Err(Error::UnexpectedEOF),
                };
                let field = match name {
                    TokenType::ID(id) => id,
                    _ => return Err(Error::UnexpectedToken(name)),
                };
                self.advance();
                match self.expect_token(TokenType::EvalIn) {
                    Ok(()) => {},
                    Err(e) => return Err(e),
                }
                self.advance();
                if self.peek_is(&TokenType::EvalOut) {
                    pos.extend(&self.here());
                    self.advance();
                    left = Node {
                        node: NodeType::SelfCall { head: Box::new(left), field, args: Vec::new() },
                        pos,
                    };
                    proof {
                        assert(views(Seq::<Node>::empty()) =~= Seq::<Ast>::empty());
                    }
                    continue;
                }
                let args = match self.args() {
                    Ok(a) => a,
                    Err(e) => return Err(e),
                };
                match self.expect_token(TokenType::EvalOut) {
                    Ok(()) => {},
                    Err(e) => return Err(e),
                }
                pos.extend(&self.here());
                self.advance();
                left = Node { node: NodeType::SelfCall { head: Box::new(left), field, args }, pos };
            } else if self.peek_is(&TokenType::TableIn) || (self.idx < self.tokens.len()
                && matches!(self.tokens[self.idx].token, TokenType::String(_))) {
                let arg = match self.atom() {
                    Ok(a) => a,
                    Err(e) => return Err(e),
                };
                let mut args: Vec<Node> = Vec::new();
                args.push(arg);
                proof {
                    lemma_views_push(Seq::empty(), args@[0]);
                    assert(Seq::<Node>::empty().push(args@[0]) =~= args@);
                }
                left = Node { node: NodeType::Call { head: Box::new(left), args }, pos };
            } else {
                break;
            }
        }
        Ok(left)
    }

    pub fn field(&mut self) -> (r: Result<Node, Error>)
        requires
            old(self).wf(),
        ensures
            final(self).kept(*old(self)),
            outcome(r, p_field(old(self).toks(), old(self).index()), final(self).index()),
            r is Ok ==> old(self).index() < final(self).index(),
            r matches Ok(n) ==> expr_span(n, old(self).toks(), old(self).spans(), old(self).index(), final(self).index()),
        decreases self.toks().len() - self.index(), 10int,
    {
        let ghost ts = self.toks();
        let ghost i0 = self.index();
        if self.idx >= self.tokens.len() {
            return Err(Error::UnexpectedEOF);
        }
        let mut pos = self.here();
        let mut left = match self.atom() {
            Ok(n) => n,
            Err(e) => return Err(e),
        };
        let ghost sp = self.spans();
        loop
            invariant
                sp == old(self).spans(),
                starts_at(pos, sp[i0]),
                expr_span(left, ts, sp, i0, self.index()),
                self.kept(*old(self)),
                ts == old(self).toks(),
                i0 == old(self).index(),
                i0 < self.index(),
                p_field(ts, i0) == p_field_rest(ts, self.index(), left@),
            ensures
                expr_span(left, ts, sp, i0, self.index()),
                p_field(ts, i0) == Ok::<(Ast, int), ErrorView>((left@, self.index())),
                self.kept(*old(self)),
                i0 < self.index(),
            decreases ts.len() - self.index(),
        {
            if self.peek_is(&TokenType::Field) {
                self.advance();
                let right = match self.atom() {
                    Ok(n) => n,
                    Err(e) => return Err(e),
                };
                pos.extend(&right.pos);
                left = Node { node: NodeType::Field { left: Box::new(left), right: Box::new(right) }, pos };
            } else if self.peek_is(&TokenType::IndexIn) {
                self.advance();
                let right = match self.expr() {
                    Ok(n) => n,
                    Err(e) => return Err(e),
                };
                match self.expect_token(TokenType::IndexOut) {
                    Ok(()) => {},
                    Err(e) => return Err(e),
                }
                pos.extend(&self.here());
                self.advance();
                left = Node { node: NodeType::Field { left: Box::new(left), right: Box::new(right) }, pos };
            } else {
                break;
            }
        }
        Ok(left)
    }

    /// Further `, expr` items after the nodes `acc`.
    fn list_rest(&mut self, acc: Vec<Node>) -> (r: Result<Vec<Node>, Error>)
        requires
            old(self).wf(),
        ensures
            final(self).kept(*old(self)),
            outcome_list(r, p_list_rest(old(self).toks(), old(self).index(), views(acc@)), final(self).index()),
            r is Ok ==> old(self).index() <= final(self).index(),
            r matches Ok(v) ==> v@.len() >= acc@.len(),
        decreases self.toks().len() - self.index(), 32int,
    {
        let ghost ts = self.toks();
        let ghost i0 = self.index();
        let mut items = acc;
        while self.peek_is(&TokenType::Sep)
            invariant
                self.kept(*old(self)),
                ts == old(self).toks(),
                i0 == old(self).index(),
                i0 <= self.index(),
                items@.len() >= acc@.len(),
                p_list_rest(ts, i0, views(acc@)) == p_list_rest(ts, self.index(), views(items@)),
            decreases ts.len() - self.index(),
        {
            self.advance();
            let e = match self.expr() {
                Ok(n) => n,
                Err(e) => return Err(e),
            };
            let ghost before = items@;
            items.push(e);
            proof {
                lemma_views_push(before, e);
            }
        }
        Ok(items)
    }

    /// One or more expressions separated by commas.
    pub fn args(&mut self) -> (r: Result<Vec<Node>, Error>)
        requires
            old(self).wf(),
        ensures
            final(self).kept(*old(self)),
            outcome_list(r, p_args(old(self).toks(), old(self).index()), final(self).index()),
            r is Ok ==> old(self).index() < final(self).index(),
            r matches Ok(v) ==> v@.len() > 0,
        decreases self.toks().len() - self.index(), 33int,
    {
        let e = match self.expr() {
            Ok(n) => n,
            Err(e) => return Err(e),
        };
        let mut acc: Vec<Node> = Vec::new();
        acc.push(e);
        proof {
            lemma_views_single(e);
            assert(acc@ =~= seq![e]);
        }
        self.list_rest(acc)
    }

    fn at_terminator(&self, else_arms: bool) -> (r: bool)
        ensures
            r == (0 <= self.index() < self.toks().len() && is_terminator(
                self.toks()[self.index()],
                else_arms,
            )),
    {
        self.peek_is(&TokenType::End) || (else_arms && (self.peek_is(&TokenType::Elseif)
            || self.peek_is(&TokenType::Else)))
    }

    /// Statements up to a terminator (`end`, and with `else_arms` also
    /// `elseif` and `else`), which is left under the cursor.
    pub fn body(&mut self, else_arms: bool) -> (r: Result<Vec<Node>, Error>)
        requires
            old(self).wf(),
        ensures
            final(self).kept(*old(self)),
            outcome_list(
                r,
                p_body_rest(old(self).toks(), old(self).index(), Seq::empty(), else_arms),
                final(self).index(),
            ),
            r is Ok ==> old(self).index() <= final(self).index() < final(self).toks().len(),
        decreases self.toks().len() - self.index(), 41int,
    {
        let ghost ts = self.toks();
        let ghost i0 = self.index();
        let mut nodes: Vec<Node> = Vec::new();
        proof {
            reveal(p_body_rest);
            assert(views(nodes@) =~= Seq::<Ast>::empty());
        }
        loop
            invariant
                self.kept(*old(self)),
                ts == old(self).toks(),
                i0 == old(self).index(),
                i0 <= self.index(),
                p_body_rest(ts, i0, Seq::empty(), else_arms) == p_body_rest(
                    ts,
                    self.index(),
                    views(nodes@),
                    else_arms,
                ),
            ensures
                self.kept(*old(self)),
                i0 <= self.index() < ts.len(),
                p_body_rest(ts, i0, Seq::empty(), else_arms) == Ok::<(Seq<Ast>, int), ErrorView>(
                    (views(nodes@), self.index()),
                ),
            decreases ts.len() - self.index(),
        {
            proof {
                reveal(p_body_rest);
            }
            if self.idx >= self.tokens.len() {
                return Err(Error::UnexpectedEOF);
            }
            if self.at_terminator(else_arms) {
                break;
            }
            let s = match self.stat() {
                Ok(n) => n,
                Err(e) => return Err(e),
            };
            let ghost before = nodes@;
            nodes.push(s);
            proof {
                lemma_views_push(before, s);
            }
        }
        Ok(nodes)
    }

    #[verifier::spinoff_prover]
    #[verifier::rlimit(100)]
    pub fn stat(&mut self) -> (r: Result<Node, Error>)
        requires
            old(self).wf(),
        ensures
            final(self).kept(*old(self)),
            outcome(r, p_stat(old(self).toks(), old(self).index()), final(self).index()),
            r is Ok ==> old(self).index() < final(self).index(),
            r matches Ok(n) ==> stat_span(n, old(self).toks(), old(self).spans(), old(self).index(), final(self).index()),
        decreases self.toks().len() - self.index(), 40int,
    {
        if self.idx >= self.tokens.len() {
            return Err(Error::UnexpectedEOF);
        }
        let mut pos = self.here();
        if self.peek_is(&TokenType::Local) {
            self.local_stat(pos)
        } else if self.peek_is(&TokenType::Return) {
            self.advance();
            let e = match self.expr() {
                Ok(n) => n,
                Err(e) => return Err(e),
            };
            pos.extend(&e.pos);
            Ok(Node { node: NodeType::Return(Box::new(e)), pos })
        } else if self.peek_is(&TokenType::Break) {
            self.advance();
            Ok(Node { node: NodeType::Break, pos })
        } else if self.peek_is(&TokenType::Do) {
            proof {
                reveal(p_do);
            }
            self.advance();
            let body = match self.body(false) {
                Ok(b) => b,
                Err(e) => return Err(e),
            };
            pos.extend(&self.here());
            self.advance();
            Ok(Node { node: NodeType::DoBlock(body), pos })
        } else if self.peek_is(&TokenType::While) {
            self.while_stat(pos)
        } else if self.peek_is(&TokenType::If) {
            self.if_stat(pos)
        } else {
            self.expr_stat(pos)
        }
    }

    #[verifier::spinoff_prover]
    #[verifier::rlimit(100)]
    fn local_stat(&mut self, pos: Position) -> (r: Result<Node, Error>)
        requires
            old(self).wf(),
            old(self).index() < old(self).toks().len(),
            pos == old(self).spans()[old(self).index()],
            plain_at(old(self).toks(), old(self).index(), TokenType::Local),
        ensures
            final(self).kept(*old(self)),
            outcome(r, p_local(old(self).toks(), old(self).index()), final(self).index()),
            r is Ok ==> old(self).index() < final(self).index(),
            r matches Ok(n) ==> stat_span(n, old(self).toks(), old(self).spans(), old(self).index(), final(self).index()),
    {
        proof {
            reveal(p_local);
        }
        let mut pos = pos;
        self.advance();
        let var = match self.expr() {
            Ok(n) => n,
            Err(e) => return Err(e),
        };
        if self.peek_is(&TokenType::Sep) {
            let mut acc: Vec<Node> = Vec::new();
            acc.push(var);
            proof {
                lemma_views_single(var);
                assert(acc@ =~= seq![var]);
            }
            let vars = match self.list_rest(acc) {
                Ok(v) => v,
                Err(e) => return Err(e),
            };
            match self.expect_token(TokenType::Assign) {
                Ok(()) => {},
                Err(e) => return Err(e),
            }
            self.advance();
            let exprs = match self.args() {
                Ok(v) => v,
                Err(e) => return Err(e),
            };
            pos.extend(&exprs[exprs.len() - 1].pos);
            return Ok(Node { node: NodeType::LocalAssignVars(vars, exprs), pos });
        }
        match self.expect_token(TokenType::Assign) {
            Ok(()) => {},
            Err(e) => return Err(e),
        }
        self.advance();
        let e = match self.expr() {
            Ok(n) => n,
            Err(e) => return Err(e),
        };
        pos.extend(&e.pos);
        Ok(Node { node: NodeType::LocalAssign(Box::new(var), Box::new(e)), pos })
    }

    #[verifier::spinoff_prover]
    #[verifier::rlimit(100)]
    fn while_stat(&mut self, pos: Position) -> (r: Result<Node, Error>)
        requires
            old(self).wf(),
            old(self).index() < old(self).toks().len(),
            pos == old(self).spans()[old(self).index()],
            plain_at(old(self).toks(), old(self).index(), TokenType::While),
        ensures
            final(self).kept(*old(self)),
            outcome(r, p_while(old(self).toks(), old(self).index()), final(self).index()),
            r is Ok ==> old(self).index() < final(self).index(),
            r matches Ok(n) ==> stat_span(n, old(self).toks(), old(self).spans(), old(self).index(), final(self).index()),
        decreases self.toks().len() - self.index(), 39int,
    {
        proof {
            reveal(p_while);
        }
        let mut pos = pos;
        self.advance();
        let cond = match self.expr() {
            Ok(n) => n,
            Err(e) => return Err(e),
        };
        match self.expect_token(TokenType::Do) {
            Ok(()) => {},
            Err(e) => return Err(e),
        }
        self.advance();
        let body = match self.body(false) {
            Ok(b) => b,
            Err(e) => return Err(e),
        };
        pos.extend(&self.here());
        let body = Node { node: NodeType::Body(body), pos };
        assert(body@ == Ast::Body(views(body.node->Body_0@)));
        self.advance();
        Ok(Node { node: NodeType::While { cond: Box::new(cond), body: Box::new(body) }, pos })
    }

    #[verifier::spinoff_prover]
    #[verifier::rlimit(100)]
    fn if_stat(&mut self, pos: Position) -> (r: Result<Node, Error>)
        requires
            old(self).wf(),
            old(self).index() < old(self).toks().len(),
            pos == old(self).spans()[old(self).index()],
            plain_at(old(self).toks(), old(self).index(), TokenType::If),
        ensures
            final(self).kept(*old(self)),
            outcome(r, p_if(old(self).toks(), old(self).index()), final(self).index()),
            r is Ok ==> old(self).index() < final(self).index(),
            r matches Ok(n) ==> stat_span(n, old(self).toks(), old(self).spans(), old(self).index(), final(self).index()),
        decreases self.toks().len() - self.index(), 39int,
    {
        proof {
            reveal(p_if);
        }
        let mut pos = pos;
        self.advance();
        let c = match self.expr() {
            Ok(n) => n,
            Err(e) => return Err(e),
        };
        match self.expect_token(TokenType::Then) {
            Ok(()) => {},
            Err(e) => return Err(e),
        }
        self.advance();
        let start = self.idx;
        let case = match self.body(true) {
            Ok(b) => b,
            Err(e) => return Err(e),
        };
        let case_pos = self.tokens[start].pos;
        pos.extend(&self.here());
        let mut conds: Vec<Node> = Vec::new();
        conds.push(c);
        let mut cases: Vec<Node> = Vec::new();
        let first = Node { node: NodeType::Body(case), pos: case_pos };
        assert(first@ == Ast::Body(views(first.node->Body_0@)));
        cases.push(first);
        proof {
            lemma_views_single(c);
            lemma_views_single(first);
            assert(conds@ =~= seq![c]);
            assert(cases@ =~= seq![first]);
        }
        self.if_rest(conds, cases, pos)
    }

    /// The `elseif` and `else` arms after the arms `conds` and `cases`; the
    /// token under the cursor ends the last body.
    #[verifier::spinoff_prover]
    #[verifier::rlimit(100)]
    fn if_rest(&mut self, conds: Vec<Node>, cases: Vec<Node>, pos: Position) -> (r: Result<Node, Error>)
        requires
            old(self).wf(),
            old(self).index() < old(self).toks().len(),
            ends_at(pos, old(self).spans()[old(self).index()]),
        ensures
            final(self).kept(*old(self)),
            outcome(
                r,
                p_if_rest(old(self).toks(), old(self).index(), views(conds@), views(cases@)),
                final(self).index(),
            ),
            r is Ok ==> old(self).index() < final(self).index(),
            r matches Ok(n) ==> n.node is If && starts_at(n.pos, pos) && ends_at(
                n.pos,
                old(self).spans()[final(self).index() - 1],
            ),
        decreases self.toks().len() - self.index(), 38int,
    {
        proof {
            reveal(p_if_rest);
        }
        let mut pos = pos;
        let mut conds = conds;
        let mut cases = cases;
        if self.peek_is(&TokenType::Elseif) {
            self.advance();
            let c = match self.expr() {
                Ok(n) => n,
                Err(e) => return Err(e),
            };
            match self.expect_token(TokenType::Then) {
                Ok(()) => {},
                Err(e) => return Err(e),
            }
            self.advance();
            let start = self.idx;
            let case = match self.body(true) {
                Ok(b) => b,
                Err(e) => return Err(e),
            };
            let mut case_pos = self.tokens[start].pos;
            case_pos.extend(&self.here());
            pos.extend(&case_pos);
            let arm = Node { node: NodeType::Body(case), pos: case_pos };
            assert(arm@ == Ast::Body(views(arm.node->Body_0@)));
            let ghost (cs, bs) = (conds@, cases@);
            conds.push(c);
            cases.push(arm);
            proof {
                lemma_views_push(cs, c);
                lemma_views_push(bs, arm);
            }
            self.if_rest(conds, cases, pos)
        } else if self.peek_is(&TokenType::Else) {
            self.advance();
            let start = self.idx;
            let body = match self.body(false) {
                Ok(b) => b,
                Err(e) => return Err(e),
            };
            let mut else_pos = self.tokens[start].pos;
            else_pos.extend(&self.here());
            pos.extend(&else_pos);
            self.advance();
            let else_node = Node { node: NodeType::Body(body), pos: else_pos };
            assert(else_node@ == Ast::Body(views(else_node.node->Body_0@)));
            let else_case = Some(Box::new(else_node));
            Ok(Node { node: NodeType::If { conds, cases, else_case }, pos })
        } else {
            self.advance();
            Ok(Node { node: NodeType::If { conds, cases, else_case: None }, pos })
        }
    }

    /// A statement that starts with an expression: an assignment or a call.
    #[verifier::spinoff_prover]
    #[verifier::rlimit(100)]
    fn expr_stat(&mut self, pos: Position) -> (r: Result<Node, Error>)
        requires
            old(self).wf(),
            old(self).index() < old(self).toks().len(),
            pos == old(self).spans()[old(self).index()],
            old(self).index() < old(self).toks().len(),
            !plain_at(old(self).toks(), old(self).index(), TokenType::Local),
            !plain_at(old(self).toks(), old(self).index(), TokenType::Return),
            !plain_at(old(self).toks(), old(self).index(), TokenType::Break),
            !plain_at(old(self).toks(), old(self).index(), TokenType::Do),
            !plain_at(old(self).toks(), old(self).index(), TokenType::While),
            !plain_at(old(self).toks(), old(self).index(), TokenType::If),
        ensures
            final(self).kept(*old(self)),
            outcome(r, p_expr_stat(old(self).toks(), old(self).index()), final(self).index()),
            r is Ok ==> old(self).index() < final(self).index(),
            r matches Ok(n) ==> stat_span(n, old(self).toks(), old(self).spans(), old(self).index(), final(self).index()),
    {
        proof {
            reveal(p_expr_stat);
        }
        let node = match self.expr() {
            Ok(n) => n,
            Err(e) => return Err(e),
        };
        let is_name = matches!(node.node, NodeType::ID(_));
        if is_name && self.peek_is(&TokenType::Assign) {
            self.advance();
            let e = match self.expr() {
                Ok(n) => n,
                Err(e) => return Err(e),
            };
            Ok(Node { node: NodeType::Assign(Box::new(node), Box::new(e)), pos })
        } else if is_name && self.peek_is(&TokenType::Sep) {
            let mut acc: Vec<Node> = Vec::new();
            acc.push(node);
            proof {
                lemma_views_single(node);
                assert(acc@ =~= seq![node]);
            }
            let vars = match self.list_rest(acc) {
                Ok(v) => v,
                Err(e) => return Err(e),
            };
            match self.expect_token(TokenType::Assign) {
                Ok(()) => {},
                Err(e) => return Err(e),
            }
            self.advance();
            let exprs = match self.args() {
                Ok(v) => v,
                Err(e) => return Err(e),
            };
            Ok(Node { node: NodeType::AssignVars(vars, exprs), pos })
        } else if matches!(node.node, NodeType::Call { .. } | NodeType::SelfCall { .. }) {
            Ok(node)
        } else {
            Err(Error::UnexpectedNode(node.node))
        }
    }

    /// The chunk of all statements from the cursor to the end of input.
    pub fn parse(&mut self) -> (r: Result<Node, Error>)
        requires
            old(self).wf(),
        ensures
            match p_chunk_rest(old(self).toks(), old(self).index(), Seq::empty()) {
                Ok(stmts) => r matches Ok(n) && n@ == Ast::Chunk(stmts),
                Err(x) => r matches Err(e) && e@ == x,
            },
            old(self).index() >= old(self).toks().len() ==> (r matches Ok(n) && n.pos
                == Position::at(0, 0)),
            old(self).index() < old(self).toks().len() ==> (r matches Ok(n) ==> n.pos
                == old(self).spans()[old(self).index()]),
            r is Ok ==> final(self).index() == final(self).toks().len(),
            final(self).kept(*old(self)),
    {
        let ghost ts = self.toks();
        let ghost i0 = self.index();
        if self.idx >= self.tokens.len() {
            let empty: Vec<Node> = Vec::new();
            proof {
                assert(views(empty@) =~= Seq::<Ast>::empty());
            }
            return Ok(Node { node: NodeType::Chunk(empty), pos: Position::zero() });
        }
        let pos = self.here();
        let mut nodes: Vec<Node> = Vec::new();
        proof {
            assert(views(nodes@) =~= Seq::<Ast>::empty());
        }
        while self.idx < self.tokens.len()
            invariant
                self.kept(*old(self)),
                ts == old(self).toks(),
                i0 == old(self).index(),
                p_chunk_rest(ts, i0, Seq::empty()) == p_chunk_rest(ts, self.index(), views(nodes@)),
            decreases ts.len() - self.index(),
        {
            let s = match self.stat() {
                Ok(n) => n,
                Err(e) => return Err(e),
            };
            let ghost before = nodes@;
            nodes.push(s);
            proof {
                lemma_views_push(before, s);
            }
        }
        Ok(Node { node: NodeType::Chunk(nodes), pos })
    }
}

/// The syntax tree of a token sequence, or the first syntax error in it.
pub fn parse(path: &String, tokens: Vec<Token>) -> (r: Result<Node, Error>)
    ensures
        match parse_tokens(token_views(tokens@)) {
            Ok(a) => r matches Ok(n) && n@ == a,
            Err(x) => r matches Err(e) && e@ == x,
        },
        tokens@.len() == 0 ==> (r matches Ok(n) && n.pos == Position::at(0, 0)),
{
    Parser::new(path, tokens).parse()
}

proof fn lemma_views_single(n: Node)
    ensures
        views(seq![n]) == seq![n@],
{
    lemma_views_push(Seq::empty(), n);
    assert(Seq::<Node>::empty().push(n) =~= seq![n]);
    assert(views(Seq::<Node>::empty()) =~= Seq::<Ast>::empty());
    assert(Seq::<Ast>::empty().push(n@) =~= seq![n@]);
}

/// Every `if` statement the parser builds pairs each condition with one
/// body.
#[verifier::spinoff_prover]
#[verifier::rlimit(100)]
pub proof fn lemma_if_arms_aligned(ts: Seq<Tok>, i: int)
    ensures
        p_if(ts, i) matches Ok((Ast::If(conds, cases, _), _)) ==> conds.len() == cases.len(),
{
    reveal(p_if);
    match p_expr(ts, i + 1) {
        Ok((c, k)) => {
            if plain_at(ts, k, TokenType::Then) && step(i, k, ts.len() as int) {
                match p_body_rest(ts, k + 1, Seq::empty(), true) {
                    Ok((b, k2)) => {
                        if step(i, k2, ts.len() as int) {
                            lemma_if_rest_aligned(ts, k2, seq![c], seq![Ast::Body(b)]);
                        }
                    },
                    Err(_) => {},
                }
            }
        },
        Err(_) => {},
    }
}

#[verifier::spinoff_prover]
#[verifier::rlimit(100)]
proof fn lemma_if_rest_aligned(ts: Seq<Tok>, k: int, conds: Seq<Ast>, cases: Seq<Ast>)
    requires
        conds.len() == cases.len(),
    ensures
        p_if_rest(ts, k, conds, cases) matches Ok((Ast::If(cs, bs, _), _)) ==> cs.len() == bs.len(),
    decreases ts.len() - k,
{
    reveal(p_if_rest);
    if plain_at(ts, k, TokenType::Elseif) {
        match p_expr(ts, k + 1) {
            Ok((c, k1)) => {
                if plain_at(ts, k1, TokenType::Then) && step(k, k1, ts.len() as int) {
                    match p_body_rest(ts, k1 + 1, Seq::empty(), true) {
                        Ok((b, k2)) => {
                            if step(k, k2, ts.len() as int) {
                                lemma_if_rest_aligned(ts, k2, conds.push(c), cases.push(Ast::Body(b)));
                            }
                        },
                        Err(_) => {},
                    }
                }
            },
            Err(_) => {},
        }
    }
}

/// An expression standing as a statement is rejected, naming its kind,
/// unless it is a call or begins an assignment to a name.
pub proof fn lemma_bare_expression_rejected(ts: Seq<Tok>, i: int, e: Ast, k: int)
    requires
        0 <= i < ts.len(),
        ts[i] != Tok::Plain(TokenType::Local),
        ts[i] != Tok::Plain(TokenType::Return),
        ts[i] != Tok::Plain(TokenType::Break),
        ts[i] != Tok::Plain(TokenType::Do),
        ts[i] != Tok::Plain(TokenType::While),
        ts[i] != Tok::Plain(TokenType::If),
        p_expr(ts, i) == Ok::<(Ast, int), ErrorView>((e, k)),
        !(e is ID),
        !(e is Call),
        !(e is SelfCall),
    ensures
        p_stat(ts, i) == Err::<(Ast, int), ErrorView>(ErrorView::UnexpectedNode(e)),
{
    reveal(p_expr_stat);
}

} // verus!
