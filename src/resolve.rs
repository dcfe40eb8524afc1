use crate::syntax::{prec, Expr};
use typst_syntax::ast::BinOp;
use vstd::prelude::*;

verus! {

/// The rule by which a chain unfolds.
#[derive(Clone, Copy)]
pub enum ChainKind {
    /// Field accesses unfold into their target, calls into their callee.
    Dot,
    /// Binary expressions of this precedence unfold into their left operand.
    Binary(u8),
}

/// The sub-node into which `e` unfolds, if any.
pub open spec fn descend(kind: ChainKind, e: Expr) -> Option<Expr> {
    match (kind, e) {
        (ChainKind::Dot, Expr::FieldAccess(t, _)) => Some(*t),
        (ChainKind::Dot, Expr::FuncCall(c, _)) => Some(*c),
        (ChainKind::Binary(p), Expr::Binary(op, l, _)) => if prec(op) == p {
            Some(*l)
        } else {
            None
        },
        _ => None,
    }
}

/// The chain of `e`: `e` itself, then each node it unfolds into, outermost first.
pub open spec fn spine(kind: ChainKind, e: Expr) -> Seq<Expr>
    decreases e,
{
    match e {
        Expr::FieldAccess(t, _) => if kind is Dot {
            seq![e] + spine(kind, *t)
        } else {
            seq![e]
        },
        Expr::FuncCall(c, _) => if kind is Dot {
            seq![e] + spine(kind, *c)
        } else {
            seq![e]
        },
        Expr::Binary(op, l, _) => if kind == ChainKind::Binary(prec(op)) {
            seq![e] + spine(kind, *l)
        } else {
            seq![e]
        },
        _ => seq![e],
    }
}

pub open spec fn derefs<'a>(s: Seq<&'a Expr>) -> Seq<Expr> {
    s.map_values(|x: &'a Expr| *x)
}

/// The kind of chain that a binary expression starts.
pub open spec fn binary_kind(op: BinOp) -> ChainKind {
    ChainKind::Binary(prec(op))
}

/// The chain's first step, unfolded once.
pub proof fn lemma_spine_unfold(kind: ChainKind, e: Expr)
    ensures
        spine(kind, e).len() >= 1,
        spine(kind, e)[0] == e,
        descend(kind, e) is None ==> spine(kind, e) == seq![e],
        descend(kind, e) is Some ==> spine(kind, e) == seq![e] + spine(
            kind,
            descend(kind, e)->Some_0,
        ),
{
}

/// A chain ends with the first node that does not unfold, and each of its
/// nodes unfolds into the next.
pub proof fn lemma_spine_links(kind: ChainKind, e: Expr, i: int)
    requires
        0 <= i < spine(kind, e).len(),
    ensures
        i + 1 < spine(kind, e).len() ==> descend(kind, spine(kind, e)[i]) == Some(
            spine(kind, e)[i + 1],
        ),
        i + 1 == spine(kind, e).len() ==> descend(kind, spine(kind, e)[i]) is None,
    decreases e,
{
    lemma_spine_unfold(kind, e);
    if i > 0 {
        match descend(kind, e) {
            Some(x) => {
                lemma_spine_unfold(kind, x);
                match e {
                    Expr::FieldAccess(t, _) => lemma_spine_links(kind, *t, i - 1),
                    Expr::FuncCall(c, _) => lemma_spine_links(kind, *c, i - 1),
                    Expr::Binary(_, l, _) => lemma_spine_links(kind, *l, i - 1),
                    _ => {},
                }
            },
            None => {},
        }
    } else {
        match descend(kind, e) {
            Some(x) => {
                lemma_spine_unfold(kind, x);
            },
            None => {},
        }
    }
}

/// Resolving the root leaf of a chain again unfolds nothing more.
pub proof fn lemma_resolve_root_again(kind: ChainKind, e: Expr)
    ensures
        spine(kind, spine(kind, e).last()) == seq![spine(kind, e).last()],
{
    lemma_spine_unfold(kind, e);
    lemma_spine_links(kind, e, spine(kind, e).len() - 1);
    lemma_spine_unfold(kind, spine(kind, e).last());
}

fn push_spine<'a>(kind: ChainKind, e: &'a Expr, out: &mut Vec<&'a Expr>)
    ensures
        derefs(final(out)@) == derefs(old(out)@) + spine(kind, *e),
    decreases e,
{
    out.push(e);
    let ghost pushed = out@;
    assert(derefs(pushed) =~= derefs(old(out)@) + seq![*e]);
    match e {
        Expr::FieldAccess(t, _) => {
            if let ChainKind::Dot = kind {
                push_spine(kind, t, out);
                assert(derefs(out@) =~= derefs(old(out)@) + spine(kind, *e));
            }
        },
        Expr::FuncCall(c, _) => {
            if let ChainKind::Dot = kind {
                push_spine(kind, c, out);
                assert(derefs(out@) =~= derefs(old(out)@) + spine(kind, *e));
            }
        },
        Expr::Binary(op, l, _) => {
            if let ChainKind::Binary(p) = kind {
                if op.precedence() == p {
                    push_spine(kind, l, out);
                    assert(derefs(out@) =~= derefs(old(out)@) + spine(kind, *e));
                }
            }
        },
        _ => {},
    }
}

/// Unfolds `e` by the rule of `kind`, outermost node first.
pub fn resolve<'a>(kind: ChainKind, e: &'a Expr) -> (r: Vec<&'a Expr>)
    ensures
        derefs(r@) == spine(kind, *e),
{
    let mut out: Vec<&'a Expr> = Vec::new();
    push_spine(kind, e, &mut out);
    assert(derefs(Seq::<&'a Expr>::empty()) =~= Seq::<Expr>::empty());
    assert(derefs(out@) =~= spine(kind, *e));
    out
}

/// The member-access chain of `e`: through field targets and callees.
pub fn resolve_dot_chain<'a>(e: &'a Expr) -> (r: Vec<&'a Expr>)
    ensures
        derefs(r@) == spine(ChainKind::Dot, *e),
{
    resolve(ChainKind::Dot, e)
}

/// The run of binary operators of the top operator's precedence, through
/// left operands.
pub fn resolve_binary_chain<'a>(e: &'a Expr) -> (r: Vec<&'a Expr>)
    requires
        e is Binary,
    ensures
        derefs(r@) == spine(binary_kind(e->Binary_0), *e),
{
    match e {
        Expr::Binary(op, _, _) => resolve(ChainKind::Binary(op.precedence()), e),
        _ => Vec::new(),
    }
}

} // verus!
