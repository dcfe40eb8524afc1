use crate::doc::{broken, cat, flat, has_break, spaces, text, DocV, INDENT};
use crate::printer::{
    args_doc, args_join, binary_style, dot_style, expr_doc, is_link, parts, step, Parts,
};
use crate::resolve::{binary_kind, descend, lemma_spine_unfold, spine, ChainKind};
use crate::style::{chain_doc, lead, link_doc, links_doc, pad, stays_flat, ChainStyle};
use crate::syntax::{args_text, expr_text, op_str, prec, Expr};
use vstd::prelude::*;

verus! {

/// Links on one line: each as `gap`, separator, `gap`, payload.
pub open spec fn links_flat_text(ls: Seq<(Seq<char>, DocV)>, gap: Seq<char>) -> Seq<char>
    decreases ls.len(),
{
    if ls.len() == 0 {
        seq![]
    } else {
        gap + ls[0].0 + gap + flat(ls[0].1) + links_flat_text(ls.drop_first(), gap)
    }
}

/// Links each on a line of its own at indentation `ind`: separator, `gap`,
/// payload.
pub open spec fn links_broken_text(ls: Seq<(Seq<char>, DocV)>, gap: Seq<char>, ind: nat) -> Seq<
    char,
>
    decreases ls.len(),
{
    if ls.len() == 0 {
        seq![]
    } else {
        seq!['\n'] + spaces(ind) + ls[0].0 + gap + broken(ls[0].1, ind) + links_broken_text(
            ls.drop_first(),
            gap,
            ind,
        )
    }
}

proof fn lemma_links_flat(ls: Seq<(Seq<char>, DocV)>, style: ChainStyle, breakable: bool)
    ensures
        flat(links_doc(ls, style, breakable)) == links_flat_text(ls, pad(style)),
    decreases ls.len(),
{
    if ls.len() > 0 {
        lemma_links_flat(ls.drop_first(), style, breakable);
        reveal_with_fuel(flat, 4);
        assert(flat(lead(style, breakable)) == pad(style));
        assert(flat(link_doc(ls[0], style, breakable)) =~= pad(style) + ls[0].0 + pad(style) + flat(
            ls[0].1,
        ));
        assert(flat(links_doc(ls, style, breakable)) =~= links_flat_text(ls, pad(style)));
    }
}

proof fn lemma_links_broken(ls: Seq<(Seq<char>, DocV)>, style: ChainStyle, ind: nat)
    ensures
        broken(links_doc(ls, style, true), ind) == links_broken_text(ls, pad(style), ind),
    decreases ls.len(),
{
    if ls.len() > 0 {
        lemma_links_broken(ls.drop_first(), style, ind);
        reveal_with_fuel(broken, 4);
        assert(broken(lead(style, true), ind) == seq!['\n'] + spaces(ind));
        assert(broken(link_doc(ls[0], style, true), ind) =~= seq!['\n'] + spaces(ind) + ls[0].0 + pad(
            style,
        ) + broken(ls[0].1, ind));
        assert(broken(links_doc(ls, style, true), ind) =~= links_broken_text(ls, pad(style), ind));
    }
}

/// The flat form of a chain: the root, then every link with the style's
/// padding around its separator.
pub proof fn lemma_chain_flat(root: DocV, ls: Seq<(Seq<char>, DocV)>, style: ChainStyle)
    ensures
        flat(chain_doc(root, ls, style)) == flat(root) + links_flat_text(ls, pad(style)),
{
    lemma_links_flat(ls, style, false);
    lemma_links_flat(ls, style, true);
    let inner = links_doc(ls, style, true);
    reveal_with_fuel(flat, 3);
    assert(flat(DocV::Group(Box::new(DocV::Nest(INDENT as nat, Box::new(inner))))) == flat(inner));
}

/// The broken form of a chain: the root, then each link on a line of its own,
/// one level deeper than the root.
pub proof fn lemma_chain_broken(
    root: DocV,
    ls: Seq<(Seq<char>, DocV)>,
    style: ChainStyle,
    ind: nat,
)
    requires
        !stays_flat(ls.len(), style),
    ensures
        broken(chain_doc(root, ls, style), ind) == broken(root, ind) + links_broken_text(
            ls,
            pad(style),
            (ind + INDENT) as nat,
        ),
{
    lemma_links_broken(ls, style, (ind + INDENT) as nat);
    let inner = links_doc(ls, style, true);
    reveal_with_fuel(broken, 3);
    assert(broken(DocV::Group(Box::new(DocV::Nest(INDENT as nat, Box::new(inner)))), ind) == broken(
        inner,
        (ind + INDENT) as nat,
    ));
}

/// A chain of one visible link, under a style that never breaks such a chain,
/// is its flat form: it adds no break point to those of its root and payload,
/// so no line width makes it break.
pub proof fn lemma_single_link_stays_flat(
    root: DocV,
    link: (Seq<char>, DocV),
    style: ChainStyle,
)
    requires
        style.break_single,
    ensures
        chain_doc(root, seq![link], style) == cat(root, links_doc(seq![link], style, false)),
        has_break(chain_doc(root, seq![link], style)) == (has_break(root) || has_break(link.1)),
        flat(chain_doc(root, seq![link], style)) == flat(root) + pad(style) + link.0 + pad(style)
            + flat(link.1),
{
    let ls = seq![link];
    assert(ls.drop_first() =~= Seq::<(Seq<char>, DocV)>::empty());
    lemma_chain_flat(root, ls, style);
    assert(links_flat_text(ls.drop_first(), pad(style)) == Seq::<char>::empty());
    assert(links_flat_text(ls, pad(style)) =~= pad(style) + link.0 + pad(style) + flat(link.1));
    assert(links_doc(ls.drop_first(), style, false) == DocV::Nil);
    assert(has_break(lead(style, false)) == false);
    reveal_with_fuel(has_break, 8);
}

proof fn lemma_flat_push(ls: Seq<(Seq<char>, DocV)>, l: (Seq<char>, DocV), gap: Seq<char>)
    ensures
        links_flat_text(ls.push(l), gap) == links_flat_text(ls, gap) + gap + l.0 + gap + flat(l.1),
    decreases ls.len(),
{
    if ls.len() == 0 {
        assert(ls.push(l).drop_first() =~= ls);
        assert(ls.push(l)[0] == l);
        assert(links_flat_text(ls, gap) == Seq::<char>::empty());
        assert(links_flat_text(ls.push(l).drop_first(), gap) == Seq::<char>::empty());
        assert(links_flat_text(ls.push(l), gap) =~= gap + l.0 + gap + flat(l.1));
    } else {
        assert(ls.push(l).drop_first() =~= ls.drop_first().push(l));
        lemma_flat_push(ls.drop_first(), l, gap);
        assert(links_flat_text(ls.push(l), gap) =~= links_flat_text(ls, gap) + gap + l.0 + gap
            + flat(l.1));
    }
}

proof fn lemma_flat_extend_last(ls: Seq<(Seq<char>, DocV)>, a: DocV, gap: Seq<char>)
    requires
        ls.len() > 0,
    ensures
        links_flat_text(ls.update(ls.len() - 1, (ls.last().0, cat(ls.last().1, a))), gap)
            == links_flat_text(ls, gap) + flat(a),
    decreases ls.len(),
{
    let ext = ls.update(ls.len() - 1, (ls.last().0, cat(ls.last().1, a)));
    if ls.len() == 1 {
        assert(ext.drop_first() =~= ls.drop_first());
        assert(ext[0] == (ls[0].0, cat(ls[0].1, a)));
        assert(links_flat_text(ls.drop_first(), gap) == Seq::<char>::empty());
        assert(flat(cat(ls[0].1, a)) == flat(ls[0].1) + flat(a));
        assert(links_flat_text(ext, gap) =~= links_flat_text(ls, gap) + flat(a));
    } else {
        let rest = ls.drop_first();
        assert(ext.drop_first() =~= rest.update(rest.len() - 1, (rest.last().0, cat(rest.last().1, a))));
        lemma_flat_extend_last(rest, a, gap);
        assert(ext[0] == ls[0]);
        assert(links_flat_text(ext, gap) =~= links_flat_text(ls, gap) + flat(a));
    }
}

/// The padding that a chain kind sets around its separators.
pub open spec fn kind_gap(kind: ChainKind) -> Seq<char> {
    match kind {
        ChainKind::Dot => seq![],
        ChainKind::Binary(_) => seq![' '],
    }
}

proof fn lemma_args_join_flat(args: Seq<Expr>)
    ensures
        flat(args_join(args)) == if args.len() == 0 {
            seq![]
        } else {
            args_text(args)
        },
    decreases args, 0nat,
{
    if args.len() == 1 {
        lemma_flat_is_source(args[0]);
    } else if args.len() > 1 {
        lemma_flat_is_source(args[0]);
        lemma_args_join_flat(args.drop_first());
        reveal_with_fuel(flat, 3);
        assert(flat(args_join(args)) =~= args_text(args));
    }
}

proof fn lemma_args_flat(args: Seq<Expr>)
    ensures
        flat(args_doc(args)) == seq!['('] + args_text(args) + seq![')'],
    decreases args, 1nat,
{
    lemma_args_join_flat(args);
    reveal_with_fuel(flat, 3);
    assert(flat(args_doc(args)) =~= seq!['('] + args_text(args) + seq![')']);
}

/// One step of a chain keeps its flat text equal to the source text.
proof fn lemma_step_flat(kind: ChainKind, e: Expr, child: Expr, p: Parts)
    requires
        descend(kind, e) == Some(child),
        flat(p.0) + links_flat_text(p.1, kind_gap(kind)) == expr_text(child),
    ensures
        ({
            let q = step(e, p);
            flat(q.0) + links_flat_text(q.1, kind_gap(kind)) == expr_text(e)
        }),
    decreases e, 0nat,
{
    let g = kind_gap(kind);
    match e {
        Expr::FieldAccess(_, f) => {
            lemma_flat_push(p.1, (seq!['.'], text(f@)), g);
            assert(flat(step(e, p).0) + links_flat_text(step(e, p).1, g) =~= expr_text(e));
        },
        Expr::FuncCall(_, args) => {
            lemma_args_flat(args@);
            let a = args_doc(args@);
            if p.1.len() == 0 {
                assert(flat(step(e, p).0) + links_flat_text(step(e, p).1, g) =~= expr_text(e));
            } else {
                lemma_flat_extend_last(p.1, a, g);
                assert(flat(step(e, p).0) + links_flat_text(step(e, p).1, g) =~= expr_text(e));
            }
        },
        Expr::Binary(op, _, r) => {
            lemma_flat_is_source(*r);
            lemma_flat_push(p.1, (op_str(op), expr_doc(*r)), g);
            assert(flat(step(e, p).0) + links_flat_text(step(e, p).1, g) =~= expr_text(e));
        },
        _ => {},
    }
}

proof fn lemma_parts_flat(kind: ChainKind, x: Expr)
    ensures
        flat(parts(kind, x).0) + links_flat_text(parts(kind, x).1, kind_gap(kind)) == expr_text(x),
    decreases x, 3nat,
{
    match descend(kind, x) {
        Some(c) => {
            match x {
                Expr::FieldAccess(t, _) => lemma_parts_flat(kind, *t),
                Expr::FuncCall(t, _) => lemma_parts_flat(kind, *t),
                Expr::Binary(_, t, _) => lemma_parts_flat(kind, *t),
                _ => {},
            }
            lemma_step_flat(kind, x, c, parts(kind, c));
        },
        None => {
            lemma_flat_is_source(x);
            assert(flat(parts(kind, x).0) + links_flat_text(parts(kind, x).1, kind_gap(kind))
                =~= expr_text(x));
        },
    }
}

/// Printed flat, every expression reads as its own source text: chain layout
/// changes only where lines break, never what the text says.
pub proof fn lemma_flat_is_source(e: Expr)
    ensures
        flat(expr_doc(e)) == expr_text(e),
    decreases e, 2nat,
{
    match e {
        Expr::Atom(_) => {},
        Expr::Paren(x) => {
            lemma_flat_is_source(*x);
            reveal_with_fuel(flat, 3);
            assert(flat(expr_doc(e)) =~= expr_text(e));
        },
        Expr::FieldAccess(t, _) => {
            lemma_parts_flat(ChainKind::Dot, *t);
            lemma_step_flat(ChainKind::Dot, e, *t, parts(ChainKind::Dot, *t));
            let p = step(e, parts(ChainKind::Dot, *t));
            lemma_chain_flat(p.0, p.1, dot_style());
        },
        Expr::FuncCall(c, _) => {
            lemma_parts_flat(ChainKind::Dot, *c);
            lemma_step_flat(ChainKind::Dot, e, *c, parts(ChainKind::Dot, *c));
            let p = step(e, parts(ChainKind::Dot, *c));
            lemma_chain_flat(p.0, p.1, dot_style());
        },
        Expr::Binary(op, l, _) => {
            lemma_parts_flat(binary_kind(op), *l);
            lemma_step_flat(binary_kind(op), e, *l, parts(binary_kind(op), *l));
            let p = step(e, parts(binary_kind(op), *l));
            lemma_chain_flat(p.0, p.1, binary_style());
        },
    }
}

proof fn lemma_dot_seps(x: Expr)
    ensures
        forall|i: int|
            0 <= i < parts(ChainKind::Dot, x).1.len() ==> #[trigger] parts(ChainKind::Dot, x).1[i].0
                == seq!['.'],
    decreases x,
{
    let ls = parts(ChainKind::Dot, x).1;
    match x {
        Expr::FieldAccess(t, _) => {
            lemma_dot_seps(*t);
            assert(parts(ChainKind::Dot, x) == step(x, parts(ChainKind::Dot, *t)));
            let q = parts(ChainKind::Dot, *t).1;
            assert forall|i: int| 0 <= i < ls.len() implies #[trigger] ls[i].0 == seq!['.'] by {
                if i < q.len() {
                    assert(ls[i] == q[i]);
                }
            }
        },
        Expr::FuncCall(c, args) => {
            lemma_dot_seps(*c);
            assert(parts(ChainKind::Dot, x) == step(x, parts(ChainKind::Dot, *c)));
            let q = parts(ChainKind::Dot, *c).1;
            assert(ls.len() == q.len());
            assert forall|i: int| 0 <= i < ls.len() implies #[trigger] ls[i].0 == seq!['.'] by {
                assert(ls[i].0 == q[i].0);
            }
        },
        _ => {},
    }
}

/// A member-access chain separates its segments by `.` alone: in the flat
/// form and in the broken form no space stands on either side of it.
pub proof fn lemma_dot_separator(e: Expr, ind: nat)
    requires
        e is FieldAccess || e is FuncCall,
    ensures
        ({
            let p = parts(ChainKind::Dot, e);
            &&& expr_doc(e) == chain_doc(p.0, p.1, dot_style())
            &&& forall|i: int| 0 <= i < p.1.len() ==> #[trigger] p.1[i].0 == seq!['.']
            &&& flat(expr_doc(e)) == flat(p.0) + links_flat_text(p.1, seq![])
            &&& !stays_flat(p.1.len(), dot_style()) ==> broken(expr_doc(e), ind) == broken(p.0, ind)
                + links_broken_text(p.1, seq![], (ind + INDENT) as nat)
        }),
{
    let p = parts(ChainKind::Dot, e);
    lemma_dot_seps(e);
    lemma_chain_flat(p.0, p.1, dot_style());
    if !stays_flat(p.1.len(), dot_style()) {
        lemma_chain_broken(p.0, p.1, dot_style(), ind);
    }
}

proof fn lemma_binary_seps(x: Expr, level: u8)
    ensures
        forall|i: int|
            0 <= i < parts(ChainKind::Binary(level), x).1.len() ==> exists|op|
                prec(op) == level && #[trigger] parts(ChainKind::Binary(level), x).1[i].0 == op_str(
                    op,
                ),
    decreases x,
{
    let kind = ChainKind::Binary(level);
    match x {
        Expr::Binary(op, l, _) => {
            lemma_binary_seps(*l, level);
            if prec(op) == level {
                assert(parts(kind, x) == step(x, parts(kind, *l)));
                let q = parts(kind, *l).1;
                let ls = parts(kind, x).1;
                assert forall|i: int| 0 <= i < ls.len() implies exists|o|
                    prec(o) == level && #[trigger] ls[i].0 == op_str(o) by {
                    if i < q.len() {
                        assert(ls[i] == q[i]);
                    } else {
                        assert(ls[i].0 == op_str(op));
                    }
                }
            }
        },
        _ => {},
    }
}

/// An operator chain sets one space on each side of every operator on a line
/// (flat), and begins each broken line, after the indentation, with the
/// operator and one space; every operator shares the top one's precedence.
pub proof fn lemma_binary_spacing(e: Expr, ind: nat)
    requires
        e is Binary,
    ensures
        ({
            let p = parts(binary_kind(e->Binary_0), e);
            &&& expr_doc(e) == chain_doc(p.0, p.1, binary_style())
            &&& p.1.len() >= 1
            &&& forall|i: int|
                0 <= i < p.1.len() ==> exists|op|
                    prec(op) == prec(e->Binary_0) && #[trigger] p.1[i].0 == op_str(op)
            &&& flat(expr_doc(e)) == flat(p.0) + links_flat_text(p.1, seq![' '])
            &&& broken(expr_doc(e), ind) == broken(p.0, ind) + links_broken_text(
                p.1,
                seq![' '],
                (ind + INDENT) as nat,
            )
        }),
{
    let kind = binary_kind(e->Binary_0);
    let p = parts(kind, e);
    match e {
        Expr::Binary(op, l, _) => {
            assert(p == step(e, parts(kind, *l)));
        },
        _ => {},
    }
    lemma_binary_seps(e, prec(e->Binary_0));
    lemma_chain_flat(p.0, p.1, binary_style());
    lemma_chain_broken(p.0, p.1, binary_style(), ind);
}

/// How many nodes of a resolved chain show a separator.
pub open spec fn count_links(kind: ChainKind, s: Seq<Expr>) -> nat
    decreases s.len(),
{
    if s.len() == 0 {
        0
    } else {
        (if is_link(kind, s[0]) {
            1nat
        } else {
            0nat
        }) + count_links(kind, s.drop_first())
    }
}

/// The visible links of a laid-out chain are exactly the resolved nodes that
/// the classifier calls links, and the root leaf is never one of them.
pub proof fn lemma_links_match_resolution(kind: ChainKind, e: Expr)
    ensures
        parts(kind, e).1.len() == count_links(kind, spine(kind, e)),
        !is_link(kind, spine(kind, e).last()),
    decreases e,
{
    lemma_spine_unfold(kind, e);
    match descend(kind, e) {
        Some(c) => {
            match e {
                Expr::FieldAccess(t, _) => lemma_links_match_resolution(kind, *t),
                Expr::FuncCall(t, _) => lemma_links_match_resolution(kind, *t),
                Expr::Binary(_, t, _) => lemma_links_match_resolution(kind, *t),
                _ => {},
            }
            assert(spine(kind, e).drop_first() =~= spine(kind, c));
            assert(spine(kind, e)[0] == e);
            assert(spine(kind, e).last() == spine(kind, c).last());
            assert(parts(kind, e) == step(e, parts(kind, c)));
            assert(step(e, parts(kind, c)).1.len() == parts(kind, c).1.len() + if is_link(kind, e) {
                1nat
            } else {
                0nat
            });
        },
        None => {
            assert(spine(kind, e).drop_first() =~= Seq::<Expr>::empty());
            assert(count_links(kind, Seq::<Expr>::empty()) == 0);
            assert(spine(kind, e)[0] == e);
        },
    }
}

} // verus!
