use crate::doc::{cat, cat_doc, text, text_doc, Doc, DocV};
use crate::resolve::{
    binary_kind, derefs, descend, lemma_spine_links, lemma_spine_unfold, resolve_binary_chain,
    resolve_dot_chain, spine, ChainKind,
};
use crate::style::{chain_doc, links_v, print_chain, ChainStyle, Link};
use crate::syntax::{op_str, prec, Expr};
use vstd::prelude::*;

verus! {

/// The layout of member-access chains: no space around `.`, and a chain of
/// one access is never broken.
pub open spec fn dot_style() -> ChainStyle {
    ChainStyle { break_single: true, space_around_separator: false }
}

/// The layout of operator chains: one space on each side of the operator.
pub open spec fn binary_style() -> ChainStyle {
    ChainStyle { break_single: false, space_around_separator: true }
}

/// Whether a resolved node shows a separator in its chain.
pub open spec fn is_link(kind: ChainKind, e: Expr) -> bool {
    match (kind, e) {
        (ChainKind::Dot, Expr::FieldAccess(_, _)) => true,
        (ChainKind::Binary(p), Expr::Binary(op, _, _)) => prec(op) == p,
        _ => false,
    }
}

/// A chain taken apart: the rendered root, then its visible links.
pub type Parts = (DocV, Seq<(Seq<char>, DocV)>);

/// Appends `a` to the last rendered piece: the last link, or the root.
pub open spec fn attach(p: Parts, a: DocV) -> Parts {
    if p.1.len() == 0 {
        (cat(p.0, a), p.1)
    } else {
        (p.0, p.1.update(p.1.len() - 1, (p.1.last().0, cat(p.1.last().1, a))))
    }
}

/// Adds a resolved node `e` to the parts of what it unfolds into: a field
/// access or an operator opens a link, a call extends the last piece with its
/// arguments.
pub open spec fn step(e: Expr, p: Parts) -> Parts
    decreases e, 0nat,
{
    match e {
        Expr::FieldAccess(_, f) => (p.0, p.1.push((seq!['.'], text(f@)))),
        Expr::FuncCall(_, args) => attach(p, args_doc(args@)),
        Expr::Binary(op, _, r) => (p.0, p.1.push((op_str(op), expr_doc(*r)))),
        _ => p,
    }
}

/// The parts of the chain that starts at `e`.
pub open spec fn parts(kind: ChainKind, e: Expr) -> Parts
    decreases e, 3nat,
{
    match e {
        Expr::FieldAccess(t, _) => if kind is Dot {
            step(e, parts(kind, *t))
        } else {
            (expr_doc(e), seq![])
        },
        Expr::FuncCall(c, _) => if kind is Dot {
            step(e, parts(kind, *c))
        } else {
            (expr_doc(e), seq![])
        },
        Expr::Binary(op, l, _) => if kind == ChainKind::Binary(prec(op)) {
            step(e, parts(kind, *l))
        } else {
            (expr_doc(e), seq![])
        },
        _ => (expr_doc(e), seq![]),
    }
}

/// The document of an expression.
pub open spec fn expr_doc(e: Expr) -> DocV
    decreases e, 2nat,
{
    match e {
        Expr::Atom(s) => text(s@),
        Expr::Paren(x) => cat(text(seq!['(']), cat(expr_doc(*x), text(seq![')']))),
        Expr::FieldAccess(t, _) => {
            let p = step(e, parts(ChainKind::Dot, *t));
            chain_doc(p.0, p.1, dot_style())
        },
        Expr::FuncCall(c, _) => {
            let p = step(e, parts(ChainKind::Dot, *c));
            chain_doc(p.0, p.1, dot_style())
        },
        Expr::Binary(op, l, _) => {
            let p = step(e, parts(binary_kind(op), *l));
            chain_doc(p.0, p.1, binary_style())
        },
    }
}

/// An argument list: `(`, the arguments separated by `, `, `)`.
pub open spec fn args_doc(args: Seq<Expr>) -> DocV
    decreases args, 1nat,
{
    cat(text(seq!['(']), cat(args_join(args), text(seq![')'])))
}

pub open spec fn args_join(args: Seq<Expr>) -> DocV
    decreases args, 0nat,
{
    if args.len() == 0 {
        DocV::Nil
    } else if args.len() == 1 {
        expr_doc(args[0])
    } else {
        cat(expr_doc(args[0]), cat(text(seq![',', ' ']), args_join(args.drop_first())))
    }
}

proof fn lemma_parts_unfold(kind: ChainKind, e: Expr)
    ensures
        descend(kind, e) is None ==> parts(kind, e) == (expr_doc(e), Seq::<(Seq<char>, DocV)>::empty()),
        descend(kind, e) is Some ==> parts(kind, e) == step(e, parts(kind, descend(kind, e)->Some_0)),
{
}

/// Every node of a chain but the first lies strictly inside the first.
proof fn lemma_spine_inside(kind: ChainKind, e: Expr, i: int)
    requires
        0 < i < spine(kind, e).len(),
    ensures
        decreases_to!(e => spine(kind, e)[i]),
    decreases e,
{
    lemma_spine_unfold(kind, e);
    match e {
        Expr::FieldAccess(t, _) => {
            if i > 1 {
                lemma_spine_inside(kind, *t, i - 1);
            }
        },
        Expr::FuncCall(c, _) => {
            if i > 1 {
                lemma_spine_inside(kind, *c, i - 1);
            }
        },
        Expr::Binary(_, l, _) => {
            if i > 1 {
                lemma_spine_inside(kind, *l, i - 1);
            }
        },
        _ => {},
    }
}

/// Renders an expression.
pub fn convert_expr(e: &Expr) -> (d: Doc)
    ensures
        d@ == expr_doc(*e),
    decreases e, 2nat,
{
    match e {
        Expr::Atom(s) => Doc::Text(s.clone()),
        Expr::Paren(x) => {
            proof {
                reveal_strlit("(");
                reveal_strlit(")");
                assert("("@ =~= seq!['(']);
                assert(")"@ =~= seq![')']);
            }
            cat_doc(text_doc("("), cat_doc(convert_expr(x), text_doc(")")))
        },
        Expr::FieldAccess(_, _) | Expr::FuncCall(_, _) => convert_dot_chain(e),
        Expr::Binary(_, _, _) => convert_binary_chain(e),
    }
}

/// Renders an argument list directly, arguments separated by `, `.
pub fn convert_args(args: &Vec<Expr>) -> (d: Doc)
    ensures
        d@ == args_doc(args@),
    decreases args@, 1nat,
{
    proof {
        reveal_strlit("(");
        reveal_strlit(")");
        reveal_strlit(", ");
        assert("("@ =~= seq!['(']);
        assert(")"@ =~= seq![')']);
        assert(", "@ =~= seq![',', ' ']);
    }
    let n = args.len();
    let mut acc = Doc::Nil;
    let mut i: usize = n;
    while i > 0
        invariant
            n == args@.len(),
            i <= n,
            acc@ == args_join(args@.subrange(i as int, n as int)),
            ", "@ == seq![',', ' '],
        decreases i,
    {
        i = i - 1;
        assert(decreases_to!(args@ => args@[i as int]));
        let item = convert_expr(&args[i]);
        let ghost rest = args@.subrange(i as int, n as int);
        assert(rest.drop_first() =~= args@.subrange(i + 1, n as int));
        assert(rest[0] == args@[i as int]);

        if i + 1 == n {
            assert(rest.len() == 1);
            acc = item;
        } else {
            acc = cat_doc(item, cat_doc(text_doc(", "), acc));
            assert(rest.len() >= 2);
        }
    }
    assert(args@.subrange(0, n as int) =~= args@);
    cat_doc(text_doc("("), cat_doc(acc, text_doc(")")))
}

/// Takes a resolved chain apart, innermost node first: the root leaf through
/// the generic converter, then each node's link or call arguments.
fn chain_parts(kind: ChainKind, e: &Expr, chain: &Vec<&Expr>) -> (r: (Doc, Vec<Link>))
    requires
        derefs(chain@) == spine(kind, *e),
        descend(kind, *e) is Some,
    ensures
        (r.0@, links_v(r.1@)) == parts(kind, *e),
    decreases e, 0nat,
{
    let ghost sp = spine(kind, *e);
    proof {
        lemma_spine_unfold(kind, *e);
        lemma_spine_unfold(kind, descend(kind, *e)->Some_0);
        reveal_strlit(".");
        assert("."@ =~= seq!['.']);
    }
    let n = chain.len();
    assert(derefs(chain@)[n - 1] == *chain@[n - 1]);
    proof {
        lemma_spine_inside(kind, *e, n - 1);
        lemma_spine_links(kind, *e, n - 1);
        lemma_parts_unfold(kind, sp[n - 1]);
    }
    let mut root = convert_expr(chain[n - 1]);
    let mut links: Vec<Link> = Vec::new();
    assert(links_v(links@) =~= Seq::<(Seq<char>, DocV)>::empty());
    let mut i: usize = n - 1;
    while i > 0
        invariant
            n == chain@.len(),
            sp == derefs(chain@),
            sp == spine(kind, *e),
            sp[0] == *e,
            i < n,
            (root@, links_v(links@)) == parts(kind, sp[i as int]),
            "."@ == seq!['.'],
        decreases i,
    {
        i = i - 1;
        let node = chain[i];
        assert(*node == sp[i as int]);
        proof {
            lemma_spine_links(kind, *e, i as int);
            lemma_parts_unfold(kind, sp[i as int]);
            if i > 0 {
                lemma_spine_inside(kind, *e, i as int);
            }
        }
        let ghost prev = (root@, links_v(links@));
        match node {
            Expr::FieldAccess(_, f) => {
                let link = Link { sep: ".".to_owned(), payload: Doc::Text(f.clone()) };
                assert(link@ == (seq!['.'], text(f@)));
                links.push(link);
                assert(links_v(links@) =~= prev.1.push((seq!['.'], text(f@))));
            },
            Expr::FuncCall(_, args) => {
                let a = convert_args(args);
                if links.len() == 0 {
                    root = cat_doc(root, a);
                } else {
                    let last = links.pop().unwrap();
                    links.push(Link { sep: last.sep, payload: cat_doc(last.payload, a) });
                    assert(links_v(links@) =~= attach(prev, a@).1);
                }
            },
            Expr::Binary(op, _, rhs) => {
                let payload = convert_expr(rhs);
                links.push(Link { sep: op.as_str().to_owned(), payload });
                assert(links_v(links@) =~= prev.1.push((op_str(*op), expr_doc(**rhs))));
            },
            _ => {},
        }
    }
    (root, links)
}

/// Renders a member-access / call spine as one chain.
pub fn convert_dot_chain(e: &Expr) -> (d: Doc)
    requires
        e is FieldAccess || e is FuncCall,
    ensures
        d@ == expr_doc(*e),
    decreases e, 1nat,
{
    let chain = resolve_dot_chain(e);
    let (root, links) = chain_parts(ChainKind::Dot, e, &chain);
    print_chain(root, links, ChainStyle { break_single: true, space_around_separator: false })
}

/// Renders a run of binary operators of one precedence as one chain.
pub fn convert_binary_chain(e: &Expr) -> (d: Doc)
    requires
        e is Binary,
    ensures
        d@ == expr_doc(*e),
    decreases e, 1nat,
{
    let chain = resolve_binary_chain(e);
    let kind = match e {
        Expr::Binary(op, _, _) => ChainKind::Binary(op.precedence()),
        _ => ChainKind::Dot,
    };
    let (root, links) = chain_parts(kind, e, &chain);
    print_chain(root, links, ChainStyle { break_single: false, space_around_separator: true })
}

/// Renders a field access: as a chain in code, else as target, `.`, field.
pub fn convert_field_access(e: &Expr, in_code: bool) -> (d: Doc)
    requires
        e is FieldAccess,
    ensures
        in_code ==> d@ == expr_doc(*e),
        !in_code ==> d@ == cat(
            expr_doc(*e->FieldAccess_0),
            cat(text(seq!['.']), text(e->FieldAccess_1@)),
        ),
{
    if in_code {
        return convert_dot_chain(e);
    }
    match e {
        Expr::FieldAccess(t, f) => {
            proof {
                reveal_strlit(".");
                assert("."@ =~= seq!['.']);
            }
            cat_doc(convert_expr(t), cat_doc(text_doc("."), Doc::Text(f.clone())))
        },
        _ => Doc::Nil,
    }
}

} // verus!
