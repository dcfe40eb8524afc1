use code_chain::doc::Doc;
use code_chain::printer::{convert_binary_chain, convert_dot_chain, convert_field_access};
use code_chain::render::format_expr;
use code_chain::resolve::{resolve, resolve_binary_chain, resolve_dot_chain, ChainKind};
use code_chain::syntax::Expr;
use typst_syntax::ast::BinOp;
use typst_syntax::{SyntaxKind, SyntaxNode};

fn atom(s: &str) -> Expr {
    Expr::Atom(s.to_string())
}

fn field(t: Expr, f: &str) -> Expr {
    Expr::FieldAccess(Box::new(t), f.to_string())
}

fn call(c: Expr, args: Vec<Expr>) -> Expr {
    Expr::FuncCall(Box::new(c), args)
}

fn bin(op: BinOp, l: Expr, r: Expr) -> Expr {
    Expr::Binary(op, Box::new(l), Box::new(r))
}

fn is_atom(e: &Expr, s: &str) -> bool {
    matches!(e, Expr::Atom(x) if x == s)
}

fn syntax_kinds(node: &SyntaxNode, out: &mut Vec<SyntaxKind>) {
    if node.kind().is_trivia() {
        return;
    }
    out.push(node.kind());
    for child in node.children() {
        syntax_kinds(child, out);
    }
}

fn parsed_shape(code: &str) -> Vec<SyntaxKind> {
    let mut out = Vec::new();
    syntax_kinds(&typst_syntax::parse_code(code), &mut out);
    out
}

// a.b().c(d)
fn mixed_dot_chain() -> Expr {
    call(field(call(field(atom("a"), "b"), vec![]), "c"), vec![atom("d")])
}

#[test]
fn dot_chain_flat_then_broken() {
    let e = field(field(atom("a"), "b"), "c");
    assert_eq!(format_expr(&e, 80), "a.b.c");
    assert_eq!(format_expr(&e, 1), "a\n  .b\n  .c");
}

#[test]
fn call_folds_into_previous_link() {
    let e = mixed_dot_chain();
    let chain = resolve_dot_chain(&e);
    assert_eq!(chain.len(), 5);
    assert!(matches!(chain[0], Expr::FuncCall(..)));
    assert!(matches!(chain[1], Expr::FieldAccess(_, f) if f == "c"));
    assert!(matches!(chain[2], Expr::FuncCall(..)));
    assert!(matches!(chain[3], Expr::FieldAccess(_, f) if f == "b"));
    assert!(is_atom(chain[4], "a"));
    assert_eq!(format_expr(&e, 80), "a.b().c(d)");
    assert_eq!(format_expr(&e, 3), "a\n  .b()\n  .c(d)");
}

#[test]
fn same_precedence_run_is_one_chain() {
    let e = bin(BinOp::Sub, bin(BinOp::Add, atom("a"), atom("b")), atom("c"));
    let chain = resolve_binary_chain(&e);
    assert_eq!(chain.len(), 3);
    assert!(is_atom(chain[2], "a"));
    assert_eq!(format_expr(&e, 80), "a + b - c");
    assert_eq!(format_expr(&e, 4), "a\n  + b\n  - c");
}

#[test]
fn higher_precedence_operand_stays_a_leaf() {
    let e = bin(BinOp::Add, atom("a"), bin(BinOp::Mul, atom("b"), atom("c")));
    let chain = resolve_binary_chain(&e);
    assert_eq!(chain.len(), 2);
    assert!(is_atom(chain[1], "a"));
    assert_eq!(format_expr(&e, 80), "a + b * c");
    assert_eq!(format_expr(&e, 1), "a\n  + b\n    * c");
}

#[test]
fn lower_precedence_lhs_is_the_root() {
    let e = bin(BinOp::Add, bin(BinOp::Mul, atom("a"), atom("b")), atom("c"));
    assert_eq!(resolve_binary_chain(&e).len(), 2);
    assert_eq!(format_expr(&e, 80), "a * b + c");
}

#[test]
fn single_access_never_breaks() {
    let e = field(atom("alpha"), "beta");
    assert_eq!(format_expr(&e, 1), "alpha.beta");
    assert_eq!(format_expr(&e, 0), "alpha.beta");
}

#[test]
fn single_binary_may_break() {
    let e = bin(BinOp::Add, atom("alpha"), atom("beta"));
    assert_eq!(format_expr(&e, 80), "alpha + beta");
    assert_eq!(format_expr(&e, 3), "alpha\n  + beta");
}

#[test]
fn dot_separator_has_no_space() {
    let e = call(field(field(atom("x"), "y"), "z"), vec![atom("1"), atom("2")]);
    let flat = format_expr(&e, 80);
    assert_eq!(flat, "x.y.z(1, 2)");
    assert!(!flat.contains(" ."));
    assert!(!flat.contains(". "));
    assert_eq!(format_expr(&e, 2), "x\n  .y\n  .z(1, 2)");
}

#[test]
fn operator_has_one_space_each_side() {
    let e = bin(
        BinOp::Or,
        bin(BinOp::Or, atom("p"), atom("q")),
        atom("r"),
    );
    assert_eq!(format_expr(&e, 80), "p or q or r");
    assert_eq!(format_expr(&e, 2), "p\n  or q\n  or r");
}

#[test]
fn resolving_root_again_gives_one_node() {
    let e = mixed_dot_chain();
    let chain = resolve_dot_chain(&e);
    let root = chain[chain.len() - 1];
    assert_eq!(resolve_dot_chain(root).len(), 1);
    let b = bin(BinOp::Sub, bin(BinOp::Add, atom("a"), atom("b")), atom("c"));
    let chain = resolve_binary_chain(&b);
    let root = chain[chain.len() - 1];
    assert_eq!(resolve(ChainKind::Binary(5), root).len(), 1);
}

#[test]
fn non_chain_start_resolves_to_itself() {
    let e = atom("a");
    assert_eq!(resolve_dot_chain(&e).len(), 1);
    let p = Expr::Paren(Box::new(field(atom("a"), "b")));
    assert_eq!(resolve_dot_chain(&p).len(), 1);
    assert_eq!(resolve(ChainKind::Binary(6), &bin(BinOp::Add, atom("a"), atom("b"))).len(), 1);
}

#[test]
fn flat_output_parses_like_input() {
    let cases = vec![
        ("a.b().c(d)", mixed_dot_chain()),
        (
            "a + b * c",
            bin(BinOp::Add, atom("a"), bin(BinOp::Mul, atom("b"), atom("c"))),
        ),
        (
            "(a + b).c(x, y - z)",
            call(
                field(
                    Expr::Paren(Box::new(bin(BinOp::Add, atom("a"), atom("b")))),
                    "c",
                ),
                vec![atom("x"), bin(BinOp::Sub, atom("y"), atom("z"))],
            ),
        ),
        (
            "a = b == c",
            bin(BinOp::Assign, atom("a"), bin(BinOp::Eq, atom("b"), atom("c"))),
        ),
    ];
    for (source, e) in cases {
        let out = format_expr(&e, 80);
        assert_eq!(out, source);
        assert_eq!(parsed_shape(&out), parsed_shape(source));
    }
}

#[test]
fn call_without_access_stays_flat() {
    let e = call(atom("f"), vec![atom("x"), atom("y")]);
    assert_eq!(format_expr(&e, 1), "f(x, y)");
    let none = call(atom("g"), vec![]);
    assert_eq!(format_expr(&none, 1), "g()");
}

#[test]
fn right_operand_chain_nests_deeper() {
    let inner = field(field(atom("u"), "v"), "w");
    let e = bin(BinOp::Add, bin(BinOp::Add, atom("a"), atom("b")), inner);
    assert_eq!(format_expr(&e, 80), "a + b + u.v.w");
    assert_eq!(format_expr(&e, 1), "a\n  + b\n  + u\n    .v\n    .w");
}

#[test]
fn field_access_outside_code_is_plain() {
    let e = field(field(atom("a"), "b"), "c");
    match convert_field_access(&e, false) {
        Doc::Cat(_, rest) => match *rest {
            Doc::Cat(dot, name) => {
                assert!(matches!(*dot, Doc::Text(ref s) if s == "."));
                assert!(matches!(*name, Doc::Text(ref s) if s == "c"));
            }
            _ => panic!("field not appended"),
        },
        _ => panic!("not a concatenation"),
    }
    assert!(matches!(convert_field_access(&e, true), Doc::Cat(_, ref g) if matches!(**g, Doc::Group(_))));
}

#[test]
fn chain_entry_points_agree_with_format() {
    let e = field(field(atom("a"), "b"), "c");
    assert!(matches!(convert_dot_chain(&e), Doc::Cat(..)));
    let b = bin(BinOp::Add, atom("a"), atom("b"));
    match convert_binary_chain(&b) {
        Doc::Cat(root, rest) => {
            assert!(matches!(*root, Doc::Text(ref s) if s == "a"));
            assert!(matches!(*rest, Doc::Group(_)));
        }
        _ => panic!("not a concatenation"),
    }
}
