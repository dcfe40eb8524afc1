use typst_syntax::ast::BinOp;
use vstd::prelude::*;

verus! {

#[verifier::external_type_specification]
pub struct ExBinOp(BinOp);

/// The binding strength of a binary operator, as the parser defines it.
pub open spec fn prec(op: BinOp) -> u8 {
    match op {
        BinOp::Mul | BinOp::Div => 6,
        BinOp::Add | BinOp::Sub => 5,
        BinOp::Eq | BinOp::Neq | BinOp::Lt | BinOp::Leq | BinOp::Gt | BinOp::Geq | BinOp::In
        | BinOp::NotIn => 4,
        BinOp::And => 3,
        BinOp::Or => 2,
        BinOp::Assign | BinOp::AddAssign | BinOp::SubAssign | BinOp::MulAssign
        | BinOp::DivAssign => 1,
    }
}

/// Relies on typst_syntax's `BinOp::precedence`: a fixed table per operator.
pub assume_specification[ BinOp::precedence ](op: BinOp) -> (r: u8)
    ensures
        r == prec(op),
;

/// The source text of a binary operator.
pub open spec fn op_str(op: BinOp) -> Seq<char> {
    match op {
        BinOp::Add => seq!['+'],
        BinOp::Sub => seq!['-'],
        BinOp::Mul => seq!['*'],
        BinOp::Div => seq!['/'],
        BinOp::And => seq!['a', 'n', 'd'],
        BinOp::Or => seq!['o', 'r'],
        BinOp::Eq => seq!['=', '='],
        BinOp::Neq => seq!['!', '='],
        BinOp::Lt => seq!['<'],
        BinOp::Leq => seq!['<', '='],
        BinOp::Gt => seq!['>'],
        BinOp::Geq => seq!['>', '='],
        BinOp::In => seq!['i', 'n'],
        BinOp::NotIn => seq!['n', 'o', 't', ' ', 'i', 'n'],
        BinOp::Assign => seq!['='],
        BinOp::AddAssign => seq!['+', '='],
        BinOp::SubAssign => seq!['-', '='],
        BinOp::MulAssign => seq!['*', '='],
        BinOp::DivAssign => seq!['/', '='],
    }
}

/// Relies on typst_syntax's `BinOp::as_str`: the operator's source text.
pub assume_specification[ BinOp::as_str ](op: BinOp) -> (r: &'static str)
    ensures
        r@ == op_str(op),
;

/// An expression of code mode, as far as chain layout reads it.
///
/// `Atom` stands for every node that chain logic never looks into
/// (identifiers, literals, ...), held as its source text.
pub enum Expr {
    Atom(String),
    Paren(Box<Expr>),
    FieldAccess(Box<Expr>, String),
    FuncCall(Box<Expr>, Vec<Expr>),
    Binary(BinOp, Box<Expr>, Box<Expr>),
}

/// The canonical one-line source text of an expression.
pub open spec fn expr_text(e: Expr) -> Seq<char>
    decreases e,
{
    match e {
        Expr::Atom(s) => s@,
        Expr::Paren(x) => seq!['('] + expr_text(*x) + seq![')'],
        Expr::FieldAccess(t, f) => expr_text(*t) + seq!['.'] + f@,
        Expr::FuncCall(c, args) => expr_text(*c) + seq!['('] + args_text(args@) + seq![')'],
        Expr::Binary(op, l, r) => expr_text(*l) + seq![' '] + op_str(op) + seq![' '] + expr_text(
            *r,
        ),
    }
}

/// Arguments separated by `, `.
pub open spec fn args_text(args: Seq<Expr>) -> Seq<char>
    decreases args,
{
    if args.len() == 0 {
        seq![]
    } else if args.len() == 1 {
        expr_text(args[0])
    } else {
        expr_text(args[0]) + seq![',', ' '] + args_text(args.drop_first())
    }
}

} // verus!
