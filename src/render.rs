use crate::doc::{flat, has_break, Doc, DocV};
use crate::laws::lemma_flat_is_source;
use crate::printer::{convert_expr, expr_doc};
use crate::syntax::{expr_text, Expr};
use pretty::RcDoc;
use vstd::prelude::*;

verus! {

#[verifier::external_type_specification]
#[verifier::external_body]
#[verifier::reject_recursive_types(A)]
pub struct ExRcDoc<'a, A>(RcDoc<'a, A>);

/// Relies on pretty's `RcDoc` constructors (`nil`, `text`, `append`, `line`,
/// `line_`, `nest`, `group`): one primitive for each variant of [`Doc`].
#[verifier::external_body]
fn to_pretty(d: &Doc) -> RcDoc<'static, ()> {
    match d {
        Doc::Nil => RcDoc::nil(),
        Doc::Text(s) => RcDoc::text(s.clone()),
        Doc::Cat(a, b) => to_pretty(a).append(to_pretty(b)),
        Doc::Line => RcDoc::line(),
        Doc::SoftLine => RcDoc::line_(),
        Doc::Nest(n, x) => to_pretty(x).nest(*n as isize),
        Doc::Group(x) => to_pretty(x).group(),
    }
}

/// What the renderer prints for a document within a line width.
pub uninterp spec fn rendered(d: DocV, width: nat) -> Seq<char>;

/// Relies on pretty's `Doc::render_fmt`: lays the document out within
/// `width` columns, each group flat where it fits. It writes text verbatim and
/// starts a new line only at a break point, so a document without one comes
/// out flat at any width.
#[verifier::external_body]
fn render_doc(d: &Doc, width: usize) -> (r: String)
    ensures
        r@ == rendered(d@, width as nat),
        !has_break(d@) ==> r@ == flat(d@),
{
    let mut out = String::new();
    to_pretty(d).render_fmt(width, &mut out).unwrap();
    out
}

/// Formats an expression within `width` columns. What carries no break
/// point comes out as its source text.
pub fn format_expr(e: &Expr, width: usize) -> (r: String)
    ensures
        r@ == rendered(expr_doc(*e), width as nat),
        !has_break(expr_doc(*e)) ==> r@ == expr_text(*e),
{
    let d = convert_expr(e);
    proof {
        lemma_flat_is_source(*e);
    }
    render_doc(&d, width)
}

} // verus!
