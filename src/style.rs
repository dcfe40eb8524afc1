use crate::doc::{cat, cat_doc, text, text_doc, Doc, DocV, INDENT};
use vstd::prelude::*;

verus! {

/// How one kind of chain is laid out.
#[derive(Clone, Copy)]
pub struct ChainStyle {
    /// A chain of a single visible link is always printed flat.
    pub break_single: bool,
    /// The separator is surrounded by one space on each side.
    pub space_around_separator: bool,
}

/// A visible link, rendered: its separator and what follows it.
pub struct Link {
    pub sep: String,
    pub payload: Doc,
}

impl View for Link {
    type V = (Seq<char>, DocV);

    open spec fn view(&self) -> (Seq<char>, DocV) {
        (self.sep@, self.payload@)
    }
}

pub open spec fn links_v(ls: Seq<Link>) -> Seq<(Seq<char>, DocV)> {
    ls.map_values(|l: Link| l@)
}

/// The text set around a separator: one space, or nothing.
pub open spec fn pad(style: ChainStyle) -> Seq<char> {
    if style.space_around_separator {
        seq![' ']
    } else {
        seq![]
    }
}

/// What precedes a link's separator: a break point where the chain may break,
/// else plain padding.
pub open spec fn lead(style: ChainStyle, breakable: bool) -> DocV {
    if !breakable {
        text(pad(style))
    } else if style.space_around_separator {
        DocV::Line
    } else {
        DocV::SoftLine
    }
}

pub open spec fn link_doc(l: (Seq<char>, DocV), style: ChainStyle, breakable: bool) -> DocV {
    cat(lead(style, breakable), cat(text(l.0), cat(text(pad(style)), l.1)))
}

pub open spec fn links_doc(ls: Seq<(Seq<char>, DocV)>, style: ChainStyle, breakable: bool) -> DocV
    decreases ls.len(),
{
    if ls.len() == 0 {
        DocV::Nil
    } else {
        cat(link_doc(ls[0], style, breakable), links_doc(ls.drop_first(), style, breakable))
    }
}

/// Whether a chain of `n` visible links is offered in flat form only.
pub open spec fn stays_flat(n: nat, style: ChainStyle) -> bool {
    n == 0 || (n == 1 && style.break_single)
}

/// The document of a chain: the root, then each link; either flat only, or
/// as a group that breaks before every link and indents the links one level.
pub open spec fn chain_doc(root: DocV, ls: Seq<(Seq<char>, DocV)>, style: ChainStyle) -> DocV {
    if stays_flat(ls.len(), style) {
        cat(root, links_doc(ls, style, false))
    } else {
        cat(
            root,
            DocV::Group(Box::new(DocV::Nest(INDENT as nat, Box::new(links_doc(ls, style, true))))),
        )
    }
}

fn pad_doc(style: ChainStyle) -> (d: Doc)
    ensures
        d@ == text(pad(style)),
{
    if style.space_around_separator {
        proof {
            reveal_strlit(" ");
            assert(" "@ =~= seq![' ']);
        }
        text_doc(" ")
    } else {
        proof {
            reveal_strlit("");
            assert(""@ =~= Seq::<char>::empty());
        }
        text_doc("")
    }
}

fn lead_doc(style: ChainStyle, breakable: bool) -> (d: Doc)
    ensures
        d@ == lead(style, breakable),
{
    if !breakable {
        pad_doc(style)
    } else if style.space_around_separator {
        Doc::Line
    } else {
        Doc::SoftLine
    }
}

/// Lays out a chain from its rendered root and its visible links, outermost last.
pub fn print_chain(root: Doc, links: Vec<Link>, style: ChainStyle) -> (d: Doc)
    ensures
        d@ == chain_doc(root@, links_v(links@), style),
{
    let ghost ls = links_v(links@);
    let ghost n = links@.len();
    let flat_only = links.len() == 0 || (links.len() == 1 && style.break_single);
    let breakable = !flat_only;
    let mut links = links;
    let mut acc = Doc::Nil;
    while links.len() > 0
        invariant
            ls.len() == n,
            links@.len() <= n,
            links_v(links@) =~= ls.subrange(0, links@.len() as int),
            acc@ == links_doc(ls.subrange(links@.len() as int, n as int), style, breakable),
        decreases links.len(),
    {
        let ghost k = links@.len() as int;
        let ghost before = links@;
        let l = links.pop().unwrap();
        assert(links_v(before)[k - 1] == ls[k - 1]);
        assert(links_v(links@) =~= ls.subrange(0, links@.len() as int));
        assert(ls.subrange(k - 1, n as int).drop_first() =~= ls.subrange(k, n as int));
        let part = cat_doc(lead_doc(style, breakable), cat_doc(Doc::Text(l.sep), cat_doc(pad_doc(style), l.payload)));
        acc = cat_doc(part, acc);
    }
    assert(ls.subrange(0, n as int) =~= ls);
    assert(stays_flat(ls.len(), style) == flat_only);
    if flat_only {
        cat_doc(root, acc)
    } else {
        let nest = Doc::Nest(INDENT, Box::new(acc));
        assert(nest@ == DocV::Nest(INDENT as nat, Box::new(acc@)));
        let group = Doc::Group(Box::new(nest));
        assert(group@ == DocV::Group(Box::new(nest@)));
        cat_doc(root, group)
    }
}

} // verus!
