//! The syntax tree that the reader produces.

use vstd::prelude::*;

verus! {

/// A node of the syntax tree. A tree is built once by the reader and never
/// changed afterwards.
#[derive(Debug, PartialEq)]
pub enum AST {
    /// An integer literal.
    Integer(i64),
    /// A float literal, as it was written. It is given its value where it is
    /// evaluated.
    Float(String),
    /// A symbol, by its text.
    Symbol(String),
    /// A parenthesised list of forms, in the order in which they were written.
    Children(Vec<AST>),
}

/// A syntax tree as a mathematical value.
pub enum AstView {
    Integer(i64),
    Float(Seq<char>),
    Symbol(Seq<char>),
    Children(Seq<AstView>),
}

/// The mathematical value of a tree.
pub open spec fn ast_view(node: AST) -> AstView
    decreases node, 0int,
{
    match node {
        AST::Integer(i) => AstView::Integer(i),
        AST::Float(text) => AstView::Float(text@),
        AST::Symbol(s) => AstView::Symbol(s@),
        AST::Children(items) => AstView::Children(ast_views_upto(items@, items@.len() as int)),
    }
}

/// The mathematical values of the first `k` trees of a sequence.
pub open spec fn ast_views_upto(items: Seq<AST>, k: int) -> Seq<AstView>
    decreases items, k,
{
    if k <= 0 || k > items.len() {
        Seq::empty()
    } else {
        ast_views_upto(items, k - 1).push(ast_view(items[k - 1]))
    }
}

impl View for AST {
    type V = AstView;

    open spec fn view(&self) -> AstView {
        ast_view(*self)
    }
}

/// The mathematical values of a sequence of trees.
pub open spec fn ast_views(items: Seq<AST>) -> Seq<AstView> {
    Seq::new(items.len(), |i: int| items[i]@)
}

proof fn lemma_ast_views_upto(items: Seq<AST>, k: int)
    requires
        0 <= k <= items.len(),
    ensures
        ast_views_upto(items, k) == ast_views(items.take(k)),
    decreases k,
{
    if k > 0 {
        lemma_ast_views_upto(items, k - 1);
        assert(ast_views(items.take(k - 1)).push(items[k - 1]@) =~= ast_views(items.take(k)));
    } else {
        assert(ast_views(items.take(k)) =~= Seq::<AstView>::empty());
    }
}

/// The value of a list node is the list of the values of its items.
pub proof fn lemma_children_view(items: Vec<AST>)
    ensures
        AST::Children(items)@ == AstView::Children(ast_views(items@)),
{
    lemma_ast_views_upto(items@, items@.len() as int);
    assert(items@.take(items@.len() as int) =~= items@);
}

} // verus!
