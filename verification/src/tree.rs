//! The unbound syntax tree produced by parsing: ordered sequences of
//! text, tag, optional-block and function-call items, with no semantic
//! knowledge of functions yet.  Every sub-expression is exclusively owned
//! by its parent node.

use vstd::prelude::*;

verus! {

/// Ghost counterpart of an [`Item`].  An expression is a sequence of
/// items; an argument list is a sequence of expressions.
pub ghost enum GItem {
    Text { text: Seq<char> },
    Tag { key: Seq<char> },
    Optional { inner: Seq<GItem> },
    Call { name: Seq<char>, args: Seq<Seq<GItem>> },
}

/// A formatting expression: an ordered sequence of items.
pub struct Expression {
    pub items: Vec<Item>,
}

/// One component of a formatting expression.
pub enum Item {
    /// Simple text.
    Text(String),
    /// A metadata tag, written `%tag_name%` in a pattern.
    Tag(String),
    /// An optional sub-expression, written `[...]` in a pattern; it
    /// renders as the empty string unless some tag inside it was found.
    OptionalExpr(Box<Expression>),
    /// A function call, written `$name(arg, ...)` in a pattern.
    Function(FunctionCall),
}

/// A parsed function call: the (not yet resolved) name and the argument
/// sub-expressions.
pub struct FunctionCall {
    pub name: String,
    pub arguments: Vec<Expression>,
}

pub open spec fn items_view(items: Seq<Item>) -> Seq<GItem>
    decreases items,
{
    if items.len() == 0 {
        Seq::empty()
    } else {
        items_view(items.drop_last()).push(item_view(items.last()))
    }
}

pub open spec fn expr_view(e: Expression) -> Seq<GItem>
    decreases e,
{
    items_view(e.items@)
}

pub open spec fn exprs_view(es: Seq<Expression>) -> Seq<Seq<GItem>>
    decreases es,
{
    if es.len() == 0 {
        Seq::empty()
    } else {
        exprs_view(es.drop_last()).push(expr_view(es.last()))
    }
}

pub open spec fn item_view(it: Item) -> GItem
    decreases it,
{
    match it {
        Item::Text(s) => GItem::Text { text: s@ },
        Item::Tag(s) => GItem::Tag { key: s@ },
        Item::OptionalExpr(e) => GItem::Optional { inner: expr_view(*e) },
        Item::Function(fc) => GItem::Call { name: fc.name@, args: exprs_view(fc.arguments@) },
    }
}

impl View for Item {
    type V = GItem;

    open spec fn view(&self) -> GItem {
        item_view(*self)
    }
}

impl View for Expression {
    type V = Seq<GItem>;

    open spec fn view(&self) -> Seq<GItem> {
        expr_view(*self)
    }
}

/// Appending an item on the right extends the view on the right.
pub broadcast proof fn lemma_items_view_push(items: Seq<Item>, it: Item)
    ensures
        #[trigger] items_view(items.push(it)) == items_view(items).push(item_view(it)),
{
    assert(items.push(it).drop_last() =~= items);
    assert(items.push(it).last() == it);
}

/// Appending an expression on the right extends the view on the right.
pub broadcast proof fn lemma_exprs_view_push(es: Seq<Expression>, e: Expression)
    ensures
        #[trigger] exprs_view(es.push(e)) == exprs_view(es).push(expr_view(e)),
{
    assert(es.push(e).drop_last() =~= es);
    assert(es.push(e).last() == e);
}

/// The view of a sequence of items has the same length, element by
/// element.
pub proof fn lemma_items_view_len(items: Seq<Item>)
    ensures
        items_view(items).len() == items.len(),
    decreases items,
{
    if items.len() > 0 {
        lemma_items_view_len(items.drop_last());
    }
}

pub proof fn lemma_exprs_view_len(es: Seq<Expression>)
    ensures
        exprs_view(es).len() == es.len(),
    decreases es,
{
    if es.len() > 0 {
        lemma_exprs_view_len(es.drop_last());
    }
}

pub proof fn lemma_items_view_index(items: Seq<Item>, i: int)
    requires
        0 <= i < items.len(),
    ensures
        items_view(items).len() == items.len(),
        items_view(items)[i] == item_view(items[i]),
    decreases items,
{
    lemma_items_view_len(items);
    if i < items.len() - 1 {
        lemma_items_view_index(items.drop_last(), i);
    }
}

pub proof fn lemma_exprs_view_index(es: Seq<Expression>, i: int)
    requires
        0 <= i < es.len(),
    ensures
        exprs_view(es).len() == es.len(),
        exprs_view(es)[i] == expr_view(es[i]),
    decreases es,
{
    lemma_exprs_view_len(es);
    if i < es.len() - 1 {
        lemma_exprs_view_index(es.drop_last(), i);
    }
}

} // verus!
