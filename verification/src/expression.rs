//! The bound tree and its evaluator.  A bound tree is structurally the
//! unbound tree with every function name resolved to a registry entry;
//! arguments stay unevaluated, so a function decides which of them to
//! evaluate.  Evaluating a node yields `(text, truth)`; the truth flag is
//! the logical OR over a sequence, and an optional block collapses to the
//! empty string when its body's truth is false.

use vstd::prelude::*;
use crate::function::{Error, FuncKind, Function, spec_arity, arity};
use crate::metadata::Provider;
use crate::numeric::{dec_digits, operand_value, parse_operand, render_dec, sat_sum,
    sat_sum_exec};
use crate::value::{Evaluation, GEval, Value, value_text};

verus! {

/// Ghost counterpart of a [`BoundItem`].
pub ghost enum GBItem {
    Text { text: Seq<char> },
    Tag { key: Seq<char> },
    Optional { inner: Seq<GBItem> },
    Call { kind: FuncKind, args: Seq<Seq<GBItem>> },
}

/// A bound formatting expression: an ordered sequence of bound items.
/// Immutable after construction; it may be evaluated repeatedly against
/// different metadata instances.
pub struct BoundExpression {
    pub items: Vec<BoundItem>,
}

/// One component of a bound formatting expression.
pub enum BoundItem {
    /// Simple text.
    Text(String),
    /// A metadata tag.
    Tag(String),
    /// An optional sub-expression.
    OptionalExpr(Box<BoundExpression>),
    /// A function call with its resolved function.
    Function(BoundFunctionCall),
}

/// A resolved function call: the function and the unevaluated argument
/// sub-expressions.
pub struct BoundFunctionCall {
    pub function: Function,
    pub arguments: Vec<BoundExpression>,
}

pub open spec fn bitems_view(items: Seq<BoundItem>) -> Seq<GBItem>
    decreases items,
{
    if items.len() == 0 {
        Seq::empty()
    } else {
        bitems_view(items.drop_last()).push(bitem_view(items.last()))
    }
}

pub open spec fn bexpr_view(e: BoundExpression) -> Seq<GBItem>
    decreases e,
{
    bitems_view(e.items@)
}

pub open spec fn bexprs_view(es: Seq<BoundExpression>) -> Seq<Seq<GBItem>>
    decreases es,
{
    if es.len() == 0 {
        Seq::empty()
    } else {
        bexprs_view(es.drop_last()).push(bexpr_view(es.last()))
    }
}

pub open spec fn bitem_view(it: BoundItem) -> GBItem
    decreases it,
{
    match it {
        BoundItem::Text(s) => GBItem::Text { text: s@ },
        BoundItem::Tag(s) => GBItem::Tag { key: s@ },
        BoundItem::OptionalExpr(e) => GBItem::Optional { inner: bexpr_view(*e) },
        BoundItem::Function(fc) => GBItem::Call {
            kind: fc.function.spec_kind(),
            args: bexprs_view(fc.arguments@),
        },
    }
}

impl View for BoundItem {
    type V = GBItem;

    open spec fn view(&self) -> GBItem {
        bitem_view(*self)
    }
}

impl View for BoundExpression {
    type V = Seq<GBItem>;

    open spec fn view(&self) -> Seq<GBItem> {
        bexpr_view(*self)
    }
}

pub broadcast proof fn lemma_bitems_view_push(items: Seq<BoundItem>, it: BoundItem)
    ensures
        #[trigger] bitems_view(items.push(it)) == bitems_view(items).push(bitem_view(it)),
{
    assert(items.push(it).drop_last() =~= items);
    assert(items.push(it).last() == it);
}

pub broadcast proof fn lemma_bexprs_view_push(es: Seq<BoundExpression>, e: BoundExpression)
    ensures
        #[trigger] bexprs_view(es.push(e)) == bexprs_view(es).push(bexpr_view(e)),
{
    assert(es.push(e).drop_last() =~= es);
    assert(es.push(e).last() == e);
}

pub proof fn lemma_bitems_view_len(items: Seq<BoundItem>)
    ensures
        bitems_view(items).len() == items.len(),
    decreases items,
{
    if items.len() > 0 {
        lemma_bitems_view_len(items.drop_last());
    }
}

pub proof fn lemma_bexprs_view_len(es: Seq<BoundExpression>)
    ensures
        bexprs_view(es).len() == es.len(),
    decreases es,
{
    if es.len() > 0 {
        lemma_bexprs_view_len(es.drop_last());
    }
}

pub proof fn lemma_bitems_view_index(items: Seq<BoundItem>, i: int)
    requires
        0 <= i < items.len(),
    ensures
        bitems_view(items).len() == items.len(),
        bitems_view(items)[i] == bitem_view(items[i]),
    decreases items,
{
    lemma_bitems_view_len(items);
    if i < items.len() - 1 {
        lemma_bitems_view_index(items.drop_last(), i);
    }
}

pub proof fn lemma_bexprs_view_index(es: Seq<BoundExpression>, i: int)
    requires
        0 <= i < es.len(),
    ensures
        bexprs_view(es).len() == es.len(),
        bexprs_view(es)[i] == bexpr_view(es[i]),
    decreases es,
{
    lemma_bexprs_view_len(es);
    if i < es.len() - 1 {
        lemma_bexprs_view_index(es.drop_last(), i);
    }
}

/// Well-formedness of a bound tree: every function call carries exactly
/// as many arguments as its function requires.  Binding establishes this;
/// evaluation relies on it.
pub open spec fn wf_items(items: Seq<GBItem>) -> bool
    decreases items,
{
    items.len() == 0 || (wf_item(items[0]) && wf_items(items.drop_first()))
}

pub open spec fn wf_item(it: GBItem) -> bool
    decreases it,
{
    match it {
        GBItem::Text { .. } => true,
        GBItem::Tag { .. } => true,
        GBItem::Optional { inner } => wf_items(inner),
        GBItem::Call { kind, args } => args.len() == spec_arity(kind) && wf_args(args),
    }
}

pub open spec fn wf_args(args: Seq<Seq<GBItem>>) -> bool
    decreases args,
{
    args.len() == 0 || (wf_items(args[0]) && wf_args(args.drop_first()))
}

pub proof fn lemma_wf_items_index(items: Seq<GBItem>, i: int)
    requires
        wf_items(items),
        0 <= i < items.len(),
    ensures
        wf_item(items[i]),
    decreases i,
{
    if i > 0 {
        lemma_wf_items_index(items.drop_first(), i - 1);
    }
}

pub proof fn lemma_wf_args_index(args: Seq<Seq<GBItem>>, i: int)
    requires
        wf_args(args),
        0 <= i < args.len(),
    ensures
        wf_items(args[i]),
    decreases i,
{
    if i > 0 {
        lemma_wf_args_index(args.drop_first(), i - 1);
    }
}

/// The placeholder emitted for a missing tag.
pub open spec fn placeholder() -> Seq<char> {
    seq!['?']
}

/// Sequence evaluation: texts concatenate in document order; truth is the
/// logical OR across the items.
pub open spec fn spec_eval_items(items: Seq<GBItem>, md: Map<Seq<char>, Seq<char>>) -> GEval
    decreases items, 0nat,
{
    if items.len() == 0 {
        GEval { text: Seq::empty(), truth: false }
    } else {
        let head = spec_eval_item(items[0], md);
        let rest = spec_eval_items(items.drop_first(), md);
        GEval { text: head.text + rest.text, truth: head.truth || rest.truth }
    }
}

/// Evaluation of a single node.
pub open spec fn spec_eval_item(it: GBItem, md: Map<Seq<char>, Seq<char>>) -> GEval
    decreases it, 1nat,
{
    match it {
        GBItem::Text { text } => GEval { text, truth: false },
        GBItem::Tag { key } => if md.contains_key(key) {
            GEval { text: md[key], truth: true }
        } else {
            GEval { text: placeholder(), truth: false }
        },
        GBItem::Optional { inner } => {
            let r = spec_eval_items(inner, md);
            if r.truth {
                r
            } else {
                GEval { text: Seq::empty(), truth: false }
            }
        },
        GBItem::Call { kind, args } => spec_eval_call(kind, args, md),
    }
}

/// Evaluation of a resolved call.  `If2` evaluates its first argument
/// and returns it unchanged when its truth is true; only otherwise is the
/// second argument evaluated, and returned unchanged.  The fallback arm
/// for an argument count the binder would have rejected is never reached
/// on a well-formed tree.
pub open spec fn spec_eval_call(
    kind: FuncKind,
    args: Seq<Seq<GBItem>>,
    md: Map<Seq<char>, Seq<char>>,
) -> GEval
    decreases args, 2nat,
{
    match kind {
        FuncKind::If2 => if args.len() == 2 {
            let a = spec_eval_items(args[0], md);
            if a.truth {
                a
            } else {
                spec_eval_items(args[1], md)
            }
        } else {
            GEval { text: Seq::empty(), truth: false }
        },
        FuncKind::Add => if args.len() == 2 {
            let a = spec_eval_items(args[0], md);
            let b = spec_eval_items(args[1], md);
            GEval {
                text: dec_digits(sat_sum(operand_value(a.text), operand_value(b.text))),
                truth: a.truth || b.truth,
            }
        } else {
            GEval { text: Seq::empty(), truth: false }
        },
    }
}

/// Evaluate a sequence of bound items left to right.
fn eval_items<T: Provider>(items: &Vec<BoundItem>, provider: &T) -> (r: Evaluation)
    requires
        wf_items(bitems_view(items@)),
    ensures
        r@ == spec_eval_items(bitems_view(items@), provider.spec_map()),
    decreases items, 1nat,
{
    let ghost md = provider.spec_map();
    let ghost gitems = bitems_view(items@);
    let n = items.len();
    let mut text = String::new();
    let mut truth = false;
    let mut i: usize = 0;
    proof {
        lemma_bitems_view_len(items@);
        assert(gitems.skip(0) =~= gitems);
        assert(text@ + spec_eval_items(gitems, md).text =~= spec_eval_items(gitems, md).text);
    }
    while i < n
        invariant
            n == items@.len(),
            0 <= i <= n,
            gitems == bitems_view(items@),
            gitems.len() == n,
            wf_items(gitems),
            md == provider.spec_map(),
            spec_eval_items(gitems, md).text == text@ + spec_eval_items(gitems.skip(i as int), md).text,
            spec_eval_items(gitems, md).truth == (truth || spec_eval_items(
                gitems.skip(i as int),
                md,
            ).truth),
        decreases n - i,
    {
        proof {
            lemma_bitems_view_index(items@, i as int);
            lemma_wf_items_index(gitems, i as int);
        }
        let ev = eval_item(&items[i], provider);
        proof {
            let rest = gitems.skip(i as int);
            assert(rest[0] == gitems[i as int]);
            assert(rest.drop_first() =~= gitems.skip(i as int + 1));
            assert(spec_eval_items(rest, md).text == spec_eval_item(rest[0], md).text
                + spec_eval_items(rest.drop_first(), md).text);
            assert((text@ + spec_eval_item(rest[0], md).text) + spec_eval_items(
                gitems.skip(i as int + 1),
                md,
            ).text =~= text@ + spec_eval_items(rest, md).text);
        }
        match &ev.value {
            Value::Text(s) => text.append(s.as_str()),
        }
        truth = truth || ev.truth;
        i = i + 1;
    }
    proof {
        assert(gitems.skip(n as int) =~= Seq::<GBItem>::empty());
        assert(spec_eval_items(gitems, md).text =~= text@);
    }
    Evaluation { value: Value::Text(text), truth }
}

/// Evaluate a single bound item.
fn eval_item<T: Provider>(item: &BoundItem, provider: &T) -> (r: Evaluation)
    requires
        wf_item(bitem_view(*item)),
    ensures
        r@ == spec_eval_item(bitem_view(*item), provider.spec_map()),
    decreases item, 0nat,
{
    match item {
        BoundItem::Text(s) => Evaluation { value: Value::Text(s.clone()), truth: false },
        BoundItem::Tag(key) => match provider.tag_value(key.as_str()) {
            Some(v) => Evaluation { value: Value::Text(v), truth: true },
            None => {
                let t = String::from_str("?");
                proof {
                    reveal_strlit("?");
                    assert(t@ =~= placeholder());
                }
                Evaluation { value: Value::Text(t), truth: false }
            },
        },
        BoundItem::OptionalExpr(inner) => {
            let r = eval_items(&inner.items, provider);
            if r.truth {
                r
            } else {
                Evaluation { value: Value::Text(String::new()), truth: false }
            }
        },
        BoundItem::Function(fc) => {
            proof {
                lemma_bexprs_view_len(fc.arguments@);
            }
            match fc.function.kind() {
                FuncKind::If2 => {
                    proof {
                        lemma_bexprs_view_index(fc.arguments@, 0);
                        lemma_bexprs_view_index(fc.arguments@, 1);
                        lemma_wf_args_index(bexprs_view(fc.arguments@), 0);
                        lemma_wf_args_index(bexprs_view(fc.arguments@), 1);
                    }
                    let a = eval_items(&fc.arguments[0].items, provider);
                    if a.truth {
                        a
                    } else {
                        eval_items(&fc.arguments[1].items, provider)
                    }
                },
                FuncKind::Add => {
                    proof {
                        lemma_bexprs_view_index(fc.arguments@, 0);
                        lemma_bexprs_view_index(fc.arguments@, 1);
                        lemma_wf_args_index(bexprs_view(fc.arguments@), 0);
                        lemma_wf_args_index(bexprs_view(fc.arguments@), 1);
                    }
                    let a = eval_items(&fc.arguments[0].items, provider);
                    let b = eval_items(&fc.arguments[1].items, provider);
                    add_evaluations(&a, &b)
                },
            }
        },
    }
}

/// Combine two argument evaluations numerically: the saturating sum of
/// the operand values, with the OR of the truths.
fn add_evaluations(a: &Evaluation, b: &Evaluation) -> (r: Evaluation)
    ensures
        r@ == (GEval {
            text: dec_digits(sat_sum(operand_value(a@.text), operand_value(b@.text))),
            truth: a@.truth || b@.truth,
        }),
{
    let va = match &a.value {
        Value::Text(s) => parse_operand(s.as_str()),
    };
    let vb = match &b.value {
        Value::Text(s) => parse_operand(s.as_str()),
    };
    let sum = sat_sum_exec(va, vb);
    let mut text = String::new();
    render_dec(sum, &mut text);
    proof {
        assert(text@ =~= dec_digits(sat_sum(operand_value(a@.text), operand_value(b@.text))));
    }
    Evaluation { value: Value::Text(text), truth: a.truth || b.truth }
}

impl BoundExpression {
    /// Evaluate this expression against a metadata instance.  The
    /// result's text is the rendered output; its truth flag is the OR
    /// over the items (discarded by top-level rendering).
    pub fn apply<T: Provider>(&self, provider: &T) -> (r: Evaluation)
        requires
            wf_items(self@),
        ensures
            r@ == spec_eval_items(self@, provider.spec_map()),
    {
        eval_items(&self.items, provider)
    }
}

/// Top-level rendering: evaluate the whole pattern and return its text.
/// Once a pattern is bound, rendering never fails: absent metadata is
/// data, not an error.
pub fn evaluate<T: Provider>(expr: &BoundExpression, provider: &T) -> (r: String)
    requires
        wf_items(expr@),
    ensures
        r@ == spec_eval_items(expr@, provider.spec_map()).text,
{
    expr.apply(provider).to_string()
}

impl Function {
    /// Invoke this function on unevaluated argument expressions.  The
    /// argument count is checked against the function's arity; evaluation
    /// itself cannot fail.
    pub fn apply<T: Provider>(
        &self,
        provider: &T,
        arguments: &Vec<BoundExpression>,
    ) -> (r: Result<Evaluation, Error>)
        requires
            wf_args(bexprs_view(arguments@)),
        ensures
            match r {
                Ok(ev) => arguments@.len() == spec_arity(self.spec_kind()) && ev@
                    == spec_eval_call(
                    self.spec_kind(),
                    bexprs_view(arguments@),
                    provider.spec_map(),
                ),
                Err(e) => arguments@.len() != spec_arity(self.spec_kind()) && e
                    == Error::ArgumentError,
            },
    {
        proof {
            lemma_bexprs_view_len(arguments@);
        }
        if arguments.len() != arity(self.kind()) {
            return Err(Error::ArgumentError);
        }
        match self.kind() {
            FuncKind::If2 => {
                proof {
                    lemma_bexprs_view_index(arguments@, 0);
                    lemma_bexprs_view_index(arguments@, 1);
                    lemma_wf_args_index(bexprs_view(arguments@), 0);
                    lemma_wf_args_index(bexprs_view(arguments@), 1);
                }
                let a = eval_items(&arguments[0].items, provider);
                if a.truth {
                    Ok(a)
                } else {
                    Ok(eval_items(&arguments[1].items, provider))
                }
            },
            FuncKind::Add => {
                proof {
                    lemma_bexprs_view_index(arguments@, 0);
                    lemma_bexprs_view_index(arguments@, 1);
                    lemma_wf_args_index(bexprs_view(arguments@), 0);
                    lemma_wf_args_index(bexprs_view(arguments@), 1);
                }
                let a = eval_items(&arguments[0].items, provider);
                let b = eval_items(&arguments[1].items, provider);
                Ok(add_evaluations(&a, &b))
            },
        }
    }
}

} // verus!
