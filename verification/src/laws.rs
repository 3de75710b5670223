//! The laws of the truth-propagation algebra and of escaping, stated
//! over the specification-level parser and evaluator and proved once and
//! for all.

use vstd::prelude::*;
use crate::expression::{GBItem, placeholder, spec_eval_call, spec_eval_item, spec_eval_items};
use crate::function::FuncKind;
use crate::parser::{Ctx, GArgs, GParse, clampi, find_quote, flush, scan_name, scan_tag,
    spec_bind_items, spec_compile, spec_parse, spec_parse_args};
use crate::tree::GItem;
use crate::value::GEval;

verus! {

/// Is every item plain text?
pub open spec fn all_text(items: Seq<GBItem>) -> bool {
    forall|i: int| 0 <= i < items.len() ==> items[i] is Text
}

/// The literal concatenation of a sequence of text items.
pub open spec fn texts_concat(items: Seq<GBItem>) -> Seq<char>
    decreases items,
{
    if items.len() == 0 {
        Seq::empty()
    } else {
        (match items[0] {
            GBItem::Text { text } => text,
            _ => Seq::empty(),
        }) + texts_concat(items.drop_first())
    }
}

/// A sequence of only text items always evaluates to truth `false`, and
/// its text is the literal concatenation of the pieces.
pub proof fn lemma_text_only(items: Seq<GBItem>, md: Map<Seq<char>, Seq<char>>)
    requires
        all_text(items),
    ensures
        spec_eval_items(items, md).truth == false,
        spec_eval_items(items, md).text == texts_concat(items),
    decreases items,
{
    reveal_with_fuel(spec_eval_items, 2);
    reveal_with_fuel(spec_eval_item, 2);
    if items.len() > 0 {
        assert(items[0] is Text);
        assert(forall|i: int|
            0 <= i < items.drop_first().len() ==> items.drop_first()[i] == items[i + 1]);
        lemma_text_only(items.drop_first(), md);
    }
}

/// A present tag evaluates to its stored value with truth `true`; an
/// absent one to the `"?"` placeholder with truth `false`.
pub proof fn lemma_tag_eval(key: Seq<char>, md: Map<Seq<char>, Seq<char>>)
    ensures
        md.contains_key(key) ==> spec_eval_item(GBItem::Tag { key }, md) == (GEval {
            text: md[key],
            truth: true,
        }),
        !md.contains_key(key) ==> spec_eval_item(GBItem::Tag { key }, md) == (GEval {
            text: placeholder(),
            truth: false,
        }),
{
}

/// Optional-block idempotence: wrapping an expression whose truth is
/// already true in another optional block yields the identical
/// evaluation.
pub proof fn lemma_optional_idempotent(inner: Seq<GBItem>, md: Map<Seq<char>, Seq<char>>)
    requires
        spec_eval_items(inner, md).truth,
    ensures
        spec_eval_item(
            GBItem::Optional { inner: seq![GBItem::Optional { inner }] },
            md,
        ) == spec_eval_item(GBItem::Optional { inner }, md),
{
    reveal_with_fuel(spec_eval_items, 3);
    reveal_with_fuel(spec_eval_item, 3);
    let w = seq![GBItem::Optional { inner }];
    assert(w[0] == GBItem::Optional { inner });
    assert(w.drop_first() =~= Seq::<GBItem>::empty());
    let one = spec_eval_item(GBItem::Optional { inner }, md);
    assert(spec_eval_items(w, md).text =~= one.text);
    assert(spec_eval_items(w, md).truth == one.truth);
}

/// No item of the sequence can assert presence: only text, absent tags,
/// and optional blocks that are themselves suppressed.
pub open spec fn no_presence(items: Seq<GBItem>, md: Map<Seq<char>, Seq<char>>) -> bool
    decreases items, 0nat,
{
    items.len() == 0 || (no_presence_item(items[0], md) && no_presence(items.drop_first(), md))
}

pub open spec fn no_presence_item(it: GBItem, md: Map<Seq<char>, Seq<char>>) -> bool
    decreases it, 1nat,
{
    match it {
        GBItem::Text { .. } => true,
        GBItem::Tag { key } => !md.contains_key(key),
        GBItem::Optional { inner } => no_presence(inner, md),
        GBItem::Call { .. } => false,
    }
}

/// Optional-block suppression: an optional block containing only absent
/// tags, directly or through nested optional blocks that are themselves
/// suppressed, evaluates to truth `false` and renders as the empty
/// string.
pub proof fn lemma_optional_suppression(items: Seq<GBItem>, md: Map<Seq<char>, Seq<char>>)
    requires
        no_presence(items, md),
    ensures
        spec_eval_items(items, md).truth == false,
        spec_eval_item(GBItem::Optional { inner: items }, md) == (GEval {
            text: Seq::empty(),
            truth: false,
        }),
    decreases items, 0nat,
{
    if items.len() > 0 {
        lemma_suppression_item(items[0], md);
        lemma_optional_suppression(items.drop_first(), md);
    }
}

proof fn lemma_suppression_item(it: GBItem, md: Map<Seq<char>, Seq<char>>)
    requires
        no_presence_item(it, md),
    ensures
        spec_eval_item(it, md).truth == false,
    decreases it, 1nat,
{
    match it {
        GBItem::Optional { inner } => {
            lemma_optional_suppression(inner, md);
        },
        _ => {},
    }
}

/// `if2` coalesces on presence: when the first argument's truth is true
/// the call is that argument's evaluation, unchanged; only otherwise is
/// it the second argument's evaluation, unchanged.
pub proof fn lemma_if2_coalesce(a: Seq<GBItem>, b: Seq<GBItem>, md: Map<Seq<char>, Seq<char>>)
    ensures
        spec_eval_items(a, md).truth ==> spec_eval_call(FuncKind::If2, seq![a, b], md)
            == spec_eval_items(a, md),
        !spec_eval_items(a, md).truth ==> spec_eval_call(FuncKind::If2, seq![a, b], md)
            == spec_eval_items(b, md),
{
    assert(seq![a, b][0] == a);
    assert(seq![a, b][1] == b);
}

/// `if2` never looks at its second argument when the first one's truth
/// is true: the call evaluates the same whatever stands there.
pub proof fn lemma_if2_lazy(
    a: Seq<GBItem>,
    b1: Seq<GBItem>,
    b2: Seq<GBItem>,
    md: Map<Seq<char>, Seq<char>>,
)
    requires
        spec_eval_items(a, md).truth,
    ensures
        spec_eval_call(FuncKind::If2, seq![a, b1], md) == spec_eval_call(
            FuncKind::If2,
            seq![a, b2],
            md,
        ),
{
    lemma_if2_coalesce(a, b1, md);
    lemma_if2_coalesce(a, b2, md);
}

/// The outermost parse, having no terminator characters, consumes the
/// entire input: when it succeeds it ends exactly at the end of the
/// pattern, so no residual input is ever dropped.
pub proof fn lemma_top_level_consumes_all(s: Seq<char>, start: int, pos: int, acc: Seq<GItem>)
    requires
        0 <= pos <= s.len(),
    ensures
        match spec_parse(s, start, pos, Ctx::Top, acc) {
            GParse::Done { end, .. } => end == s.len(),
            GParse::Fail { .. } => true,
        },
    decreases s.len() - pos,
{
    let n = s.len() as int;
    if pos < n {
        let c = s[pos];
        if c == '\'' {
            if pos + 1 < n && s[pos + 1] == '\'' {
                lemma_top_level_consumes_all(
                    s,
                    pos + 2,
                    pos + 2,
                    flush(s, start, pos, acc).push(GItem::Text { text: seq!['\''] }),
                );
            } else {
                let q = clampi(find_quote(s, pos + 1), pos + 1, n);
                if q < n {
                    lemma_top_level_consumes_all(
                        s,
                        q + 1,
                        q + 1,
                        flush(s, start, pos, acc).push(
                            GItem::Text { text: s.subrange(pos + 1, q) },
                        ),
                    );
                }
            }
        } else if c == '%' {
            let q = clampi(scan_tag(s, pos + 1), pos + 1, n);
            if !(q == pos + 1 || q >= n || s[q] != '%') {
                lemma_top_level_consumes_all(
                    s,
                    q + 1,
                    q + 1,
                    flush(s, start, pos, acc).push(
                        GItem::Tag { key: s.subrange(pos + 1, q) },
                    ),
                );
            }
        } else if c == '$' {
            let q = clampi(scan_name(s, pos + 1), pos + 1, n);
            if !(q == pos + 1 || q >= n || s[q] != '(') {
                match spec_parse_args(s, q + 1, Seq::empty()) {
                    GArgs::Fail { .. } => {},
                    GArgs::Done { args, end } => {
                        let e = clampi(end, pos + 1, n);
                        lemma_top_level_consumes_all(
                            s,
                            e,
                            e,
                            flush(s, start, pos, acc).push(
                                GItem::Call { name: s.subrange(pos + 1, q), args },
                            ),
                        );
                    },
                }
            }
        } else if c == '[' {
            match spec_parse(s, pos + 1, pos + 1, Ctx::Opt, Seq::empty()) {
                GParse::Fail { .. } => {},
                GParse::Done { items, end } => {
                    let e = clampi(end, pos + 1, n);
                    if e < n {
                        lemma_top_level_consumes_all(
                            s,
                            e + 1,
                            e + 1,
                            flush(s, start, pos, acc).push(
                                GItem::Optional { inner: items },
                            ),
                        );
                    }
                },
            }
        } else if c == ']' {
        } else {
            lemma_top_level_consumes_all(s, start, pos + 1, acc);
        }
    }
}

/// `find_quote` returns the first quote at or after `i`.
proof fn lemma_find_quote_hits(t: Seq<char>, i: int, k: int)
    requires
        0 <= i <= k < t.len(),
        t[k] == '\'',
        forall|j: int| i <= j < k ==> t[j] != '\'',
    ensures
        find_quote(t, i) == k,
    decreases k - i,
{
    if i < k {
        lemma_find_quote_hits(t, i + 1, k);
    }
}

/// Escaping: `''` is the pattern that renders as one single quote, with
/// truth `false`.
pub proof fn lemma_escape_double_quote(reg: Map<Seq<char>, FuncKind>, md: Map<Seq<char>, Seq<char>>)
    ensures
        spec_compile(seq!['\'', '\''], reg) == Ok::<Seq<GBItem>, crate::parser::GErr>(
            seq![GBItem::Text { text: seq!['\''] }],
        ),
        spec_eval_items(seq![GBItem::Text { text: seq!['\''] }], md) == (GEval {
            text: seq!['\''],
            truth: false,
        }),
{
    reveal_with_fuel(spec_parse, 3);
    reveal_with_fuel(spec_bind_items, 3);
    reveal_with_fuel(crate::parser::spec_bind_item, 3);
    reveal_with_fuel(spec_eval_items, 3);
    reveal_with_fuel(spec_eval_item, 3);
    let p = seq!['\'', '\''];
    let acc = Seq::<GItem>::empty().push(GItem::Text { text: seq!['\''] });
    assert(spec_parse(p, 0, 0, Ctx::Top, Seq::empty()) == spec_parse(p, 2, 2, Ctx::Top, acc));
    assert(spec_parse(p, 2, 2, Ctx::Top, acc) == (GParse::Done { items: acc, end: 2 }));
    assert(acc =~= seq![GItem::Text { text: seq!['\''] }]);
    let g = seq![GItem::Text { text: seq!['\''] }];
    assert(g.drop_first() =~= Seq::<GItem>::empty());
    assert(seq![GBItem::Text { text: seq!['\''] }] + Seq::<GBItem>::empty() =~= seq![
        GBItem::Text { text: seq!['\''] },
    ]);
    let b = seq![GBItem::Text { text: seq!['\''] }];
    assert(b.drop_first() =~= Seq::<GBItem>::empty());
    assert(spec_eval_items(b, md).text =~= seq!['\'']);
}

/// Escaping: quoted text renders as the literal text between the quotes,
/// never as tag lookups, with truth `false`.
pub proof fn lemma_escape_literal(
    s: Seq<char>,
    reg: Map<Seq<char>, FuncKind>,
    md: Map<Seq<char>, Seq<char>>,
)
    requires
        s.len() > 0,
        forall|i: int| 0 <= i < s.len() ==> s[i] != '\'',
    ensures
        spec_compile(seq!['\''] + s + seq!['\''], reg) == Ok::<Seq<GBItem>, crate::parser::GErr>(
            seq![GBItem::Text { text: s }],
        ),
        spec_eval_items(seq![GBItem::Text { text: s }], md) == (GEval { text: s, truth: false }),
{
    reveal_with_fuel(spec_parse, 3);
    reveal_with_fuel(spec_bind_items, 3);
    reveal_with_fuel(crate::parser::spec_bind_item, 3);
    reveal_with_fuel(spec_eval_items, 3);
    reveal_with_fuel(spec_eval_item, 3);
    let p = seq!['\''] + s + seq!['\''];
    let n = p.len() as int;
    assert(n == s.len() + 2);
    assert(p[0] == '\'');
    assert(p[n - 1] == '\'');
    assert(forall|j: int| 1 <= j < n - 1 ==> p[j] == s[j - 1]);
    assert(p[1] != '\'');
    lemma_find_quote_hits(p, 1, n - 1);
    let q = n - 1;
    assert(p.subrange(1, q) =~= s);
    let acc = Seq::<GItem>::empty().push(GItem::Text { text: p.subrange(1, q) });
    assert(spec_parse(p, 0, 0, Ctx::Top, Seq::empty()) == spec_parse(p, q + 1, q + 1, Ctx::Top, acc));
    assert(spec_parse(p, q + 1, q + 1, Ctx::Top, acc) == (GParse::Done { items: acc, end: n }));
    assert(acc =~= seq![GItem::Text { text: s }]);
    let g = seq![GItem::Text { text: s }];
    assert(g.drop_first() =~= Seq::<GItem>::empty());
    assert(seq![GBItem::Text { text: s }] + Seq::<GBItem>::empty() =~= seq![
        GBItem::Text { text: s },
    ]);
    let b = seq![GBItem::Text { text: s }];
    assert(b.drop_first() =~= Seq::<GBItem>::empty());
    assert(spec_eval_items(b, md).text =~= s);
}

} // verus!

