//! Parsing a pattern string: first into the unbound tree, then binding
//! the tree against a function registry.
//!
//! The grammar is one recursive production, parameterized by the set of
//! terminator characters that bound the current sub-expression: none at
//! top level, `,` and `)` inside function arguments, `]` inside optional
//! blocks.  At each position, a terminator stops the level without being
//! consumed; otherwise one of four structured productions (quoted text,
//! `%tag%`, `$name(args)`, `[optional]`) is tried, and a character
//! belonging to none of them is accumulated as plain text.  Once a
//! production's opening character is seen the production must complete:
//! an unterminated quote, tag, argument list or optional block is a
//! parse error, and a closing `]` with no opener is one too.

use vstd::prelude::*;
use crate::expression::{BoundExpression, BoundFunctionCall, BoundItem, GBItem, bexpr_view,
    bexprs_view, bitem_view, bitems_view, wf_args, wf_item, wf_items};
use crate::function::{FuncKind, Registry, spec_arity, arity};
use crate::text::fold_name;
use crate::tree::{Expression, FunctionCall, GItem, Item, exprs_view, item_view, items_view};

verus! {

/// Ghost counterpart of a [`ParseError`].
pub ghost enum GErr {
    UnterminatedQuote,
    MalformedTag,
    MalformedFunction,
    UnmatchedParen,
    UnmatchedBracket,
    StrayBracket,
    FunctionNotFound { name: Seq<char> },
    ArgumentError { name: Seq<char> },
}

/// Why a pattern was rejected.  Grammar problems and unresolved or
/// misused function names are errors; absent metadata never is.
#[derive(Debug)]
pub enum ParseError {
    /// A `'` opened quoted text that never closes.
    UnterminatedQuote,
    /// A `%` opened a tag with an empty name, a name character outside
    /// letters, digits, underscore and space, or no closing `%`.
    MalformedTag,
    /// A `$` was not followed by a name and `(`.
    MalformedFunction,
    /// A function's argument list never reaches its closing `)`.
    UnmatchedParen,
    /// A `[` opened an optional block that never closes.
    UnmatchedBracket,
    /// A `]` with no matching opener.
    StrayBracket,
    /// A function name that the registry does not know; carries the name
    /// as written, before case folding.
    FunctionNotFound(String),
    /// A function called with the wrong number of arguments; carries the
    /// name as written.
    ArgumentError(String),
}

impl View for ParseError {
    type V = GErr;

    open spec fn view(&self) -> GErr {
        match self {
            ParseError::UnterminatedQuote => GErr::UnterminatedQuote,
            ParseError::MalformedTag => GErr::MalformedTag,
            ParseError::MalformedFunction => GErr::MalformedFunction,
            ParseError::UnmatchedParen => GErr::UnmatchedParen,
            ParseError::UnmatchedBracket => GErr::UnmatchedBracket,
            ParseError::StrayBracket => GErr::StrayBracket,
            ParseError::FunctionNotFound(s) => GErr::FunctionNotFound { name: s@ },
            ParseError::ArgumentError(s) => GErr::ArgumentError { name: s@ },
        }
    }
}

/// The recursion context: which characters end the current level.
#[derive(Clone, Copy, PartialEq, Eq, Structural, Debug)]
pub enum Ctx {
    /// The whole pattern; nothing ends it but the end of input.
    Top,
    /// A function argument; `,` and `)` end it.
    FnArg,
    /// The body of an optional block; `]` ends it.
    Opt,
}

/// Does `c` end the current level?
pub open spec fn is_term(ctx: Ctx, c: char) -> bool {
    match ctx {
        Ctx::Top => false,
        Ctx::FnArg => c == ',' || c == ')',
        Ctx::Opt => c == ']',
    }
}

/// Characters allowed in a tag name: ASCII letters, digits, underscore
/// and space.
pub open spec fn is_tag_char(c: char) -> bool {
    ('a' <= c && c <= 'z') || ('A' <= c && c <= 'Z') || ('0' <= c && c <= '9') || c == '_' || c
        == ' '
}

/// Characters allowed in a function name: ASCII letters, digits and
/// underscore.
pub open spec fn is_name_char(c: char) -> bool {
    ('a' <= c && c <= 'z') || ('A' <= c && c <= 'Z') || ('0' <= c && c <= '9') || c == '_'
}

/// Skippable blank characters before a function argument.
pub open spec fn is_space_char(c: char) -> bool {
    c == ' ' || c == '\t'
}

/// First position at or after `pos` whose character is not a tag-name
/// character (or the end of input).
pub open spec fn scan_tag(s: Seq<char>, pos: int) -> int
    decreases s.len() - pos,
{
    if 0 <= pos < s.len() && is_tag_char(s[pos]) {
        scan_tag(s, pos + 1)
    } else {
        pos
    }
}

/// First position at or after `pos` whose character is not a
/// function-name character (or the end of input).
pub open spec fn scan_name(s: Seq<char>, pos: int) -> int
    decreases s.len() - pos,
{
    if 0 <= pos < s.len() && is_name_char(s[pos]) {
        scan_name(s, pos + 1)
    } else {
        pos
    }
}

/// First position at or after `pos` whose character is not blank.
pub open spec fn skip_spaces(s: Seq<char>, pos: int) -> int
    decreases s.len() - pos,
{
    if 0 <= pos < s.len() && is_space_char(s[pos]) {
        skip_spaces(s, pos + 1)
    } else {
        pos
    }
}

/// Position of the next `'` at or after `pos`, or the length of `s` if
/// there is none.
pub open spec fn find_quote(s: Seq<char>, pos: int) -> int
    decreases s.len() - pos,
{
    if pos < 0 {
        s.len() as int
    } else if pos >= s.len() {
        s.len() as int
    } else if s[pos] == '\'' {
        pos
    } else {
        find_quote(s, pos + 1)
    }
}

/// `x` clamped into `lo ..= hi`.
pub open spec fn clampi(x: int, lo: int, hi: int) -> int {
    if x < lo {
        lo
    } else if x > hi {
        hi
    } else {
        x
    }
}

/// Pending text `s[start..pos]`, flushed as one `Text` item when
/// non-empty.
pub open spec fn flush(s: Seq<char>, start: int, pos: int, acc: Seq<GItem>) -> Seq<GItem> {
    if start < pos {
        acc.push(GItem::Text { text: s.subrange(start, pos) })
    } else {
        acc
    }
}

/// Outcome of parsing one level: the items up to the terminator (not
/// consumed) or the end of input, or a parse error.
pub ghost enum GParse {
    Done { items: Seq<GItem>, end: int },
    Fail { err: GErr },
}

/// Outcome of parsing a function's argument list: the arguments, with
/// the closing `)` consumed, or a parse error.
pub ghost enum GArgs {
    Done { args: Seq<Seq<GItem>>, end: int },
    Fail { err: GErr },
}

/// The grammar, one level at a time.  `start..pos` is the pending plain
/// text; `acc` the items already parsed at this level.  Positions coming
/// back from nested levels are clamped purely so that the recursion is
/// visibly bounded; a nested level never actually moves backwards.
pub open spec fn spec_parse(s: Seq<char>, start: int, pos: int, ctx: Ctx, acc: Seq<GItem>) -> GParse
    decreases s.len() - pos, 1nat,
{
    let n = s.len() as int;
    if pos >= n {
        GParse::Done { items: flush(s, start, pos, acc), end: pos }
    } else if is_term(ctx, s[pos]) {
        GParse::Done { items: flush(s, start, pos, acc), end: pos }
    } else {
        let c = s[pos];
        if c == '\'' {
            if pos + 1 < n && s[pos + 1] == '\'' {
                spec_parse(
                    s,
                    pos + 2,
                    pos + 2,
                    ctx,
                    flush(s, start, pos, acc).push(GItem::Text { text: seq!['\''] }),
                )
            } else {
                let q = clampi(find_quote(s, pos + 1), pos + 1, n);
                if q >= n {
                    GParse::Fail { err: GErr::UnterminatedQuote }
                } else {
                    spec_parse(
                        s,
                        q + 1,
                        q + 1,
                        ctx,
                        flush(s, start, pos, acc).push(
                            GItem::Text { text: s.subrange(pos + 1, q) },
                        ),
                    )
                }
            }
        } else if c == '%' {
            let q = clampi(scan_tag(s, pos + 1), pos + 1, n);
            if q == pos + 1 || q >= n || s[q] != '%' {
                GParse::Fail { err: GErr::MalformedTag }
            } else {
                spec_parse(
                    s,
                    q + 1,
                    q + 1,
                    ctx,
                    flush(s, start, pos, acc).push(GItem::Tag { key: s.subrange(pos + 1, q) }),
                )
            }
        } else if c == '$' {
            let q = clampi(scan_name(s, pos + 1), pos + 1, n);
            if q == pos + 1 || q >= n || s[q] != '(' {
                GParse::Fail { err: GErr::MalformedFunction }
            } else {
                match spec_parse_args(s, q + 1, Seq::empty()) {
                    GArgs::Fail { err } => GParse::Fail { err },
                    GArgs::Done { args, end } => {
                        let e = clampi(end, pos + 1, n);
                        spec_parse(
                            s,
                            e,
                            e,
                            ctx,
                            flush(s, start, pos, acc).push(
                                GItem::Call { name: s.subrange(pos + 1, q), args },
                            ),
                        )
                    },
                }
            }
        } else if c == '[' {
            match spec_parse(s, pos + 1, pos + 1, Ctx::Opt, Seq::empty()) {
                GParse::Fail { err } => GParse::Fail { err },
                GParse::Done { items, end } => {
                    let e = clampi(end, pos + 1, n);
                    if e >= n {
                        GParse::Fail { err: GErr::UnmatchedBracket }
                    } else {
                        spec_parse(
                            s,
                            e + 1,
                            e + 1,
                            ctx,
                            flush(s, start, pos, acc).push(GItem::Optional { inner: items }),
                        )
                    }
                },
            }
        } else if c == ']' {
            GParse::Fail { err: GErr::StrayBracket }
        } else {
            spec_parse(s, start, pos + 1, ctx, acc)
        }
    }
}

/// A function's comma-separated argument list, each argument preceded by
/// skippable blanks; consumes the closing `)`.  An empty list is one
/// empty argument: `$f()` calls `f` with a single empty expression.
pub open spec fn spec_parse_args(s: Seq<char>, pos: int, acc: Seq<Seq<GItem>>) -> GArgs
    decreases s.len() - pos, 2nat,
{
    let n = s.len() as int;
    if pos > n {
        GArgs::Fail { err: GErr::UnmatchedParen }
    } else {
        let q = clampi(skip_spaces(s, pos), pos, n);
        match spec_parse(s, q, q, Ctx::FnArg, Seq::empty()) {
            GParse::Fail { err } => GArgs::Fail { err },
            GParse::Done { items, end } => {
                let e = clampi(end, q, n);
                if e >= n {
                    GArgs::Fail { err: GErr::UnmatchedParen }
                } else if s[e] == ',' {
                    spec_parse_args(s, e + 1, acc.push(items))
                } else {
                    GArgs::Done { args: acc.push(items), end: e + 1 }
                }
            },
        }
    }
}

fn is_term_exec(ctx: Ctx, c: char) -> (r: bool)
    ensures
        r == is_term(ctx, c),
{
    match ctx {
        Ctx::Top => false,
        Ctx::FnArg => c == ',' || c == ')',
        Ctx::Opt => c == ']',
    }
}

/// Is the current level over: past the end of input, or at one of its
/// terminator characters?
fn at_end(s: &str, n: usize, p: usize, ctx: Ctx) -> (r: bool)
    requires
        n == s@.len(),
        p <= n,
    ensures
        r == (p == n || is_term(ctx, s@[p as int])),
{
    if p >= n {
        true
    } else {
        is_term_exec(ctx, s.get_char(p))
    }
}

fn is_tag_char_exec(c: char) -> (r: bool)
    ensures
        r == is_tag_char(c),
{
    ('a' <= c && c <= 'z') || ('A' <= c && c <= 'Z') || ('0' <= c && c <= '9') || c == '_' || c
        == ' '
}

fn is_name_char_exec(c: char) -> (r: bool)
    ensures
        r == is_name_char(c),
{
    ('a' <= c && c <= 'z') || ('A' <= c && c <= 'Z') || ('0' <= c && c <= '9') || c == '_'
}

fn is_space_char_exec(c: char) -> (r: bool)
    ensures
        r == is_space_char(c),
{
    c == ' ' || c == '\t'
}

fn scan_tag_exec(s: &str, n: usize, from: usize) -> (r: usize)
    requires
        n == s@.len(),
        from <= n,
    ensures
        r as int == scan_tag(s@, from as int),
        from <= r <= n,
{
    let mut i = from;
    while i < n && is_tag_char_exec(s.get_char(i))
        invariant
            n == s@.len(),
            from <= i <= n,
            scan_tag(s@, from as int) == scan_tag(s@, i as int),
        decreases n - i,
    {
        i = i + 1;
    }
    i
}

fn scan_name_exec(s: &str, n: usize, from: usize) -> (r: usize)
    requires
        n == s@.len(),
        from <= n,
    ensures
        r as int == scan_name(s@, from as int),
        from <= r <= n,
{
    let mut i = from;
    while i < n && is_name_char_exec(s.get_char(i))
        invariant
            n == s@.len(),
            from <= i <= n,
            scan_name(s@, from as int) == scan_name(s@, i as int),
        decreases n - i,
    {
        i = i + 1;
    }
    i
}

fn skip_spaces_exec(s: &str, n: usize, from: usize) -> (r: usize)
    requires
        n == s@.len(),
        from <= n,
    ensures
        r as int == skip_spaces(s@, from as int),
        from <= r <= n,
{
    let mut i = from;
    while i < n && is_space_char_exec(s.get_char(i))
        invariant
            n == s@.len(),
            from <= i <= n,
            skip_spaces(s@, from as int) == skip_spaces(s@, i as int),
        decreases n - i,
    {
        i = i + 1;
    }
    i
}

/// Flush the pending text span `s[ts..p]` as one `Text` item.
fn flush_text(s: &str, ts: usize, p: usize, items: &mut Vec<Item>)
    requires
        ts <= p <= s@.len(),
    ensures
        items_view(final(items)@) == flush(s@, ts as int, p as int, items_view(old(items)@)),
{
    if ts < p {
        let ghost pre = items@;
        let t = s.substring_char(ts, p).to_owned();
        items.push(Item::Text(t));
        proof {
            crate::tree::lemma_items_view_push(pre, Item::Text(t));
        }
    }
}

/// Parse one level of the grammar, from `pos` to this level's terminator
/// or the end of input.
#[verifier::loop_isolation(false)]
fn parse_items(s: &str, pos: usize, ctx: Ctx) -> (r: Result<(Vec<Item>, usize), ParseError>)
    requires
        pos <= s@.len(),
    ensures
        match r {
            Ok(pr) => spec_parse(s@, pos as int, pos as int, ctx, Seq::empty()) == (GParse::Done {
                items: items_view(pr.0@),
                end: pr.1 as int,
            }) && pos <= pr.1 <= s@.len() && (pr.1 == s@.len() || is_term(ctx, s@[pr.1 as int])),
            Err(e) => spec_parse(s@, pos as int, pos as int, ctx, Seq::empty()) == (GParse::Fail {
                err: e@,
            }),
        },
    decreases s@.len() - pos, 1nat,
{
    let n = s.unicode_len();
    let mut items: Vec<Item> = Vec::new();
    let mut ts: usize = pos;
    let mut p: usize = pos;
    while !at_end(s, n, p, ctx)
        invariant
            n == s@.len(),
            pos <= ts <= p <= n,
            spec_parse(s@, pos as int, pos as int, ctx, Seq::empty()) == spec_parse(
                s@,
                ts as int,
                p as int,
                ctx,
                items_view(items@),
            ),
        decreases n - p,
    {
        let ghost pre_view = items_view(items@);
        let ghost ts0 = ts as int;
        let ghost p0 = p as int;
        let c = s.get_char(p);
        if c == '\'' {
            if p + 1 < n && s.get_char(p + 1) == '\'' {
                flush_text(s, ts, p, &mut items);
                let t = String::from_str("'");
                proof {
                    reveal_strlit("'");
                    assert(t@ =~= seq!['\'']);
                }
                let ghost mid = items@;
                items.push(Item::Text(t));
                proof {
                    crate::tree::lemma_items_view_push(mid, Item::Text(t));
                    assert(spec_parse(s@, ts0, p0, ctx, pre_view) == spec_parse(
                        s@,
                        p0 + 2,
                        p0 + 2,
                        ctx,
                        items_view(items@),
                    ));
                }
                p = p + 2;
                ts = p;
            } else {
                let q = find_quote_exec(s, n, p + 1);
                if q >= n {
                    proof {
                        assert(spec_parse(s@, ts0, p0, ctx, pre_view) == (GParse::Fail {
                            err: GErr::UnterminatedQuote,
                        }));
                    }
                    return Err(ParseError::UnterminatedQuote);
                }
                let t = s.substring_char(p + 1, q).to_owned();
                flush_text(s, ts, p, &mut items);
                let ghost mid = items@;
                items.push(Item::Text(t));
                proof {
                    crate::tree::lemma_items_view_push(mid, Item::Text(t));
                    assert(spec_parse(s@, ts0, p0, ctx, pre_view) == spec_parse(
                        s@,
                        q + 1,
                        q + 1,
                        ctx,
                        items_view(items@),
                    ));
                }
                p = q + 1;
                ts = p;
            }
        } else if c == '%' {
            let q = scan_tag_exec(s, n, p + 1);
            if q == p + 1 || q >= n || s.get_char(q) != '%' {
                proof {
                    assert(spec_parse(s@, ts0, p0, ctx, pre_view) == (GParse::Fail {
                        err: GErr::MalformedTag,
                    }));
                }
                return Err(ParseError::MalformedTag);
            }
            let t = s.substring_char(p + 1, q).to_owned();
            flush_text(s, ts, p, &mut items);
            let ghost mid = items@;
            items.push(Item::Tag(t));
            proof {
                crate::tree::lemma_items_view_push(mid, Item::Tag(t));
                assert(spec_parse(s@, ts0, p0, ctx, pre_view) == spec_parse(
                    s@,
                    q + 1,
                    q + 1,
                    ctx,
                    items_view(items@),
                ));
            }
            p = q + 1;
            ts = p;
        } else if c == '$' {
            let q = scan_name_exec(s, n, p + 1);
            if q == p + 1 || q >= n || s.get_char(q) != '(' {
                proof {
                    assert(spec_parse(s@, ts0, p0, ctx, pre_view) == (GParse::Fail {
                        err: GErr::MalformedFunction,
                    }));
                }
                return Err(ParseError::MalformedFunction);
            }
            let name = s.substring_char(p + 1, q).to_owned();
            let mut args: Vec<Expression> = Vec::new();
            let mut ap: usize = q + 1;
            let mut closed = false;
            while !closed
                invariant
                    n == s@.len(),
                    p0 + 1 < ap <= n,
                    pos <= p0,
                    !closed ==> spec_parse_args(s@, q as int + 1, Seq::empty())
                        == spec_parse_args(s@, ap as int, exprs_view(args@)),
                    closed ==> spec_parse_args(s@, q as int + 1, Seq::empty()) == (GArgs::Done {
                        args: exprs_view(args@),
                        end: ap as int,
                    }),
                decreases n - ap,
            {
                let ghost args_pre = exprs_view(args@);
                let ghost ap0 = ap as int;
                let aq = skip_spaces_exec(s, n, ap);
                match parse_items(s, aq, Ctx::FnArg) {
                    Err(e) => {
                        proof {
                            assert(spec_parse_args(s@, ap0, args_pre) == (GArgs::Fail {
                                err: e@,
                            }));
                            assert(spec_parse(s@, ts0, p0, ctx, pre_view) == (GParse::Fail {
                                err: e@,
                            }));
                        }
                        return Err(e);
                    },
                    Ok((sub, e)) => {
                        let ghost args_mid = args@;
                        let sub_expr = Expression { items: sub };
                        args.push(sub_expr);
                        proof {
                            crate::tree::lemma_exprs_view_push(args_mid, sub_expr);
                        }
                        if e >= n {
                            proof {
                                assert(spec_parse_args(s@, ap0, args_pre) == (GArgs::Fail {
                                    err: GErr::UnmatchedParen,
                                }));
                                assert(spec_parse(s@, ts0, p0, ctx, pre_view) == (GParse::Fail {
                                    err: GErr::UnmatchedParen,
                                }));
                            }
                            return Err(ParseError::UnmatchedParen);
                        }
                        let ce = s.get_char(e);
                        if ce == ',' {
                            proof {
                                assert(spec_parse_args(s@, ap0, args_pre) == spec_parse_args(
                                    s@,
                                    e + 1,
                                    exprs_view(args@),
                                ));
                            }
                            ap = e + 1;
                        } else {
                            proof {
                                assert(spec_parse_args(s@, ap0, args_pre) == (GArgs::Done {
                                    args: exprs_view(args@),
                                    end: e + 1,
                                }));
                            }
                            ap = e + 1;
                            closed = true;
                        }
                    },
                }
            }
            flush_text(s, ts, p, &mut items);
            let ghost mid = items@;
            let fc = Item::Function(FunctionCall { name, arguments: args });
            items.push(fc);
            proof {
                crate::tree::lemma_items_view_push(mid, fc);
                assert(spec_parse(s@, ts0, p0, ctx, pre_view) == spec_parse(
                    s@,
                    ap as int,
                    ap as int,
                    ctx,
                    items_view(items@),
                ));
            }
            p = ap;
            ts = p;
        } else if c == '[' {
            match parse_items(s, p + 1, Ctx::Opt) {
                Err(e) => {
                    proof {
                        assert(spec_parse(s@, ts0, p0, ctx, pre_view) == (GParse::Fail {
                            err: e@,
                        }));
                    }
                    return Err(e);
                },
                Ok((sub, e)) => {
                    if e >= n {
                        proof {
                            assert(spec_parse(s@, ts0, p0, ctx, pre_view) == (GParse::Fail {
                                err: GErr::UnmatchedBracket,
                            }));
                        }
                        return Err(ParseError::UnmatchedBracket);
                    }
                    flush_text(s, ts, p, &mut items);
                    let ghost mid = items@;
                    let it = Item::OptionalExpr(Box::new(Expression { items: sub }));
                    items.push(it);
                    proof {
                        crate::tree::lemma_items_view_push(mid, it);
                        assert(spec_parse(s@, ts0, p0, ctx, pre_view) == spec_parse(
                            s@,
                            e + 1,
                            e + 1,
                            ctx,
                            items_view(items@),
                        ));
                    }
                    p = e + 1;
                    ts = p;
                },
            }
        } else if c == ']' {
            proof {
                assert(spec_parse(s@, ts0, p0, ctx, pre_view) == (GParse::Fail {
                    err: GErr::StrayBracket,
                }));
            }
            return Err(ParseError::StrayBracket);
        } else {
            proof {
                assert(spec_parse(s@, ts0, p0, ctx, pre_view) == spec_parse(
                    s@,
                    ts0,
                    p0 + 1,
                    ctx,
                    pre_view,
                ));
            }
            p = p + 1;
        }
    }
    let ghost pre_view = items_view(items@);
    flush_text(s, ts, p, &mut items);
    proof {
        assert(spec_parse(s@, ts as int, p as int, ctx, pre_view) == (GParse::Done {
            items: items_view(items@),
            end: p as int,
        }));
    }
    Ok((items, p))
}

fn find_quote_exec(s: &str, n: usize, from: usize) -> (r: usize)
    requires
        n == s@.len(),
        from <= n,
    ensures
        r as int == find_quote(s@, from as int),
        from <= r <= n,
{
    let mut i = from;
    while i < n && s.get_char(i) != '\''
        invariant
            n == s@.len(),
            from <= i <= n,
            find_quote(s@, from as int) == find_quote(s@, i as int),
        decreases n - i,
    {
        i = i + 1;
    }
    i
}

/// Binding an unbound sequence of items: a structural copy with every
/// function name resolved and its argument count checked.  Binding
/// aborts on the first failure.
pub open spec fn spec_bind_items(items: Seq<GItem>, reg: Map<Seq<char>, FuncKind>) -> Result<
    Seq<GBItem>,
    GErr,
>
    decreases items, 0nat,
{
    if items.len() == 0 {
        Ok(Seq::empty())
    } else {
        match spec_bind_item(items[0], reg) {
            Err(e) => Err(e),
            Ok(b0) => match spec_bind_items(items.drop_first(), reg) {
                Err(e) => Err(e),
                Ok(rest) => Ok(seq![b0] + rest),
            },
        }
    }
}

/// Binding one item.  The name of a function call is folded to lowercase
/// and looked up; a miss fails with the name as written.
pub open spec fn spec_bind_item(it: GItem, reg: Map<Seq<char>, FuncKind>) -> Result<GBItem, GErr>
    decreases it, 1nat,
{
    match it {
        GItem::Text { text } => Ok(GBItem::Text { text }),
        GItem::Tag { key } => Ok(GBItem::Tag { key }),
        GItem::Optional { inner } => match spec_bind_items(inner, reg) {
            Ok(b) => Ok(GBItem::Optional { inner: b }),
            Err(e) => Err(e),
        },
        GItem::Call { name, args } => if !reg.contains_key(fold_name(name)) {
            Err(GErr::FunctionNotFound { name })
        } else {
            let kind = reg[fold_name(name)];
            if args.len() != spec_arity(kind) {
                Err(GErr::ArgumentError { name })
            } else {
                match spec_bind_args(args, reg) {
                    Ok(b) => Ok(GBItem::Call { kind, args: b }),
                    Err(e) => Err(e),
                }
            }
        },
    }
}

pub open spec fn spec_bind_args(args: Seq<Seq<GItem>>, reg: Map<Seq<char>, FuncKind>) -> Result<
    Seq<Seq<GBItem>>,
    GErr,
>
    decreases args, 1nat,
{
    if args.len() == 0 {
        Ok(Seq::empty())
    } else {
        match spec_bind_items(args[0], reg) {
            Err(e) => Err(e),
            Ok(b0) => match spec_bind_args(args.drop_first(), reg) {
                Err(e) => Err(e),
                Ok(rest) => Ok(seq![b0] + rest),
            },
        }
    }
}

/// A tree that binding accepted is well-formed: every call has exactly
/// its function's arity.
pub proof fn lemma_bind_wf(items: Seq<GItem>, reg: Map<Seq<char>, FuncKind>)
    ensures
        spec_bind_items(items, reg) is Ok ==> wf_items(spec_bind_items(items, reg)->Ok_0),
    decreases items, 0nat,
{
    if items.len() > 0 && spec_bind_items(items, reg) is Ok {
        lemma_bind_item_wf(items[0], reg);
        lemma_bind_wf(items.drop_first(), reg);
        let b0 = spec_bind_item(items[0], reg)->Ok_0;
        let rest = spec_bind_items(items.drop_first(), reg)->Ok_0;
        assert((seq![b0] + rest)[0] == b0);
        assert((seq![b0] + rest).drop_first() =~= rest);
    }
}

pub proof fn lemma_bind_item_wf(it: GItem, reg: Map<Seq<char>, FuncKind>)
    ensures
        spec_bind_item(it, reg) is Ok ==> wf_item(spec_bind_item(it, reg)->Ok_0),
    decreases it, 1nat,
{
    match it {
        GItem::Text { .. } => {},
        GItem::Tag { .. } => {},
        GItem::Optional { inner } => {
            lemma_bind_wf(inner, reg);
        },
        GItem::Call { name, args } => {
            if reg.contains_key(fold_name(name)) && args.len() == spec_arity(
                reg[fold_name(name)],
            ) {
                lemma_bind_args_wf(args, reg);
                lemma_bind_args_len(args, reg);
            }
        },
    }
}

pub proof fn lemma_bind_args_wf(args: Seq<Seq<GItem>>, reg: Map<Seq<char>, FuncKind>)
    ensures
        spec_bind_args(args, reg) is Ok ==> wf_args(spec_bind_args(args, reg)->Ok_0),
    decreases args, 1nat,
{
    if args.len() > 0 && spec_bind_args(args, reg) is Ok {
        lemma_bind_wf(args[0], reg);
        lemma_bind_args_wf(args.drop_first(), reg);
        let b0 = spec_bind_items(args[0], reg)->Ok_0;
        let rest = spec_bind_args(args.drop_first(), reg)->Ok_0;
        assert((seq![b0] + rest)[0] == b0);
        assert((seq![b0] + rest).drop_first() =~= rest);
    }
}

/// Binding keeps the number of arguments.
pub proof fn lemma_bind_args_len(args: Seq<Seq<GItem>>, reg: Map<Seq<char>, FuncKind>)
    ensures
        spec_bind_args(args, reg) is Ok ==> spec_bind_args(args, reg)->Ok_0.len() == args.len(),
    decreases args,
{
    if args.len() > 0 && spec_bind_args(args, reg) is Ok {
        lemma_bind_args_len(args.drop_first(), reg);
    }
}

/// Bind a sequence of items, left to right, stopping at the first
/// failure.
#[verifier::loop_isolation(false)]
fn bind_items(items: &Vec<Item>, registry: &Registry) -> (r: Result<Vec<BoundItem>, ParseError>)
    ensures
        match r {
            Ok(b) => spec_bind_items(items_view(items@), registry@) == Ok::<Seq<GBItem>, GErr>(
                bitems_view(b@),
            ),
            Err(e) => spec_bind_items(items_view(items@), registry@) == Err::<Seq<GBItem>, GErr>(
                e@,
            ),
        },
    decreases items, 1nat,
{
    let ghost gitems = items_view(items@);
    let ghost reg = registry@;
    let n = items.len();
    proof {
        crate::tree::lemma_items_view_len(items@);
    }
    let mut out: Vec<BoundItem> = Vec::new();
    let mut i: usize = 0;
    proof {
        assert(gitems.skip(0) =~= gitems);
        let r0 = spec_bind_items(gitems, reg);
        if r0 is Ok {
            assert(bitems_view(out@) + r0->Ok_0 =~= r0->Ok_0);
        }
    }
    while i < n
        invariant
            0 <= i <= n,
            spec_bind_items(gitems, reg) == (match spec_bind_items(gitems.skip(i as int), reg) {
                Ok(rest) => Ok::<Seq<GBItem>, GErr>(bitems_view(out@) + rest),
                Err(e) => Err::<Seq<GBItem>, GErr>(e),
            }),
        decreases n - i,
    {
        proof {
            crate::tree::lemma_items_view_index(items@, i as int);
        }
        match bind_item(&items[i], registry) {
            Err(e) => {
                proof {
                    let rest = gitems.skip(i as int);
                    assert(rest[0] == gitems[i as int]);
                    assert(spec_bind_items(rest, reg) == Err::<Seq<GBItem>, GErr>(e@));
                }
                return Err(e);
            },
            Ok(b) => {
                let ghost pre = out@;
                out.push(b);
                proof {
                    crate::expression::lemma_bitems_view_push(pre, b);
                    let rest = gitems.skip(i as int);
                    assert(rest[0] == gitems[i as int]);
                    assert(rest.drop_first() =~= gitems.skip(i as int + 1));
                    let r1 = spec_bind_items(gitems.skip(i as int + 1), reg);
                    if r1 is Ok {
                        assert(bitems_view(pre) + (seq![bitem_view(b)] + r1->Ok_0) =~= bitems_view(
                            out@,
                        ) + r1->Ok_0);
                    }
                }
                i = i + 1;
            },
        }
    }
    proof {
        assert(gitems.skip(n as int) =~= Seq::<GItem>::empty());
        assert(bitems_view(out@) + Seq::<GBItem>::empty() =~= bitems_view(out@));
    }
    Ok(out)
}

/// Bind one item.
#[verifier::loop_isolation(false)]
fn bind_item(item: &Item, registry: &Registry) -> (r: Result<BoundItem, ParseError>)
    ensures
        match r {
            Ok(b) => spec_bind_item(item_view(*item), registry@) == Ok::<GBItem, GErr>(
                bitem_view(b),
            ),
            Err(e) => spec_bind_item(item_view(*item), registry@) == Err::<GBItem, GErr>(e@),
        },
    decreases item, 0nat,
{
    match item {
        Item::Text(s) => Ok(BoundItem::Text(s.clone())),
        Item::Tag(s) => Ok(BoundItem::Tag(s.clone())),
        Item::OptionalExpr(e) => match bind_items(&e.items, registry) {
            Ok(b) => Ok(BoundItem::OptionalExpr(Box::new(BoundExpression { items: b }))),
            Err(err) => Err(err),
        },
        Item::Function(fc) => {
            let ghost reg = registry@;
            let ghost gargs = exprs_view(fc.arguments@);
            proof {
                crate::tree::lemma_exprs_view_len(fc.arguments@);
            }
            match registry.lookup(fc.name.as_str()) {
                None => Err(ParseError::FunctionNotFound(fc.name.clone())),
                Some(f) => {
                    let func = f.duplicate();
                    if fc.arguments.len() != arity(func.kind()) {
                        return Err(ParseError::ArgumentError(fc.name.clone()));
                    }
                    let na = fc.arguments.len();
                    let mut bargs: Vec<BoundExpression> = Vec::new();
                    let mut j: usize = 0;
                    proof {
                        assert(gargs.skip(0) =~= gargs);
                        let r0 = spec_bind_args(gargs, reg);
                        if r0 is Ok {
                            assert(bexprs_view(bargs@) + r0->Ok_0 =~= r0->Ok_0);
                        }
                    }
                    while j < na
                        invariant
                            0 <= j <= na,
                            spec_bind_args(gargs, reg) == (match spec_bind_args(
                                gargs.skip(j as int),
                                reg,
                            ) {
                                Ok(rest) => Ok::<Seq<Seq<GBItem>>, GErr>(
                                    bexprs_view(bargs@) + rest,
                                ),
                                Err(e) => Err::<Seq<Seq<GBItem>>, GErr>(e),
                            }),
                        decreases na - j,
                    {
                        proof {
                            crate::tree::lemma_exprs_view_index(fc.arguments@, j as int);
                        }
                        match bind_items(&fc.arguments[j].items, registry) {
                            Err(e) => {
                                proof {
                                    let rest = gargs.skip(j as int);
                                    assert(rest[0] == gargs[j as int]);
                                    assert(spec_bind_args(rest, reg) == Err::<
                                        Seq<Seq<GBItem>>,
                                        GErr,
                                    >(e@));
                                }
                                return Err(e);
                            },
                            Ok(b) => {
                                let ghost pre = bargs@;
                                let be = BoundExpression { items: b };
                                bargs.push(be);
                                proof {
                                    crate::expression::lemma_bexprs_view_push(pre, be);
                                    let rest = gargs.skip(j as int);
                                    assert(rest[0] == gargs[j as int]);
                                    assert(rest.drop_first() =~= gargs.skip(j as int + 1));
                                    let r1 = spec_bind_args(gargs.skip(j as int + 1), reg);
                                    if r1 is Ok {
                                        assert(bexprs_view(pre) + (seq![bexpr_view(be)]
                                            + r1->Ok_0) =~= bexprs_view(bargs@) + r1->Ok_0);
                                    }
                                }
                                j = j + 1;
                            },
                        }
                    }
                    proof {
                        assert(gargs.skip(na as int) =~= Seq::<Seq<GItem>>::empty());
                        assert(bexprs_view(bargs@) + Seq::<Seq<GBItem>>::empty() =~= bexprs_view(
                            bargs@,
                        ));
                    }
                    Ok(BoundItem::Function(BoundFunctionCall { function: func, arguments: bargs }))
                },
            }
        },
    }
}

/// Build the bound expression from the parsed tree, resolving function
/// references against the registry.
pub fn build_expression(expr: &Expression, registry: &Registry) -> (r: Result<
    BoundExpression,
    ParseError,
>)
    ensures
        match r {
            Ok(b) => spec_bind_items(expr@, registry@) == Ok::<Seq<GBItem>, GErr>(b@) && wf_items(
                b@,
            ),
            Err(e) => spec_bind_items(expr@, registry@) == Err::<Seq<GBItem>, GErr>(e@),
        },
{
    match bind_items(&expr.items, registry) {
        Ok(b) => {
            proof {
                lemma_bind_wf(expr@, registry@);
            }
            Ok(BoundExpression { items: b })
        },
        Err(e) => Err(e),
    }
}

/// Compiling a pattern: parse it into the unbound tree, then bind every
/// function reference.
pub open spec fn spec_compile(s: Seq<char>, reg: Map<Seq<char>, FuncKind>) -> Result<
    Seq<GBItem>,
    GErr,
> {
    match spec_parse(s, 0, 0, Ctx::Top, Seq::empty()) {
        GParse::Fail { err } => Err(err),
        GParse::Done { items, end } => spec_bind_items(items, reg),
    }
}

/// Parse a pattern string against a registry, producing a bound
/// expression ready to evaluate, or the first parse or binding error.
pub fn parse(pattern: &str, registry: &Registry) -> (r: Result<BoundExpression, ParseError>)
    ensures
        match r {
            Ok(b) => spec_compile(pattern@, registry@) == Ok::<Seq<GBItem>, GErr>(b@) && wf_items(
                b@,
            ),
            Err(e) => spec_compile(pattern@, registry@) == Err::<Seq<GBItem>, GErr>(e@),
        },
{
    match parse_items(pattern, 0, Ctx::Top) {
        Err(e) => Err(e),
        Ok((items, _end)) => {
            let expr = Expression { items };
            build_expression(&expr, registry)
        },
    }
}

} // verus!
