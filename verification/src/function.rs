//! Named, case-insensitively looked-up functions, bound at
//! tree-construction time.  The function set is a closed enumeration
//! behind one uniform calling contract: each kind takes the metadata
//! capability and a list of unevaluated argument sub-expressions, and
//! decides itself which arguments to evaluate.

use vstd::prelude::*;
use crate::text::{fold_name, fold_str};

verus! {

/// Errors reported by an individual function: a wrong argument count, or
/// an argument of the wrong shape.  These are programmer-facing misuse,
/// distinct from "tag not found", which is never an error.
#[derive(Clone, Copy, PartialEq, Eq, Structural, Debug)]
pub enum Error {
    ArgumentError,
    TypeError,
}

/// The closed set of function implementations.
///
/// - `If2` coalesces on presence: `$if2(a,b)` is `a` when `a`'s metadata
///   was found, and `b` otherwise.
/// - `Add` evaluates both arguments and renders their saturating sum;
///   see the numeric module for how a text counts as a number.  Its
///   truth is the OR of its arguments' truths.
#[derive(Clone, Copy, PartialEq, Eq, Structural, Debug)]
pub enum FuncKind {
    If2,
    Add,
}

/// How many arguments a function requires; any other count is an
/// argument-count error, raised when the call is bound.
pub open spec fn spec_arity(k: FuncKind) -> int {
    match k {
        FuncKind::If2 => 2,
        FuncKind::Add => 2,
    }
}

/// Executable counterpart of [`spec_arity`].
pub fn arity(k: FuncKind) -> (r: usize)
    ensures
        r as int == spec_arity(k),
{
    match k {
        FuncKind::If2 => 2,
        FuncKind::Add => 2,
    }
}

/// A named function: the name is stored case-folded to lowercase.
pub struct Function {
    name: String,
    kind: FuncKind,
}

impl Function {
    pub closed spec fn spec_name(&self) -> Seq<char> {
        self.name@
    }

    pub closed spec fn spec_kind(&self) -> FuncKind {
        self.kind
    }

    pub fn new(name_param: &str, kind: FuncKind) -> (r: Function)
        ensures
            r.spec_name() == fold_name(name_param@),
            r.spec_kind() == kind,
    {
        Function { name: fold_str(name_param), kind }
    }

    pub fn name(&self) -> (r: &str)
        ensures
            r@ == self.spec_name(),
    {
        self.name.as_str()
    }

    pub fn kind(&self) -> (r: FuncKind)
        ensures
            r == self.spec_kind(),
    {
        self.kind
    }

    /// An owned copy of this function.
    pub fn duplicate(&self) -> (r: Function)
        ensures
            r.spec_name() == self.spec_name(),
            r.spec_kind() == self.spec_kind(),
    {
        Function { name: self.name.clone(), kind: self.kind }
    }
}

/// The registry map described by a list of functions, earliest entry
/// winning on duplicate names.
pub open spec fn functions_map(fns: Seq<Function>) -> Map<Seq<char>, FuncKind>
    decreases fns.len(),
{
    if fns.len() == 0 {
        Map::empty()
    } else {
        functions_map(fns.drop_first()).insert(fns[0].spec_name(), fns[0].spec_kind())
    }
}

/// A flat, name-unique mapping from case-folded names to functions.
/// Lookup is case-insensitive; on duplicate registrations the earliest
/// entry wins.
pub struct Registry {
    fns: Vec<Function>,
}

impl View for Registry {
    type V = Map<Seq<char>, FuncKind>;

    closed spec fn view(&self) -> Map<Seq<char>, FuncKind> {
        functions_map(self.fns@)
    }
}

/// If no function among the first `i` is named `k`, the map of the whole
/// list agrees with the map of the remainder on `k`.
proof fn lemma_functions_map_skip(fns: Seq<Function>, i: int, k: Seq<char>)
    requires
        0 <= i <= fns.len(),
        forall|j: int| 0 <= j < i ==> #[trigger] fns[j].spec_name() != k,
    ensures
        functions_map(fns).contains_key(k) == functions_map(fns.skip(i)).contains_key(k),
        functions_map(fns).contains_key(k) ==> functions_map(fns)[k] == functions_map(
            fns.skip(i),
        )[k],
    decreases i,
{
    if i > 0 {
        lemma_functions_map_skip(fns.drop_first(), i - 1, k);
        assert(fns.drop_first().skip(i - 1) =~= fns.skip(i));
    } else {
        assert(fns.skip(0) =~= fns);
    }
}

/// Appending a function extends the map only where the name was free.
proof fn lemma_functions_map_push(fns: Seq<Function>, f: Function)
    ensures
        functions_map(fns.push(f)) == if functions_map(fns).contains_key(f.spec_name()) {
            functions_map(fns)
        } else {
            functions_map(fns).insert(f.spec_name(), f.spec_kind())
        },
    decreases fns.len(),
{
    if fns.len() == 0 {
        assert(fns.push(f).drop_first() =~= Seq::<Function>::empty());
        assert(fns.push(f)[0] == f);
        assert(functions_map(fns.push(f)) == functions_map(fns.push(f).drop_first()).insert(
            fns.push(f)[0].spec_name(),
            fns.push(f)[0].spec_kind(),
        ));
        assert(functions_map(fns) =~= Map::<Seq<char>, FuncKind>::empty());
    } else {
        lemma_functions_map_push(fns.drop_first(), f);
        assert(fns.push(f).drop_first() =~= fns.drop_first().push(f));
        if functions_map(fns).contains_key(f.spec_name()) {
            if fns[0].spec_name() == f.spec_name() {
                if functions_map(fns.drop_first()).contains_key(f.spec_name()) {
                    assert(functions_map(fns.push(f)) =~= functions_map(fns));
                } else {
                    assert(functions_map(fns.push(f)) =~= functions_map(fns));
                }
            } else {
                assert(functions_map(fns.push(f)) =~= functions_map(fns));
            }
        } else {
            assert(functions_map(fns.push(f)) =~= functions_map(fns).insert(
                f.spec_name(),
                f.spec_kind(),
            ));
        }
    }
}

impl Registry {
    /// An empty registry.
    pub fn empty() -> (r: Registry)
        ensures
            r@ == Map::<Seq<char>, FuncKind>::empty(),
    {
        Registry { fns: Vec::new() }
    }

    /// Register a function.  A name already taken keeps its earlier
    /// binding.
    pub fn register(&mut self, f: Function)
        ensures
            final(self)@ == if old(self)@.contains_key(f.spec_name()) {
                old(self)@
            } else {
                old(self)@.insert(f.spec_name(), f.spec_kind())
            },
    {
        proof {
            lemma_functions_map_push(self.fns@, f);
        }
        self.fns.push(f);
    }

    /// Case-insensitive lookup: the name is folded to lowercase and
    /// matched against the stored (already folded) names.
    pub fn lookup(&self, name: &str) -> (r: Option<&Function>)
        ensures
            match r {
                Some(f) => self@.contains_key(fold_name(name@)) && f.spec_name() == fold_name(
                    name@,
                ) && f.spec_kind() == self@[fold_name(name@)],
                None => !self@.contains_key(fold_name(name@)),
            },
    {
        let folded = fold_str(name);
        let n = self.fns.len();
        let mut i: usize = 0;
        while i < n
            invariant
                n == self.fns@.len(),
                0 <= i <= n,
                folded@ == fold_name(name@),
                forall|j: int| 0 <= j < i ==> #[trigger] self.fns@[j].spec_name() != folded@,
            decreases n - i,
        {
            if crate::text::str_eq(self.fns[i].name(), folded.as_str()) {
                proof {
                    lemma_functions_map_skip(self.fns@, i as int, folded@);
                    assert(self.fns@.skip(i as int)[0] == self.fns@[i as int]);
                }
                return Some(&self.fns[i]);
            }
            i = i + 1;
        }
        proof {
            lemma_functions_map_skip(self.fns@, n as int, folded@);
            assert(self.fns@.skip(n as int) =~= Seq::<Function>::empty());
        }
        None
    }
}

/// The standard function set the engine ships with.
pub fn standard_functions() -> (r: Vec<Function>)
    ensures
        r@.len() == 2,
        r@[0].spec_name() == "add"@,
        r@[0].spec_kind() == FuncKind::Add,
        r@[1].spec_name() == "if2"@,
        r@[1].spec_kind() == FuncKind::If2,
{
    let mut s: Vec<Function> = Vec::new();
    let fa = Function::new("add", FuncKind::Add);
    let fi = Function::new("if2", FuncKind::If2);
    proof {
        reveal_strlit("add");
        reveal_strlit("if2");
        assert(fold_name("add"@) =~= "add"@);
        assert(fold_name("if2"@) =~= "if2"@);
    }
    s.push(fa);
    s.push(fi);
    s
}

/// A registry populated with the standard function set.
pub fn standard_registry() -> (r: Registry)
    ensures
        r@ == Map::<Seq<char>, FuncKind>::empty().insert("add"@, FuncKind::Add).insert(
            "if2"@,
            FuncKind::If2,
        ),
{
    let mut r = Registry::empty();
    let mut fns = standard_functions();
    let fi = fns.pop().unwrap();
    let fa = fns.pop().unwrap();
    proof {
        reveal_strlit("add");
        reveal_strlit("if2");
        assert("add"@ != "if2"@) by {
            assert("add"@[0] == 'a');
            assert("if2"@[0] == 'i');
        }
    }
    r.register(fa);
    r.register(fi);
    r
}

} // verus!
