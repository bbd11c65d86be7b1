//! The host-supplied, read-only facts about the tree under analysis:
//! inferred types, definition resolution, interface membership, macro
//! origin, and source snippets. Every lookup is best-effort: a missing
//! entry simply means the host could not resolve that fact, and the
//! pass then does not fire for the node in question.

use vstd::prelude::*;
use crate::ast::Span;

verus! {

/// Read-only analysis facts, borrowed from the host for one
/// traversal's duration. Each table is keyed by a stable id and the
/// first matching entry wins.
pub struct AnalysisContext {
    /// Expression id to inferred type, for expressions whose type the
    /// host could infer.
    pub types: Vec<(u64, u64)>,
    /// Callee reference id to resolved definition id.
    pub resolutions: Vec<(u64, u64)>,
    /// Definition id to the path of the interface declaring it.
    pub def_interfaces: Vec<(u64, Vec<String>)>,
    /// Method-call expression id to the path of the interface through
    /// whose implementation the call dispatches.
    pub method_interfaces: Vec<(u64, Vec<String>)>,
    /// Ids of nodes whose source origin is a macro expansion.
    pub macro_nodes: Vec<u64>,
    /// Source text per span.
    pub snippets: Vec<(Span, String)>,
}

/// First value paired with key `k` in `entries[i..]`, if any.
pub open spec fn lookup_id(entries: Seq<(u64, u64)>, i: int, k: u64) -> Option<u64>
    decreases entries.len() - i,
{
    if 0 <= i < entries.len() {
        if entries[i].0 == k {
            Some(entries[i].1)
        } else {
            lookup_id(entries, i + 1, k)
        }
    } else {
        None
    }
}

/// First path paired with key `k` in `entries[i..]`, if any.
pub open spec fn lookup_path(entries: Seq<(u64, Vec<String>)>, i: int, k: u64) -> Option<
    Seq<Seq<char>>,
>
    decreases entries.len() - i,
{
    if 0 <= i < entries.len() {
        if entries[i].0 == k {
            Some(entries[i].1.deep_view())
        } else {
            lookup_path(entries, i + 1, k)
        }
    } else {
        None
    }
}

/// Whether `k` occurs in `entries[i..]`.
pub open spec fn contains_id(entries: Seq<u64>, i: int, k: u64) -> bool
    decreases entries.len() - i,
{
    0 <= i < entries.len() && (entries[i] == k || contains_id(entries, i + 1, k))
}

/// First text paired with span `k` in `entries[i..]`, if any.
pub open spec fn lookup_text(entries: Seq<(Span, String)>, i: int, k: Span) -> Option<Seq<char>>
    decreases entries.len() - i,
{
    if 0 <= i < entries.len() {
        if entries[i].0 == k {
            Some(entries[i].1@)
        } else {
            lookup_text(entries, i + 1, k)
        }
    } else {
        None
    }
}

impl AnalysisContext {
    /// The inferred type of the expression with id `id`, if known.
    pub open spec fn spec_ty_of(self, id: u64) -> Option<u64> {
        lookup_id(self.types@, 0, id)
    }

    /// The definition a callee reference resolves to, if any.
    pub open spec fn spec_resolve(self, id: u64) -> Option<u64> {
        lookup_id(self.resolutions@, 0, id)
    }

    /// The interface declaring definition `def`, if known.
    pub open spec fn spec_def_interface(self, def: u64) -> Option<Seq<Seq<char>>> {
        lookup_path(self.def_interfaces@, 0, def)
    }

    /// The interface through whose implementation the method call with
    /// id `id` dispatches, if known.
    pub open spec fn spec_method_interface(self, id: u64) -> Option<Seq<Seq<char>>> {
        lookup_path(self.method_interfaces@, 0, id)
    }

    /// Whether the node with id `id` comes from a macro expansion.
    pub open spec fn spec_is_macro(self, id: u64) -> bool {
        contains_id(self.macro_nodes@, 0, id)
    }

    /// The source text of span `sp`, if the host has it.
    pub open spec fn spec_snippet(self, sp: Span) -> Option<Seq<char>> {
        lookup_text(self.snippets@, 0, sp)
    }

    /// The source text of span `sp`, or `dflt` when the host has none.
    pub open spec fn spec_snippet_or(self, sp: Span, dflt: Seq<char>) -> Seq<char> {
        match self.spec_snippet(sp) {
            Some(s) => s,
            None => dflt,
        }
    }

    /// Whether the Type Equality Oracle reports the inferred types of
    /// expressions `a` and `b` as identical; an undecided or missing
    /// type counts as not equal.
    pub open spec fn spec_tys_equal(self, a: u64, b: u64) -> bool {
        match (self.spec_ty_of(a), self.spec_ty_of(b)) {
            (Some(x), Some(y)) => x == y,
            _ => false,
        }
    }

    /// Looks up the inferred type of expression `id`.
    pub fn ty_of(&self, id: u64) -> (r: Option<u64>)
        ensures
            r == self.spec_ty_of(id),
    {
        let n = self.types.len();
        let mut i: usize = 0;
        while i < n
            invariant
                n == self.types@.len(),
                0 <= i <= n,
                lookup_id(self.types@, 0, id) == lookup_id(self.types@, i as int, id),
            decreases n - i,
        {
            if self.types[i].0 == id {
                return Some(self.types[i].1);
            }
            i = i + 1;
        }
        None
    }

    /// Resolves a callee reference to its definition.
    pub fn resolve(&self, id: u64) -> (r: Option<u64>)
        ensures
            r == self.spec_resolve(id),
    {
        let n = self.resolutions.len();
        let mut i: usize = 0;
        while i < n
            invariant
                n == self.resolutions@.len(),
                0 <= i <= n,
                lookup_id(self.resolutions@, 0, id) == lookup_id(self.resolutions@, i as int, id),
            decreases n - i,
        {
            if self.resolutions[i].0 == id {
                return Some(self.resolutions[i].1);
            }
            i = i + 1;
        }
        None
    }

    /// Whether definition `def` is declared by the interface named by
    /// `path`.
    pub fn def_is_from(&self, def: u64, path: &Vec<String>) -> (r: bool)
        ensures
            r == (self.spec_def_interface(def) == Some(path.deep_view())),
    {
        let n = self.def_interfaces.len();
        let mut i: usize = 0;
        while i < n
            invariant
                n == self.def_interfaces@.len(),
                0 <= i <= n,
                lookup_path(self.def_interfaces@, 0, def) == lookup_path(
                    self.def_interfaces@,
                    i as int,
                    def,
                ),
            decreases n - i,
        {
            if self.def_interfaces[i].0 == def {
                return path_eq(&self.def_interfaces[i].1, path);
            }
            i = i + 1;
        }
        false
    }

    /// Whether the method call with id `id` dispatches through an
    /// implementation of the interface named by `path`.
    pub fn method_is_from(&self, id: u64, path: &Vec<String>) -> (r: bool)
        ensures
            r == (self.spec_method_interface(id) == Some(path.deep_view())),
    {
        let n = self.method_interfaces.len();
        let mut i: usize = 0;
        while i < n
            invariant
                n == self.method_interfaces@.len(),
                0 <= i <= n,
                lookup_path(self.method_interfaces@, 0, id) == lookup_path(
                    self.method_interfaces@,
                    i as int,
                    id,
                ),
            decreases n - i,
        {
            if self.method_interfaces[i].0 == id {
                return path_eq(&self.method_interfaces[i].1, path);
            }
            i = i + 1;
        }
        false
    }

    /// Whether the node with id `id` comes from a macro expansion.
    pub fn is_macro(&self, id: u64) -> (r: bool)
        ensures
            r == self.spec_is_macro(id),
    {
        let n = self.macro_nodes.len();
        let mut i: usize = 0;
        while i < n
            invariant
                n == self.macro_nodes@.len(),
                0 <= i <= n,
                contains_id(self.macro_nodes@, 0, id) == contains_id(
                    self.macro_nodes@,
                    i as int,
                    id,
                ),
            decreases n - i,
        {
            if self.macro_nodes[i] == id {
                return true;
            }
            i = i + 1;
        }
        false
    }

    /// The source text of span `sp`, or `dflt` when the host has none.
    pub fn snippet_or(&self, sp: Span, dflt: String) -> (r: String)
        ensures
            r@ == self.spec_snippet_or(sp, dflt@),
    {
        let n = self.snippets.len();
        let mut i: usize = 0;
        while i < n
            invariant
                n == self.snippets@.len(),
                0 <= i <= n,
                lookup_text(self.snippets@, 0, sp) == lookup_text(self.snippets@, i as int, sp),
            decreases n - i,
        {
            if self.snippets[i].0 == sp {
                return self.snippets[i].1.clone();
            }
            i = i + 1;
        }
        dflt
    }

    /// Whether the types inferred for expressions `a` and `b` are
    /// identical; an unknown type counts as not equal.
    pub fn tys_equal(&self, a: u64, b: u64) -> (r: bool)
        ensures
            r == self.spec_tys_equal(a, b),
    {
        match (self.ty_of(a), self.ty_of(b)) {
            (Some(x), Some(y)) => x == y,
            _ => false,
        }
    }
}

/// Whether two interface paths have the same segments.
pub fn path_eq(a: &Vec<String>, b: &Vec<String>) -> (r: bool)
    ensures
        r == (a.deep_view() == b.deep_view()),
{
    if a.len() != b.len() {
        proof {
            assert(a.deep_view().len() == a@.len());
            assert(b.deep_view().len() == b@.len());
        }
        return false;
    }
    let n = a.len();
    let mut i: usize = 0;
    while i < n
        invariant
            n == a@.len(),
            n == b@.len(),
            0 <= i <= n,
            forall|j: int| 0 <= j < i ==> a@[j]@ == b@[j]@,
        decreases n - i,
    {
        if !(a[i] == b[i]) {
            proof {
                assert(a.deep_view()[i as int] == a@[i as int]@);
                assert(b.deep_view()[i as int] == b@[i as int]@);
            }
            return false;
        }
        i = i + 1;
    }
    proof {
        assert(a.deep_view() =~= b.deep_view());
    }
    true
}

} // verus!
