//! The laws of the pass, stated and proved against the specification
//! that the executable traversal is proved to implement: when a
//! diagnostic fires, when none does, and that a complete traversal
//! leaves the suppression stack exactly as it found it.

use vstd::prelude::*;
use crate::ast::{
    list_has_id, list_well_formed, subtree_has_id, subtree_well_formed, Callee, Expr, ExprKind,
    Span,
};
use crate::context::AnalysisContext;
use crate::detector::{
    analyze, method_diags_from, method_rule_diag, method_rule_fires, qualified_diags_from,
    qualified_rule_diag, qualified_rule_fires, spec_arm_target, spec_desugar_target, spec_enter_diags,
    spec_enter_stack, spec_qual_name, spec_suppressed, spec_wrapped_call_arg,
};
use crate::diagnostics::DiagView;
use crate::rules::{method_rule_views, qualified_rule_views, RuleView};
use crate::traversal::{visit_list_from, visit_spec};

verus! {

/// No two tracked conversions share a method name; the pairwise
/// disequalities the firing laws rest on.
proof fn lemma_rule_names_distinct()
    ensures
        "from"@ != "into"@,
        "from"@ != "as_ref"@,
        "from"@ != "as_mut"@,
        "from"@ != "borrow"@,
        "from"@ != "borrow_mut"@,
        "from"@ != "by_ref"@,
        "into"@ != "as_ref"@,
        "into"@ != "as_mut"@,
        "into"@ != "borrow"@,
        "into"@ != "borrow_mut"@,
        "into"@ != "by_ref"@,
        "as_ref"@ != "as_mut"@,
        "as_ref"@ != "borrow"@,
        "as_ref"@ != "borrow_mut"@,
        "as_ref"@ != "by_ref"@,
        "as_mut"@ != "borrow"@,
        "as_mut"@ != "borrow_mut"@,
        "as_mut"@ != "by_ref"@,
        "borrow"@ != "borrow_mut"@,
        "borrow"@ != "by_ref"@,
        "borrow_mut"@ != "by_ref"@,
{
    reveal_strlit("from");
    reveal_strlit("into");
    reveal_strlit("as_ref");
    reveal_strlit("as_mut");
    reveal_strlit("borrow");
    reveal_strlit("borrow_mut");
    reveal_strlit("by_ref");
    assert("from"@.len() == 4);
    assert("into"@.len() == 4);
    assert("as_ref"@.len() == 6);
    assert("as_mut"@.len() == 6);
    assert("borrow"@.len() == 6);
    assert("borrow_mut"@.len() == 10);
    assert("by_ref"@.len() == 6);
    assert("from"@[0] == 'f' && "into"@[0] == 'i');
    assert("as_ref"@[0] == 'a' && "as_mut"@[0] == 'a');
    assert("borrow"@[0] == 'b' && "by_ref"@[0] == 'b');
    assert("as_ref"@[1] == 's' && "as_mut"@[1] == 's');
    assert("borrow"@[1] == 'o' && "by_ref"@[1] == 'y');
    assert("as_ref"@[3] == 'r' && "as_mut"@[3] == 'm');
}

/// When no method-call rule in `rules[i..]` fires on `e`, that part of
/// the table reports nothing.
proof fn lemma_method_diags_none(
    cx: AnalysisContext,
    e: Expr,
    name: Seq<char>,
    args: Seq<Expr>,
    rules: Seq<RuleView>,
    i: int,
)
    requires
        forall|j: int| i <= j < rules.len() ==> !method_rule_fires(cx, e, name, args, rules[j]),
    ensures
        method_diags_from(cx, e, name, args, rules, i) == Seq::<DiagView>::empty(),
    decreases rules.len() - i,
{
    if 0 <= i < rules.len() {
        lemma_method_diags_none(cx, e, name, args, rules, i + 1);
        assert(method_diags_from(cx, e, name, args, rules, i) =~= Seq::<DiagView>::empty());
    }
}

/// When exactly rule `k` of `rules[i..]` fires on `e`, that part of
/// the table reports exactly rule `k`'s diagnostic.
proof fn lemma_method_diags_single(
    cx: AnalysisContext,
    e: Expr,
    name: Seq<char>,
    args: Seq<Expr>,
    rules: Seq<RuleView>,
    i: int,
    k: int,
)
    requires
        0 <= i <= k < rules.len(),
        method_rule_fires(cx, e, name, args, rules[k]),
        forall|j: int| i <= j < rules.len() && j != k ==> !method_rule_fires(
            cx,
            e,
            name,
            args,
            rules[j],
        ),
    ensures
        method_diags_from(cx, e, name, args, rules, i) == seq![
            method_rule_diag(cx, e, args, rules[k]),
        ],
    decreases k - i,
{
    if i == k {
        lemma_method_diags_none(cx, e, name, args, rules, k + 1);
        assert(method_diags_from(cx, e, name, args, rules, k) =~= seq![
            method_rule_diag(cx, e, args, rules[k]),
        ]);
    } else {
        lemma_method_diags_single(cx, e, name, args, rules, i + 1, k);
        assert(method_diags_from(cx, e, name, args, rules, i) =~= seq![
            method_rule_diag(cx, e, args, rules[k]),
        ]);
    }
}

/// When no qualified-call rule in `rules[i..]` fires on `e`, that part
/// of the table reports nothing.
proof fn lemma_qualified_diags_none(
    cx: AnalysisContext,
    e: Expr,
    callee: Callee,
    args: Seq<Expr>,
    rules: Seq<RuleView>,
    i: int,
)
    requires
        forall|j: int| i <= j < rules.len() ==> !qualified_rule_fires(
            cx,
            e,
            callee,
            args,
            rules[j],
        ),
    ensures
        qualified_diags_from(cx, e, callee, args, rules, i) == Seq::<DiagView>::empty(),
    decreases rules.len() - i,
{
    if 0 <= i < rules.len() {
        lemma_qualified_diags_none(cx, e, callee, args, rules, i + 1);
        assert(qualified_diags_from(cx, e, callee, args, rules, i) =~= Seq::<
            DiagView,
        >::empty());
    }
}

/// When exactly rule `k` of `rules[i..]` fires on `e`, that part of
/// the table reports exactly rule `k`'s diagnostic.
proof fn lemma_qualified_diags_single(
    cx: AnalysisContext,
    e: Expr,
    callee: Callee,
    args: Seq<Expr>,
    rules: Seq<RuleView>,
    i: int,
    k: int,
)
    requires
        0 <= i <= k < rules.len(),
        qualified_rule_fires(cx, e, callee, args, rules[k]),
        forall|j: int| i <= j < rules.len() && j != k ==> !qualified_rule_fires(
            cx,
            e,
            callee,
            args,
            rules[j],
        ),
    ensures
        qualified_diags_from(cx, e, callee, args, rules, i) == seq![
            qualified_rule_diag(cx, e, callee, args, rules[k]),
        ],
    decreases k - i,
{
    if i == k {
        lemma_qualified_diags_none(cx, e, callee, args, rules, k + 1);
        assert(qualified_diags_from(cx, e, callee, args, rules, k) =~= seq![
            qualified_rule_diag(cx, e, callee, args, rules[k]),
        ]);
    } else {
        lemma_qualified_diags_single(cx, e, callee, args, rules, i + 1, k);
        assert(qualified_diags_from(cx, e, callee, args, rules, i) =~= seq![
            qualified_rule_diag(cx, e, callee, args, rules[k]),
        ]);
    }
}

/// Law: a method call `x.m()` whose method genuinely dispatches
/// through an implementation of tracked interface `k`, and whose
/// receiver type equals the whole expression's type, is reported
/// exactly once, with replacement text equal to the snippet of `x`.
pub proof fn lemma_method_call_fires_once(
    cx: AnalysisContext,
    e: Expr,
    nm: String,
    ar: Vec<Expr>,
    k: int,
)
    requires
        e.kind == (ExprKind::MethodCall { name: nm, args: ar }),
        0 <= k < method_rule_views().len(),
        nm@ == method_rule_views()[k].method,
        cx.spec_method_interface(e.id) == Some(method_rule_views()[k].path),
        ar@.len() >= 1,
        cx.spec_tys_equal(e.id, ar@[0].id),
    ensures
        analyze(cx, e) == seq![method_rule_diag(cx, e, ar@, method_rule_views()[k])],
        analyze(cx, e).len() == 1,
        analyze(cx, e)[0].span == e.span,
        analyze(cx, e)[0].message == "identical conversion"@,
        analyze(cx, e)[0].replacement == cx.spec_snippet_or(ar@[0].span, "<expr>"@),
{
    lemma_rule_names_distinct();
    let rules = method_rule_views();
    assert(method_rule_fires(cx, e, nm@, ar@, rules[k]));
    assert forall|j: int| 0 <= j < rules.len() && j != k implies !method_rule_fires(
        cx,
        e,
        nm@,
        ar@,
        rules[j],
    ) by {
        if method_rule_fires(cx, e, nm@, ar@, rules[j]) {
            assert(rules[j].method == nm@);
            assert(rules[j].method == rules[k].method);
        }
    }
    lemma_method_diags_single(cx, e, nm@, ar@, rules, 0, k);
}

/// Law: a qualified call `I::m(x)` whose callee resolves to a
/// definition declared by tracked interface `k`, written under rule
/// `k`'s method name, and whose first argument's type equals the whole
/// expression's type, is reported exactly once, with replacement text
/// equal to the snippet of `x`.
pub proof fn lemma_qualified_call_fires_once(
    cx: AnalysisContext,
    e: Expr,
    callee: Callee,
    ar: Vec<Expr>,
    k: int,
)
    requires
        e.kind == (ExprKind::Call { callee: callee, args: ar }),
        0 <= k < qualified_rule_views().len(),
        match callee.path {
            Some(q) => spec_qual_name(q) == Some(qualified_rule_views()[k].method),
            None => false,
        },
        match cx.spec_resolve(callee.ref_id) {
            Some(d) => cx.spec_def_interface(d) == Some(qualified_rule_views()[k].path),
            None => false,
        },
        ar@.len() >= 1,
        cx.spec_tys_equal(e.id, ar@[0].id),
    ensures
        analyze(cx, e) == seq![qualified_rule_diag(cx, e, callee, ar@, qualified_rule_views()[k])],
        analyze(cx, e).len() == 1,
        analyze(cx, e)[0].span == e.span,
        analyze(cx, e)[0].message == "identical conversion"@,
        analyze(cx, e)[0].replacement == cx.spec_snippet_or(ar@[0].span, "<expr>"@),
{
    lemma_rule_names_distinct();
    let rules = qualified_rule_views();
    assert(qualified_rule_fires(cx, e, callee, ar@, rules[k]));
    assert forall|j: int| 0 <= j < rules.len() && j != k implies !qualified_rule_fires(
        cx,
        e,
        callee,
        ar@,
        rules[j],
    ) by {
        if qualified_rule_fires(cx, e, callee, ar@, rules[j]) {
            assert(rules[j].method == rules[k].method);
        }
    }
    lemma_qualified_diags_single(cx, e, callee, ar@, rules, 0, k);
}

/// Law: no diagnostic fires on a node whose input type and result
/// type differ (or whose types the host could not infer), whatever
/// its shape.
pub proof fn lemma_no_fire_when_types_differ(cx: AnalysisContext, e: Expr)
    requires
        match e.kind {
            ExprKind::MethodCall { name: _, args } => args@.len() < 1 || !cx.spec_tys_equal(
                e.id,
                args@[0].id,
            ),
            ExprKind::Call { callee: _, args } => args@.len() < 1 || !cx.spec_tys_equal(
                e.id,
                args@[0].id,
            ),
            _ => true,
        },
    ensures
        analyze(cx, e) == Seq::<DiagView>::empty(),
{
    match e.kind {
        ExprKind::MethodCall { name, args } => {
            lemma_method_diags_none(cx, e, name@, args@, method_rule_views(), 0);
        },
        ExprKind::Call { callee, args } => {
            lemma_qualified_diags_none(cx, e, callee, args@, qualified_rule_views(), 0);
        },
        _ => {},
    }
}

/// Law: a node from macro-expanded source reports nothing, whatever
/// its shape and types.
pub proof fn lemma_no_fire_in_macro(cx: AnalysisContext, e: Expr, st: Seq<u64>)
    requires
        cx.spec_is_macro(e.id),
    ensures
        spec_enter_diags(cx, e, st) == Seq::<DiagView>::empty(),
{
}

/// Law: a macro-expanded method-call or qualified-call node that is
/// not the pending synthetic duplicate is skipped entirely: the enter
/// callback reports nothing and leaves the suppression stack
/// untouched, whatever the rules, the types or the resolver would say
/// of the node. (Only an error-propagation desugar match can move the
/// stack on enter; a macro-expanded one still does, by the pipeline
/// order: the tracker gates entry before the classifier's macro skip.)
pub proof fn lemma_macro_call_skipped(cx: AnalysisContext, e: Expr, st: Seq<u64>)
    requires
        cx.spec_is_macro(e.id),
        !spec_suppressed(e, st),
        match e.kind {
            ExprKind::MethodCall { .. } => true,
            ExprKind::Call { .. } => true,
            _ => false,
        },
    ensures
        spec_enter_diags(cx, e, st) == Seq::<DiagView>::empty(),
        spec_enter_stack(e, st) == st,
{
}

/// The firing laws lifted to the enter callback: a node that is not
/// the pending synthetic duplicate and not macro-expanded reports
/// exactly what its analysis reports.
pub proof fn lemma_enter_reports_analysis(cx: AnalysisContext, e: Expr, st: Seq<u64>)
    requires
        !spec_suppressed(e, st),
        !cx.spec_is_macro(e.id),
    ensures
        spec_enter_diags(cx, e, st) == analyze(cx, e),
{
}

/// Whether every node of the subtree rooted at `e` comes from
/// macro-expanded source.
pub open spec fn subtree_all_macro(cx: AnalysisContext, e: Expr) -> bool
    decreases e, 0int,
{
    cx.spec_is_macro(e.id) && list_all_macro(cx, e.children(), 0)
}

/// Whether every node of the subtrees rooted at `es[i]`, `es[i + 1]`,
/// ... comes from macro-expanded source.
pub open spec fn list_all_macro(cx: AnalysisContext, es: Seq<Expr>, i: int) -> bool
    decreases es, es.len() - i,
{
    0 <= i < es.len() ==> (subtree_all_macro(cx, es[i]) && list_all_macro(cx, es, i + 1))
}

/// Law: a traversal of a subtree that lies wholly in macro-expanded
/// source reports nothing, whatever the types in it say.
pub proof fn lemma_macro_subtree_silent(cx: AnalysisContext, e: Expr, st: Seq<u64>)
    requires
        subtree_all_macro(cx, e),
    ensures
        visit_spec(cx, e, st).0 == Seq::<DiagView>::empty(),
    decreases e, 1int,
{
    let st1 = spec_enter_stack(e, st);
    lemma_macro_list_silent(cx, e.children(), 0, st1);
    assert(visit_spec(cx, e, st).0 =~= Seq::<DiagView>::empty());
}

proof fn lemma_macro_list_silent(cx: AnalysisContext, es: Seq<Expr>, i: int, st: Seq<u64>)
    requires
        list_all_macro(cx, es, i),
    ensures
        visit_list_from(cx, es, i, st).0 == Seq::<DiagView>::empty(),
    decreases es, es.len() - i,
{
    if 0 <= i < es.len() {
        lemma_macro_subtree_silent(cx, es[i], st);
        lemma_macro_list_silent(cx, es, i + 1, visit_spec(cx, es[i], st).1);
        assert(visit_list_from(cx, es, i, st).0 =~= Seq::<DiagView>::empty());
    }
}

/// Law: a traversal of a well-formed subtree, entered with a
/// suppression stack that mentions no id of that subtree, gives the
/// stack back exactly as it found it: every push of a synthetic
/// duplicate is matched by the pop at that duplicate's own visit.
pub proof fn lemma_traversal_balances_stack(cx: AnalysisContext, e: Expr, st: Seq<u64>)
    requires
        subtree_well_formed(e),
        forall|j: int| 0 <= j < st.len() ==> !subtree_has_id(e, st[j]),
    ensures
        visit_spec(cx, e, st).1 == st,
    decreases e, 1int, 1int,
{
    assert(subtree_has_id(e, e.id));
    assert(!spec_suppressed(e, st)) by {
        if spec_suppressed(e, st) {
            assert(st[st.len() - 1] == e.id);
            assert(!subtree_has_id(e, st[st.len() - 1]));
        }
    }
    assert forall|j: int| 0 <= j < st.len() implies !list_has_id(e.children(), 0, st[j]) by {
        assert(!subtree_has_id(e, st[j]));
    }
    if st.len() > 0 {
        assert(st.last() == st[st.len() - 1]);
        assert(st.last() != e.id);
    }
    match spec_desugar_target(e) {
        None => {
            assert(spec_enter_stack(e, st) == st);
            lemma_list_balances_stack(cx, e.children(), 0, st);
            assert(visit_spec(cx, e, st).1 == st);
        },
        Some(t) => {
            lemma_desugar_case_balances(cx, e, st, t);
        },
    }
}

proof fn lemma_list_balances_stack(cx: AnalysisContext, es: Seq<Expr>, i: int, st: Seq<u64>)
    requires
        list_well_formed(es, i),
        forall|j: int| 0 <= j < st.len() ==> !list_has_id(es, i, st[j]),
    ensures
        visit_list_from(cx, es, i, st).1 == st,
    decreases es, es.len() - i, 0int,
{
    if 0 <= i < es.len() {
        assert forall|j: int| 0 <= j < st.len() implies !subtree_has_id(es[i], st[j]) by {
            assert(!list_has_id(es, i, st[j]));
        }
        lemma_traversal_balances_stack(cx, es[i], st);
        assert forall|j: int| 0 <= j < st.len() implies !list_has_id(es, i + 1, st[j]) by {
            assert(!list_has_id(es, i, st[j]));
        }
        lemma_list_balances_stack(cx, es, i + 1, st);
    }
}

/// The desugar-construct case of the balance law: the target pushed
/// at the match's enter is popped exactly when the synthetic
/// duplicate, the first argument of the call wrapped by the first
/// arm's early return or loop break, is itself visited.
proof fn lemma_desugar_case_balances(cx: AnalysisContext, e: Expr, st: Seq<u64>, t: u64)
    requires
        subtree_well_formed(e),
        forall|j: int| 0 <= j < st.len() ==> !subtree_has_id(e, st[j]),
        !spec_suppressed(e, st),
        spec_desugar_target(e) == Some(t),
    ensures
        visit_spec(cx, e, st).1 == st,
    decreases e, 1int, 0int,
{
    let stp = st.push(t);
    assert(stp.drop_last() =~= st);
    match e.kind {
        ExprKind::TryDesugarMatch { arms } => {
            let r = arms@[0];
            assert(e.children() == arms@);
            assert(arms@.len() > 0);
            assert(spec_arm_target(r) == Some(t));
            assert(subtree_well_formed(r) && list_well_formed(arms@, 1)) by {
                assert(list_well_formed(arms@, 0));
            }
            match r.kind {
                ExprKind::Ret { vals } => {
                    assert(analyze(cx, r) == Seq::<DiagView>::empty());
                    lemma_arm_body_consumes(cx, e, r, vals@, st, t);
                },
                ExprKind::Brk { vals } => {
                    assert(analyze(cx, r) == Seq::<DiagView>::empty());
                    lemma_arm_body_consumes(cx, e, r, vals@, st, t);
                },
                _ => {
                    assert(false);
                },
            }
            // the first arm's traversal consumed the pushed target
            assert(visit_spec(cx, r, stp).1 == st);
            // the remaining arms see the original, disjoint stack
            assert forall|j: int| 0 <= j < st.len() implies !list_has_id(arms@, 1, st[j]) by {
                assert(!subtree_has_id(e, st[j]));
                assert(!list_has_id(arms@, 0, st[j]));
            }
            lemma_list_balances_stack(cx, arms@, 1, st);
            assert(visit_list_from(cx, arms@, 0, stp).1 == st);
            assert(visit_spec(cx, e, st).1 == st);
        },
        _ => {
            assert(false);
        },
    }
}

/// Traversing the first arm's body with the freshly pushed target on
/// top of the stack consumes exactly that target.
proof fn lemma_arm_body_consumes(
    cx: AnalysisContext,
    e: Expr,
    r: Expr,
    vals: Seq<Expr>,
    st: Seq<u64>,
    t: u64,
)
    requires
        subtree_well_formed(e),
        forall|j: int| 0 <= j < st.len() ==> !subtree_has_id(e, st[j]),
        e.children().len() > 0,
        e.children()[0] == r,
        subtree_well_formed(r),
        r.children() == vals,
        vals.len() == 1,
        spec_wrapped_call_arg(vals[0]) == Some(t),
        spec_desugar_target(r) == None::<u64>,
        analyze(cx, r) == Seq::<DiagView>::empty(),
    ensures
        visit_spec(cx, r, st.push(t)).1 == st,
        visit_spec(cx, r, st.push(t)).0 == spec_enter_diags(cx, vals[0], st.push(t))
            + visit_list_from(cx, vals[0].children()[0].children(), 0, st).0 + visit_list_from(
            cx,
            vals[0].children(),
            1,
            st,
        ).0 + visit_list_from(cx, vals, 1, st).0,
    decreases e, 0int, 0int,
{
    let stp = st.push(t);
    assert(stp.drop_last() =~= st);
    let c = vals[0];
    assert(subtree_well_formed(c) && list_well_formed(vals, 1)) by {
        assert(list_well_formed(vals, 0));
    }
    match c.kind {
        ExprKind::Call { callee: _, args } => {
            let x = args@[0];
            assert(c.children() == args@);
            assert(args@.len() >= 1);
            assert(x.id == t);
            // t names a node strictly inside each enclosing level
            assert(subtree_has_id(x, t));
            assert(list_has_id(args@, 0, t));
            assert(subtree_has_id(c, t));
            assert(list_has_id(vals, 0, t));
            assert(subtree_has_id(r, t));
            assert(list_has_id(e.children(), 0, t));
            assert(subtree_has_id(e, t));
            // the whole descent is structurally below the tree's root
            assert(decreases_to!(e => e.children()));
            assert(decreases_to!(e.children() => e.children()[0]));
            assert(decreases_to!(r => r.children()));
            assert(decreases_to!(r.children() => r.children()[0]));
            assert(decreases_to!(c => c.children()));
            assert(decreases_to!(c.children() => c.children()[0]));
            assert(decreases_to!(x => x.children()));
            // so neither the arm body nor the wrapped call is the target
            assert(r.id != t) by {
                if r.id == t {
                    assert(list_has_id(r.children(), 0, r.id));
                }
            }
            assert(c.id != t) by {
                if c.id == t {
                    assert(list_has_id(c.children(), 0, c.id));
                }
            }
            // t is not on the original stack either
            assert forall|j: int| 0 <= j < st.len() implies st[j] != t by {
                assert(!subtree_has_id(e, st[j]));
            }
            // enter the arm body: not suppressed, nothing pushed
            assert(!spec_suppressed(r, stp));
            assert(spec_enter_stack(r, stp) == stp);
            // enter the wrapped call: not suppressed, nothing pushed
            assert(!spec_suppressed(c, stp));
            assert(spec_desugar_target(c) == None::<u64>);
            assert(spec_enter_stack(c, stp) == stp);
            // the synthetic duplicate itself: suppressed, popped
            assert(spec_suppressed(x, stp));
            assert(spec_enter_stack(x, stp) =~= st);
            assert(subtree_well_formed(x) && list_well_formed(args@, 1)) by {
                assert(list_well_formed(args@, 0));
            }
            // its children run on the restored, disjoint stack
            assert forall|j: int| 0 <= j < st.len() implies !list_has_id(x.children(), 0, st[j])
                by {
                assert(!subtree_has_id(e, st[j]));
                assert(!list_has_id(e.children(), 0, st[j]));
                assert(!subtree_has_id(r, st[j]));
                assert(!list_has_id(vals, 0, st[j]));
                assert(!subtree_has_id(c, st[j]));
                assert(!list_has_id(args@, 0, st[j]));
                assert(!subtree_has_id(x, st[j]));
            }
            lemma_list_balances_stack(cx, x.children(), 0, st);
            // leaving the duplicate: its id is no longer on the stack
            assert(visit_spec(cx, x, stp).1 == st) by {
                if st.len() > 0 {
                    assert(st.last() == st[st.len() - 1]);
                }
            }
            // the call's remaining arguments
            assert forall|j: int| 0 <= j < st.len() implies !list_has_id(args@, 1, st[j]) by {
                assert(!subtree_has_id(e, st[j]));
                assert(!list_has_id(e.children(), 0, st[j]));
                assert(!subtree_has_id(r, st[j]));
                assert(!list_has_id(vals, 0, st[j]));
                assert(!subtree_has_id(c, st[j]));
                assert(!list_has_id(args@, 0, st[j]));
            }
            lemma_list_balances_stack(cx, args@, 1, st);
            assert(visit_list_from(cx, args@, 0, stp).1 == st);
            // leaving the wrapped call and the arm body
            assert forall|j: int| 0 <= j < st.len() implies st[j] != c.id by {
                assert(!subtree_has_id(e, st[j]));
                assert(!list_has_id(e.children(), 0, st[j]));
                assert(!subtree_has_id(r, st[j]));
                assert(!list_has_id(vals, 0, st[j]));
                assert(!subtree_has_id(c, st[j]));
            }
            assert(visit_spec(cx, c, stp).1 == st) by {
                if st.len() > 0 {
                    assert(st.last() == st[st.len() - 1]);
                }
            }
            assert(visit_list_from(cx, vals, 1, st).1 == st);
            assert(visit_list_from(cx, vals, 0, stp).1 == st);
            assert forall|j: int| 0 <= j < st.len() implies st[j] != r.id by {
                assert(!subtree_has_id(e, st[j]));
                assert(!list_has_id(e.children(), 0, st[j]));
                assert(!subtree_has_id(r, st[j]));
            }
            assert(visit_spec(cx, r, stp).1 == st) by {
                if st.len() > 0 {
                    assert(st.last() == st[st.len() - 1]);
                }
            }
            // the diagnostics decompose the same way: the arm body and
            // the skipped duplicate themselves report nothing
            assert(spec_enter_diags(cx, r, stp) =~= Seq::<DiagView>::empty());
            assert(spec_enter_diags(cx, x, stp) =~= Seq::<DiagView>::empty());
            assert(visit_spec(cx, x, stp).0 =~= visit_list_from(cx, x.children(), 0, st).0);
            assert(visit_list_from(cx, args@, 0, stp).0 =~= visit_list_from(
                cx,
                x.children(),
                0,
                st,
            ).0 + visit_list_from(cx, args@, 1, st).0);
            assert(visit_spec(cx, c, stp).0 =~= spec_enter_diags(cx, c, stp) + (visit_list_from(
                cx,
                x.children(),
                0,
                st,
            ).0 + visit_list_from(cx, args@, 1, st).0));
            assert(visit_list_from(cx, vals, 0, stp).0 =~= visit_spec(cx, c, stp).0
                + visit_list_from(cx, vals, 1, st).0);
            assert(visit_spec(cx, r, stp).0 =~= spec_enter_diags(cx, c, stp) + visit_list_from(
                cx,
                x.children(),
                0,
                st,
            ).0 + visit_list_from(cx, c.children(), 1, st).0 + visit_list_from(cx, vals, 1, st).0);
        },
        _ => {
            assert(false);
        },
    }
}

/// Law: after one complete run over a well-formed tree, started with
/// the empty suppression stack, the stack is empty again: no push
/// leaks past the traversal that made it.
pub proof fn lemma_run_leaves_empty_stack(cx: AnalysisContext, e: Expr)
    requires
        subtree_well_formed(e),
    ensures
        visit_spec(cx, e, Seq::<u64>::empty()).1 == Seq::<u64>::empty(),
{
    lemma_traversal_balances_stack(cx, e, Seq::empty());
}

/// Whether some node of the subtree rooted at `e` carries span `s`.
pub open spec fn subtree_has_span(e: Expr, s: Span) -> bool
    decreases e, 0int,
{
    e.span == s || list_has_span(e.children(), 0, s)
}

/// Whether some node of the subtrees rooted at `es[i]`, ... carries
/// span `s`.
pub open spec fn list_has_span(es: Seq<Expr>, i: int, s: Span) -> bool
    decreases es, es.len() - i,
{
    0 <= i < es.len() && (subtree_has_span(es[i], s) || list_has_span(es, i + 1, s))
}

/// Whether the node with id `xid` is the only node of the subtree
/// rooted at `e` that can carry span `s`.
pub open spec fn span_only_node(e: Expr, s: Span, xid: u64) -> bool
    decreases e, 0int,
{
    &&& (e.span == s ==> e.id == xid)
    &&& list_span_only(e.children(), 0, s, xid)
}

/// The sibling-list form of [`span_only_node`].
pub open spec fn list_span_only(es: Seq<Expr>, i: int, s: Span, xid: u64) -> bool
    decreases es, es.len() - i,
{
    0 <= i < es.len() ==> (span_only_node(es[i], s, xid) && list_span_only(es, i + 1, s, xid))
}

/// Every diagnostic the method-call table reports on `e` carries
/// `e`'s own span.
proof fn lemma_method_diags_spans(
    cx: AnalysisContext,
    e: Expr,
    name: Seq<char>,
    args: Seq<Expr>,
    rules: Seq<RuleView>,
    i: int,
)
    ensures
        forall|k: int| 0 <= k < method_diags_from(cx, e, name, args, rules, i).len()
            ==> method_diags_from(cx, e, name, args, rules, i)[k].span == e.span,
    decreases rules.len() - i,
{
    if 0 <= i < rules.len() {
        lemma_method_diags_spans(cx, e, name, args, rules, i + 1);
        let hd = if method_rule_fires(cx, e, name, args, rules[i]) {
            seq![method_rule_diag(cx, e, args, rules[i])]
        } else {
            Seq::<DiagView>::empty()
        };
        let tl = method_diags_from(cx, e, name, args, rules, i + 1);
        assert forall|k: int| 0 <= k < method_diags_from(cx, e, name, args, rules, i).len()
            implies method_diags_from(cx, e, name, args, rules, i)[k].span == e.span by {
            assert(method_diags_from(cx, e, name, args, rules, i) == hd + tl);
            if k < hd.len() {
                assert(method_diags_from(cx, e, name, args, rules, i)[k] == hd[k]);
            } else {
                assert(method_diags_from(cx, e, name, args, rules, i)[k] == tl[k - hd.len()]);
            }
        }
    }
}

/// Every diagnostic the qualified-call table reports on `e` carries
/// `e`'s own span.
proof fn lemma_qualified_diags_spans(
    cx: AnalysisContext,
    e: Expr,
    callee: Callee,
    args: Seq<Expr>,
    rules: Seq<RuleView>,
    i: int,
)
    ensures
        forall|k: int| 0 <= k < qualified_diags_from(cx, e, callee, args, rules, i).len()
            ==> qualified_diags_from(cx, e, callee, args, rules, i)[k].span == e.span,
    decreases rules.len() - i,
{
    if 0 <= i < rules.len() {
        lemma_qualified_diags_spans(cx, e, callee, args, rules, i + 1);
        let hd = if qualified_rule_fires(cx, e, callee, args, rules[i]) {
            seq![qualified_rule_diag(cx, e, callee, args, rules[i])]
        } else {
            Seq::<DiagView>::empty()
        };
        let tl = qualified_diags_from(cx, e, callee, args, rules, i + 1);
        assert forall|k: int| 0 <= k < qualified_diags_from(cx, e, callee, args, rules, i).len()
            implies qualified_diags_from(cx, e, callee, args, rules, i)[k].span == e.span by {
            assert(qualified_diags_from(cx, e, callee, args, rules, i) == hd + tl);
            if k < hd.len() {
                assert(qualified_diags_from(cx, e, callee, args, rules, i)[k] == hd[k]);
            } else {
                assert(qualified_diags_from(cx, e, callee, args, rules, i)[k] == tl[k - hd.len()]);
            }
        }
    }
}

/// Every diagnostic the enter callback reports on `e` carries `e`'s
/// own span.
proof fn lemma_enter_diags_spans(cx: AnalysisContext, e: Expr, st: Seq<u64>)
    ensures
        forall|k: int| 0 <= k < spec_enter_diags(cx, e, st).len() ==> spec_enter_diags(
            cx,
            e,
            st,
        )[k].span == e.span,
{
    match e.kind {
        ExprKind::MethodCall { name, args } => {
            lemma_method_diags_spans(cx, e, name@, args@, method_rule_views(), 0);
        },
        ExprKind::Call { callee, args } => {
            lemma_qualified_diags_spans(cx, e, callee, args@, qualified_rule_views(), 0);
        },
        _ => {},
    }
}

/// Every diagnostic of a subtree's traversal carries the span of some
/// node of that subtree.
proof fn lemma_visit_spans(cx: AnalysisContext, e: Expr, st: Seq<u64>)
    ensures
        forall|k: int| 0 <= k < visit_spec(cx, e, st).0.len() ==> subtree_has_span(
            e,
            visit_spec(cx, e, st).0[k].span,
        ),
    decreases e, 1int,
{
    lemma_enter_diags_spans(cx, e, st);
    let st1 = spec_enter_stack(e, st);
    lemma_visit_list_spans(cx, e.children(), 0, st1);
    let d0 = spec_enter_diags(cx, e, st);
    let d1 = visit_list_from(cx, e.children(), 0, st1).0;
    assert forall|k: int| 0 <= k < visit_spec(cx, e, st).0.len() implies subtree_has_span(
        e,
        visit_spec(cx, e, st).0[k].span,
    ) by {
        assert(visit_spec(cx, e, st).0 == d0 + d1);
        if k < d0.len() {
            assert(visit_spec(cx, e, st).0[k].span == e.span);
        } else {
            assert(visit_spec(cx, e, st).0[k] == d1[k - d0.len()]);
            assert(list_has_span(e.children(), 0, d1[k - d0.len()].span));
        }
    }
}

proof fn lemma_visit_list_spans(cx: AnalysisContext, es: Seq<Expr>, i: int, st: Seq<u64>)
    ensures
        forall|k: int| 0 <= k < visit_list_from(cx, es, i, st).0.len() ==> list_has_span(
            es,
            i,
            visit_list_from(cx, es, i, st).0[k].span,
        ),
    decreases es, es.len() - i,
{
    if 0 <= i < es.len() {
        lemma_visit_spans(cx, es[i], st);
        let r0 = visit_spec(cx, es[i], st);
        lemma_visit_list_spans(cx, es, i + 1, r0.1);
        let d1 = visit_list_from(cx, es, i + 1, r0.1).0;
        assert forall|k: int| 0 <= k < visit_list_from(cx, es, i, st).0.len() implies
            list_has_span(es, i, visit_list_from(cx, es, i, st).0[k].span) by {
            assert(visit_list_from(cx, es, i, st).0 == r0.0 + d1);
            if k < r0.0.len() {
                assert(subtree_has_span(es[i], r0.0[k].span));
            } else {
                assert(visit_list_from(cx, es, i, st).0[k] == d1[k - r0.0.len()]);
                assert(list_has_span(es, i + 1, d1[k - r0.0.len()].span));
            }
        }
    }
}

/// A subtree in which only the node with id `xid` may carry span `s`,
/// and which contains no node with that id, contains no node with
/// that span.
proof fn lemma_span_absent(e: Expr, s: Span, xid: u64)
    requires
        span_only_node(e, s, xid),
        !subtree_has_id(e, xid),
    ensures
        !subtree_has_span(e, s),
    decreases e, 1int,
{
    lemma_list_span_absent(e.children(), 0, s, xid);
}

proof fn lemma_list_span_absent(es: Seq<Expr>, i: int, s: Span, xid: u64)
    requires
        list_span_only(es, i, s, xid),
        !list_has_id(es, i, xid),
    ensures
        !list_has_span(es, i, s),
    decreases es, es.len() - i,
{
    if 0 <= i < es.len() {
        lemma_span_absent(es[i], s, xid);
        lemma_list_span_absent(es, i + 1, s, xid);
    }
}

/// The synthetic duplicate call node an error-propagation desugar
/// construct marks for suppression, if its first arm has the
/// recognized shape.
pub open spec fn spec_synthetic_duplicate(e: Expr) -> Option<Expr> {
    match e.kind {
        ExprKind::TryDesugarMatch { arms } => if arms@.len() > 0 {
            spec_arm_duplicate(arms@[0])
        } else {
            None
        },
        _ => None,
    }
}

/// The duplicate node named by one arm body, if it is an early return
/// or loop break wrapping a call with at least one argument.
pub open spec fn spec_arm_duplicate(body: Expr) -> Option<Expr> {
    match body.kind {
        ExprKind::Ret { vals } => if vals@.len() == 1 {
            spec_call_first_arg(vals@[0])
        } else {
            None
        },
        ExprKind::Brk { vals } => if vals@.len() == 1 {
            spec_call_first_arg(vals@[0])
        } else {
            None
        },
        _ => None,
    }
}

/// The first argument of a call expression, if any.
pub open spec fn spec_call_first_arg(c: Expr) -> Option<Expr> {
    match c.kind {
        ExprKind::Call { callee: _, args } => if args@.len() >= 1 {
            Some(args@[0])
        } else {
            None
        },
        _ => None,
    }
}

/// Traversing the first arm of the desugar construct reports nothing
/// at the synthetic duplicate's span.
proof fn lemma_dup_arm_silent_at_span(
    cx: AnalysisContext,
    e: Expr,
    r: Expr,
    vals: Seq<Expr>,
    st: Seq<u64>,
    x: Expr,
)
    requires
        subtree_well_formed(e),
        forall|j: int| 0 <= j < st.len() ==> !subtree_has_id(e, st[j]),
        e.children().len() > 0,
        e.children()[0] == r,
        subtree_well_formed(r),
        r.children() == vals,
        vals.len() == 1,
        spec_wrapped_call_arg(vals[0]) == Some(x.id),
        spec_desugar_target(r) == None::<u64>,
        analyze(cx, r) == Seq::<DiagView>::empty(),
        vals[0].children().len() >= 1,
        vals[0].children()[0] == x,
        span_only_node(e, x.span, x.id),
    ensures
        visit_spec(cx, r, st.push(x.id)).1 == st,
        forall|k: int| 0 <= k < visit_spec(cx, r, st.push(x.id)).0.len() ==> visit_spec(
            cx,
            r,
            st.push(x.id),
        ).0[k].span != x.span,
{
    let t = x.id;
    let s = x.span;
    let stp = st.push(t);
    let c = vals[0];
    lemma_arm_body_consumes(cx, e, r, vals, st, t);
    // well-formedness and the span bound, pushed down the shape
    assert(subtree_well_formed(c)) by {
        assert(list_well_formed(vals, 0));
    }
    assert(span_only_node(r, s, t)) by {
        assert(list_span_only(e.children(), 0, s, t));
    }
    assert(span_only_node(c, s, t)) by {
        assert(list_span_only(r.children(), 0, s, t));
    }
    assert(subtree_well_formed(x)) by {
        assert(list_well_formed(c.children(), 0));
    }
    assert(span_only_node(x, s, t)) by {
        assert(list_span_only(c.children(), 0, s, t));
    }
    // the wrapped call is not the duplicate, so its span is not `s`
    assert(subtree_has_id(x, t));
    assert(list_has_id(c.children(), 0, t));
    assert(c.id != t) by {
        if c.id == t {
            assert(list_has_id(c.children(), 0, c.id));
        }
    }
    assert(c.span != s);
    // the four pieces of the arm's diagnostics
    let d_c = spec_enter_diags(cx, c, stp);
    let d_x = visit_list_from(cx, x.children(), 0, st).0;
    let d_a = visit_list_from(cx, c.children(), 1, st).0;
    let d_v = visit_list_from(cx, vals, 1, st).0;
    assert(d_v =~= Seq::<DiagView>::empty());
    lemma_enter_diags_spans(cx, c, stp);
    lemma_visit_list_spans(cx, x.children(), 0, st);
    assert(list_span_only(x.children(), 0, s, t));
    assert(!list_has_id(x.children(), 0, t));
    lemma_list_span_absent(x.children(), 0, s, t);
    lemma_visit_list_spans(cx, c.children(), 1, st);
    assert(list_span_only(c.children(), 0, s, t));
    assert(list_span_only(c.children(), 1, s, t));
    assert(!list_has_id(c.children(), 1, t)) by {
        assert(list_well_formed(c.children(), 0));
        assert(subtree_has_id(c.children()[0], t));
    }
    lemma_list_span_absent(c.children(), 1, s, t);
    assert forall|k: int| 0 <= k < visit_spec(cx, r, stp).0.len() implies visit_spec(
        cx,
        r,
        stp,
    ).0[k].span != s by {
        assert(visit_spec(cx, r, stp).0 == d_c + d_x + d_a + d_v);
        let dd = visit_spec(cx, r, stp).0;
        if k < d_c.len() {
            assert(dd[k] == d_c[k]);
            assert(dd[k].span == c.span);
        } else if k < d_c.len() + d_x.len() {
            assert(dd[k] == d_x[k - d_c.len()]);
            assert(list_has_span(x.children(), 0, d_x[k - d_c.len()].span));
            assert(!list_has_span(x.children(), 0, s));
        } else if k < d_c.len() + d_x.len() + d_a.len() {
            assert(dd[k] == d_a[k - d_c.len() - d_x.len()]);
            assert(list_has_span(c.children(), 1, d_a[k - d_c.len() - d_x.len()].span));
            assert(!list_has_span(c.children(), 1, s));
        } else {
            assert(false);
        }
    }
}

/// Law: an error-propagation desugar construct never reports the
/// synthetic duplicate call it marks: a traversal of the construct,
/// entered with any stack naming none of its nodes, yields no
/// diagnostic at the duplicate's span: the logical site is reported
/// at most once, never twice.
pub proof fn lemma_synthetic_duplicate_not_reported(
    cx: AnalysisContext,
    e: Expr,
    st: Seq<u64>,
    x: Expr,
)
    requires
        subtree_well_formed(e),
        forall|j: int| 0 <= j < st.len() ==> !subtree_has_id(e, st[j]),
        spec_synthetic_duplicate(e) == Some(x),
        span_only_node(e, x.span, x.id),
    ensures
        forall|k: int| 0 <= k < visit_spec(cx, e, st).0.len() ==> visit_spec(
            cx,
            e,
            st,
        ).0[k].span != x.span,
{
    let t = x.id;
    let s = x.span;
    let stp = st.push(t);
    assert(subtree_has_id(e, e.id));
    assert(!spec_suppressed(e, st)) by {
        if spec_suppressed(e, st) {
            assert(st[st.len() - 1] == e.id);
            assert(!subtree_has_id(e, st[st.len() - 1]));
        }
    }
    match e.kind {
        ExprKind::TryDesugarMatch { arms } => {
            let r = arms@[0];
            assert(e.children() == arms@);
            assert(arms@.len() > 0);
            assert(subtree_well_formed(r) && list_well_formed(arms@, 1)) by {
                assert(list_well_formed(arms@, 0));
            }
            assert(spec_desugar_target(e) == Some(t));
            assert(spec_enter_stack(e, st) == stp);
            match r.kind {
                ExprKind::Ret { vals } => {
                    assert(analyze(cx, r) == Seq::<DiagView>::empty());
                    lemma_dup_arm_silent_at_span(cx, e, r, vals@, st, x);
                },
                ExprKind::Brk { vals } => {
                    assert(analyze(cx, r) == Seq::<DiagView>::empty());
                    lemma_dup_arm_silent_at_span(cx, e, r, vals@, st, x);
                },
                _ => {
                    assert(false);
                },
            }
            let d_r = visit_spec(cx, r, stp).0;
            assert(visit_spec(cx, r, stp).1 == st);
            let d_rest = visit_list_from(cx, arms@, 1, st).0;
            lemma_visit_list_spans(cx, arms@, 1, st);
            assert(list_span_only(arms@, 0, s, t));
            assert(list_span_only(arms@, 1, s, t));
            assert(!list_has_id(arms@, 1, t)) by {
                assert(list_well_formed(arms@, 0));
                assert(subtree_has_id(r, t)) by {
                        match r.kind {
                            ExprKind::Ret { vals } => {
                                assert(subtree_has_id(x, t));
                                assert(list_has_id(vals@[0].children(), 0, t));
                                assert(subtree_has_id(vals@[0], t));
                                assert(list_has_id(r.children(), 0, t));
                            },
                            ExprKind::Brk { vals } => {
                                assert(subtree_has_id(x, t));
                                assert(list_has_id(vals@[0].children(), 0, t));
                                assert(subtree_has_id(vals@[0], t));
                                assert(list_has_id(r.children(), 0, t));
                            },
                            _ => {
                                assert(false);
                            },
                        }
                    }
            }
            lemma_list_span_absent(arms@, 1, s, t);
            assert(spec_enter_diags(cx, e, st) =~= Seq::<DiagView>::empty());
            assert forall|k: int| 0 <= k < visit_spec(cx, e, st).0.len() implies visit_spec(
                cx,
                e,
                st,
            ).0[k].span != s by {
                assert(visit_list_from(cx, arms@, 0, stp).0 == d_r + d_rest);
                assert(visit_spec(cx, e, st).0 =~= d_r + d_rest);
                let dd = visit_spec(cx, e, st).0;
                if k < d_r.len() {
                    assert(dd[k] == d_r[k]);
                } else {
                    assert(dd[k] == d_rest[k - d_r.len()]);
                    assert(list_has_span(arms@, 1, d_rest[k - d_r.len()].span));
                    assert(!list_has_span(arms@, 1, s));
                }
            }
        },
        _ => {
            assert(false);
        },
    }
}

} // verus!
