//! The single-pass, pre-order enter / post-order exit traversal: its
//! mathematical model, and an executable driver proved to report
//! exactly the model's diagnostics.

use vstd::prelude::*;
use crate::ast::Expr;
use crate::context::AnalysisContext;
use crate::detector::{
    spec_enter_diags, spec_enter_stack, spec_exit_stack, IdentityConversion,
};
use crate::diagnostics::{DiagView, Diagnostic};

verus! {

/// The diagnostics and final suppression stack of a traversal of the
/// subtree rooted at `e`, entered with stack `st`: the enter callback
/// on `e`, the children in order, then the leave callback on `e`.
pub open spec fn visit_spec(cx: AnalysisContext, e: Expr, st: Seq<u64>) -> (Seq<DiagView>, Seq<
    u64,
>)
    decreases e, 0int,
{
    let st1 = spec_enter_stack(e, st);
    let r = visit_list_from(cx, e.children(), 0, st1);
    (spec_enter_diags(cx, e, st) + r.0, spec_exit_stack(e, r.1))
}

/// The diagnostics and final suppression stack of traversing the
/// subtrees rooted at `es[i]`, `es[i + 1]`, ... in order.
pub open spec fn visit_list_from(cx: AnalysisContext, es: Seq<Expr>, i: int, st: Seq<u64>) -> (
    Seq<DiagView>,
    Seq<u64>,
)
    decreases es, es.len() - i,
{
    if 0 <= i < es.len() {
        let r0 = visit_spec(cx, es[i], st);
        let r1 = visit_list_from(cx, es, i + 1, r0.1);
        (r0.0 + r1.0, r1.1)
    } else {
        (Seq::empty(), st)
    }
}

/// The diagnostic set of one complete run over the tree rooted at
/// `e`, started with an empty suppression stack. The pass is a
/// function of the tree and the context alone, so two runs over an
/// unchanged tree report the identical set.
pub open spec fn run_spec(cx: AnalysisContext, e: Expr) -> Seq<DiagView> {
    visit_spec(cx, e, Seq::empty()).0
}

/// Walks the subtree rooted at `e`, firing the pass's enter and leave
/// callbacks in strict nesting order.
pub fn visit(
    pass: &mut IdentityConversion,
    cx: &AnalysisContext,
    e: &Expr,
    diags: &mut Vec<Diagnostic>,
)
    ensures
        final(diags).deep_view() == old(diags).deep_view() + visit_spec(
            *cx,
            *e,
            old(pass).try_desugar_arm@,
        ).0,
        final(pass).try_desugar_arm@ == visit_spec(*cx, *e, old(pass).try_desugar_arm@).1,
    decreases *e, 1int,
{
    let ghost st0 = pass.try_desugar_arm@;
    let ghost orig = diags.deep_view();
    pass.check_expr(cx, e, diags);
    match &e.kind {
        crate::ast::ExprKind::MethodCall { name: _, args } => {
            visit_list(pass, cx, args, diags);
        },
        crate::ast::ExprKind::Call { callee: _, args } => {
            visit_list(pass, cx, args, diags);
        },
        crate::ast::ExprKind::TryDesugarMatch { arms } => {
            visit_list(pass, cx, arms, diags);
        },
        crate::ast::ExprKind::Ret { vals } => {
            visit_list(pass, cx, vals, diags);
        },
        crate::ast::ExprKind::Brk { vals } => {
            visit_list(pass, cx, vals, diags);
        },
        crate::ast::ExprKind::Other { children } => {
            visit_list(pass, cx, children, diags);
        },
    }
    pass.check_expr_post(e);
    proof {
        let st1 = spec_enter_stack(*e, st0);
        let r = visit_list_from(*cx, e.children(), 0, st1);
        assert(diags.deep_view() =~= orig + (spec_enter_diags(*cx, *e, st0) + r.0));
    }
}

/// Walks the subtrees rooted at the elements of `es`, in order.
fn visit_list(
    pass: &mut IdentityConversion,
    cx: &AnalysisContext,
    es: &Vec<Expr>,
    diags: &mut Vec<Diagnostic>,
)
    ensures
        final(diags).deep_view() == old(diags).deep_view() + visit_list_from(
            *cx,
            es@,
            0,
            old(pass).try_desugar_arm@,
        ).0,
        final(pass).try_desugar_arm@ == visit_list_from(*cx, es@, 0, old(pass).try_desugar_arm@).1,
    decreases es@, 0int,
{
    let ghost st0 = pass.try_desugar_arm@;
    let ghost orig = diags.deep_view();
    let n = es.len();
    let mut i: usize = 0;
    while i < n
        invariant
            n == es@.len(),
            0 <= i <= n,
            orig + visit_list_from(*cx, es@, 0, st0).0 == diags.deep_view() + visit_list_from(
                *cx,
                es@,
                i as int,
                pass.try_desugar_arm@,
            ).0,
            visit_list_from(*cx, es@, 0, st0).1 == visit_list_from(
                *cx,
                es@,
                i as int,
                pass.try_desugar_arm@,
            ).1,
        decreases n - i,
    {
        let ghost pre = diags.deep_view();
        let ghost stp = pass.try_desugar_arm@;
        visit(pass, cx, &es[i], diags);
        proof {
            let v = visit_spec(*cx, es@[i as int], stp);
            let rest = visit_list_from(*cx, es@, i + 1, pass.try_desugar_arm@);
            assert(visit_list_from(*cx, es@, i as int, stp).0 == v.0 + rest.0);
            assert(pre + (v.0 + rest.0) =~= (pre + v.0) + rest.0);
            assert(orig + visit_list_from(*cx, es@, 0, st0).0 =~= diags.deep_view()
                + visit_list_from(*cx, es@, i + 1, pass.try_desugar_arm@).0);
        }
        i = i + 1;
    }
    proof {
        assert(diags.deep_view() + Seq::<DiagView>::empty() =~= diags.deep_view());
        assert(orig + visit_list_from(*cx, es@, 0, st0).0 =~= diags.deep_view());
    }
}

/// Runs the pass once over the tree rooted at `root`: one suppression
/// stack is created for the run and discarded with it. Returns the
/// run's diagnostic set, pinned exactly by [`run_spec`].
pub fn run(cx: &AnalysisContext, root: &Expr) -> (r: Vec<Diagnostic>)
    ensures
        r.deep_view() == run_spec(*cx, *root),
{
    let mut pass = IdentityConversion::new();
    let mut diags: Vec<Diagnostic> = Vec::new();
    visit(&mut pass, cx, root, &mut diags);
    proof {
        assert(diags.deep_view() =~= run_spec(*cx, *root));
    }
    diags
}

} // verus!
