//! The identity-conversion pass itself: the specification of what one
//! node's analysis reports and how the suppression stack moves, and
//! the executable enter/leave traversal callbacks proved against it.

use vstd::prelude::*;
use vstd::string::StringExecFns;
use crate::ast::{Callee, Expr, ExprKind, QualPath};
use crate::context::AnalysisContext;
use crate::diagnostics::{DiagView, Diagnostic, Lint};
use crate::rules::{method_rule_views, method_rules, qualified_rule_views, qualified_rules, RuleView};

verus! {

/// The method name a qualified call site uses: the last path segment,
/// or the relative-method segment for type-relative references.
pub open spec fn spec_qual_name(q: QualPath) -> Option<Seq<char>> {
    match q {
        QualPath::Resolved { segments } => if segments@.len() > 0 {
            Some(segments@[segments@.len() - 1]@)
        } else {
            None
        },
        QualPath::TypeRelative { segment } => Some(segment@),
    }
}

/// Whether rule `r` fires on the method call `e`: the call dispatches
/// through an implementation of the rule's interface, uses the rule's
/// method name, and converts its receiver to the receiver's own type.
pub open spec fn method_rule_fires(
    cx: AnalysisContext,
    e: Expr,
    name: Seq<char>,
    args: Seq<Expr>,
    r: RuleView,
) -> bool {
    &&& cx.spec_method_interface(e.id) == Some(r.path)
    &&& name == r.method
    &&& args.len() >= 1
    &&& cx.spec_tys_equal(e.id, args[0].id)
}

/// The diagnostic a fired method-call rule reports.
pub open spec fn method_rule_diag(
    cx: AnalysisContext,
    e: Expr,
    args: Seq<Expr>,
    r: RuleView,
) -> DiagView {
    DiagView {
        span: e.span,
        message: "identical conversion"@,
        label: "consider removing `."@ + r.method + "()`"@,
        replacement: cx.spec_snippet_or(args[0].span, "<expr>"@),
    }
}

/// The diagnostics of the method-call rules `rules[i..]` on node `e`,
/// in table order.
pub open spec fn method_diags_from(
    cx: AnalysisContext,
    e: Expr,
    name: Seq<char>,
    args: Seq<Expr>,
    rules: Seq<RuleView>,
    i: int,
) -> Seq<DiagView>
    decreases rules.len() - i,
{
    if 0 <= i < rules.len() {
        (if method_rule_fires(cx, e, name, args, rules[i]) {
            seq![method_rule_diag(cx, e, args, rules[i])]
        } else {
            Seq::empty()
        }) + method_diags_from(cx, e, name, args, rules, i + 1)
    } else {
        Seq::empty()
    }
}

/// Whether rule `r` fires on the qualified call `e`: the callee is a
/// written path resolving to a definition declared by exactly the
/// rule's interface, the call site uses the rule's method name, and
/// the call converts its first argument to that argument's own type.
pub open spec fn qualified_rule_fires(
    cx: AnalysisContext,
    e: Expr,
    callee: Callee,
    args: Seq<Expr>,
    r: RuleView,
) -> bool {
    &&& match cx.spec_resolve(callee.ref_id) {
        Some(d) => cx.spec_def_interface(d) == Some(r.path),
        None => false,
    }
    &&& match callee.path {
        Some(q) => spec_qual_name(q) == Some(r.method),
        None => false,
    }
    &&& args.len() >= 1
    &&& cx.spec_tys_equal(e.id, args[0].id)
}

/// The fallback text naming a qualified call when the host has no
/// snippet for its callee: `Interface::method` from the rule itself.
pub open spec fn qual_default_name(r: RuleView) -> Seq<char> {
    if r.path.len() > 0 {
        r.path.last() + "::"@ + r.method
    } else {
        r.method
    }
}

/// The diagnostic a fired qualified-call rule reports.
pub open spec fn qualified_rule_diag(
    cx: AnalysisContext,
    e: Expr,
    callee: Callee,
    args: Seq<Expr>,
    r: RuleView,
) -> DiagView {
    DiagView {
        span: e.span,
        message: "identical conversion"@,
        label: "consider removing `"@ + cx.spec_snippet_or(callee.span, qual_default_name(r))
            + "()`"@,
        replacement: cx.spec_snippet_or(args[0].span, "<expr>"@),
    }
}

/// The diagnostics of the qualified-call rules `rules[i..]` on node
/// `e`, in table order.
pub open spec fn qualified_diags_from(
    cx: AnalysisContext,
    e: Expr,
    callee: Callee,
    args: Seq<Expr>,
    rules: Seq<RuleView>,
    i: int,
) -> Seq<DiagView>
    decreases rules.len() - i,
{
    if 0 <= i < rules.len() {
        (if qualified_rule_fires(cx, e, callee, args, rules[i]) {
            seq![qualified_rule_diag(cx, e, callee, args, rules[i])]
        } else {
            Seq::empty()
        }) + qualified_diags_from(cx, e, callee, args, rules, i + 1)
    } else {
        Seq::empty()
    }
}

/// What analyzing node `e` itself reports, once the node has passed
/// the suppression gate and the macro check.
pub open spec fn analyze(cx: AnalysisContext, e: Expr) -> Seq<DiagView> {
    match e.kind {
        ExprKind::MethodCall { name, args } => method_diags_from(
            cx,
            e,
            name@,
            args@,
            method_rule_views(),
            0,
        ),
        ExprKind::Call { callee, args } => qualified_diags_from(
            cx,
            e,
            callee,
            args@,
            qualified_rule_views(),
            0,
        ),
        _ => Seq::empty(),
    }
}

/// The argument of the call wrapped by a desugar arm's early return or
/// loop break: the synthetic duplicate to skip.
pub open spec fn spec_wrapped_call_arg(c: Expr) -> Option<u64> {
    match c.kind {
        ExprKind::Call { callee: _, args } => if args@.len() >= 1 {
            Some(args@[0].id)
        } else {
            None
        },
        _ => None,
    }
}

/// The suppression target a desugar arm body yields, if the body is an
/// early return or loop break wrapping a call expression.
pub open spec fn spec_arm_target(body: Expr) -> Option<u64> {
    match body.kind {
        ExprKind::Ret { vals } => if vals@.len() == 1 {
            spec_wrapped_call_arg(vals@[0])
        } else {
            None
        },
        ExprKind::Brk { vals } => if vals@.len() == 1 {
            spec_wrapped_call_arg(vals@[0])
        } else {
            None
        },
        _ => None,
    }
}

/// The node id an error-propagation desugar match marks for
/// suppression, if its first arm has the recognized shape.
pub open spec fn spec_desugar_target(e: Expr) -> Option<u64> {
    match e.kind {
        ExprKind::TryDesugarMatch { arms } => if arms@.len() > 0 {
            spec_arm_target(arms@[0])
        } else {
            None
        },
        _ => None,
    }
}

/// Whether the suppression stack marks node `e` as the pending
/// synthetic duplicate.
pub open spec fn spec_suppressed(e: Expr, st: Seq<u64>) -> bool {
    st.len() > 0 && st.last() == e.id
}

/// The suppression stack after the enter callback on node `e`.
pub open spec fn spec_enter_stack(e: Expr, st: Seq<u64>) -> Seq<u64> {
    if spec_suppressed(e, st) {
        st.drop_last()
    } else {
        match spec_desugar_target(e) {
            Some(t) => st.push(t),
            None => st,
        }
    }
}

/// The diagnostics the enter callback on node `e` reports: nothing for
/// a suppressed or macro-expanded node, else the node's analysis.
pub open spec fn spec_enter_diags(cx: AnalysisContext, e: Expr, st: Seq<u64>) -> Seq<DiagView> {
    if spec_suppressed(e, st) {
        Seq::empty()
    } else if cx.spec_is_macro(e.id) {
        Seq::empty()
    } else {
        analyze(cx, e)
    }
}

/// The suppression stack after the leave callback on node `e`.
pub open spec fn spec_exit_stack(e: Expr, st: Seq<u64>) -> Seq<u64> {
    if st.len() > 0 && st.last() == e.id {
        st.drop_last()
    } else {
        st
    }
}

/// The identity-conversion pass. Its only state is the suppression
/// stack of pending synthetic duplicate calls, owned by one traversal
/// run; it is empty before and after a complete run over a
/// well-formed tree.
pub struct IdentityConversion {
    /// Ids of the synthetic duplicate calls still to be skipped,
    /// innermost construct last.
    pub try_desugar_arm: Vec<u64>,
}

impl Default for IdentityConversion {
    /// A pass instance with an empty suppression stack.
    fn default() -> (d: IdentityConversion)
        ensures
            d.try_desugar_arm@ == Seq::<u64>::empty(),
    {
        IdentityConversion { try_desugar_arm: Vec::new() }
    }
}

impl IdentityConversion {
    /// A pass instance with an empty suppression stack.
    pub fn new() -> (d: IdentityConversion)
        ensures
            d.try_desugar_arm@ == Seq::<u64>::empty(),
    {
        IdentityConversion { try_desugar_arm: Vec::new() }
    }

    /// The one diagnostic category this pass registers, warning by
    /// default.
    pub fn get_lints(&self) -> (r: Vec<Lint>)
        ensures
            r@.len() == 1,
            r@[0].name@ == "identity_conversion"@,
            r@[0].description@ == (
            "using always-identical `Into`/`From`/`AsRef`/`AsMut`/etc. conversions")@,
            r@[0].warn_by_default == true,
    {
        let mut r: Vec<Lint> = Vec::new();
        r.push(
            Lint {
                name: String::from_str("identity_conversion"),
                description: String::from_str(
                    "using always-identical `Into`/`From`/`AsRef`/`AsMut`/etc. conversions",
                ),
                warn_by_default: true,
            },
        );
        r
    }

    /// The pre-order enter callback: gates the node through the
    /// suppression stack, marks a recognized desugar construct's
    /// synthetic duplicate, and reports the node's identity
    /// conversions into `diags`.
    pub fn check_expr(&mut self, cx: &AnalysisContext, e: &Expr, diags: &mut Vec<Diagnostic>)
        ensures
            final(self).try_desugar_arm@ == spec_enter_stack(*e, old(self).try_desugar_arm@),
            final(diags).deep_view() == old(diags).deep_view() + spec_enter_diags(
                *cx,
                *e,
                old(self).try_desugar_arm@,
            ),
    {
        let n = self.try_desugar_arm.len();
        if n > 0 && self.try_desugar_arm[n - 1] == e.id {
            self.try_desugar_arm.pop();
            proof {
                assert(diags.deep_view() =~= diags.deep_view() + Seq::<DiagView>::empty());
            }
            return;
        }
        match &e.kind {
            ExprKind::TryDesugarMatch { arms } => {
                if arms.len() > 0 {
                    match &arms[0].kind {
                        ExprKind::Ret { vals } | ExprKind::Brk { vals } => {
                            if vals.len() == 1 {
                                match &vals[0].kind {
                                    ExprKind::Call { callee: _, args } => {
                                        if args.len() >= 1 {
                                            self.try_desugar_arm.push(args[0].id);
                                        }
                                    },
                                    _ => {},
                                }
                            }
                        },
                        _ => {},
                    }
                }
            },
            _ => {},
        }
        if cx.is_macro(e.id) {
            proof {
                assert(diags.deep_view() =~= diags.deep_view() + Seq::<DiagView>::empty());
            }
            return;
        }
        match &e.kind {
            ExprKind::MethodCall { name, args } => {
                emit_method_diags(cx, e, name, args, diags);
            },
            ExprKind::Call { callee, args } => {
                emit_qualified_diags(cx, e, callee, args, diags);
            },
            _ => {
                proof {
                    assert(diags.deep_view() =~= diags.deep_view() + Seq::<DiagView>::empty());
                }
            },
        }
    }

    /// The post-order leave callback: releases the node's suppression
    /// entry if it is still pending.
    pub fn check_expr_post(&mut self, e: &Expr)
        ensures
            final(self).try_desugar_arm@ == spec_exit_stack(*e, old(self).try_desugar_arm@),
    {
        let n = self.try_desugar_arm.len();
        if n > 0 && self.try_desugar_arm[n - 1] == e.id {
            self.try_desugar_arm.pop();
        }
    }
}

/// Runs the method-call rule table on method call `e`, appending one
/// diagnostic per fired rule.
fn emit_method_diags(
    cx: &AnalysisContext,
    e: &Expr,
    name: &String,
    args: &Vec<Expr>,
    diags: &mut Vec<Diagnostic>,
)
    ensures
        final(diags).deep_view() == old(diags).deep_view() + method_diags_from(
            *cx,
            *e,
            name@,
            args@,
            method_rule_views(),
            0,
        ),
{
    let ghost orig = diags.deep_view();
    let rules = method_rules();
    let n = rules.len();
    let mut i: usize = 0;
    while i < n
        invariant
            n == rules@.len(),
            rules.deep_view() == method_rule_views(),
            0 <= i <= n,
            diags.deep_view() + method_diags_from(
                *cx,
                *e,
                name@,
                args@,
                method_rule_views(),
                i as int,
            ) == orig + method_diags_from(*cx, *e, name@, args@, method_rule_views(), 0),
        decreases n - i,
    {
        let ghost pre = diags.deep_view();
        let ghost rv = method_rule_views()[i as int];
        proof {
            assert(rules.deep_view()[i as int] == rules@[i as int].deep_view());
        }
        let fired = cx.method_is_from(e.id, &rules[i].path) && *name == rules[i].method
            && args.len() >= 1 && cx.tys_equal(e.id, args[0].id);
        if fired {
            let label = String::from_str("consider removing `.").concat(
                rules[i].method.as_str(),
            ).concat("()`");
            let replacement = cx.snippet_or(args[0].span, String::from_str("<expr>"));
            let d = Diagnostic {
                span: e.span,
                message: String::from_str("identical conversion"),
                label,
                replacement,
            };
            proof {
                assert(d.deep_view() == method_rule_diag(*cx, *e, args@, rv));
            }
            diags.push(d);
            proof {
                assert(diags.deep_view() =~= pre + seq![method_rule_diag(*cx, *e, args@, rv)]);
            }
        } else {
            proof {
                assert(!method_rule_fires(*cx, *e, name@, args@, rv));
            }
        }
        proof {
            let mr = method_diags_from(*cx, *e, name@, args@, method_rule_views(), i + 1);
            let fr = if method_rule_fires(*cx, *e, name@, args@, rv) {
                seq![method_rule_diag(*cx, *e, args@, rv)]
            } else {
                Seq::<DiagView>::empty()
            };
            assert(method_diags_from(*cx, *e, name@, args@, method_rule_views(), i as int) == fr
                + mr);
            assert(diags.deep_view() + mr =~= pre + (fr + mr));
            assert(pre + (fr + mr) =~= (pre + fr) + mr);
            assert(diags.deep_view() =~= pre + fr);
        }
        i = i + 1;
    }
    proof {
        assert(diags.deep_view() + Seq::<DiagView>::empty() =~= diags.deep_view());
        assert(orig + method_diags_from(*cx, *e, name@, args@, method_rule_views(), 0) =~= diags.deep_view());
    }
}

/// Runs the chained factory and method rule tables on qualified call
/// `e`, appending one diagnostic per fired rule.
fn emit_qualified_diags(
    cx: &AnalysisContext,
    e: &Expr,
    callee: &Callee,
    args: &Vec<Expr>,
    diags: &mut Vec<Diagnostic>,
)
    ensures
        final(diags).deep_view() == old(diags).deep_view() + qualified_diags_from(
            *cx,
            *e,
            *callee,
            args@,
            qualified_rule_views(),
            0,
        ),
{
    let ghost orig = diags.deep_view();
    let rules = qualified_rules();
    let n = rules.len();
    let mut i: usize = 0;
    while i < n
        invariant
            n == rules@.len(),
            rules.deep_view() == qualified_rule_views(),
            0 <= i <= n,
            diags.deep_view() + qualified_diags_from(
                *cx,
                *e,
                *callee,
                args@,
                qualified_rule_views(),
                i as int,
            ) == orig + qualified_diags_from(*cx, *e, *callee, args@, qualified_rule_views(), 0),
        decreases n - i,
    {
        let ghost pre = diags.deep_view();
        let ghost rv = qualified_rule_views()[i as int];
        proof {
            assert(rules.deep_view()[i as int] == rules@[i as int].deep_view());
        }
        let resolved = resolved_to_rule(cx, callee, &rules[i].path);
        let named = call_site_name_is(callee, &rules[i].method);
        let fired = resolved && named && args.len() >= 1 && cx.tys_equal(e.id, args[0].id);
        if fired {
            let dflt = rule_qual_default(&rules[i].path, &rules[i].method);
            let shown = cx.snippet_or(callee.span, dflt);
            let label = String::from_str("consider removing `").concat(shown.as_str()).concat(
                "()`",
            );
            let replacement = cx.snippet_or(args[0].span, String::from_str("<expr>"));
            let d = Diagnostic {
                span: e.span,
                message: String::from_str("identical conversion"),
                label,
                replacement,
            };
            proof {
                assert(d.deep_view() == qualified_rule_diag(*cx, *e, *callee, args@, rv));
            }
            diags.push(d);
            proof {
                assert(diags.deep_view() =~= pre + seq![
                    qualified_rule_diag(*cx, *e, *callee, args@, rv),
                ]);
            }
        } else {
            proof {
                assert(!qualified_rule_fires(*cx, *e, *callee, args@, rv));
            }
        }
        proof {
            let mr = qualified_diags_from(*cx, *e, *callee, args@, qualified_rule_views(), i + 1);
            let fr = if qualified_rule_fires(*cx, *e, *callee, args@, rv) {
                seq![qualified_rule_diag(*cx, *e, *callee, args@, rv)]
            } else {
                Seq::<DiagView>::empty()
            };
            assert(qualified_diags_from(*cx, *e, *callee, args@, qualified_rule_views(), i as int)
                == fr + mr);
            assert(diags.deep_view() + mr =~= pre + (fr + mr));
            assert(pre + (fr + mr) =~= (pre + fr) + mr);
            assert(diags.deep_view() =~= pre + fr);
        }
        i = i + 1;
    }
    proof {
        assert(diags.deep_view() + Seq::<DiagView>::empty() =~= diags.deep_view());
        assert(orig + qualified_diags_from(*cx, *e, *callee, args@, qualified_rule_views(), 0)
            =~= diags.deep_view());
    }
}

/// Whether the callee resolves to a definition declared by exactly the
/// interface named by `path`.
fn resolved_to_rule(cx: &AnalysisContext, callee: &Callee, path: &Vec<String>) -> (r: bool)
    ensures
        r == match cx.spec_resolve(callee.ref_id) {
            Some(d) => cx.spec_def_interface(d) == Some(path.deep_view()),
            None => false,
        },
{
    match cx.resolve(callee.ref_id) {
        Some(d) => cx.def_is_from(d, path),
        None => false,
    }
}

/// Whether the call site's written method name is `method`.
fn call_site_name_is(callee: &Callee, method: &String) -> (r: bool)
    ensures
        r == match callee.path {
            Some(q) => spec_qual_name(q) == Some(method@),
            None => false,
        },
{
    match &callee.path {
        Some(QualPath::Resolved { segments }) => {
            let m = segments.len();
            if m > 0 {
                *method == segments[m - 1]
            } else {
                false
            }
        },
        Some(QualPath::TypeRelative { segment }) => *method == *segment,
        None => false,
    }
}

/// The fallback `Interface::method` text for a qualified suggestion.
fn rule_qual_default(path: &Vec<String>, method: &String) -> (r: String)
    ensures
        r@ == qual_default_name(RuleView { path: path.deep_view(), method: method@ }),
{
    let m = path.len();
    if m > 0 {
        proof {
            assert(path.deep_view()[m - 1] == path@[m - 1]@);
        }
        path[m - 1].clone().concat("::").concat(method.as_str())
    } else {
        method.clone()
    }
}

} // verus!
