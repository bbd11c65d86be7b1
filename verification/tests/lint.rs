use identity_conversion::ast::{Callee, Expr, ExprKind, QualPath, Span};
use identity_conversion::context::AnalysisContext;
use identity_conversion::detector::IdentityConversion;
use identity_conversion::diagnostics::Diagnostic;
use identity_conversion::traversal::run;

fn sp(n: u64) -> Span {
    Span { lo: n * 10, hi: n * 10 + 5 }
}

fn leaf(id: u64) -> Expr {
    Expr { id, span: sp(id), kind: ExprKind::Other { children: vec![] } }
}

fn method_call(id: u64, name: &str, args: Vec<Expr>) -> Expr {
    Expr { id, span: sp(id), kind: ExprKind::MethodCall { name: name.to_string(), args } }
}

fn seg_path(segs: &[&str]) -> Vec<String> {
    segs.iter().map(|s| s.to_string()).collect()
}

fn empty_ctx() -> AnalysisContext {
    AnalysisContext {
        types: vec![],
        resolutions: vec![],
        def_interfaces: vec![],
        method_interfaces: vec![],
        macro_nodes: vec![],
        snippets: vec![],
    }
}

/// A context under which `x.into()` (node 1, receiver node 2) is an
/// identity conversion with snippet "x" for the receiver.
fn into_ctx() -> AnalysisContext {
    let mut cx = empty_ctx();
    cx.types = vec![(1, 10), (2, 10)];
    cx.method_interfaces = vec![(1, seg_path(&["core", "convert", "Into"]))];
    cx.snippets = vec![(sp(2), "x".to_string())];
    cx
}

fn into_tree() -> Expr {
    method_call(1, "into", vec![leaf(2)])
}

#[test]
fn method_call_identity_fires_once() {
    let cx = into_ctx();
    let tree = into_tree();
    let diags = run(&cx, &tree);
    assert_eq!(diags.len(), 1);
    assert_eq!(diags[0].span, sp(1));
    assert_eq!(diags[0].message, "identical conversion");
    assert_eq!(diags[0].label, "consider removing `.into()`");
    assert_eq!(diags[0].replacement, "x");
}

#[test]
fn method_call_borrow_identity_fires() {
    let mut cx = empty_ctx();
    cx.types = vec![(1, 7), (2, 7)];
    cx.method_interfaces = vec![(1, seg_path(&["core", "borrow", "Borrow"]))];
    cx.snippets = vec![(sp(2), "value".to_string())];
    let tree = method_call(1, "borrow", vec![leaf(2)]);
    let diags = run(&cx, &tree);
    assert_eq!(diags.len(), 1);
    assert_eq!(diags[0].label, "consider removing `.borrow()`");
    assert_eq!(diags[0].replacement, "value");
}

#[test]
fn no_fire_when_types_differ() {
    let mut cx = into_ctx();
    cx.types = vec![(1, 10), (2, 11)];
    let diags = run(&cx, &into_tree());
    assert_eq!(diags.len(), 0);
}

#[test]
fn no_fire_when_type_unknown() {
    let mut cx = into_ctx();
    cx.types = vec![(1, 10)];
    let diags = run(&cx, &into_tree());
    assert_eq!(diags.len(), 0);
}

#[test]
fn no_fire_in_macro_expansion() {
    let mut cx = into_ctx();
    cx.macro_nodes = vec![1];
    let diags = run(&cx, &into_tree());
    assert_eq!(diags.len(), 0);
}

#[test]
fn no_fire_for_unrelated_method_of_same_name() {
    // `into` here is a user method, not dispatched through the tracked
    // interface: the resolver reports a different declaring interface.
    let mut cx = into_ctx();
    cx.method_interfaces = vec![(1, seg_path(&["my_crate", "MyTrait"]))];
    let diags = run(&cx, &into_tree());
    assert_eq!(diags.len(), 0);
}

#[test]
fn no_fire_without_interface_resolution() {
    let mut cx = into_ctx();
    cx.method_interfaces = vec![];
    let diags = run(&cx, &into_tree());
    assert_eq!(diags.len(), 0);
}

#[test]
fn missing_receiver_snippet_falls_back() {
    let mut cx = into_ctx();
    cx.snippets = vec![];
    let diags = run(&cx, &into_tree());
    assert_eq!(diags.len(), 1);
    assert_eq!(diags[0].replacement, "<expr>");
}

#[test]
fn method_call_without_arguments_is_ignored() {
    let cx = into_ctx();
    let tree = method_call(1, "into", vec![]);
    let diags = run(&cx, &tree);
    assert_eq!(diags.len(), 0);
}

/// `Wrapper::from(x)` where `x` already has the result type: node 1 is
/// the call, node 2 the argument, reference 100 resolves to
/// definition 500 declared by `core::convert::From`.
fn wrapper_from_tree() -> Expr {
    Expr {
        id: 1,
        span: sp(1),
        kind: ExprKind::Call {
            callee: Callee {
                ref_id: 100,
                span: sp(3),
                path: Some(QualPath::Resolved {
                    segments: vec!["Wrapper".to_string(), "from".to_string()],
                }),
            },
            args: vec![leaf(2)],
        },
    }
}

fn wrapper_from_ctx() -> AnalysisContext {
    let mut cx = empty_ctx();
    cx.types = vec![(1, 10), (2, 10)];
    cx.resolutions = vec![(100, 500)];
    cx.def_interfaces = vec![(500, seg_path(&["core", "convert", "From"]))];
    cx.snippets = vec![(sp(2), "x".to_string()), (sp(3), "Wrapper::from".to_string())];
    cx
}

#[test]
fn qualified_from_identity_fires() {
    let diags = run(&wrapper_from_ctx(), &wrapper_from_tree());
    assert_eq!(diags.len(), 1);
    assert_eq!(diags[0].span, sp(1));
    assert_eq!(diags[0].message, "identical conversion");
    assert_eq!(diags[0].label, "consider removing `Wrapper::from()`");
    assert_eq!(diags[0].replacement, "x");
}

#[test]
fn qualified_from_different_type_does_not_fire() {
    let mut cx = wrapper_from_ctx();
    cx.types = vec![(1, 10), (2, 11)];
    let diags = run(&cx, &wrapper_from_tree());
    assert_eq!(diags.len(), 0);
}

#[test]
fn qualified_label_falls_back_to_interface_name() {
    let mut cx = wrapper_from_ctx();
    cx.snippets = vec![(sp(2), "x".to_string())];
    let diags = run(&cx, &wrapper_from_tree());
    assert_eq!(diags.len(), 1);
    assert_eq!(diags[0].label, "consider removing `From::from()`");
}

#[test]
fn qualified_type_relative_reference_fires() {
    let mut tree = wrapper_from_tree();
    if let ExprKind::Call { callee, .. } = &mut tree.kind {
        callee.path = Some(QualPath::TypeRelative { segment: "from".to_string() });
    } else {
        unreachable!();
    }
    let diags = run(&wrapper_from_ctx(), &tree);
    assert_eq!(diags.len(), 1);
    assert_eq!(diags[0].replacement, "x");
}

#[test]
fn qualified_wrong_method_name_does_not_fire() {
    let mut tree = wrapper_from_tree();
    if let ExprKind::Call { callee, .. } = &mut tree.kind {
        callee.path = Some(QualPath::Resolved {
            segments: vec!["Wrapper".to_string(), "build".to_string()],
        });
    } else {
        unreachable!();
    }
    let diags = run(&wrapper_from_ctx(), &tree);
    assert_eq!(diags.len(), 0);
}

#[test]
fn qualified_unresolved_callee_does_not_fire() {
    let mut cx = wrapper_from_ctx();
    cx.resolutions = vec![];
    let diags = run(&cx, &wrapper_from_tree());
    assert_eq!(diags.len(), 0);
}

#[test]
fn qualified_callee_without_path_does_not_fire() {
    let mut tree = wrapper_from_tree();
    if let ExprKind::Call { callee, .. } = &mut tree.kind {
        callee.path = None;
    } else {
        unreachable!();
    }
    let diags = run(&wrapper_from_ctx(), &tree);
    assert_eq!(diags.len(), 0);
}

/// The error-propagation desugar: a tagged match whose first arm
/// returns `handler(From::from(err))`; the `From::from(err)` call
/// (node 23) is the synthetic duplicate and must not be analyzed.
/// Under `syn_ctx` node 23 would fire on its own.
fn desugar_tree() -> Expr {
    let synthetic = Expr {
        id: 23,
        span: sp(23),
        kind: ExprKind::Call {
            callee: Callee {
                ref_id: 300,
                span: sp(31),
                path: Some(QualPath::Resolved {
                    segments: vec!["From".to_string(), "from".to_string()],
                }),
            },
            args: vec![leaf(24)],
        },
    };
    let wrapping_call = Expr {
        id: 22,
        span: sp(22),
        kind: ExprKind::Call {
            callee: Callee { ref_id: 301, span: sp(32), path: None },
            args: vec![synthetic],
        },
    };
    let arm_body = Expr { id: 21, span: sp(21), kind: ExprKind::Ret { vals: vec![wrapping_call] } };
    Expr { id: 20, span: sp(20), kind: ExprKind::TryDesugarMatch { arms: vec![arm_body] } }
}

fn syn_ctx() -> AnalysisContext {
    let mut cx = empty_ctx();
    cx.types = vec![(23, 40), (24, 40)];
    cx.resolutions = vec![(300, 600)];
    cx.def_interfaces = vec![(600, seg_path(&["core", "convert", "From"]))];
    cx.snippets = vec![(sp(24), "err".to_string())];
    cx
}

#[test]
fn synthetic_duplicate_is_suppressed() {
    let diags = run(&syn_ctx(), &desugar_tree());
    assert_eq!(diags.len(), 0);
}

#[test]
fn same_call_outside_desugar_fires() {
    // control: the very subtree the desugar wraps does fire on its own
    let tree = Expr {
        id: 23,
        span: sp(23),
        kind: ExprKind::Call {
            callee: Callee {
                ref_id: 300,
                span: sp(31),
                path: Some(QualPath::Resolved {
                    segments: vec!["From".to_string(), "from".to_string()],
                }),
            },
            args: vec![leaf(24)],
        },
    };
    let diags = run(&syn_ctx(), &tree);
    assert_eq!(diags.len(), 1);
    assert_eq!(diags[0].replacement, "err");
}

#[test]
fn desugar_reports_logical_site_once_not_twice() {
    // a source-level identity conversion beside the desugar construct
    // that duplicates its argument: one report, not two
    let mut cx = syn_ctx();
    cx.types.push((10, 40));
    cx.types.push((11, 40));
    cx.method_interfaces = vec![(10, seg_path(&["core", "convert", "Into"]))];
    cx.snippets.push((sp(11), "res".to_string()));
    let source_call = method_call(10, "into", vec![leaf(11)]);
    let root = Expr {
        id: 5,
        span: sp(5),
        kind: ExprKind::Other { children: vec![source_call, desugar_tree()] },
    };
    let diags = run(&cx, &root);
    assert_eq!(diags.len(), 1);
    assert_eq!(diags[0].span, sp(10));
}

#[test]
fn desugar_arm_of_other_shape_is_harmless() {
    // first arm is not a return or break: no suppression is set up,
    // and the traversal still analyzes the whole subtree
    let inner = method_call(1, "into", vec![leaf(2)]);
    let arm_body = Expr { id: 21, span: sp(21), kind: ExprKind::Other { children: vec![inner] } };
    let tree =
        Expr { id: 20, span: sp(20), kind: ExprKind::TryDesugarMatch { arms: vec![arm_body] } };
    let diags = run(&into_ctx(), &tree);
    assert_eq!(diags.len(), 1);
}

#[test]
fn desugar_with_no_arms_is_harmless() {
    let tree = Expr { id: 20, span: sp(20), kind: ExprKind::TryDesugarMatch { arms: vec![] } };
    let diags = run(&empty_ctx(), &tree);
    assert_eq!(diags.len(), 0);
}

#[test]
fn return_without_value_in_desugar_arm_is_harmless() {
    let arm_body = Expr { id: 21, span: sp(21), kind: ExprKind::Ret { vals: vec![] } };
    let tree =
        Expr { id: 20, span: sp(20), kind: ExprKind::TryDesugarMatch { arms: vec![arm_body] } };
    let diags = run(&empty_ctx(), &tree);
    assert_eq!(diags.len(), 0);
}

#[test]
fn break_arm_suppresses_like_return() {
    let mut tree = desugar_tree();
    if let ExprKind::TryDesugarMatch { arms } = &mut tree.kind {
        let wrapping = if let ExprKind::Ret { vals } = &mut arms[0].kind {
            vals.pop().unwrap()
        } else {
            unreachable!()
        };
        arms[0].kind = ExprKind::Brk { vals: vec![wrapping] };
    } else {
        unreachable!();
    }
    let diags = run(&syn_ctx(), &tree);
    assert_eq!(diags.len(), 0);
}

#[test]
fn two_runs_report_identical_diagnostics() {
    let cx = into_ctx();
    let tree = into_tree();
    let first: Vec<Diagnostic> = run(&cx, &tree);
    let second: Vec<Diagnostic> = run(&cx, &tree);
    assert_eq!(first, second);
    assert_eq!(first.len(), 1);
}

fn drive(pass: &mut IdentityConversion, cx: &AnalysisContext, e: &Expr, out: &mut Vec<Diagnostic>) {
    pass.check_expr(cx, e, out);
    match &e.kind {
        ExprKind::MethodCall { args, .. } => {
            for a in args {
                drive(pass, cx, a, out);
            }
        }
        ExprKind::Call { args, .. } => {
            for a in args {
                drive(pass, cx, a, out);
            }
        }
        ExprKind::TryDesugarMatch { arms } => {
            for a in arms {
                drive(pass, cx, a, out);
            }
        }
        ExprKind::Ret { vals } | ExprKind::Brk { vals } => {
            for a in vals {
                drive(pass, cx, a, out);
            }
        }
        ExprKind::Other { children } => {
            for a in children {
                drive(pass, cx, a, out);
            }
        }
    }
    pass.check_expr_post(e);
}

#[test]
fn suppression_stack_is_empty_after_host_driven_traversal() {
    let cx = syn_ctx();
    let tree = desugar_tree();
    let mut pass = IdentityConversion::new();
    let mut out: Vec<Diagnostic> = Vec::new();
    drive(&mut pass, &cx, &tree, &mut out);
    assert!(pass.try_desugar_arm.is_empty());
    assert_eq!(out.len(), 0);
}

#[test]
fn host_driven_traversal_matches_run() {
    let cx = wrapper_from_ctx();
    let tree = wrapper_from_tree();
    let mut pass = IdentityConversion::new();
    let mut out: Vec<Diagnostic> = Vec::new();
    drive(&mut pass, &cx, &tree, &mut out);
    assert_eq!(out, run(&cx, &tree));
}

#[test]
fn by_ref_identity_fires() {
    let mut cx = empty_ctx();
    cx.types = vec![(1, 3), (2, 3)];
    cx.method_interfaces = vec![(1, seg_path(&["core", "iter", "Iterator"]))];
    cx.snippets = vec![(sp(2), "it".to_string())];
    let tree = method_call(1, "by_ref", vec![leaf(2)]);
    let diags = run(&cx, &tree);
    assert_eq!(diags.len(), 1);
    assert_eq!(diags[0].label, "consider removing `.by_ref()`");
    assert_eq!(diags[0].replacement, "it");
}

#[test]
fn macro_marked_duplicate_is_still_popped() {
    // the suppression gate runs before the macro check, so a
    // macro-expanded duplicate still releases its stack entry
    let mut cx = syn_ctx();
    cx.macro_nodes = vec![23];
    let tree = desugar_tree();
    let mut pass = IdentityConversion::new();
    let mut out: Vec<Diagnostic> = Vec::new();
    drive(&mut pass, &cx, &tree, &mut out);
    assert!(pass.try_desugar_arm.is_empty());
    assert_eq!(out.len(), 0);
}

#[test]
fn nested_desugar_constructs_balance_and_stay_silent() {
    // a second desugar construct in place of the duplicate's argument
    let inner = Expr {
        id: 40,
        span: sp(40),
        kind: ExprKind::TryDesugarMatch {
            arms: vec![Expr {
                id: 41,
                span: sp(41),
                kind: ExprKind::Ret {
                    vals: vec![Expr {
                        id: 42,
                        span: sp(42),
                        kind: ExprKind::Call {
                            callee: Callee { ref_id: 302, span: sp(33), path: None },
                            args: vec![leaf(43)],
                        },
                    }],
                },
            }],
        },
    };
    let mut tree = desugar_tree();
    if let ExprKind::TryDesugarMatch { arms } = &mut tree.kind {
        if let ExprKind::Ret { vals } = &mut arms[0].kind {
            if let ExprKind::Call { args, .. } = &mut vals[0].kind {
                if let ExprKind::Call { args: syn_args, .. } = &mut args[0].kind {
                    syn_args[0] = inner;
                } else {
                    unreachable!();
                }
            } else {
                unreachable!();
            }
        } else {
            unreachable!();
        }
    } else {
        unreachable!();
    }
    let cx = syn_ctx();
    let mut pass = IdentityConversion::new();
    let mut out: Vec<Diagnostic> = Vec::new();
    drive(&mut pass, &cx, &tree, &mut out);
    assert!(pass.try_desugar_arm.is_empty());
    assert_eq!(out.len(), 0);
}

#[test]
fn two_sites_give_two_diagnostics_in_traversal_order() {
    let mut cx = into_ctx();
    cx.types.push((3, 12));
    cx.types.push((4, 12));
    cx.method_interfaces.push((3, seg_path(&["core", "convert", "AsRef"])));
    cx.snippets.push((sp(4), "buf".to_string()));
    let second = method_call(3, "as_ref", vec![leaf(4)]);
    let root = Expr {
        id: 9,
        span: sp(9),
        kind: ExprKind::Other { children: vec![into_tree(), second] },
    };
    let diags = run(&cx, &root);
    assert_eq!(diags.len(), 2);
    assert_eq!(diags[0].span, sp(1));
    assert_eq!(diags[0].label, "consider removing `.into()`");
    assert_eq!(diags[1].span, sp(3));
    assert_eq!(diags[1].label, "consider removing `.as_ref()`");
    assert_eq!(diags[1].replacement, "buf");
}

#[test]
fn registers_one_warning_category() {
    let pass = IdentityConversion::new();
    let lints = pass.get_lints();
    assert_eq!(lints.len(), 1);
    assert_eq!(lints[0].name, "identity_conversion");
    assert_eq!(
        lints[0].description,
        "using always-identical `Into`/`From`/`AsRef`/`AsMut`/etc. conversions"
    );
    assert!(lints[0].warn_by_default);
}

#[test]
fn get_lints_returns_the_same_value_on_every_call() {
    let pass = IdentityConversion::new();
    assert_eq!(pass.get_lints(), pass.get_lints());
}

#[test]
fn macro_marked_call_leaves_stack_untouched() {
    // a macro-expanded qualified call is skipped entirely: nothing
    // reported, suppression stack untouched
    let mut cx = wrapper_from_ctx();
    cx.macro_nodes = vec![1];
    let tree = wrapper_from_tree();
    let mut pass = IdentityConversion::new();
    let mut out: Vec<Diagnostic> = Vec::new();
    pass.check_expr(&cx, &tree, &mut out);
    assert!(pass.try_desugar_arm.is_empty());
    assert_eq!(out.len(), 0);
}
