use parfum::preemptive::{
    check_is_check_preemption, list_checks, Expr, Path, PathSegment, PreemptionInjector,
};

fn segment(ident: &str, has_arguments: bool) -> PathSegment {
    PathSegment { ident: ident.to_string(), has_arguments }
}

fn name(ident: &str) -> Expr {
    Expr::Path(Path { leading_colon: false, segments: vec![segment(ident, false)] })
}

fn call(func: Expr, args: Vec<Expr>) -> Expr {
    Expr::Call { func: Box::new(func), args }
}

fn method_call(receiver: Expr, args: Vec<Expr>) -> Expr {
    Expr::MethodCall { receiver: Box::new(receiver), args }
}

fn in_thread(ident: &str) -> Expr {
    let segments = vec![segment("thread", false), segment(ident, false)];
    Expr::Path(Path { leading_colon: false, segments })
}

fn checked(expr: Expr) -> Expr {
    Expr::Checked(Box::new(expr))
}

fn rewritten(mut expr: Expr) -> Expr {
    PreemptionInjector.visit_expr_mut(&mut expr);
    expr
}

#[test]
fn a_path_that_ends_in_the_name_is_a_check() {
    assert!(check_is_check_preemption(&name("check_preemption")));
    assert!(!check_is_check_preemption(&name("check_preemptions")));
    assert!(!check_is_check_preemption(&name("f")));
    let with_colons = Path { leading_colon: true, segments: vec![segment("check_preemption", false)] };
    assert!(check_is_check_preemption(&Expr::Path(with_colons)));
    assert!(check_is_check_preemption(&in_thread("check_preemption")));
    assert!(!check_is_check_preemption(&in_thread("yield_to")));
    let with_arguments = Path { leading_colon: false, segments: vec![segment("check_preemption", true)] };
    assert!(!check_is_check_preemption(&Expr::Path(with_arguments)));
    let not_last = Path {
        leading_colon: false,
        segments: vec![segment("check_preemption", false), segment("f", false)],
    };
    assert!(!check_is_check_preemption(&Expr::Path(not_last)));
    assert!(!check_is_check_preemption(&Expr::Path(Path { leading_colon: false, segments: vec![] })));
    assert!(!check_is_check_preemption(&Expr::Other(vec![name("check_preemption")])));
}

#[test]
fn qualified_check_is_not_checked() {
    assert_eq!(
        rewritten(call(in_thread("check_preemption"), vec![])),
        call(in_thread("check_preemption"), vec![])
    );
    assert_eq!(
        rewritten(call(in_thread("yield_to"), vec![])),
        checked(call(in_thread("yield_to"), vec![]))
    );
}

#[test]
fn method_call_is_checked() {
    // v.clear()
    assert_eq!(
        rewritten(method_call(name("v"), vec![])),
        checked(method_call(name("v"), vec![]))
    );
    // f(x).g(h().i())
    let before = method_call(
        call(name("f"), vec![name("x")]),
        vec![method_call(call(name("h"), vec![]), vec![])],
    );
    let after = checked(method_call(
        checked(call(name("f"), vec![name("x")])),
        vec![checked(method_call(checked(call(name("h"), vec![])), vec![]))],
    ));
    assert_eq!(rewritten(before), after);
}

#[test]
fn call_is_checked() {
    assert_eq!(rewritten(call(name("f"), vec![])), checked(call(name("f"), vec![])));
}

#[test]
fn check_is_not_checked() {
    assert_eq!(
        rewritten(call(name("check_preemption"), vec![])),
        call(name("check_preemption"), vec![])
    );
}

#[test]
fn calls_within_calls_are_checked() {
    // f(g(x), h)(i())
    let before = call(
        call(name("f"), vec![call(name("g"), vec![name("x")]), name("h")]),
        vec![call(name("i"), vec![])],
    );
    let after = checked(call(
        checked(call(name("f"), vec![checked(call(name("g"), vec![name("x")])), name("h")])),
        vec![checked(call(name("i"), vec![]))],
    ));
    assert_eq!(rewritten(before), after);
}

#[test]
fn arguments_of_a_check_are_checked() {
    assert_eq!(
        rewritten(call(name("check_preemption"), vec![call(name("f"), vec![])])),
        call(name("check_preemption"), vec![checked(call(name("f"), vec![]))])
    );
}

#[test]
fn everything_else_stays() {
    let before = Expr::Other(vec![
        name("x"),
        Expr::Other(vec![call(name("f"), vec![]), call(name("check_preemption"), vec![])]),
    ]);
    let after = Expr::Other(vec![
        name("x"),
        Expr::Other(vec![checked(call(name("f"), vec![])), call(name("check_preemption"), vec![])]),
    ]);
    assert_eq!(rewritten(before), after);
    assert_eq!(rewritten(Expr::Other(vec![])), Expr::Other(vec![]));
    assert_eq!(rewritten(name("f")), name("f"));
}

#[test]
fn checked_block_is_visited() {
    assert_eq!(
        rewritten(checked(call(name("f"), vec![]))),
        checked(checked(call(name("f"), vec![])))
    );
}

fn count_calls(expr: &Expr) -> usize {
    match expr {
        Expr::Path(_) => 0,
        Expr::Call { func, args } => {
            let own = if check_is_check_preemption(func) { 0 } else { 1 };
            own + count_calls(func) + args.iter().map(count_calls).sum::<usize>()
        }
        Expr::MethodCall { receiver, args } => {
            1 + count_calls(receiver) + args.iter().map(count_calls).sum::<usize>()
        }
        Expr::Checked(inner) => count_calls(inner),
        Expr::Other(parts) => parts.iter().map(count_calls).sum(),
    }
}

fn count_checks(expr: &Expr) -> usize {
    match expr {
        Expr::Path(_) => 0,
        Expr::Call { func, args } => {
            count_checks(func) + args.iter().map(count_checks).sum::<usize>()
        }
        Expr::MethodCall { receiver, args } => {
            count_checks(receiver) + args.iter().map(count_checks).sum::<usize>()
        }
        Expr::Checked(inner) => 1 + count_checks(inner),
        Expr::Other(parts) => parts.iter().map(count_checks).sum(),
    }
}

fn stripped(expr: Expr) -> Expr {
    match expr {
        Expr::Path(path) => Expr::Path(path),
        Expr::Call { func, args } => {
            call(stripped(*func), args.into_iter().map(stripped).collect())
        }
        Expr::MethodCall { receiver, args } => {
            method_call(stripped(*receiver), args.into_iter().map(stripped).collect())
        }
        Expr::Checked(inner) => stripped(*inner),
        Expr::Other(parts) => Expr::Other(parts.into_iter().map(stripped).collect()),
    }
}

#[test]
fn one_check_for_each_call_and_nothing_else() {
    let build = || {
        Expr::Other(vec![
            call(name("f"), vec![call(call(name("g"), vec![]), vec![name("x")])]),
            call(name("check_preemption"), vec![]),
            method_call(name("v"), vec![call(in_thread("check_preemption"), vec![])]),
        ])
    };
    assert_eq!(count_calls(&build()), 4);
    let after = rewritten(build());
    assert_eq!(count_checks(&after), 4);
    assert_eq!(count_calls(&after), 4);
    assert_eq!(stripped(after), build());
}

#[test]
fn list_marks_what_is_checked() {
    // f(x, v.g(), check_preemption()) beside y
    let before = || {
        Expr::Other(vec![
            call(
                name("f"),
                vec![
                    name("x"),
                    method_call(name("v"), vec![]),
                    call(name("check_preemption"), vec![]),
                ],
            ),
            name("y"),
        ])
    };
    assert_eq!(list_checks(&before()), vec![false, false, false, false]);
    let after = rewritten(before());
    assert_eq!(list_checks(&after), vec![true, false, true, false]);
    assert_eq!(count_checks(&after), 2);
    assert_eq!(list_checks(&name("x")), vec![]);
    assert_eq!(list_checks(&checked(Expr::Other(vec![]))), vec![true]);
}
