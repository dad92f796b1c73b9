//! The rewriting that makes a function give way: before each call in its body it
//! checks whether its turn is to be given away.
//!
//! Expressions are held as far as the rewriting looks at them: calls, of functions
//! with what they call and of methods, paths, and everything else as the
//! expressions it is made of.
use vstd::prelude::*;

verus! {

/// One segment of a path.
#[derive(Debug, PartialEq, Eq)]
pub struct PathSegment {
    pub ident: String,
    /// Something in angle or round brackets follows the identifier.
    pub has_arguments: bool,
}

/// A path.
#[derive(Debug, PartialEq, Eq)]
pub struct Path {
    pub leading_colon: bool,
    pub segments: Vec<PathSegment>,
}

/// An expression.
#[derive(Debug, PartialEq, Eq)]
pub enum Expr {
    /// A path, such as the name of a function.
    Path(Path),
    /// A call of `func` with `args`.
    Call { func: Box<Expr>, args: Vec<Expr> },
    /// A call of a method of `receiver` with `args`.
    MethodCall { receiver: Box<Expr>, args: Vec<Expr> },
    /// The block `{ check_preemption(); e }`.
    Checked(Box<Expr>),
    /// Any other expression, with those that it is made of.
    Other(Vec<Expr>),
}

/// What a [`Path`] holds: whether it starts with colons, and for each segment
/// its identifier and whether arguments follow.
#[verifier::ext_equal]
pub struct PathTree {
    pub leading_colon: bool,
    pub segments: Seq<(Seq<char>, bool)>,
}

/// What an [`Expr`] holds.
#[verifier::ext_equal]
pub enum Tree {
    Path(PathTree),
    Call { func: Box<Tree>, args: Seq<Tree> },
    MethodCall { receiver: Box<Tree>, args: Seq<Tree> },
    Checked(Box<Tree>),
    Other(Seq<Tree>),
}

impl View for Path {
    type V = PathTree;

    open spec fn view(&self) -> PathTree {
        PathTree {
            leading_colon: self.leading_colon,
            segments: Seq::new(
                self.segments@.len(),
                |i: int| (self.segments@[i].ident@, self.segments@[i].has_arguments),
            ),
        }
    }
}

/// What `expr` holds.
pub open spec fn tree(expr: Expr) -> Tree
    decreases expr,
{
    match expr {
        Expr::Path(path) => Tree::Path(path@),
        Expr::Call { func, args } => Tree::Call { func: Box::new(tree(*func)), args: trees(args@) },
        Expr::MethodCall { receiver, args } => Tree::MethodCall {
            receiver: Box::new(tree(*receiver)),
            args: trees(args@),
        },
        Expr::Checked(inner) => Tree::Checked(Box::new(tree(*inner))),
        Expr::Other(parts) => Tree::Other(trees(parts@)),
    }
}

/// What each of `exprs` holds.
pub open spec fn trees(exprs: Seq<Expr>) -> Seq<Tree>
    decreases exprs,
{
    if exprs.len() == 0 {
        Seq::empty()
    } else {
        trees(exprs.drop_last()).push(tree(exprs.last()))
    }
}

impl View for Expr {
    type V = Tree;

    open spec fn view(&self) -> Tree {
        tree(*self)
    }
}

/// The name of the function that checks.
pub open spec fn check_name() -> Seq<char> {
    "check_preemption"@
}

/// The function that `path` names is called `ident`: that is its last segment,
/// without arguments behind it, whatever stands before it.
pub open spec fn names(path: PathTree, ident: Seq<char>) -> bool {
    path.segments.len() > 0 && path.segments.last() == (ident, false)
}

/// A call of `func` is a check itself.
pub open spec fn is_check(func: Tree) -> bool {
    func matches Tree::Path(path) && names(path, check_name())
}

/// `t` with a check before each call but those that are checks themselves.
pub open spec fn with_checks(t: Tree) -> Tree
    decreases t,
{
    match t {
        Tree::Path(path) => t,
        Tree::Call { func, args } => {
            let call = Tree::Call {
                func: Box::new(with_checks(*func)),
                args: all_with_checks(args),
            };
            if is_check(*func) {
                call
            } else {
                Tree::Checked(Box::new(call))
            }
        },
        Tree::MethodCall { receiver, args } => Tree::Checked(
            Box::new(
                Tree::MethodCall {
                    receiver: Box::new(with_checks(*receiver)),
                    args: all_with_checks(args),
                },
            ),
        ),
        Tree::Checked(inner) => Tree::Checked(Box::new(with_checks(*inner))),
        Tree::Other(parts) => Tree::Other(all_with_checks(parts)),
    }
}

/// Each of `ts` with its checks.
pub open spec fn all_with_checks(ts: Seq<Tree>) -> Seq<Tree>
    decreases ts,
{
    if ts.len() == 0 {
        Seq::empty()
    } else {
        all_with_checks(ts.drop_last()).push(with_checks(ts.last()))
    }
}

proof fn lemma_trees(exprs: Seq<Expr>)
    ensures
        trees(exprs).len() == exprs.len(),
        forall|i: int| 0 <= i < exprs.len() ==> #[trigger] trees(exprs)[i] == tree(exprs[i]),
    decreases exprs.len(),
{
    if exprs.len() > 0 {
        lemma_trees(exprs.drop_last());
        assert forall|i: int| 0 <= i < exprs.len() implies #[trigger] trees(exprs)[i] == tree(
            exprs[i],
        ) by {
            if i < exprs.len() - 1 {
                assert(trees(exprs.drop_last())[i] == tree(exprs.drop_last()[i]));
            }
        }
    }
}

proof fn lemma_all_with_checks(ts: Seq<Tree>)
    ensures
        all_with_checks(ts).len() == ts.len(),
        forall|i: int|
            0 <= i < ts.len() ==> #[trigger] all_with_checks(ts)[i] == with_checks(ts[i]),
    decreases ts.len(),
{
    if ts.len() > 0 {
        lemma_all_with_checks(ts.drop_last());
        assert forall|i: int| 0 <= i < ts.len() implies #[trigger] all_with_checks(ts)[i]
            == with_checks(ts[i]) by {
            if i < ts.len() - 1 {
                assert(all_with_checks(ts.drop_last())[i] == with_checks(ts.drop_last()[i]));
            }
        }
    }
}

/// A tree shows its whole expression: the kind of expression that it is, every
/// segment of a path, and every part in its place.
pub proof fn law_tree_shows_the_whole_expression(expr: Expr)
    ensures
        match expr {
            Expr::Path(path) => {
                &&& expr@ matches Tree::Path(shown)
                &&& shown.leading_colon == path.leading_colon
                &&& shown.segments.len() == path.segments@.len()
                &&& forall|i: int|
                    0 <= i < path.segments@.len() ==> {
                        &&& (#[trigger] shown.segments[i]).0 == path.segments@[i].ident@
                        &&& shown.segments[i].1 == path.segments@[i].has_arguments
                    }
            },
            Expr::Call { func, args } => {
                &&& expr@ matches Tree::Call { func: called, args: with }
                &&& *called == func@
                &&& with.len() == args@.len()
                &&& forall|i: int| 0 <= i < args@.len() ==> #[trigger] with[i] == args@[i]@
            },
            Expr::MethodCall { receiver, args } => {
                &&& expr@ matches Tree::MethodCall { receiver: of, args: with }
                &&& *of == receiver@
                &&& with.len() == args@.len()
                &&& forall|i: int| 0 <= i < args@.len() ==> #[trigger] with[i] == args@[i]@
            },
            Expr::Checked(inner) => expr@ matches Tree::Checked(shown) && *shown == inner@,
            Expr::Other(parts) => {
                &&& expr@ matches Tree::Other(shown)
                &&& shown.len() == parts@.len()
                &&& forall|i: int| 0 <= i < parts@.len() ==> #[trigger] shown[i] == parts@[i]@
            },
        },
{
    match expr {
        Expr::Call { func, args } => lemma_trees(args@),
        Expr::MethodCall { receiver, args } => lemma_trees(args@),
        Expr::Other(parts) => lemma_trees(parts@),
        _ => {},
    }
}

/// A call by a path goes without a check only where the last segment of the path is
/// the bare identifier `check_preemption`; by every other path, whatever its other
/// segments are and however many, it is rewritten to a block that checks and then
/// calls. What it calls and its arguments are rewritten in their places.
pub proof fn law_only_check_preemption_is_exempt(path: PathTree, args: Seq<Tree>)
    ensures
        ({
            let rewritten = with_checks(
                Tree::Call { func: Box::new(Tree::Path(path)), args },
            );
            let exempt = path.segments.len() > 0 && path.segments.last().0
                == "check_preemption"@ && !path.segments.last().1;
            &&& exempt ==> (rewritten matches Tree::Call { func, args: with } && *func
                == Tree::Path(path) && with.len() == args.len() && (forall|i: int|
                0 <= i < args.len() ==> #[trigger] with[i] == with_checks(args[i])))
            &&& !exempt ==> (rewritten matches Tree::Checked(call) && *call matches Tree::Call {
                func,
                args: with,
            } && *func == Tree::Path(path) && with.len() == args.len() && (forall|i: int|
                0 <= i < args.len() ==> #[trigger] with[i] == with_checks(args[i])))
        }),
{
    lemma_all_with_checks(args);
    assert(with_checks(Tree::Path(path)) == Tree::Path(path));
}

/// A call of anything but a path is always checked, and what is called and its
/// arguments are rewritten in their places.
pub proof fn law_call_of_no_path_is_checked(callee: Tree, args: Seq<Tree>)
    requires
        callee !is Path,
    ensures
        ({
            &&& with_checks(Tree::Call { func: Box::new(callee), args }) matches Tree::Checked(
                call,
            )
            &&& *call matches Tree::Call { func, args: with }
            &&& *func == with_checks(callee)
            &&& with.len() == args.len()
            &&& forall|i: int| 0 <= i < args.len() ==> #[trigger] with[i] == with_checks(args[i])
        }),
{
    lemma_all_with_checks(args);
}

/// A call of a method is always checked, and its receiver and its arguments are
/// rewritten in their places.
pub proof fn law_method_call_is_checked(on: Tree, args: Seq<Tree>)
    ensures
        ({
            &&& with_checks(
                Tree::MethodCall { receiver: Box::new(on), args },
            ) matches Tree::Checked(call)
            &&& *call matches Tree::MethodCall { receiver, args: with }
            &&& *receiver == with_checks(on)
            &&& with.len() == args.len()
            &&& forall|i: int| 0 <= i < args.len() ==> #[trigger] with[i] == with_checks(args[i])
        }),
{
    lemma_all_with_checks(args);
}

/// What is no call gets no check of its own: a path stays, and of every other
/// expression the parts are rewritten in their places.
pub proof fn law_only_calls_are_checked(path: PathTree, inner: Tree, parts: Seq<Tree>)
    ensures
        with_checks(Tree::Path(path)) == Tree::Path(path),
        with_checks(Tree::Checked(Box::new(inner))) == Tree::Checked(
            Box::new(with_checks(inner)),
        ),
        ({
            &&& with_checks(Tree::Other(parts)) matches Tree::Other(after)
            &&& after.len() == parts.len()
            &&& forall|i: int|
                0 <= i < parts.len() ==> #[trigger] after[i] == with_checks(parts[i])
        }),
{
    lemma_all_with_checks(parts);
}

/// Tells whether a call of `func` is a call of `check_preemption`, be it by that
/// name alone or by a path that ends in it.
pub fn check_is_check_preemption(func: &Expr) -> (check: bool)
    ensures
        check == is_check(func@),
        check == (*func matches Expr::Path(path) && path.segments@.len() > 0
            && path.segments@.last().ident@ == "check_preemption"@
            && !path.segments@.last().has_arguments),
{
    if let Expr::Path(path) = func {
        let n = path.segments.len();
        if n == 0 {
            return false;
        }
        let name = "check_preemption".to_owned();
        let last = &path.segments[n - 1];
        assert(path@.segments.last() == (last.ident@, last.has_arguments));
        !last.has_arguments && last.ident.eq(&name)
    } else {
        false
    }
}

/// Puts the checks in.
pub struct PreemptionInjector;

impl PreemptionInjector {
    /// Puts a check before each call in `expr` but those that are checks.
    pub fn visit_expr_mut(&mut self, expr: &mut Expr)
        ensures
            final(expr)@ == with_checks(old(expr)@),
            match *old(expr) {
                Expr::Path(_) => *final(expr) == *old(expr),
                Expr::Call { func, args } => {
                    let exempt = (*func matches Expr::Path(path) && path.segments@.len() > 0
                        && path.segments@.last().ident@ == "check_preemption"@
                        && !path.segments@.last().has_arguments);
                    &&& exempt ==> (*final(expr) matches Expr::Call { func: called, args: with }
                        && called@ == with_checks(func@) && with@.len() == args@.len()
                        && (forall|i: int|
                        0 <= i < args@.len() ==> (#[trigger] with@[i])@ == with_checks(args@[i]@)))
                    &&& !exempt ==> (*final(expr) matches Expr::Checked(call)
                        && *call matches Expr::Call { func: called, args: with } && called@
                        == with_checks(func@) && with@.len() == args@.len() && (forall|i: int|
                        0 <= i < args@.len() ==> (#[trigger] with@[i])@ == with_checks(args@[i]@)))
                },
                Expr::MethodCall { receiver, args } => {
                    &&& *final(expr) matches Expr::Checked(call)
                    &&& *call matches Expr::MethodCall { receiver: of, args: with }
                    &&& of@ == with_checks(receiver@)
                    &&& with@.len() == args@.len()
                    &&& forall|i: int|
                        0 <= i < args@.len() ==> (#[trigger] with@[i])@ == with_checks(args@[i]@)
                },
                Expr::Checked(inner) => {
                    &&& *final(expr) matches Expr::Checked(after)
                    &&& after@ == with_checks(inner@)
                },
                Expr::Other(parts) => {
                    &&& *final(expr) matches Expr::Other(after)
                    &&& after@.len() == parts@.len()
                    &&& forall|i: int|
                        0 <= i < parts@.len() ==> (#[trigger] after@[i])@ == with_checks(
                            parts@[i]@,
                        )
                },
            },
        decreases *old(expr),
    {
        let mut wrap = false;
        match expr {
            Expr::Path(_) => {},
            Expr::Call { func, args } => {
                wrap = !check_is_check_preemption(func);
                self.visit_expr_mut(func);
                self.visit_exprs_mut(args);
            },
            Expr::MethodCall { receiver, args } => {
                wrap = true;
                self.visit_expr_mut(receiver);
                self.visit_exprs_mut(args);
            },
            Expr::Checked(inner) => {
                self.visit_expr_mut(inner);
            },
            Expr::Other(parts) => {
                self.visit_exprs_mut(parts);
            },
        }
        let ghost visited = tree(*expr);
        if wrap {
            let mut original = Expr::Other(Vec::new());
            core::mem::swap(expr, &mut original);
            *expr = Expr::Checked(Box::new(original));
            assert(tree(*expr) == Tree::Checked(Box::new(visited)));
        }
    }

    /// Puts a check before each call in each of `exprs`.
    fn visit_exprs_mut(&mut self, exprs: &mut Vec<Expr>)
        ensures
            trees(final(exprs)@) == all_with_checks(trees(old(exprs)@)),
            final(exprs)@.len() == old(exprs)@.len(),
            forall|i: int|
                0 <= i < old(exprs)@.len() ==> (#[trigger] final(exprs)@[i])@ == with_checks(
                    old(exprs)@[i]@,
                ),
        decreases old(exprs)@,
    {
        let mut i: usize = 0;
        while i < exprs.len()
            invariant
                i <= exprs.len(),
                exprs.len() == old(exprs).len(),
                forall|j: int| 0 <= j < i ==> tree(#[trigger] exprs@[j]) == with_checks(
                    tree(old(exprs)@[j]),
                ),
                forall|j: int|
                    i <= j < exprs.len() ==> #[trigger] exprs@[j] == old(exprs)@[j],
            decreases exprs.len() - i,
        {
            self.visit_expr_mut(&mut exprs[i]);
            i += 1;
        }
        proof {
            lemma_trees(exprs@);
            lemma_trees(old(exprs)@);
            lemma_all_with_checks(trees(old(exprs)@));
            assert(trees(exprs@) =~= all_with_checks(trees(old(exprs)@)));
        }
    }
}

/// `t` without the blocks that check: what stands in each takes its place.
pub open spec fn without_checks(t: Tree) -> Tree
    decreases t,
{
    match t {
        Tree::Path(path) => t,
        Tree::Call { func, args } => Tree::Call {
            func: Box::new(without_checks(*func)),
            args: all_without_checks(args),
        },
        Tree::MethodCall { receiver, args } => Tree::MethodCall {
            receiver: Box::new(without_checks(*receiver)),
            args: all_without_checks(args),
        },
        Tree::Checked(inner) => without_checks(*inner),
        Tree::Other(parts) => Tree::Other(all_without_checks(parts)),
    }
}

/// Each of `ts` without the blocks that check.
pub open spec fn all_without_checks(ts: Seq<Tree>) -> Seq<Tree>
    decreases ts,
{
    if ts.len() == 0 {
        Seq::empty()
    } else {
        all_without_checks(ts.drop_last()).push(without_checks(ts.last()))
    }
}

/// Before each call in `t`, but those that are checks themselves, there is a
/// check; `checked` tells whether there is one right before `t`.
pub open spec fn gives_way(t: Tree, checked: bool) -> bool
    decreases t,
{
    match t {
        Tree::Path(path) => true,
        Tree::Call { func, args } => {
            &&& checked || is_check(*func)
            &&& gives_way(*func, false)
            &&& all_give_way(args)
        },
        Tree::MethodCall { receiver, args } => {
            &&& checked
            &&& gives_way(*receiver, false)
            &&& all_give_way(args)
        },
        Tree::Checked(inner) => gives_way(*inner, true),
        Tree::Other(parts) => all_give_way(parts),
    }
}

/// Each of `ts` gives way before each call.
pub open spec fn all_give_way(ts: Seq<Tree>) -> bool
    decreases ts,
{
    ts.len() > 0 ==> all_give_way(ts.drop_last()) && gives_way(ts.last(), false)
}

/// How many calls there are in `t` that are not checks.
pub open spec fn calls(t: Tree) -> nat
    decreases t,
{
    match t {
        Tree::Path(path) => 0,
        Tree::Call { func, args } => calls(*func) + all_calls(args) + if is_check(*func) {
            0nat
        } else {
            1nat
        },
        Tree::MethodCall { receiver, args } => calls(*receiver) + all_calls(args) + 1,
        Tree::Checked(inner) => calls(*inner),
        Tree::Other(parts) => all_calls(parts),
    }
}

/// How many calls there are in all of `ts` that are not checks.
pub open spec fn all_calls(ts: Seq<Tree>) -> nat
    decreases ts,
{
    if ts.len() == 0 {
        0
    } else {
        all_calls(ts.drop_last()) + calls(ts.last())
    }
}

/// How many blocks in `t` check.
pub open spec fn checks(t: Tree) -> nat
    decreases t,
{
    match t {
        Tree::Path(path) => 0,
        Tree::Call { func, args } => checks(*func) + all_checks(args),
        Tree::MethodCall { receiver, args } => checks(*receiver) + all_checks(args),
        Tree::Checked(inner) => 1 + checks(*inner),
        Tree::Other(parts) => all_checks(parts),
    }
}

/// How many blocks in all of `ts` check.
pub open spec fn all_checks(ts: Seq<Tree>) -> nat
    decreases ts,
{
    if ts.len() == 0 {
        0
    } else {
        all_checks(ts.drop_last()) + checks(ts.last())
    }
}

proof fn lemma_with_checks_keeps_is_check(func: Tree)
    ensures
        is_check(with_checks(func)) == is_check(func),
{
}

/// Checks are all that is put in: without them the expression is what it was
/// without any.
pub proof fn law_only_checks_are_put_in(t: Tree)
    ensures
        without_checks(with_checks(t)) == without_checks(t),
    decreases t,
{
    match t {
        Tree::Path(path) => {},
        Tree::Call { func, args } => {
            law_only_checks_are_put_in(*func);
            lemma_only_checks_are_put_in_all(args);
            let call = Tree::Call {
                func: Box::new(with_checks(*func)),
                args: all_with_checks(args),
            };
            assert(without_checks(call) == without_checks(t));
            assert(without_checks(Tree::Checked(Box::new(call))) == without_checks(call));
        },
        Tree::MethodCall { receiver, args } => {
            law_only_checks_are_put_in(*receiver);
            lemma_only_checks_are_put_in_all(args);
            let call = Tree::MethodCall {
                receiver: Box::new(with_checks(*receiver)),
                args: all_with_checks(args),
            };
            assert(without_checks(call) == without_checks(t));
            assert(without_checks(Tree::Checked(Box::new(call))) == without_checks(call));
        },
        Tree::Checked(inner) => {
            law_only_checks_are_put_in(*inner);
        },
        Tree::Other(parts) => {
            lemma_only_checks_are_put_in_all(parts);
        },
    }
}

proof fn lemma_only_checks_are_put_in_all(ts: Seq<Tree>)
    ensures
        all_without_checks(all_with_checks(ts)) == all_without_checks(ts),
    decreases ts,
{
    if ts.len() > 0 {
        lemma_only_checks_are_put_in_all(ts.drop_last());
        law_only_checks_are_put_in(ts.last());
        assert(all_with_checks(ts).drop_last() =~= all_with_checks(ts.drop_last()));
    }
}

/// Every call in the rewritten expression gives way first, but those that are
/// checks themselves.
pub proof fn law_every_call_gives_way(t: Tree, checked: bool)
    ensures
        gives_way(with_checks(t), checked),
    decreases t,
{
    match t {
        Tree::Path(path) => {},
        Tree::Call { func, args } => {
            law_every_call_gives_way(*func, false);
            lemma_every_call_gives_way_all(args);
            lemma_with_checks_keeps_is_check(*func);
            let call = Tree::Call {
                func: Box::new(with_checks(*func)),
                args: all_with_checks(args),
            };
            assert(gives_way(call, true));
            assert(gives_way(Tree::Checked(Box::new(call)), checked));
        },
        Tree::MethodCall { receiver, args } => {
            law_every_call_gives_way(*receiver, false);
            lemma_every_call_gives_way_all(args);
            let call = Tree::MethodCall {
                receiver: Box::new(with_checks(*receiver)),
                args: all_with_checks(args),
            };
            assert(gives_way(call, true));
            assert(gives_way(Tree::Checked(Box::new(call)), checked));
        },
        Tree::Checked(inner) => {
            law_every_call_gives_way(*inner, true);
        },
        Tree::Other(parts) => {
            lemma_every_call_gives_way_all(parts);
        },
    }
}

proof fn lemma_every_call_gives_way_all(ts: Seq<Tree>)
    ensures
        all_give_way(all_with_checks(ts)),
    decreases ts,
{
    if ts.len() > 0 {
        lemma_every_call_gives_way_all(ts.drop_last());
        law_every_call_gives_way(ts.last(), false);
        assert(all_with_checks(ts).drop_last() =~= all_with_checks(ts.drop_last()));
    }
}

/// There is one new check for each call, none for a call that is a check itself.
pub proof fn law_one_check_for_each_call(t: Tree)
    ensures
        checks(with_checks(t)) == checks(t) + calls(t),
        calls(with_checks(t)) == calls(t),
    decreases t,
{
    match t {
        Tree::Path(path) => {},
        Tree::Call { func, args } => {
            law_one_check_for_each_call(*func);
            lemma_one_check_for_each_call_all(args);
            lemma_with_checks_keeps_is_check(*func);
            let call = Tree::Call {
                func: Box::new(with_checks(*func)),
                args: all_with_checks(args),
            };
            assert(checks(call) == checks(*func) + calls(*func) + all_checks(args) + all_calls(
                args,
            ));
            assert(checks(Tree::Checked(Box::new(call))) == 1 + checks(call));
            assert(calls(Tree::Checked(Box::new(call))) == calls(call));
            assert(calls(call) == calls(t));
        },
        Tree::MethodCall { receiver, args } => {
            law_one_check_for_each_call(*receiver);
            lemma_one_check_for_each_call_all(args);
            let call = Tree::MethodCall {
                receiver: Box::new(with_checks(*receiver)),
                args: all_with_checks(args),
            };
            assert(checks(call) == checks(*receiver) + calls(*receiver) + all_checks(args)
                + all_calls(args));
            assert(checks(Tree::Checked(Box::new(call))) == 1 + checks(call));
            assert(calls(Tree::Checked(Box::new(call))) == calls(call));
            assert(calls(call) == calls(t));
        },
        Tree::Checked(inner) => {
            law_one_check_for_each_call(*inner);
        },
        Tree::Other(parts) => {
            lemma_one_check_for_each_call_all(parts);
        },
    }
}

proof fn lemma_one_check_for_each_call_all(ts: Seq<Tree>)
    ensures
        all_checks(all_with_checks(ts)) == all_checks(ts) + all_calls(ts),
        all_calls(all_with_checks(ts)) == all_calls(ts),
    decreases ts,
{
    if ts.len() > 0 {
        lemma_one_check_for_each_call_all(ts.drop_last());
        law_one_check_for_each_call(ts.last());
        assert(all_with_checks(ts).drop_last() =~= all_with_checks(ts.drop_last()));
    }
}

/// For each expression in `t` but the paths, in the order in which a walk leaves
/// them, whether there is a check right before it; `checked` tells whether there is
/// one right before `t`. The blocks that check are no expressions of their own.
pub open spec fn check_list(t: Tree, checked: bool) -> Seq<bool>
    decreases t,
{
    match t {
        Tree::Path(path) => Seq::empty(),
        Tree::Call { func, args } => (check_list(*func, false) + all_check_lists(args)).push(
            checked,
        ),
        Tree::MethodCall { receiver, args } => (check_list(*receiver, false) + all_check_lists(
            args,
        )).push(checked),
        Tree::Checked(inner) => check_list(*inner, true),
        Tree::Other(parts) => all_check_lists(parts).push(checked),
    }
}

/// The lists of all of `ts`, one behind the other.
pub open spec fn all_check_lists(ts: Seq<Tree>) -> Seq<bool>
    decreases ts,
{
    if ts.len() == 0 {
        Seq::empty()
    } else {
        all_check_lists(ts.drop_last()) + check_list(ts.last(), false)
    }
}

/// The list of an expression is that of its parts, one behind the other in the order
/// in which they stand there, then its own entry, which says whether there is a
/// check right before it. A path has no entry, and a block that checks has the
/// entries of what it holds, the last of them for a checked expression.
pub proof fn law_check_list_goes_part_by_part(
    t: Tree,
    parts: Seq<Tree>,
    part: Tree,
    path: PathTree,
    checked: bool,
)
    ensures
        check_list(Tree::Path(path), checked).len() == 0,
        check_list(Tree::Checked(Box::new(t)), checked) == check_list(t, true),
        check_list(Tree::Other(Seq::empty()), checked) == seq![checked],
        check_list(Tree::Other(parts.push(part)), checked) == (check_list(
            Tree::Other(parts),
            checked,
        ).drop_last() + check_list(part, false)).push(checked),
        check_list(Tree::Call { func: Box::new(t), args: parts }, checked) == check_list(t, false)
            + check_list(Tree::Other(parts), checked),
        check_list(Tree::MethodCall { receiver: Box::new(t), args: parts }, checked) == check_list(
            t,
            false,
        ) + check_list(Tree::Other(parts), checked),
{
    assert(parts.push(part).drop_last() =~= parts);
    assert(parts.push(part).last() == part);
    assert(check_list(Tree::Other(parts), checked) == all_check_lists(parts).push(checked));
    assert(check_list(Tree::Other(parts), checked).drop_last() =~= all_check_lists(parts));
    assert(all_check_lists(Seq::<Tree>::empty()) =~= Seq::<bool>::empty());
    assert(check_list(Tree::Other(Seq::empty()), checked) =~= seq![checked]);
    assert(all_check_lists(parts.push(part)) == all_check_lists(parts) + check_list(part, false));
    assert(check_list(Tree::Call { func: Box::new(t), args: parts }, checked) =~= check_list(
        t,
        false,
    ) + check_list(Tree::Other(parts), checked));
    assert(check_list(Tree::MethodCall { receiver: Box::new(t), args: parts }, checked)
        =~= check_list(t, false) + check_list(Tree::Other(parts), checked));
}

/// Lists for each expression in `expr` but the paths, in the order in which a walk
/// leaves them, whether there is a check right before it.
pub fn list_checks(expr: &Expr) -> (list: Vec<bool>)
    ensures
        list@ == check_list(expr@, false),
        expr is Path ==> list@.len() == 0,
        expr is Call || expr is MethodCall || expr is Other ==> list@.len() > 0
            && !list@.last(),
{
    let mut list: Vec<bool> = Vec::new();
    list_checks_in(expr, false, &mut list);
    assert(list@ =~= check_list(expr@, false));
    list
}

/// Adds the list of `expr` to `list`.
fn list_checks_in(expr: &Expr, checked: bool, list: &mut Vec<bool>)
    ensures
        final(list)@ == old(list)@ + check_list(expr@, checked),
    decreases *expr,
{
    match expr {
        Expr::Path(_) => {},
        Expr::Call { func, args } => {
            list_checks_in(func, false, list);
            list_checks_in_all(args, list);
            list.push(checked);
        },
        Expr::MethodCall { receiver, args } => {
            list_checks_in(receiver, false, list);
            list_checks_in_all(args, list);
            list.push(checked);
        },
        Expr::Checked(inner) => {
            list_checks_in(inner, true, list);
        },
        Expr::Other(parts) => {
            list_checks_in_all(parts, list);
            list.push(checked);
        },
    }
    assert(list@ =~= old(list)@ + check_list(expr@, checked));
}

/// Adds the lists of all of `exprs` to `list`.
fn list_checks_in_all(exprs: &Vec<Expr>, list: &mut Vec<bool>)
    ensures
        final(list)@ == old(list)@ + all_check_lists(trees(exprs@)),
    decreases exprs@,
{
    let mut i: usize = 0;
    assert(trees(exprs@.take(0)) =~= Seq::<Tree>::empty());
    assert(list@ =~= old(list)@ + all_check_lists(trees(exprs@.take(0))));
    while i < exprs.len()
        invariant
            i <= exprs.len(),
            list@ == old(list)@ + all_check_lists(trees(exprs@.take(i as int))),
        decreases exprs.len() - i,
    {
        list_checks_in(&exprs[i], false, list);
        proof {
            let before = exprs@.take(i as int);
            let with_this = exprs@.take(i + 1);
            assert(with_this.drop_last() =~= before);
            assert(trees(with_this) == trees(before).push(tree(exprs@[i as int])));
            assert(trees(with_this).drop_last() =~= trees(before));
            assert(list@ =~= old(list)@ + all_check_lists(trees(with_this)));
        }
        i += 1;
    }
    assert(exprs@.take(exprs@.len() as int) =~= exprs@);
}

/// For each expression in `t` but the paths, in the order in which a walk leaves
/// them, whether it is a call that is not a check.
pub open spec fn call_list(t: Tree) -> Seq<bool>
    decreases t,
{
    match t {
        Tree::Path(path) => Seq::empty(),
        Tree::Call { func, args } => (call_list(*func) + all_call_lists(args)).push(
            !is_check(*func),
        ),
        Tree::MethodCall { receiver, args } => (call_list(*receiver) + all_call_lists(args)).push(
            true,
        ),
        Tree::Checked(inner) => call_list(*inner),
        Tree::Other(parts) => all_call_lists(parts).push(false),
    }
}

/// The lists of all of `ts`, one behind the other.
pub open spec fn all_call_lists(ts: Seq<Tree>) -> Seq<bool>
    decreases ts,
{
    if ts.len() == 0 {
        Seq::empty()
    } else {
        all_call_lists(ts.drop_last()) + call_list(ts.last())
    }
}

/// The list of a rewritten expression that had no checks before says of each
/// expression in the original, in its order, whether that is a call to be checked.
pub proof fn law_check_list_marks_the_calls(t: Tree)
    requires
        checks(t) == 0,
    ensures
        check_list(with_checks(t), false) == call_list(t),
    decreases t,
{
    match t {
        Tree::Path(path) => {},
        Tree::Call { func, args } => {
            law_check_list_marks_the_calls(*func);
            lemma_check_lists_mark_the_calls(args);
            let call = Tree::Call {
                func: Box::new(with_checks(*func)),
                args: all_with_checks(args),
            };
            assert(check_list(Tree::Checked(Box::new(call)), false) == check_list(call, true));
            assert(check_list(call, !is_check(*func)) == call_list(t));
        },
        Tree::MethodCall { receiver, args } => {
            law_check_list_marks_the_calls(*receiver);
            lemma_check_lists_mark_the_calls(args);
            let call = Tree::MethodCall {
                receiver: Box::new(with_checks(*receiver)),
                args: all_with_checks(args),
            };
            assert(check_list(Tree::Checked(Box::new(call)), false) == check_list(call, true));
            assert(check_list(call, true) == call_list(t));
        },
        Tree::Checked(inner) => {},
        Tree::Other(parts) => {
            lemma_check_lists_mark_the_calls(parts);
        },
    }
}

proof fn lemma_check_lists_mark_the_calls(ts: Seq<Tree>)
    requires
        all_checks(ts) == 0,
    ensures
        all_check_lists(all_with_checks(ts)) == all_call_lists(ts),
    decreases ts,
{
    if ts.len() > 0 {
        lemma_check_lists_mark_the_calls(ts.drop_last());
        law_check_list_marks_the_calls(ts.last());
        assert(all_with_checks(ts).drop_last() =~= all_with_checks(ts.drop_last()));
    }
}

/// How often `true` stands in `list`.
pub open spec fn marks(list: Seq<bool>) -> nat
    decreases list.len(),
{
    if list.len() == 0 {
        0
    } else {
        marks(list.drop_last()) + if list.last() {
            1nat
        } else {
            0nat
        }
    }
}

proof fn lemma_marks_add(a: Seq<bool>, b: Seq<bool>)
    ensures
        marks(a + b) == marks(a) + marks(b),
    decreases b.len(),
{
    if b.len() == 0 {
        assert(a + b =~= a);
    } else {
        lemma_marks_add(a, b.drop_last());
        assert((a + b).drop_last() =~= a + b.drop_last());
    }
}

proof fn lemma_marks_push(a: Seq<bool>, last: bool)
    ensures
        marks(a.push(last)) == marks(a) + if last {
            1nat
        } else {
            0nat
        },
{
    assert(a.push(last).drop_last() =~= a);
}

proof fn lemma_calls_are_marked(t: Tree)
    ensures
        marks(call_list(t)) == calls(t),
    decreases t,
{
    match t {
        Tree::Path(path) => {},
        Tree::Call { func, args } => {
            lemma_calls_are_marked(*func);
            lemma_all_calls_are_marked(args);
            lemma_marks_add(call_list(*func), all_call_lists(args));
            lemma_marks_push(call_list(*func) + all_call_lists(args), !is_check(*func));
        },
        Tree::MethodCall { receiver, args } => {
            lemma_calls_are_marked(*receiver);
            lemma_all_calls_are_marked(args);
            lemma_marks_add(call_list(*receiver), all_call_lists(args));
            lemma_marks_push(call_list(*receiver) + all_call_lists(args), true);
        },
        Tree::Checked(inner) => {
            lemma_calls_are_marked(*inner);
        },
        Tree::Other(parts) => {
            lemma_all_calls_are_marked(parts);
            lemma_marks_push(all_call_lists(parts), false);
        },
    }
}

proof fn lemma_all_calls_are_marked(ts: Seq<Tree>)
    ensures
        marks(all_call_lists(ts)) == all_calls(ts),
    decreases ts,
{
    if ts.len() > 0 {
        lemma_all_calls_are_marked(ts.drop_last());
        lemma_calls_are_marked(ts.last());
        lemma_marks_add(all_call_lists(ts.drop_last()), call_list(ts.last()));
    }
}

/// The list of a rewritten expression that had no checks before marks as many
/// expressions as there are checks in it.
pub proof fn law_check_list_marks_every_check(t: Tree)
    requires
        checks(t) == 0,
    ensures
        marks(check_list(with_checks(t), false)) == checks(with_checks(t)),
{
    law_check_list_marks_the_calls(t);
    lemma_calls_are_marked(t);
    law_one_check_for_each_call(t);
}

} // verus!
