//! The filters of a BIRD configuration as a whole: which functions each needs,
//! what is handed to the filter compiler, and what its answers leave.

use crate::bird_filter::{
    body_translation, called, called_functions, function_translation, translate_body,
    translate_function, translated_view, Ctx, CtxModel, Translated,
};
use crate::conf::{Named, NamedLines, NamedLinesModel, NamedModel, RoaModel, RoaRow, RoaTable};
use crate::table::take_step;
use crate::text::{
    append_views, cat, comes_before, join, joined_by, lists_text, no_items, opt_view, own, own_list,
    push_view, same, text_before, views,
};
use vstd::prelude::*;
use vstd::string::*;

verus! {

/// An expression of the filter language, as far as its variables matter.
pub enum Expr {
    /// Literals and route fields.
    Leaf,
    /// A variable.
    Var(String),
    /// Anything made of sub-expressions, in order.
    Node(Vec<Expr>),
}

/// A statement of the filter language, as far as its variables matter.
pub enum Stmt {
    /// `return`, `accept` and `reject` without a value.
    Plain,
    /// A statement that only evaluates an expression.
    Use(Expr),
    Let { name: String, value: Expr },
    Assign { name: String, value: Expr },
    If { cond: Expr, yes: Box<Stmt>, no: Option<Box<Stmt>> },
    Case { scrutinee: Expr, arms: Vec<Arm> },
    Block(Vec<Stmt>),
}

/// One arm of a `case` statement.
pub struct Arm {
    pub patterns: Vec<Expr>,
    pub body: Vec<Stmt>,
}

/// A function of a compiled filter.
pub struct Function {
    pub params: Vec<String>,
    pub body: Vec<Stmt>,
}

/// A compiled filter.
pub struct Filter {
    pub functions: Vec<Function>,
    pub body: Vec<Stmt>,
}

/// Names in scope, and the notes on names that nothing introduced.
#[verifier::ext_equal]
pub struct Walk {
    pub scope: Seq<Seq<char>>,
    pub unknown: Seq<Seq<char>>,
}

/// The scope and notes of a walk in progress.
pub open spec fn stand(scope: Seq<String>, unknown: Seq<String>) -> Walk {
    Walk { scope: views(scope), unknown: views(unknown) }
}

/// The note on a variable that nothing introduced.
pub open spec fn var_note(name: Seq<char>) -> Seq<char> {
    "variable or constant `"@ + name
        + "` is never introduced — a BIRD `define`/local that did not translate"@
}

/// The note on an assignment to a name that nothing introduced.
pub open spec fn assign_note(name: Seq<char>) -> Seq<char> {
    "assignment to `"@ + name
        + "` which nothing introduced — a BIRD `define`/local that did not translate"@
}

/// One more note.
pub open spec fn noted(w: Walk, note: Seq<char>) -> Walk {
    Walk { unknown: w.unknown.push(note), ..w }
}

/// What an expression refers to.
pub open spec fn walk_expr(e: Expr, w: Walk) -> Walk
    decreases e, 0nat,
{
    match e {
        Expr::Leaf => w,
        Expr::Var(name) => if w.scope.contains(name@) {
            w
        } else {
            noted(w, var_note(name@))
        },
        Expr::Node(v) => walk_exprs(v, v@.len(), w),
    }
}

/// What the first `n` expressions refer to.
pub open spec fn walk_exprs(v: Vec<Expr>, n: nat, w: Walk) -> Walk
    decreases v, n,
{
    if n == 0 || n > v.len() {
        w
    } else {
        walk_expr(v[n - 1], walk_exprs(v, (n - 1) as nat, w))
    }
}

/// What a statement refers to and introduces. A block's names end with it.
pub open spec fn walk_stmt(s: Stmt, w: Walk) -> Walk
    decreases s, 0nat,
{
    match s {
        Stmt::Plain => w,
        Stmt::Use(e) => walk_expr(e, w),
        Stmt::Let { name, value } => {
            let a = walk_expr(value, w);
            Walk { scope: a.scope.push(name@), ..a }
        },
        Stmt::Assign { name, value } => {
            let a = walk_expr(value, w);
            if a.scope.contains(name@) {
                a
            } else {
                noted(a, assign_note(name@))
            }
        },
        Stmt::If { cond, yes, no } => {
            let a = walk_stmt(*yes, walk_expr(cond, w));
            match no {
                Some(b) => walk_stmt(*b, a),
                None => a,
            }
        },
        Stmt::Case { scrutinee, arms } => walk_arms(arms, arms@.len(), walk_expr(scrutinee, w)),
        Stmt::Block(v) => Walk { scope: w.scope, ..walk_stmts(v, v@.len(), w) },
    }
}

/// What the first `n` statements refer to and introduce.
pub open spec fn walk_stmts(v: Vec<Stmt>, n: nat, w: Walk) -> Walk
    decreases v, n,
{
    if n == 0 || n > v.len() {
        w
    } else {
        walk_stmt(v[n - 1], walk_stmts(v, (n - 1) as nat, w))
    }
}

/// What the first `n` arms refer to and introduce.
pub open spec fn walk_arms(v: Vec<Arm>, n: nat, w: Walk) -> Walk
    decreases v, n,
{
    if n == 0 || n > v.len() {
        w
    } else {
        let a = walk_arms(v, (n - 1) as nat, w);
        let arm = v[n - 1];
        walk_stmts(arm.body, arm.body@.len(), walk_exprs(arm.patterns, arm.patterns@.len(), a))
    }
}

/// Names only join a scope.
pub(crate) proof fn scope_grows_expr(e: Expr, w: Walk)
    ensures
        walk_expr(e, w).scope == w.scope,
    decreases e, 0nat,
{
    match e {
        Expr::Node(v) => {
            scope_grows_exprs(v, v@.len(), w);
        },
        _ => {},
    }
}

proof fn scope_grows_exprs(v: Vec<Expr>, n: nat, w: Walk)
    ensures
        walk_exprs(v, n, w).scope == w.scope,
    decreases v, n,
{
    if !(n == 0 || n > v.len()) {
        scope_grows_exprs(v, (n - 1) as nat, w);
        scope_grows_expr(v[n - 1], walk_exprs(v, (n - 1) as nat, w));
    }
}

/// `a` starts `b`.
pub open spec fn extends(a: Seq<Seq<char>>, b: Seq<Seq<char>>) -> bool {
    a.len() <= b.len() && b.take(a.len() as int) == a
}

proof fn extends_trans(a: Seq<Seq<char>>, b: Seq<Seq<char>>, c: Seq<Seq<char>>)
    requires
        extends(a, b),
        extends(b, c),
    ensures
        extends(a, c),
{
    assert(c.take(a.len() as int) =~= b.take(a.len() as int));
}

proof fn scope_grows_stmt(s: Stmt, w: Walk)
    ensures
        extends(w.scope, walk_stmt(s, w).scope),
    decreases s, 0nat,
{
    assert(w.scope.take(w.scope.len() as int) =~= w.scope);
    match s {
        Stmt::Plain => {},
        Stmt::Use(e) => {
            scope_grows_expr(e, w);
        },
        Stmt::Let { name, value } => {
            scope_grows_expr(value, w);
            assert(w.scope.push(name@).take(w.scope.len() as int) =~= w.scope);
        },
        Stmt::Assign { name, value } => {
            scope_grows_expr(value, w);
        },
        Stmt::If { cond, yes, no } => {
            scope_grows_expr(cond, w);
            let a = walk_expr(cond, w);
            scope_grows_stmt(*yes, a);
            match no {
                Some(b) => {
                    scope_grows_stmt(*b, walk_stmt(*yes, a));
                    extends_trans(
                        w.scope,
                        walk_stmt(*yes, a).scope,
                        walk_stmt(*b, walk_stmt(*yes, a)).scope,
                    );
                },
                None => {},
            }
        },
        Stmt::Case { scrutinee, arms } => {
            scope_grows_expr(scrutinee, w);
            scope_grows_arms(arms, arms@.len(), walk_expr(scrutinee, w));
        },
        Stmt::Block(v) => {},
    }
}

proof fn scope_grows_stmts(v: Vec<Stmt>, n: nat, w: Walk)
    ensures
        extends(w.scope, walk_stmts(v, n, w).scope),
    decreases v, n,
{
    assert(w.scope.take(w.scope.len() as int) =~= w.scope);
    if !(n == 0 || n > v.len()) {
        let a = walk_stmts(v, (n - 1) as nat, w);
        scope_grows_stmts(v, (n - 1) as nat, w);
        scope_grows_stmt(v[n - 1], a);
        extends_trans(w.scope, a.scope, walk_stmt(v[n - 1], a).scope);
    }
}

proof fn scope_grows_arms(v: Vec<Arm>, n: nat, w: Walk)
    ensures
        extends(w.scope, walk_arms(v, n, w).scope),
    decreases v, n,
{
    assert(w.scope.take(w.scope.len() as int) =~= w.scope);
    if !(n == 0 || n > v.len()) {
        let a = walk_arms(v, (n - 1) as nat, w);
        let arm = v[n - 1];
        scope_grows_arms(v, (n - 1) as nat, w);
        let b = walk_exprs(arm.patterns, arm.patterns@.len(), a);
        scope_grows_exprs(arm.patterns, arm.patterns@.len(), a);
        scope_grows_stmts(arm.body, arm.body@.len(), b);
        extends_trans(w.scope, a.scope, walk_stmts(arm.body, arm.body@.len(), b).scope);
    }
}

/// What functions refer to; each starts from the scope around it.
pub open spec fn walk_functions(v: Seq<Function>, w: Walk) -> Walk
    decreases v.len(),
{
    if v.len() == 0 {
        w
    } else {
        let a = walk_functions(v.drop_last(), w);
        let f = v.last();
        let b = walk_stmts(
            f.body,
            f.body@.len(),
            Walk { scope: a.scope + views(f.params@), ..a },
        );
        Walk { scope: a.scope, ..b }
    }
}

/// How many leading texts come before `x`.
pub open spec fn text_rank(s: Seq<Seq<char>>, x: Seq<char>) -> nat
    decreases s.len(),
{
    if s.len() == 0 || !text_before(s[0], x) {
        0
    } else {
        1 + text_rank(s.subrange(1, s.len() as int), x)
    }
}

/// A sorted list with `x` in its place, once.
pub open spec fn insert_text(s: Seq<Seq<char>>, x: Seq<char>) -> Seq<Seq<char>> {
    let r = text_rank(s, x) as int;
    if r < s.len() && s[r] == x {
        s
    } else {
        s.insert(r, x)
    }
}

/// The texts sorted, each once.
pub open spec fn sorted_texts(s: Seq<Seq<char>>) -> Seq<Seq<char>>
    decreases s.len(),
{
    if s.len() == 0 {
        Seq::empty()
    } else {
        insert_text(sorted_texts(s.drop_last()), s.last())
    }
}

/// The notes on a compiled filter: every name it uses that nothing introduced.
pub open spec fn unknown_names(f: Filter) -> Seq<Seq<char>> {
    let w = walk_functions(
        f.functions@,
        Walk { scope: Seq::empty(), unknown: Seq::empty() },
    );
    sorted_texts(walk_stmts(f.body, f.body@.len(), w).unknown)
}

fn check_expr(e: &Expr, scope: &Vec<String>, unknown: &mut Vec<String>)
    ensures
        stand(scope@, final(unknown)@) == walk_expr(
            *e,
            stand(scope@, old(unknown)@),
        ),
    decreases *e, 0nat,
{
    match e {
        Expr::Leaf => {},
        Expr::Var(name) => {
            if !lists_text(scope, name.as_str()) {
                let mut s = own("variable or constant `");
                s.append(name.as_str());
                s.append(
                    "` is never introduced — a BIRD `define`/local that did not translate",
                );
                push_view(unknown, s);
            }
        },
        Expr::Node(v) => {
            check_exprs(v, scope, unknown);
        },
    }
}

fn check_exprs(v: &Vec<Expr>, scope: &Vec<String>, unknown: &mut Vec<String>)
    ensures
        stand(scope@, final(unknown)@) == walk_exprs(
            *v,
            v@.len(),
            stand(scope@, old(unknown)@),
        ),
    decreases *v, 1nat,
{
    let ghost w0 = stand(scope@, unknown@);
    let mut i: usize = 0;
    while i < v.len()
        invariant
            i <= v@.len(),
            w0.scope == views(scope@),
            stand(scope@, unknown@) == walk_exprs(
                *v,
                i as nat,
                w0,
            ),
        decreases v@.len() - i,
    {
        check_expr(&v[i], scope, unknown);
        i += 1;
    }
}

fn check_stmt(s: &Stmt, scope: &mut Vec<String>, unknown: &mut Vec<String>)
    ensures
        stand(final(scope)@, final(unknown)@) == walk_stmt(
            *s,
            stand(old(scope)@, old(unknown)@),
        ),
    decreases *s, 0nat,
{
    match s {
        Stmt::Plain => {},
        Stmt::Use(e) => {
            check_expr(e, scope, unknown);
        },
        Stmt::Let { name, value } => {
            check_expr(value, scope, unknown);
            push_view(scope, own(name.as_str()));
        },
        Stmt::Assign { name, value } => {
            check_expr(value, scope, unknown);
            if !lists_text(scope, name.as_str()) {
                let mut n = own("assignment to `");
                n.append(name.as_str());
                n.append(
                    "` which nothing introduced — a BIRD `define`/local that did not translate",
                );
                push_view(unknown, n);
            }
        },
        Stmt::If { cond, yes, no } => {
            check_expr(cond, scope, unknown);
            check_stmt(yes, scope, unknown);
            match no {
                Some(b) => {
                    check_stmt(b, scope, unknown);
                },
                None => {},
            }
        },
        Stmt::Case { scrutinee, arms } => {
            check_expr(scrutinee, scope, unknown);
            check_arms(arms, scope, unknown);
        },
        Stmt::Block(v) => {
            let base: usize = scope.len();
            let ghost w0 = stand(scope@, unknown@);
            check_stmts(v, scope, unknown);
            proof {
                scope_grows_stmts(*v, v@.len(), w0);
                assert(views(old(scope)@).len() == base);
                assert(views(scope@).len() == scope@.len());
            }
            let ghost grown = scope@;
            scope.truncate(base);
            proof {
                assert forall|i: int| 0 <= i < base implies views(scope@)[i] == w0.scope[i] by {
                    assert(scope@[i] == grown[i]);
                    assert(views(grown)[i] == grown[i]@);
                    assert(views(grown).take(base as int)[i] == views(grown)[i]);
                }
                assert(views(scope@) =~= w0.scope);
            }
        },
    }
}

fn check_stmts(v: &Vec<Stmt>, scope: &mut Vec<String>, unknown: &mut Vec<String>)
    ensures
        stand(final(scope)@, final(unknown)@) == walk_stmts(
            *v,
            v@.len(),
            stand(old(scope)@, old(unknown)@),
        ),
    decreases *v, 1nat,
{
    let ghost w0 = stand(scope@, unknown@);
    let mut i: usize = 0;
    while i < v.len()
        invariant
            i <= v@.len(),
            stand(scope@, unknown@) == walk_stmts(
                *v,
                i as nat,
                w0,
            ),
        decreases v@.len() - i,
    {
        check_stmt(&v[i], scope, unknown);
        i += 1;
    }
}

fn check_arms(v: &Vec<Arm>, scope: &mut Vec<String>, unknown: &mut Vec<String>)
    ensures
        stand(final(scope)@, final(unknown)@) == walk_arms(
            *v,
            v@.len(),
            stand(old(scope)@, old(unknown)@),
        ),
    decreases *v, 1nat,
{
    let ghost w0 = stand(scope@, unknown@);
    let mut i: usize = 0;
    while i < v.len()
        invariant
            i <= v@.len(),
            stand(scope@, unknown@) == walk_arms(*v, i as nat, w0),
        decreases v@.len() - i,
    {
        let arm = &v[i];
        check_exprs(&arm.patterns, scope, unknown);
        check_stmts(&arm.body, scope, unknown);
        i += 1;
    }
}

proof fn text_rank_is(s: Seq<Seq<char>>, x: Seq<char>, r: int)
    requires
        0 <= r <= s.len(),
        forall|j: int| 0 <= j < r ==> text_before(#[trigger] s[j], x),
        r < s.len() ==> !text_before(s[r], x),
    ensures
        text_rank(s, x) == r,
    decreases s.len(),
{
    if r > 0 {
        let t = s.subrange(1, s.len() as int);
        assert(text_before(s[0], x));
        assert forall|j: int| 0 <= j < r - 1 implies text_before(#[trigger] t[j], x) by {
            assert(t[j] == s[j + 1]);
        }
        if r < s.len() {
            assert(t[r - 1] == s[r]);
        }
        text_rank_is(t, x, r - 1);
    }
}

fn sort_texts(list: &Vec<String>) -> (r: Vec<String>)
    ensures
        views(r@) == sorted_texts(views(list@)),
{
    let ghost lv = views(list@);
    let mut out: Vec<String> = no_items();
    let mut k: usize = 0;
    while k < list.len()
        invariant
            k <= list@.len(),
            lv == views(list@),
            views(out@) == sorted_texts(lv.take(k as int)),
        decreases list@.len() - k,
    {
        proof {
            take_step(lv, k as int);
            assert(lv[k as int] == list@[k as int]@);
        }
        let ghost ov = views(out@);
        let mut r: usize = 0;
        while r < out.len() && comes_before(out[r].as_str(), list[k].as_str())
            invariant
                r <= out@.len(),
                k < list@.len(),
                ov == views(out@),
                forall|j: int| 0 <= j < r ==> text_before(#[trigger] ov[j], list@[k as int]@),
            decreases out@.len() - r,
        {
            assert(ov[r as int] == out@[r as int]@);
            r += 1;
        }
        proof {
            if r < out@.len() {
                assert(ov[r as int] == out@[r as int]@);
            }
            assert(ov.len() == out@.len());
            text_rank_is(ov, list@[k as int]@, r as int);
        }
        if !(r < out.len() && same(out[r].as_str(), list[k].as_str())) {
            let x = own(list[k].as_str());
            let ghost o0 = out@;
            out.insert(r, x);
            assert(views(out@) =~= views(o0).insert(r as int, x@));
        }
        k += 1;
    }
    assert(lv.take(k as int) =~= lv);
    out
}

/// Lists every name of a compiled filter that nothing introduced. The compiler
/// does not check names, so one that is left over would fail only when a route
/// is evaluated.
pub fn verify_vars(f: &Filter) -> (r: Vec<String>)
    ensures
        views(r@) == unknown_names(*f),
{
    let mut scope: Vec<String> = no_items();
    let mut unknown: Vec<String> = no_items();
    let ghost w0 = Walk { scope: Seq::empty(), unknown: Seq::empty() };
    let mut k: usize = 0;
    while k < f.functions.len()
        invariant
            k <= f.functions@.len(),
            w0 == (Walk { scope: Seq::empty(), unknown: Seq::empty() }),
            stand(scope@, unknown@) == walk_functions(
                f.functions@.take(k as int),
                w0,
            ),
        decreases f.functions@.len() - k,
    {
        proof {
            take_step(f.functions@, k as int);
        }
        let ghost before = views(scope@);
        let mut inner = own_list(&scope);
        append_views(&mut inner, own_list(&f.functions[k].params));
        check_stmts(&f.functions[k].body, &mut inner, &mut unknown);
        k += 1;
    }
    assert(f.functions@.take(k as int) =~= f.functions@);
    check_stmts(&f.body, &mut scope, &mut unknown);
    sort_texts(&unknown)
}

/// The captured filters of a configuration.
pub struct BirdFilterSource {
    /// Constants, in source order.
    pub defines: Vec<Named>,
    /// Functions, header and body.
    pub functions: Vec<Named>,
    /// Filters with the lines of their bodies.
    pub filters: Vec<NamedLines>,
    /// The entries of each ROA table.
    pub roa_tables: Vec<RoaTable>,
}

/// The same over text.
#[verifier::ext_equal]
pub struct SourceModel {
    pub defines: Seq<NamedModel>,
    pub functions: Seq<NamedModel>,
    pub filters: Seq<NamedLinesModel>,
    pub roa_tables: Seq<Seq<RoaModel>>,
}

impl View for BirdFilterSource {
    type V = SourceModel;

    open spec fn view(&self) -> SourceModel {
        SourceModel {
            defines: views(self.defines@),
            functions: views(self.functions@),
            filters: views(self.filters@),
            roa_tables: views(self.roa_tables@),
        }
    }
}

/// What a translation of this source knows.
pub open spec fn ctx_of(src: SourceModel) -> CtxModel {
    CtxModel { defines: src.defines, roa_tables: src.roa_tables.len() }
}

/// A function with its translation, if it has one.
pub struct FunctionDraft {
    pub name: String,
    pub decl: Option<String>,
    pub notes: Vec<String>,
}

/// The same over text.
#[verifier::ext_equal]
pub struct FunctionModel {
    pub name: Seq<char>,
    pub decl: Option<Seq<char>>,
    pub notes: Seq<Seq<char>>,
}

impl View for FunctionDraft {
    type V = FunctionModel;

    open spec fn view(&self) -> FunctionModel {
        FunctionModel {
            name: self.name@,
            decl: opt_view(self.decl),
            notes: views(self.notes@),
        }
    }
}

/// The notes of a function, each with the function's name before it.
pub open spec fn prefixed(name: Seq<char>, notes: Seq<Seq<char>>) -> Seq<Seq<char>> {
    notes.map_values(|n: Seq<char>| "function "@ + name + ": "@ + n)
}

/// A function with its translation.
pub open spec fn function_draft(f: NamedModel, c: CtxModel) -> FunctionModel {
    match function_translation(f.text, c) {
        Translated::Text(t) => FunctionModel {
            name: f.name,
            decl: Some(t),
            notes: Seq::empty(),
        },
        Translated::Notes(n) => FunctionModel {
            name: f.name,
            decl: None,
            notes: prefixed(f.name, n),
        },
    }
}

/// The functions with their translations.
pub open spec fn function_drafts(fs: Seq<NamedModel>, c: CtxModel) -> Seq<FunctionModel> {
    fs.map_values(|f: NamedModel| function_draft(f, c))
}

/// The names of functions.
pub open spec fn names_of(fs: Seq<FunctionModel>) -> Seq<Seq<char>> {
    fs.map_values(|f: FunctionModel| f.name)
}

/// The translation of the first translated function called `name`.
pub open spec fn decl_of(fs: Seq<FunctionModel>, name: Seq<char>) -> Option<Seq<char>>
    decreases fs.len(),
{
    if fs.len() == 0 {
        None
    } else if fs[0].name == name && fs[0].decl is Some {
        fs[0].decl
    } else {
        decl_of(fs.subrange(1, fs.len() as int), name)
    }
}

/// Whether a function called `name` could not be translated.
pub open spec fn failed_function(fs: Seq<FunctionModel>, name: Seq<char>) -> bool {
    exists|i: int| 0 <= i < fs.len() && (#[trigger] fs[i]).name == name && fs[i].decl is None
}

/// The functions that `deps` adds to those still to be looked at.
pub open spec fn added(
    frontier: Seq<Seq<char>>,
    deps: Seq<Seq<char>>,
    needed: Seq<Seq<char>>,
) -> Seq<Seq<char>>
    decreases deps.len(),
{
    if deps.len() == 0 {
        frontier
    } else {
        let before = added(frontier, deps.drop_last(), needed);
        if needed.contains(deps.last()) {
            before
        } else {
            before.push(deps.last())
        }
    }
}

/// The functions needed, directly or through others, in the order they are
/// found; `limit` is how many there are.
pub open spec fn closure(
    fs: Seq<FunctionModel>,
    needed: Seq<Seq<char>>,
    frontier: Seq<Seq<char>>,
) -> Seq<Seq<char>>
    decreases fs.len() - needed.len(), frontier.len(),
{
    if frontier.len() == 0 || needed.len() >= fs.len() {
        needed
    } else {
        let f = frontier.last();
        if needed.contains(f) {
            closure(fs, needed, frontier.drop_last())
        } else {
            let more = needed.push(f);
            let deps = match decl_of(fs, f) {
                Some(text) => called(text, names_of(fs)),
                None => Seq::empty(),
            };
            closure(fs, more, added(frontier.drop_last(), deps, more))
        }
    }
}

/// The declarations of the needed functions, a line each.
pub open spec fn decls_text(fs: Seq<FunctionModel>, needed: Seq<Seq<char>>) -> Seq<char>
    decreases needed.len(),
{
    if needed.len() == 0 {
        Seq::empty()
    } else {
        decls_text(fs, needed.drop_last()) + (match decl_of(fs, needed.last()) {
            Some(d) => d,
            None => Seq::empty(),
        }) + "\n"@
    }
}

/// Whether a needed function could not be translated.
pub open spec fn blocked(fs: Seq<FunctionModel>, needed: Seq<Seq<char>>) -> bool {
    exists|i: int| 0 <= i < needed.len() && failed_function(fs, #[trigger] needed[i])
}

/// A filter before it meets the compiler: its text, or why there is none.
pub open spec fn filter_draft(
    f: NamedLinesModel,
    fs: Seq<FunctionModel>,
    c: CtxModel,
) -> Translated {
    let body = joined_by(f.lines, "\n"@);
    let needed = closure(fs, Seq::empty(), called(body, names_of(fs)));
    if blocked(fs, needed) {
        Translated::Notes(seq!["filter calls a function that has no faithful lr translation"@])
    } else {
        match body_translation(body, c) {
            Translated::Text(t) => Translated::Text(decls_text(fs, needed) + t),
            Translated::Notes(n) => Translated::Notes(n),
        }
    }
}

/// A filter before it meets the compiler.
pub struct FilterDraft {
    pub name: String,
    pub draft: Result<String, Vec<String>>,
}

/// The same over text.
pub struct DraftModel {
    pub name: Seq<char>,
    pub draft: Translated,
}

impl View for FilterDraft {
    type V = DraftModel;

    open spec fn view(&self) -> DraftModel {
        DraftModel { name: self.name@, draft: translated_view(self.draft) }
    }
}

/// Every filter of a source before it meets the compiler.
pub open spec fn drafts_of(src: SourceModel) -> Seq<DraftModel> {
    let fs = function_drafts(src.functions, ctx_of(src));
    src.filters.map_values(
        |f: NamedLinesModel|
            DraftModel { name: f.name, draft: filter_draft(f, fs, ctx_of(src)) },
    )
}

fn make_ctx(src: &BirdFilterSource) -> (c: Ctx)
    ensures
        c@ == ctx_of(src@),
{
    let mut defines: Vec<Named> = no_items();
    let ghost dv = views(src.defines@);
    let mut i: usize = 0;
    while i < src.defines.len()
        invariant
            i <= src.defines@.len(),
            dv == views(src.defines@),
            views(defines@) == dv.take(i as int),
        decreases src.defines@.len() - i,
    {
        let n = Named {
            name: own(src.defines[i].name.as_str()),
            text: own(src.defines[i].text.as_str()),
        };
        push_view(&mut defines, n);
        i += 1;
        assert(views(defines@) =~= dv.take(i as int));
    }
    assert(dv.take(i as int) =~= dv);
    assert(views(src.roa_tables@).len() == src.roa_tables@.len());
    Ctx { defines, roa_tables: src.roa_tables.len() }
}

fn draft_function(f: &Named, c: &Ctx) -> (d: FunctionDraft)
    ensures
        d@ == function_draft(f@, c@),
{
    match translate_function(f.text.as_str(), c) {
        Ok(t) => FunctionDraft { name: own(f.name.as_str()), decl: Some(t), notes: no_items() },
        Err(n) => {
            let ghost nv = views(n@);
            let mut notes: Vec<String> = no_items();
            let mut i: usize = 0;
            assert(prefixed(f.name@, nv.take(0)) =~= Seq::empty());
            while i < n.len()
                invariant
                    i <= n@.len(),
                    nv == views(n@),
                    views(notes@) == prefixed(f.name@, nv.take(i as int)),
                decreases n@.len() - i,
            {
                let mut s = own("function ");
                s.append(f.name.as_str());
                s.append(": ");
                s.append(n[i].as_str());
                push_view(&mut notes, s);
                i += 1;
                assert(views(notes@) =~= prefixed(f.name@, nv.take(i as int)));
            }
            assert(nv.take(i as int) =~= nv);
            FunctionDraft { name: own(f.name.as_str()), decl: None, notes }
        },
    }
}

fn find_decl(fs: &Vec<FunctionDraft>, name: &str) -> (r: Option<String>)
    ensures
        opt_view(r) == decl_of(views(fs@), name@),
{
    let ghost fv = views(fs@);
    let mut i: usize = 0;
    assert(fv.subrange(0, fv.len() as int) =~= fv);
    while i < fs.len()
        invariant
            i <= fs@.len(),
            fv == views(fs@),
            decl_of(fv, name@) == decl_of(fv.subrange(i as int, fv.len() as int), name@),
        decreases fs@.len() - i,
    {
        let ghost t = fv.subrange(i as int, fv.len() as int);
        assert(t[0] == fs@[i as int]@);
        if same(fs[i].name.as_str(), name) {
            match &fs[i].decl {
                Some(d) => {
                    return Some(own(d.as_str()));
                },
                None => {},
            }
        }
        i += 1;
        assert(t.subrange(1, t.len() as int) =~= fv.subrange(i as int, fv.len() as int));
    }
    None
}

fn is_failed(fs: &Vec<FunctionDraft>, name: &str) -> (b: bool)
    ensures
        b == failed_function(views(fs@), name@),
{
    let ghost fv = views(fs@);
    let mut i: usize = 0;
    while i < fs.len()
        invariant
            i <= fs@.len(),
            fv == views(fs@),
            forall|k: int| 0 <= k < i ==> !((#[trigger] fv[k]).name == name@ && fv[k].decl is None),
        decreases fs@.len() - i,
    {
        assert(fv[i as int] == fs@[i as int]@);
        if same(fs[i].name.as_str(), name) && fs[i].decl.is_none() {
            return true;
        }
        i += 1;
    }
    false
}

fn add_deps(frontier: &mut Vec<String>, deps: &Vec<String>, needed: &Vec<String>)
    ensures
        views(final(frontier)@) == added(views(old(frontier)@), views(deps@), views(needed@)),
{
    let ghost dv = views(deps@);
    let mut i: usize = 0;
    while i < deps.len()
        invariant
            i <= deps@.len(),
            dv == views(deps@),
            views(frontier@) == added(views(old(frontier)@), dv.take(i as int), views(needed@)),
        decreases deps@.len() - i,
    {
        proof {
            take_step(dv, i as int);
        }
        if !lists_text(needed, deps[i].as_str()) {
            push_view(frontier, own(deps[i].as_str()));
        }
        i += 1;
    }
    assert(dv.take(i as int) =~= dv);
}

fn collect_needed(fs: &Vec<FunctionDraft>, names: &Vec<String>, first: Vec<String>) -> (r: Vec<
    String,
>)
    requires
        views(names@) == names_of(views(fs@)),
    ensures
        views(r@) == closure(views(fs@), Seq::empty(), views(first@)),
{
    let ghost fv = views(fs@);
    let ghost f0 = views(first@);
    let mut needed: Vec<String> = no_items();
    let mut frontier = first;
    while frontier.len() > 0 && needed.len() < fs.len()
        invariant
            fv == views(fs@),
            views(names@) == names_of(fv),
            closure(fv, Seq::empty(), f0) == closure(fv, views(needed@), views(frontier@)),
        decreases fs@.len() - needed@.len(), frontier@.len(),
    {
        let ghost fr = views(frontier@);
        let ghost fr_exec = frontier@;
        proof {
            assert(fr.len() == frontier@.len());
            assert(views(needed@).len() == needed@.len());
            assert(fv.len() == fs@.len());
            assert(fr.last() == frontier@.last()@);
        }
        let top = frontier.pop();
        proof {
            assert forall|i: int| 0 <= i < fr.len() - 1 implies views(frontier@)[i] == fr[i] by {
                assert(frontier@[i] == fr_exec[i]);
            }
            assert(views(frontier@) =~= fr.drop_last());
        }
        match top {
            Some(f) => {
                if !lists_text(&needed, f.as_str()) {
                    let d = find_decl(fs, f.as_str());
                    let ghost needed0 = views(needed@);
                    let ghost fname = f@;
                    push_view(&mut needed, f);
                    assert(views(needed@).len() == needed@.len());
                    match d {
                        Some(text) => {
                            let deps = called_functions(text.as_str(), names);
                            add_deps(&mut frontier, &deps, &needed);
                        },
                        None => {
                            assert(added(
                                fr.drop_last(),
                                Seq::empty(),
                                views(needed@),
                            ) == fr.drop_last());
                        },
                    }
                }
            },
            None => {},
        }
    }
    proof {
        assert(views(frontier@).len() == frontier@.len());
        assert(views(needed@).len() == needed@.len());
        assert(fv.len() == fs@.len());
    }
    needed
}

fn draft_filter(f: &NamedLines, fs: &Vec<FunctionDraft>, names: &Vec<String>, c: &Ctx) -> (r:
    Result<String, Vec<String>>)
    requires
        views(names@) == names_of(views(fs@)),
    ensures
        translated_view(r) == filter_draft(f@, views(fs@), c@),
{
    let body = join(&f.lines, "\n");
    let first = called_functions(body.as_str(), names);
    let needed = collect_needed(fs, names, first);
    let ghost nv = views(needed@);
    let mut i: usize = 0;
    while i < needed.len()
        invariant
            i <= needed@.len(),
            nv == views(needed@),
            forall|k: int| 0 <= k < i ==> !failed_function(views(fs@), #[trigger] nv[k]),
            nv == closure(views(fs@), Seq::empty(), called(body@, names_of(views(fs@)))),
            body@ == joined_by(views(f.lines@), "\n"@),
        decreases needed@.len() - i,
    {
        assert(nv[i as int] == needed@[i as int]@);
        if is_failed(fs, needed[i].as_str()) {
            let mut notes: Vec<String> = no_items();
            push_view(
                &mut notes,
                own("filter calls a function that has no faithful lr translation"),
            );
            assert(views(notes@) =~= seq![
                "filter calls a function that has no faithful lr translation"@,
            ]);
            return Err(notes);
        }
        i += 1;
    }
    match translate_body(body.as_str(), c) {
        Ok(t) => {
            let mut full = String::new();
            assert(full@ =~= Seq::<char>::empty());
            let mut k: usize = 0;
            while k < needed.len()
                invariant
                    k <= needed@.len(),
                    nv == views(needed@),
                    full@ == decls_text(views(fs@), nv.take(k as int)),
                decreases needed@.len() - k,
            {
                proof {
                    take_step(nv, k as int);
                }
                let ghost before = full@;
                match find_decl(fs, needed[k].as_str()) {
                    Some(d) => {
                        full.append(d.as_str());
                    },
                    None => {
                        assert(before + Seq::<char>::empty() =~= before);
                    },
                }
                full.append("\n");
                k += 1;
            }
            assert(nv.take(k as int) =~= nv);
            full.append(t.as_str());
            Ok(full)
        },
        Err(n) => Err(n),
    }
}

fn draft_functions(src: &BirdFilterSource, c: &Ctx) -> (fs: Vec<FunctionDraft>)
    ensures
        views(fs@) == function_drafts(views(src.functions@), c@),
{
    let ghost sv = views(src.functions@);
    let mut fs: Vec<FunctionDraft> = no_items();
    let mut i: usize = 0;
    assert(function_drafts(sv.take(0), c@) =~= Seq::empty());
    while i < src.functions.len()
        invariant
            i <= src.functions@.len(),
            sv == views(src.functions@),
            views(fs@) == function_drafts(sv.take(i as int), c@),
        decreases src.functions@.len() - i,
    {
        push_view(&mut fs, draft_function(&src.functions[i], c));
        i += 1;
        assert(views(fs@) =~= function_drafts(sv.take(i as int), c@));
    }
    assert(sv.take(i as int) =~= sv);
    fs
}

fn function_names(fs: &Vec<FunctionDraft>) -> (names: Vec<String>)
    ensures
        views(names@) == names_of(views(fs@)),
{
    let ghost fv = views(fs@);
    let mut names: Vec<String> = no_items();
    let mut i: usize = 0;
    assert(names_of(fv.take(0)) =~= Seq::empty());
    while i < fs.len()
        invariant
            i <= fs@.len(),
            fv == views(fs@),
            views(names@) == names_of(fv.take(i as int)),
        decreases fs@.len() - i,
    {
        push_view(&mut names, own(fs[i].name.as_str()));
        i += 1;
        assert(views(names@) =~= names_of(fv.take(i as int)));
    }
    assert(fv.take(i as int) =~= fv);
    names
}

/// Translates every filter of a source, as far as that needs no compiler.
pub fn draft_filters(src: &BirdFilterSource) -> (r: Vec<FilterDraft>)
    ensures
        views(r@) == drafts_of(src@),
{
    let c = make_ctx(src);
    let fs = draft_functions(src, &c);
    let names = function_names(&fs);
    let ghost sv = views(src.filters@);
    let ghost want = drafts_of(src@);
    let mut out: Vec<FilterDraft> = no_items();
    let mut i: usize = 0;
    while i < src.filters.len()
        invariant
            i <= src.filters@.len(),
            sv == views(src.filters@),
            sv == src@.filters,
            want == drafts_of(src@),
            c@ == ctx_of(src@),
            views(fs@) == function_drafts(src@.functions, ctx_of(src@)),
            views(names@) == names_of(views(fs@)),
            views(out@) == want.take(i as int),
        decreases src.filters@.len() - i,
    {
        let draft = draft_filter(&src.filters[i], &fs, &names, &c);
        let d = FilterDraft { name: own(src.filters[i].name.as_str()), draft };
        assert(d@ == want[i as int]);
        push_view(&mut out, d);
        i += 1;
        assert(views(out@) =~= want.take(i as int));
    }
    assert(want.take(i as int) =~= want);
    out
}

/// What the filter compiler said of a body.
pub enum CompileOutcome {
    /// It does not compile; why.
    Broken(String),
    /// It compiles to this.
    Parsed(Filter),
}

/// Translated filters, and those that could not be translated.
pub struct TranslatedFilters {
    pub ok: Vec<Named>,
    pub failed: Vec<NamedLines>,
}

/// The same over text.
#[verifier::ext_equal]
pub struct FiltersModel {
    pub ok: Seq<NamedModel>,
    pub failed: Seq<NamedLinesModel>,
}

impl View for TranslatedFilters {
    type V = FiltersModel;

    open spec fn view(&self) -> FiltersModel {
        FiltersModel { ok: views(self.ok@), failed: views(self.failed@) }
    }
}

/// The functions that could not be translated, with their notes.
pub open spec fn failed_of(fs: Seq<FunctionModel>) -> Seq<NamedLinesModel>
    decreases fs.len(),
{
    if fs.len() == 0 {
        Seq::empty()
    } else {
        let before = failed_of(fs.drop_last());
        if fs.last().decl is None {
            before.push(NamedLinesModel { name: fs.last().name, lines: fs.last().notes })
        } else {
            before
        }
    }
}

/// The notes on a draft that the compiler refused.
pub open spec fn broken_notes(message: Seq<char>) -> Seq<Seq<char>> {
    seq!["translated body does not compile in the lr filter DSL: "@ + message]
}

/// The filters after one more met the compiler. A filter is emitted only if it
/// was translated, compiles, and uses no name that nothing introduced.
pub open spec fn settle_one(f: FiltersModel, d: DraftModel, o: CompileOutcome) -> FiltersModel {
    match d.draft {
        Translated::Notes(n) => FiltersModel {
            failed: f.failed.push(NamedLinesModel { name: d.name, lines: n }),
            ..f
        },
        Translated::Text(t) => match o {
            CompileOutcome::Broken(m) => FiltersModel {
                failed: f.failed.push(
                    NamedLinesModel { name: d.name, lines: broken_notes(m@) },
                ),
                ..f
            },
            CompileOutcome::Parsed(ast) => if unknown_names(ast).len() == 0 {
                FiltersModel { ok: f.ok.push(NamedModel { name: d.name, text: t }), ..f }
            } else {
                FiltersModel {
                    failed: f.failed.push(
                        NamedLinesModel { name: d.name, lines: unknown_names(ast) },
                    ),
                    ..f
                }
            },
        },
    }
}

/// The filters after all met the compiler.
pub open spec fn settle_all(
    f: FiltersModel,
    ds: Seq<DraftModel>,
    os: Seq<CompileOutcome>,
) -> FiltersModel
    decreases ds.len(),
{
    if ds.len() == 0 || os.len() != ds.len() {
        f
    } else {
        settle_one(settle_all(f, ds.drop_last(), os.drop_last()), ds.last(), os.last())
    }
}

/// The translated filters of a source: functions that failed are reported
/// first, then the filters in order.
pub open spec fn filters_of(src: SourceModel, os: Seq<CompileOutcome>) -> FiltersModel {
    settle_all(
        FiltersModel {
            ok: Seq::empty(),
            failed: failed_of(function_drafts(src.functions, ctx_of(src))),
        },
        drafts_of(src),
        os,
    )
}

/// Every emitted filter came out of a draft without notes, whose body compiled
/// and used no unknown name.
pub proof fn emitted_filters_are_sound(
    f: FiltersModel,
    ds: Seq<DraftModel>,
    os: Seq<CompileOutcome>,
    i: int,
)
    requires
        os.len() == ds.len(),
        f.ok.len() == 0,
        0 <= i < settle_all(f, ds, os).ok.len(),
    ensures
        exists|k: int|
            0 <= k < ds.len() && (#[trigger] ds[k]).draft == Translated::Text(
                settle_all(f, ds, os).ok[i].text,
            ) && ds[k].name == settle_all(f, ds, os).ok[i].name && (os[k] matches CompileOutcome::Parsed(
                ast,
            ) && unknown_names(ast).len() == 0),
    decreases ds.len(),
{
    if ds.len() > 0 {
        let d0 = ds.drop_last();
        let o0 = os.drop_last();
        let before = settle_all(f, d0, o0);
        if i < before.ok.len() {
            emitted_filters_are_sound(f, d0, o0, i);
            let k = choose|k: int|
                0 <= k < d0.len() && (#[trigger] d0[k]).draft == Translated::Text(
                    before.ok[i].text,
                ) && d0[k].name == before.ok[i].name && (o0[k] matches CompileOutcome::Parsed(ast)
                    && unknown_names(ast).len() == 0);
            assert(ds[k] == d0[k]);
            assert(os[k] == o0[k]);
        } else {
            let k = ds.len() - 1;
            assert(ds[k] == ds.last());
            assert(os[k] == os.last());
        }
    }
}

/// Settles the drafts of a source with the compiler's answers, one per draft.
pub fn settle_filters(
    src: &BirdFilterSource,
    drafts: Vec<FilterDraft>,
    outcomes: &Vec<CompileOutcome>,
) -> (r: TranslatedFilters)
    requires
        views(drafts@) == drafts_of(src@),
        outcomes@.len() == drafts@.len(),
    ensures
        r@ == filters_of(src@, outcomes@),
{
    let c = make_ctx(src);
    let fs = draft_functions(src, &c);
    let ghost fv = views(fs@);
    let mut ok: Vec<Named> = no_items();
    let mut failed: Vec<NamedLines> = no_items();
    let mut i: usize = 0;
    while i < fs.len()
        invariant
            i <= fs@.len(),
            fv == views(fs@),
            views(failed@) == failed_of(fv.take(i as int)),
        decreases fs@.len() - i,
    {
        proof {
            take_step(fv, i as int);
        }
        if fs[i].decl.is_none() {
            let row = NamedLines {
                name: own(fs[i].name.as_str()),
                lines: own_list(&fs[i].notes),
            };
            push_view(&mut failed, row);
        }
        i += 1;
    }
    assert(fv.take(i as int) =~= fv);
    let ghost start = FiltersModel { ok: Seq::empty(), failed: views(failed@) };
    let ghost ds = views(drafts@);
    let ghost os = outcomes@;
    let mut out = TranslatedFilters { ok, failed };
    let mut k: usize = 0;
    assert(os.take(0) =~= Seq::empty());
    while k < drafts.len()
        invariant
            k <= drafts@.len(),
            ds == views(drafts@),
            os == outcomes@,
            outcomes@.len() == drafts@.len(),
            out@ == settle_all(start, ds.take(k as int), os.take(k as int)),
        decreases drafts@.len() - k,
    {
        proof {
            take_step(ds, k as int);
            take_step(os, k as int);
        }
        settle_draft(&mut out, &drafts[k], &outcomes[k]);
        k += 1;
    }
    assert(ds.take(k as int) =~= ds);
    assert(os.take(k as int) =~= os);
    out
}

fn settle_draft(out: &mut TranslatedFilters, d: &FilterDraft, o: &CompileOutcome)
    ensures
        final(out)@ == settle_one(old(out)@, d@, *o),
{
    let name = own(d.name.as_str());
    match &d.draft {
        Err(n) => {
            push_view(&mut out.failed, NamedLines { name, lines: own_list(n) });
        },
        Ok(t) => {
            match o {
                CompileOutcome::Broken(m) => {
                    let mut lines: Vec<String> = no_items();
                    push_view(
                        &mut lines,
                        cat(
                            "translated body does not compile in the lr filter DSL: ",
                            m.as_str(),
                        ),
                    );
                    assert(views(lines@) =~= broken_notes(m@));
                    push_view(&mut out.failed, NamedLines { name, lines });
                },
                CompileOutcome::Parsed(ast) => {
                    let unknown = verify_vars(ast);
                    assert(views(unknown@).len() == unknown@.len());
                    if unknown.len() == 0 {
                        push_view(&mut out.ok, Named { name, text: own(t.as_str()) });
                    } else {
                        push_view(&mut out.failed, NamedLines { name, lines: unknown });
                    }
                },
            }
        },
    }
}

/// The rows of every ROA table, in order.
pub open spec fn all_roas(tables: Seq<Seq<RoaModel>>) -> Seq<RoaModel>
    decreases tables.len(),
{
    if tables.len() == 0 {
        Seq::empty()
    } else {
        all_roas(tables.drop_last()) + tables.last()
    }
}

/// Collects the rows of every ROA table.
pub fn collect_roas(src: &BirdFilterSource) -> (r: Vec<RoaRow>)
    ensures
        views(r@) == all_roas(src@.roa_tables),
{
    let ghost tv = views(src.roa_tables@);
    let mut out: Vec<RoaRow> = no_items();
    let mut i: usize = 0;
    while i < src.roa_tables.len()
        invariant
            i <= src.roa_tables@.len(),
            tv == views(src.roa_tables@),
            views(out@) == all_roas(tv.take(i as int)),
        decreases src.roa_tables@.len() - i,
    {
        proof {
            take_step(tv, i as int);
        }
        let rows = &src.roa_tables[i].rows;
        let ghost rv = views(rows@);
        let ghost before = views(out@);
        let mut k: usize = 0;
        assert(before + rv.take(0) =~= before);
        while k < rows.len()
            invariant
                k <= rows@.len(),
                rv == views(rows@),
                views(out@) == before + rv.take(k as int),
            decreases rows@.len() - k,
        {
            let row = RoaRow {
                prefix: own(rows[k].prefix.as_str()),
                max_length: rows[k].max_length,
                asn: rows[k].asn,
            };
            push_view(&mut out, row);
            k += 1;
            assert(views(out@) =~= before + rv.take(k as int));
        }
        assert(rv.take(k as int) =~= rv);
        i += 1;
    }
    assert(tv.take(i as int) =~= tv);
    out
}

/// The body of an `import where` or `export where` clause: routes for which
/// the expression holds are accepted, all others rejected.
pub open spec fn where_draft(expr: Seq<char>, c: CtxModel) -> Translated {
    match body_translation(expr, c) {
        Translated::Text(t) => Translated::Text("if "@ + t + " then accept;\nreject;"@),
        Translated::Notes(n) => Translated::Notes(n),
    }
}

/// Translates a `where` expression, as far as that needs no compiler.
pub fn draft_where(expr: &str, src: &BirdFilterSource) -> (r: Result<String, Vec<String>>)
    ensures
        translated_view(r) == where_draft(expr@, ctx_of(src@)),
{
    let c = make_ctx(src);
    match translate_body(expr, &c) {
        Ok(t) => {
            let mut s = own("if ");
            s.append(t.as_str());
            s.append(" then accept;\nreject;");
            Ok(s)
        },
        Err(n) => Err(n),
    }
}

/// What the compiler's answer leaves of a `where` body.
pub open spec fn where_result(d: Translated, o: CompileOutcome) -> Translated {
    match d {
        Translated::Notes(n) => Translated::Notes(n),
        Translated::Text(t) => match o {
            CompileOutcome::Parsed(_) => Translated::Text(t),
            CompileOutcome::Broken(m) => Translated::Notes(
                seq![
                    "translated `where` expression does not compile in the lr filter DSL: "@ + m@,
                ],
            ),
        },
    }
}

/// Settles a `where` body with the compiler's answer.
pub fn settle_where(d: Result<String, Vec<String>>, o: &CompileOutcome) -> (r: Result<
    String,
    Vec<String>,
>)
    ensures
        translated_view(r) == where_result(translated_view(d), *o),
{
    match d {
        Err(n) => Err(n),
        Ok(t) => match o {
            CompileOutcome::Parsed(_) => Ok(t),
            CompileOutcome::Broken(m) => {
                let mut notes: Vec<String> = no_items();
                push_view(
                    &mut notes,
                    cat(
                        "translated `where` expression does not compile in the lr filter DSL: ",
                        m.as_str(),
                    ),
                );
                assert(views(notes@) =~= seq![
                    "translated `where` expression does not compile in the lr filter DSL: "@ + m@,
                ]);
                Err(notes)
            },
        },
    }
}

} // verus!
