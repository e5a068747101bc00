//! Code generation from expanded S-expressions to a list of IR instructions.
//!
//! A symbol loads by name, `(load-sym x)`; another atom is a constant,
//! `(load-const a)`. A list is tried as each of these forms in turn:
//! - `(cond [test body] ...)`: each test and body is generated in turn; a
//!   clause yields the test's code, `(dyn-cast builtin.bool)`,
//!   `(if-false-jump L)`, the body's code, `(jump END)` and `(:label L)`,
//!   and the code of the form is that of its last clause, followed by
//!   `(built-exception-throw "Conditional branch is not captured")` and
//!   `(:label END)`; `END` and each `L` are fresh labels;
//! - `(begin e ...)`: the code of the first expression;
//! - `(lambda (var ...) body ...)`: registers a function with a fresh name;
//! - `(function name (var ...) body ...)`: registers the function `name`.
//! Generation leaves the context it is given as it is: it returns, beside
//! the code, a new context that holds the functions registered.
//! The forms are recognised by matching patterns (see `matching`), whose
//! keywords are quoted; an expression outside the matcher's domain, or a list
//! that is none of these forms, lies outside the generator's domain.
use vstd::prelude::*;
use crate::context::{
    Atom, AtomModel, BuiltinType, CompileError, FunctionDefine, FunctionModel, Name,
    RuntimeContext, SExpr, SExprModel, TypeExpr, TypeModel, builtin_accepts, lemma_atom_view,
    lemma_list_view, lemma_models, lemma_view_shape, models, names_of, sym, sym_model,
};
use crate::matching::{
    MatchResult, dyn_match_checked, ellipsis_name, match_outcome, lemma_match_bounded, lemma_quote_literal, quote_name, size,
    spec_dyn_match,
};
use crate::utils::{UniqueID, next_count, next_name, unique_name};

verus! {

// ----- specification -----

/// What code generation knows and changes: the label counter and the functions.
pub struct GenState {
    pub labels: u32,
    pub functions: Map<Seq<char>, FunctionModel>,
}

/// The state after taking one fresh label.
pub open spec fn bump(st: GenState) -> GenState {
    GenState { labels: next_count(st.labels), functions: st.functions }
}

/// The list of the models `items`.
pub open spec fn list_model(items: Seq<SExprModel>) -> SExprModel {
    SExprModel::List(items)
}

/// The form `(head x)`.
pub open spec fn form(head: Seq<char>, x: SExprModel) -> SExprModel {
    SExprModel::List(seq![sym_model(head), x])
}

/// The pattern `(quote k)`, which matches the symbol `k` only.
pub open spec fn keyword(k: Seq<char>) -> SExprModel {
    form(quote_name(), sym_model(k))
}

/// The pattern of `cond`: `('cond [boolexpr expr] ...)`.
pub open spec fn cond_pattern_model() -> SExprModel {
    list_model(
        seq![
            keyword("cond"@),
            list_model(seq![sym_model("boolexpr"@), sym_model("expr"@)]),
            sym_model(ellipsis_name()),
        ],
    )
}

/// The pattern of `begin`: `('begin expr ...)`.
pub open spec fn begin_pattern_model() -> SExprModel {
    list_model(seq![keyword("begin"@), sym_model("expr"@), sym_model(ellipsis_name())])
}

/// The pattern of `lambda`: `('lambda (var ...) body ...)`.
pub open spec fn lambda_pattern_model() -> SExprModel {
    list_model(
        seq![
            keyword("lambda"@),
            list_model(seq![sym_model("var"@), sym_model(ellipsis_name())]),
            sym_model("body"@),
            sym_model(ellipsis_name()),
        ],
    )
}

/// The pattern of `function`: `('function name (var ...) body ...)`.
pub open spec fn function_pattern_model() -> SExprModel {
    list_model(
        seq![
            keyword("function"@),
            sym_model("name"@),
            list_model(seq![sym_model("var"@), sym_model(ellipsis_name())]),
            sym_model("body"@),
            sym_model(ellipsis_name()),
        ],
    )
}

/// `(dyn-cast builtin.bool)`.
pub open spec fn dyn_cast_model() -> SExprModel {
    form("dyn-cast"@, sym_model("builtin.bool"@))
}

/// `(built-exception-throw "Conditional branch is not captured")`.
pub open spec fn throw_model() -> SExprModel {
    form(
        "built-exception-throw"@,
        SExprModel::Atom(AtomModel::Str("Conditional branch is not captured"@)),
    )
}

/// The code of one `cond` clause: the test's code, then a jump past the body
/// when the test is false, the body's code, a jump to the end and the label.
pub open spec fn clause_code(
    test: Seq<SExprModel>,
    body: Seq<SExprModel>,
    label: Seq<char>,
    end_label: Seq<char>,
) -> Seq<SExprModel> {
    test + seq![dyn_cast_model(), form("if-false-jump"@, sym_model(label))] + body + seq![
        form("jump"@, sym_model(end_label)),
        form(":label"@, sym_model(label)),
    ]
}

/// Every expression of `vars` is a symbol.
pub open spec fn all_syms(vars: Seq<SExprModel>) -> bool {
    forall|i: int| 0 <= i < vars.len() ==> (#[trigger] vars[i] is Atom && vars[i]->Atom_0 is Sym)
}

/// The names of the symbols `vars`.
pub open spec fn sym_names(vars: Seq<SExprModel>) -> Seq<Seq<char>> {
    vars.map_values(|v: SExprModel| v->Atom_0->Sym_0)
}

/// The outcome of generating code for `e` in state `st`: `None` outside the
/// generator's domain.
pub open spec fn spec_base_codegen(st: GenState, e: SExprModel) -> Option<
    (GenState, Seq<SExprModel>),
>
    decreases size(e), 2int, 0int,
{
    match e {
        SExprModel::Atom(AtomModel::Sym(_)) => Some((st, seq![form("load-sym"@, e)])),
        SExprModel::Atom(_) => Some((st, seq![form("load-const"@, e)])),
        SExprModel::List(_) => match spec_cond_codegen(st, e) {
            None => None,
            Some(Ok(r)) => Some(r),
            Some(Err(_)) => match spec_begin_codegen(st, e) {
                None => None,
                Some(Ok(r)) => Some(r),
                Some(Err(_)) => match spec_lambda_codegen(st, e) {
                    None => None,
                    Some(Ok(r)) => Some(r),
                    Some(Err(_)) => match spec_function_codegen(st, e) {
                        None => None,
                        Some(Ok(r)) => Some(r),
                        Some(Err(_)) => None,
                    },
                },
            },
        },
    }
}

/// The code of the expressions `items` in turn, each smaller than `b`.
pub open spec fn spec_vec_codegen(st: GenState, items: Seq<SExprModel>, b: nat) -> Option<
    (GenState, Seq<SExprModel>),
>
    decreases b, 0int, items.len(),
{
    if items.len() == 0 {
        Some((st, Seq::empty()))
    } else if size(items[0]) >= b {
        None
    } else {
        match spec_base_codegen(st, items[0]) {
            None => None,
            Some((st1, c1)) => match spec_vec_codegen(st1, items.drop_first(), b) {
                None => None,
                Some((st2, c2)) => Some((st2, c1 + c2)),
            },
        }
    }
}

/// The state and code after one `cond` clause: the test's and the body's code
/// (each smaller than `b`), then a fresh label.
pub open spec fn spec_cond_step(
    st: GenState,
    test: SExprModel,
    body: SExprModel,
    end_label: Seq<char>,
    b: nat,
) -> Option<(GenState, Seq<SExprModel>)>
    decreases b, 0int, 0int,
{
    if size(test) >= b || size(body) >= b {
        None
    } else {
        match spec_base_codegen(st, test) {
            None => None,
            Some((st1, t)) => match spec_base_codegen(st1, body) {
                None => None,
                Some((st2, c)) => Some(
                    (bump(st2), clause_code(t, c, unique_name(st2.labels), end_label)),
                ),
            },
        }
    }
}

/// The code of the remaining `cond` clauses; each clause's code replaces `acc`.
pub open spec fn spec_cond_clauses(
    st: GenState,
    bs: Seq<SExprModel>,
    es: Seq<SExprModel>,
    end_label: Seq<char>,
    acc: Seq<SExprModel>,
    b: nat,
) -> Option<(GenState, Seq<SExprModel>)>
    decreases b, 0int, bs.len() + 1,
{
    if bs.len() == 0 || es.len() == 0 {
        Some((st, acc))
    } else {
        match spec_cond_step(st, bs[0], es[0], end_label, b) {
            None => None,
            Some((st3, code)) => spec_cond_clauses(
                st3,
                bs.drop_first(),
                es.drop_first(),
                end_label,
                code,
                b,
            ),
        }
    }
}

/// The code of a `cond` form from the outcome of its clauses.
pub open spec fn finish_cond(
    clauses: Option<(GenState, Seq<SExprModel>)>,
    end_label: Seq<char>,
) -> Option<Result<(GenState, Seq<SExprModel>), ()>> {
    match clauses {
        None => None,
        Some((st2, code)) => Some(
            Ok((st2, code + seq![throw_model(), form(":label"@, sym_model(end_label))])),
        ),
    }
}

/// `cond`: `Some(Err(()))` when `e` is not such a form.
pub open spec fn spec_cond_codegen(st: GenState, e: SExprModel) -> Option<
    Result<(GenState, Seq<SExprModel>), ()>,
>
    decreases size(e), 1int, 0int,
{
    match spec_dyn_match(cond_pattern_model(), e) {
        None => None,
        Some(Err(_)) => Some(Err(())),
        Some(Ok(rec)) => {
            if !(rec.seqs.contains_key("boolexpr"@) && rec.seqs.contains_key("expr"@)) {
                None
            } else {
                finish_cond(
                    spec_cond_clauses(
                        bump(st),
                        rec.seqs["boolexpr"@],
                        rec.seqs["expr"@],
                        unique_name(st.labels),
                        Seq::empty(),
                        size(e),
                    ),
                    unique_name(st.labels),
                )
            }
        },
    }
}

/// `begin`: `Some(Err(()))` when `e` is not such a form.
pub open spec fn spec_begin_codegen(st: GenState, e: SExprModel) -> Option<
    Result<(GenState, Seq<SExprModel>), ()>,
>
    decreases size(e), 1int, 0int,
{
    match spec_dyn_match(begin_pattern_model(), e) {
        None => None,
        Some(Err(_)) => Some(Err(())),
        Some(Ok(rec)) => {
            if !rec.seqs.contains_key("expr"@) || rec.seqs["expr"@].len() == 0 {
                None
            } else {
                match spec_vec_codegen(st, rec.seqs["expr"@].take(1), size(e)) {
                    None => None,
                    Some(r) => Some(Ok(r)),
                }
            }
        },
    }
}

/// The function that a `lambda` or `function` form defines.
pub open spec fn function_model(
    name: Seq<char>,
    vars: Seq<SExprModel>,
    code: Seq<SExprModel>,
) -> FunctionModel {
    FunctionModel { name, pure_flag: None, typeinfo: None, args: sym_names(vars), code }
}

/// `lambda`: `Some(Err(()))` when `e` is not such a form or a variable is not a symbol.
pub open spec fn spec_lambda_codegen(st: GenState, e: SExprModel) -> Option<
    Result<(GenState, Seq<SExprModel>), ()>,
>
    decreases size(e), 1int, 0int,
{
    match spec_dyn_match(lambda_pattern_model(), e) {
        None => None,
        Some(Err(_)) => Some(Err(())),
        Some(Ok(rec)) => {
            if !(rec.seqs.contains_key("var"@) && rec.seqs.contains_key("body"@)) {
                None
            } else if !all_syms(rec.seqs["var"@]) {
                Some(Err(()))
            } else {
                match spec_vec_codegen(st, rec.seqs["body"@], size(e)) {
                    None => None,
                    Some((st1, code)) => {
                        let name = unique_name(st1.labels);
                        Some(
                            Ok(
                                (
                                    GenState {
                                        labels: next_count(st1.labels),
                                        functions: st1.functions.insert(
                                            name,
                                            function_model(name, rec.seqs["var"@], code),
                                        ),
                                    },
                                    Seq::empty(),
                                ),
                            ),
                        )
                    },
                }
            }
        },
    }
}

/// `function`: `Some(Err(()))` when `e` is not such a form, or its name or a
/// variable is not a symbol.
pub open spec fn spec_function_codegen(st: GenState, e: SExprModel) -> Option<
    Result<(GenState, Seq<SExprModel>), ()>,
>
    decreases size(e), 1int, 0int,
{
    match spec_dyn_match(function_pattern_model(), e) {
        None => None,
        Some(Err(_)) => Some(Err(())),
        Some(Ok(rec)) => {
            if !rec.vars.contains_key("name"@) {
                None
            } else {
                match rec.vars["name"@] {
                    SExprModel::Atom(AtomModel::Sym(name)) => {
                        if !(rec.seqs.contains_key("var"@) && rec.seqs.contains_key("body"@)) {
                            None
                        } else if !all_syms(rec.seqs["var"@]) {
                            Some(Err(()))
                        } else {
                            match spec_vec_codegen(st, rec.seqs["body"@], size(e)) {
                                None => None,
                                Some((st1, code)) => Some(
                                    Ok(
                                        (
                                            GenState {
                                                labels: st1.labels,
                                                functions: st1.functions.insert(
                                                    name,
                                                    function_model(name, rec.seqs["var"@], code),
                                                ),
                                            },
                                            Seq::empty(),
                                        ),
                                    ),
                                ),
                            }
                        }
                    },
                    _ => Some(Err(())),
                }
            }
        },
    }
}

// ----- relating the executable state -----

/// The generator state that `rc` and `labels` stand for.
pub open spec fn gen_state(rc: RuntimeContext, labels: UniqueID) -> GenState {
    GenState { labels: labels@, functions: rc.functions() }
}

/// A generation step ended as `expected` says: it returned a new context
/// with the expected functions and the types `types`, and the expected code.
pub open spec fn gen_matches(
    expected: Option<(GenState, Seq<SExprModel>)>,
    types: Map<Seq<char>, Map<Seq<char>, TypeModel>>,
    labels: UniqueID,
    r: Option<(RuntimeContext, Vec<SExpr>)>,
) -> bool {
    match expected {
        None => r is None,
        Some((st, code)) => r matches Some((c, v)) && c.wf() && c.types() == types && gen_state(
            c,
            labels,
        ) == st && models(v@) == code,
    }
}

/// An attempt at one form ended as `expected` says; a form that is not the
/// one attempted takes no label.
pub open spec fn attempt_matches(
    expected: Option<Result<(GenState, Seq<SExprModel>), ()>>,
    types: Map<Seq<char>, Map<Seq<char>, TypeModel>>,
    labels: UniqueID,
    old_labels: UniqueID,
    r: Option<Result<(RuntimeContext, Vec<SExpr>), CompileError>>,
) -> bool {
    match expected {
        None => r is None,
        Some(Err(_)) => r matches Some(Err(_)) && labels == old_labels,
        Some(Ok((st, code))) => r matches Some(Ok((c, v))) && c.wf() && c.types() == types
            && gen_state(c, labels) == st && models(v@) == code,
    }
}

// ----- type inference -----

/// The type inferred for an expression: every expression may be of any type.
pub fn weak_type_inference(_expr: &SExpr) -> (r: TypeExpr)
    ensures
        r == TypeExpr::Built(BuiltinType::Top),
{
    TypeExpr::Built(BuiltinType::Top)
}

/// Checks that `expr` may stand where `tp` is expected.
pub fn weak_type_check(expr: &SExpr, tp: &TypeExpr) -> (r: Result<TypeExpr, CompileError>)
    requires
        *tp is Built,
    ensures
        r == Ok::<TypeExpr, CompileError>(TypeExpr::Built(BuiltinType::Top)),
{
    let t = weak_type_inference(expr);
    match t.assert_type(tp) {
        Ok(x) => Ok(x),
        Err(e) => {
            proof {
                assert(builtin_accepts(BuiltinType::Top, tp->Built_0));
            }
            Err(e)
        },
    }
}

// ----- building forms -----

/// The list of `v`.
fn list_of(v: Vec<SExpr>) -> (r: SExpr)
    ensures
        r@ == list_model(models(v@)),
{
    proof {
        lemma_list_view(v);
    }
    SExpr::List(v)
}

/// The form `(head x)`.
fn make_form(head: &str, x: SExpr) -> (r: SExpr)
    ensures
        r@ == form(head@, x@),
{
    let ghost xm = x@;
    let mut v: Vec<SExpr> = Vec::new();
    v.push(sym(head));
    v.push(x);
    proof {
        lemma_models(v@);
        assert(models(v@) =~= seq![sym_model(head@), xm]);
    }
    list_of(v)
}

/// The form `(head label)`.
fn label_form(head: &str, label: String) -> (r: SExpr)
    ensures
        r@ == form(head@, sym_model(label@)),
{
    let a = Atom::Sym(label);
    proof {
        lemma_atom_view(a);
    }
    make_form(head, SExpr::Atom(a))
}

/// The pattern `(quote k)`.
fn keyword_pattern(k: &str) -> (r: SExpr)
    ensures
        r@ == keyword(k@),
{
    proof {
        lemma_quote_literal();
    }
    make_form("quote", sym(k))
}

/// The pattern `(a ...)`.
fn repeated(a: &str) -> (r: SExpr)
    ensures
        r@ == list_model(seq![sym_model(a@), sym_model(ellipsis_name())]),
{
    proof {
        lemma_quote_literal();
    }
    let mut v: Vec<SExpr> = Vec::new();
    v.push(sym(a));
    v.push(sym("..."));
    proof {
        lemma_models(v@);
        assert(models(v@) =~= seq![sym_model(a@), sym_model(ellipsis_name())]);
    }
    list_of(v)
}

/// The pattern of `cond`.
fn cond_match_pattern() -> (r: SExpr)
    ensures
        r@ == cond_pattern_model(),
{
    proof {
        lemma_quote_literal();
    }
    let mut clause: Vec<SExpr> = Vec::new();
    clause.push(sym("boolexpr"));
    clause.push(sym("expr"));
    proof {
        lemma_models(clause@);
        assert(models(clause@) =~= seq![sym_model("boolexpr"@), sym_model("expr"@)]);
    }
    let clause = list_of(clause);
    let mut v: Vec<SExpr> = Vec::new();
    let ghost cm = clause@;
    v.push(keyword_pattern("cond"));
    v.push(clause);
    v.push(sym("..."));
    proof {
        lemma_models(v@);
        assert(models(v@) =~= seq![keyword("cond"@), cm, sym_model(ellipsis_name())]);
    }
    list_of(v)
}

/// The pattern of `begin`.
fn begin_match_pattern() -> (r: SExpr)
    ensures
        r@ == begin_pattern_model(),
{
    proof {
        lemma_quote_literal();
    }
    let mut v: Vec<SExpr> = Vec::new();
    v.push(keyword_pattern("begin"));
    v.push(sym("expr"));
    v.push(sym("..."));
    proof {
        lemma_models(v@);
        assert(models(v@) =~= seq![
            keyword("begin"@),
            sym_model("expr"@),
            sym_model(ellipsis_name()),
        ]);
    }
    list_of(v)
}

/// The pattern of `lambda`.
fn lambda_match_pattern() -> (r: SExpr)
    ensures
        r@ == lambda_pattern_model(),
{
    proof {
        lemma_quote_literal();
    }
    let mut v: Vec<SExpr> = Vec::new();
    v.push(keyword_pattern("lambda"));
    v.push(repeated("var"));
    v.push(sym("body"));
    v.push(sym("..."));
    proof {
        lemma_models(v@);
        assert(models(v@) =~= seq![
            keyword("lambda"@),
            list_model(seq![sym_model("var"@), sym_model(ellipsis_name())]),
            sym_model("body"@),
            sym_model(ellipsis_name()),
        ]);
    }
    list_of(v)
}

/// The pattern of `function`.
fn function_match_pattern() -> (r: SExpr)
    ensures
        r@ == function_pattern_model(),
{
    proof {
        lemma_quote_literal();
    }
    let mut v: Vec<SExpr> = Vec::new();
    v.push(keyword_pattern("function"));
    v.push(sym("name"));
    v.push(repeated("var"));
    v.push(sym("body"));
    v.push(sym("..."));
    proof {
        lemma_models(v@);
        assert(models(v@) =~= seq![
            keyword("function"@),
            sym_model("name"@),
            list_model(seq![sym_model("var"@), sym_model(ellipsis_name())]),
            sym_model("body"@),
            sym_model(ellipsis_name()),
        ]);
    }
    list_of(v)
}

/// `(built-exception-throw "Conditional branch is not captured")`.
fn throw_form() -> (r: SExpr)
    ensures
        r@ == throw_model(),
{
    let a = Atom::Str(String::from_str("Conditional branch is not captured"));
    proof {
        lemma_atom_view(a);
    }
    make_form("built-exception-throw", SExpr::Atom(a))
}

// ----- generation -----

/// Matches `sexprs` against the pattern of `cond`.
fn cond_match(sexprs: &SExpr) -> (r: Option<MatchResult>)
    ensures
        match_outcome(r) == spec_dyn_match(cond_pattern_model(), sexprs@),
        r matches Some(Ok(m)) ==> m.wf(),
{
    dyn_match_checked(&cond_match_pattern(), sexprs)
}

/// Matches `sexprs` against the pattern of `begin`.
fn begin_match(sexprs: &SExpr) -> (r: Option<MatchResult>)
    ensures
        match_outcome(r) == spec_dyn_match(begin_pattern_model(), sexprs@),
        r matches Some(Ok(m)) ==> m.wf(),
{
    dyn_match_checked(&begin_match_pattern(), sexprs)
}

/// Matches `sexprs` against the pattern of `lambda`.
fn lambda_match(sexprs: &SExpr) -> (r: Option<MatchResult>)
    ensures
        match_outcome(r) == spec_dyn_match(lambda_pattern_model(), sexprs@),
        r matches Some(Ok(m)) ==> m.wf(),
{
    dyn_match_checked(&lambda_match_pattern(), sexprs)
}

/// Matches `sexprs` against the pattern of `function`.
fn function_match(sexprs: &SExpr) -> (r: Option<MatchResult>)
    ensures
        match_outcome(r) == spec_dyn_match(function_pattern_model(), sexprs@),
        r matches Some(Ok(m)) ==> m.wf(),
{
    dyn_match_checked(&function_match_pattern(), sexprs)
}

/// The names of the symbols `vars`, or an error if one is not a symbol.
fn var_names(vars: &Vec<SExpr>) -> (r: Result<Vec<Name>, CompileError>)
    ensures
        r is Ok <==> all_syms(models(vars@)),
        r matches Ok(ns) ==> names_of(ns@) == sym_names(models(vars@)),
{
    proof {
        lemma_models(vars@);
    }
    let mut out: Vec<Name> = Vec::new();
    let mut i: usize = 0;
    while i < vars.len()
        invariant
            models(vars@).len() == vars@.len(),
            forall|j: int| 0 <= j < vars@.len() ==> #[trigger] models(vars@)[j] == vars@[j]@,
            i <= vars@.len(),
            out@.len() == i,
            forall|j: int|
                #![trigger models(vars@)[j]]
                0 <= j < i ==> (models(vars@)[j] is Atom && models(vars@)[j]->Atom_0 is Sym
                    && out@[j]@ == models(vars@)[j]->Atom_0->Sym_0),
        decreases vars@.len() - i,
    {
        proof {
            lemma_view_shape(vars@[i as int]);
        }
        match &vars[i] {
            SExpr::Atom(Atom::Sym(x)) => {
                out.push(x.clone());
            },
            _ => {
                assert(!(models(vars@)[i as int] is Atom && models(vars@)[i as int]->Atom_0 is Sym));
                return Err(CompileError());
            },
        }
        i = i + 1;
    }
    assert(names_of(out@) =~= sym_names(models(vars@)));
    Ok(out)
}

/// The code of the expressions `input` in turn; `None` outside the
/// generator's domain.
fn vec_expr_codegen(
    rc: &RuntimeContext,
    labels: &mut UniqueID,
    input: &Vec<SExpr>,
    Ghost(b): Ghost<nat>,
) -> (r: Option<(RuntimeContext, Vec<SExpr>)>)
    requires
        rc.wf(),
        forall|i: int| 0 <= i < input@.len() ==> size(#[trigger] input@[i]@) < b,
    ensures
        gen_matches(
            spec_vec_codegen(gen_state(*rc, *old(labels)), models(input@), b),
            rc.types(),
            *final(labels),
            r,
        ),
    decreases b, 0nat, input@.len(),
{
    let ghost items = models(input@);
    let ghost st0 = gen_state(*rc, *labels);
    proof {
        lemma_models(input@);
    }
    let mut cur = rc.copy();
    let mut acc: Vec<SExpr> = Vec::new();
    let mut i: usize = 0;
    assert(items.skip(0) =~= items);
    assert(spec_vec_codegen(st0, items, b) == prepend_code(
        models(acc@),
        spec_vec_codegen(gen_state(cur, *labels), items.skip(0), b),
    )) by {
        lemma_models(acc@);
        match spec_vec_codegen(st0, items, b) {
            Some((st, c)) => {
                assert(Seq::<SExprModel>::empty() + c =~= c);
            },
            None => {},
        }
    }
    while i < input.len()
        invariant
            items == models(input@),
            items.len() == input@.len(),
            forall|j: int| 0 <= j < input@.len() ==> #[trigger] items[j] == input@[j]@,
            forall|j: int| 0 <= j < input@.len() ==> size(#[trigger] input@[j]@) < b,
            i <= input@.len(),
            rc.wf(),
            cur.wf(),
            cur.types() == rc.types(),
            st0 == gen_state(*rc, *old(labels)),
            spec_vec_codegen(st0, items, b) == prepend_code(
                models(acc@),
                spec_vec_codegen(gen_state(cur, *labels), items.skip(i as int), b),
            ),
        decreases input@.len() - i,
    {
        proof {
            assert(items.skip(i as int).drop_first() =~= items.skip(i + 1));
            assert(items.skip(i as int)[0] == input@[i as int]@);
            assert(size(input@[i as int]@) < b);
        }
        let (next, code) = match base_codegen_checked(&cur, labels, &input[i]) {
            None => {
                return None;
            },
            Some(p) => p,
        };
        cur = next;
        let ghost pre = models(acc@);
        let ghost cm = models(code@);
        let ghost before_acc = acc@;
        let ghost code_v = code@;
        acc = crate::utils::concat_vec(acc, code);
        proof {
            match spec_vec_codegen(gen_state(cur, *labels), items.skip(i + 1), b) {
                Some((s2, c2)) => {
                    assert(pre + (cm + c2) =~= (pre + cm) + c2);
                },
                None => {},
            }
        }
        i = i + 1;
    }
    proof {
        assert(items.skip(i as int).len() == 0);
        assert(models(acc@) + Seq::<SExprModel>::empty() =~= models(acc@));
    }
    Some((cur, acc))
}

/// The code `pre` followed by the outcome `rest`.
pub open spec fn prepend_code(
    pre: Seq<SExprModel>,
    rest: Option<(GenState, Seq<SExprModel>)>,
) -> Option<(GenState, Seq<SExprModel>)> {
    match rest {
        None => None,
        Some((st, c)) => Some((st, pre + c)),
    }
}

/// The code of one `cond` clause.
fn cond_clause(
    rc: &RuntimeContext,
    labels: &mut UniqueID,
    test: &SExpr,
    body: &SExpr,
    end_label: &String,
    Ghost(b): Ghost<nat>,
) -> (r: Option<(RuntimeContext, Vec<SExpr>)>)
    requires
        rc.wf(),
        size(test@) < b,
        size(body@) < b,
    ensures
        gen_matches(
            spec_cond_step(gen_state(*rc, *old(labels)), test@, body@, end_label@, b),
            rc.types(),
            *final(labels),
            r,
        ),
    decreases b, 0nat, 0nat,
{
    let tp = weak_type_check(test, &TypeExpr::Built(BuiltinType::Bool));
    let (rc1, mut code) = match base_codegen_checked(rc, labels, test) {
        None => {
            return None;
        },
        Some(p) => p,
    };
    let (rc2, body) = match base_codegen_checked(&rc1, labels, body) {
        None => {
            return None;
        },
        Some(p) => p,
    };
    let ghost st2 = gen_state(rc2, *labels);
    let label = next_name(labels);
    let ghost test_m = models(code@);
    let ghost body_m = models(body@);
    let ghost c0 = code@;
    let ghost body_v = body@;
    match tp {
        Ok(TypeExpr::Built(BuiltinType::Top)) => {},
        _ => {
            proof {
                assert(false);
            }
        },
    }
    let f1 = make_form("dyn-cast", sym("builtin.bool"));
    let ghost f1m = f1@;
    code.push(f1);
    let f2 = label_form("if-false-jump", label.clone());
    let ghost f2m = f2@;
    code.push(f2);
    let mut body = body;
    code.append(&mut body);
    let f3 = label_form("jump", end_label.clone());
    let ghost f3m = f3@;
    code.push(f3);
    let f4 = label_form(":label", label);
    let ghost f4m = f4@;
    code.push(f4);
    proof {
        let cs = code@;
        let n0 = c0.len() as int;
        let nb = body_v.len() as int;
        assert(cs =~= c0.push(cs[n0]).push(cs[n0 + 1]) + body_v + seq![
            cs[n0 + 2 + nb],
            cs[n0 + 3 + nb],
        ]);
        assert(cs[n0]@ == f1m && cs[n0 + 1]@ == f2m);
        assert(cs[n0 + 2 + nb]@ == f3m && cs[n0 + 3 + nb]@ == f4m);
        lemma_models(cs);
        lemma_models(c0);
        lemma_models(body_v);
        assert(models(cs) =~= clause_code(test_m, body_m, unique_name(st2.labels), end_label@));
    }
    Some((rc2, code))
}

/// Generates code for a `cond` form.
fn cond_codegen(rc: &RuntimeContext, labels: &mut UniqueID, sexprs: &SExpr) -> (r: Option<
    Result<(RuntimeContext, Vec<SExpr>), CompileError>,
>)
    requires
        rc.wf(),
    ensures
        attempt_matches(
            spec_cond_codegen(gen_state(*rc, *old(labels)), sexprs@),
            rc.types(),
            *final(labels),
            *old(labels),
            r,
        ),
    decreases size(sexprs@), 1nat, 0nat,
{
    let record = match cond_match(sexprs) {
        None => {
            return None;
        },
        Some(Err(e)) => {
            return Some(Err(e));
        },
        Some(Ok(record)) => record,
    };
    proof {
        lemma_match_bounded(cond_pattern_model(), sexprs@);
    }
    let boolexprs = match record.1.get("boolexpr") {
        None => {
            return None;
        },
        Some(v) => v,
    };
    let exprs = match record.1.get("expr") {
        None => {
            return None;
        },
        Some(v) => v,
    };
    let ghost bs = models(boolexprs@);
    let ghost es = models(exprs@);
    let ghost b = size(sexprs@);
    proof {
        lemma_models(boolexprs@);
        lemma_models(exprs@);
    }
    let ghost st0 = gen_state(*rc, *labels);
    let end_label = next_name(labels);
    let mut cur = rc.copy();
    let mut acc: Vec<SExpr> = Vec::new();
    let mut i: usize = 0;
    assert(bs.skip(0) =~= bs && es.skip(0) =~= es);
    assert(models(acc@) =~= Seq::<SExprModel>::empty()) by {
        lemma_models(acc@);
    }
    while i < boolexprs.len() && i < exprs.len()
        invariant
            bs == models(boolexprs@),
            es == models(exprs@),
            bs.len() == boolexprs@.len(),
            es.len() == exprs@.len(),
            forall|j: int| 0 <= j < boolexprs@.len() ==> #[trigger] bs[j] == boolexprs@[j]@,
            forall|j: int| 0 <= j < exprs@.len() ==> #[trigger] es[j] == exprs@[j]@,
            forall|j: int| 0 <= j < bs.len() ==> size(#[trigger] bs[j]) < b,
            forall|j: int| 0 <= j < es.len() ==> size(#[trigger] es[j]) < b,
            b == size(sexprs@),
            i <= boolexprs@.len(),
            i <= exprs@.len(),
            rc.wf(),
            cur.wf(),
            cur.types() == rc.types(),
            st0 == gen_state(*rc, *old(labels)),
            spec_cond_codegen(st0, sexprs@) == finish_cond(
                spec_cond_clauses(bump(st0), bs, es, unique_name(st0.labels), Seq::empty(), b),
                unique_name(st0.labels),
            ),
            spec_cond_clauses(
                bump(st0),
                bs,
                es,
                unique_name(st0.labels),
                Seq::empty(),
                b,
            ) == spec_cond_clauses(
                gen_state(cur, *labels),
                bs.skip(i as int),
                es.skip(i as int),
                unique_name(st0.labels),
                models(acc@),
                b,
            ),
            end_label@ == unique_name(st0.labels),
        decreases boolexprs@.len() - i,
    {
        proof {
            assert(bs.skip(i as int).drop_first() =~= bs.skip(i + 1));
            assert(es.skip(i as int).drop_first() =~= es.skip(i + 1));
            assert(bs.skip(i as int)[0] == boolexprs@[i as int]@);
            assert(es.skip(i as int)[0] == exprs@[i as int]@);
        }
        let (next, code) = match cond_clause(
            &cur,
            labels,
            &boolexprs[i],
            &exprs[i],
            &end_label,
            Ghost(b),
        ) {
            None => {
                return None;
            },
            Some(p) => p,
        };
        cur = next;
        acc = code;
        i = i + 1;
    }
    proof {
        assert(bs.skip(i as int).len() == 0 || es.skip(i as int).len() == 0);
    }
    let ghost before = models(acc@);
    let ghost a0 = acc@;
    acc.push(throw_form());
    acc.push(label_form(":label", end_label));
    proof {
        lemma_models(acc@);
        lemma_models(a0);
        assert(models(acc@) =~= before + seq![
            throw_model(),
            form(":label"@, sym_model(unique_name(st0.labels))),
        ]);
    }
    Some(Ok((cur, acc)))
}

/// Generates code for a `begin` form.
fn begin_codegen(rc: &RuntimeContext, labels: &mut UniqueID, sexprs: &SExpr) -> (r: Option<
    Result<(RuntimeContext, Vec<SExpr>), CompileError>,
>)
    requires
        rc.wf(),
    ensures
        attempt_matches(
            spec_begin_codegen(gen_state(*rc, *old(labels)), sexprs@),
            rc.types(),
            *final(labels),
            *old(labels),
            r,
        ),
    decreases size(sexprs@), 1nat, 0nat,
{
    let record = match begin_match(sexprs) {
        None => {
            return None;
        },
        Some(Err(e)) => {
            return Some(Err(e));
        },
        Some(Ok(record)) => record,
    };
    proof {
        lemma_match_bounded(begin_pattern_model(), sexprs@);
    }
    let exprs = match record.1.get("expr") {
        None => {
            return None;
        },
        Some(v) => v,
    };
    proof {
        lemma_models(exprs@);
    }
    if exprs.len() == 0 {
        return None;
    }
    let mut cutting_line = exprs.len() - 1;
    let mut sz: usize = 0;
    while sz < exprs.len()
        invariant
            exprs@.len() > 0,
            sz == 0,
        ensures
            cutting_line == 0,
        decreases exprs@.len() - sz,
    {
        match weak_type_inference(&exprs[sz]) {
            TypeExpr::Built(BuiltinType::Top) => {
                cutting_line = sz;
                break ;
            },
            _ => {},
        }
        sz = sz + 1;
    }
    assert(cutting_line == 0);
    let first = crate::context::copy_exprs_take(exprs, cutting_line + 1);
    proof {
        assert(models(first@) =~= models(exprs@).take(1)) by {
            lemma_models(first@);
            lemma_models(exprs@);
            lemma_models(exprs@.take(1));
        }
        lemma_models(first@);
        assert forall|i: int| 0 <= i < first@.len() implies size(#[trigger] first@[i]@) < size(
            sexprs@,
        ) by {
            assert(first@[i]@ == models(exprs@)[i]);
        }
    }
    match vec_expr_codegen(rc, labels, &first, Ghost(size(sexprs@))) {
        None => None,
        Some(p) => Some(Ok(p)),
    }
}

/// Generates code for a `lambda` form.
fn lambda_codegen(rc: &RuntimeContext, labels: &mut UniqueID, sexprs: &SExpr) -> (r: Option<
    Result<(RuntimeContext, Vec<SExpr>), CompileError>,
>)
    requires
        rc.wf(),
    ensures
        attempt_matches(
            spec_lambda_codegen(gen_state(*rc, *old(labels)), sexprs@),
            rc.types(),
            *final(labels),
            *old(labels),
            r,
        ),
    decreases size(sexprs@), 1nat, 0nat,
{
    let record = match lambda_match(sexprs) {
        None => {
            return None;
        },
        Some(Err(e)) => {
            return Some(Err(e));
        },
        Some(Ok(record)) => record,
    };
    proof {
        lemma_match_bounded(lambda_pattern_model(), sexprs@);
    }
    let vars = match record.1.get("var") {
        None => {
            return None;
        },
        Some(v) => v,
    };
    let bodys = match record.1.get("body") {
        None => {
            return None;
        },
        Some(v) => v,
    };
    let names = match var_names(vars) {
        Err(e) => {
            return Some(Err(e));
        },
        Ok(n) => n,
    };
    proof {
        lemma_models(bodys@);
        assert forall|i: int| 0 <= i < bodys@.len() implies size(#[trigger] bodys@[i]@) < size(
            sexprs@,
        ) by {
            assert(bodys@[i]@ == models(bodys@)[i]);
        }
    }
    let (mut rc1, code) = match vec_expr_codegen(rc, labels, bodys, Ghost(size(sexprs@))) {
        None => {
            return None;
        },
        Some(p) => p,
    };
    let name = next_name(labels);
    let fun_body = FunctionDefine {
        name: name.clone(),
        pure_flag: None,
        typeinfo: None,
        args: names,
        code_block: code,
    };
    rc1.register_function(&name, fun_body);
    Some(Ok((rc1, Vec::new())))
}

/// Generates code for a `function` form.
fn function_codegen(rc: &RuntimeContext, labels: &mut UniqueID, sexprs: &SExpr) -> (r: Option<
    Result<(RuntimeContext, Vec<SExpr>), CompileError>,
>)
    requires
        rc.wf(),
    ensures
        attempt_matches(
            spec_function_codegen(gen_state(*rc, *old(labels)), sexprs@),
            rc.types(),
            *final(labels),
            *old(labels),
            r,
        ),
    decreases size(sexprs@), 1nat, 0nat,
{
    let record = match function_match(sexprs) {
        None => {
            return None;
        },
        Some(Err(e)) => {
            return Some(Err(e));
        },
        Some(Ok(record)) => record,
    };
    proof {
        lemma_match_bounded(function_pattern_model(), sexprs@);
    }
    let name = match record.0.get("name") {
        None => {
            return None;
        },
        Some(SExpr::Atom(Atom::Sym(x))) => x.clone(),
        Some(_) => {
            return Some(Err(CompileError()));
        },
    };
    let vars = match record.1.get("var") {
        None => {
            return None;
        },
        Some(v) => v,
    };
    let bodys = match record.1.get("body") {
        None => {
            return None;
        },
        Some(v) => v,
    };
    let names = match var_names(vars) {
        Err(e) => {
            return Some(Err(e));
        },
        Ok(n) => n,
    };
    proof {
        lemma_models(bodys@);
        assert forall|i: int| 0 <= i < bodys@.len() implies size(#[trigger] bodys@[i]@) < size(
            sexprs@,
        ) by {
            assert(bodys@[i]@ == models(bodys@)[i]);
        }
    }
    let (mut rc1, code) = match vec_expr_codegen(rc, labels, bodys, Ghost(size(sexprs@))) {
        None => {
            return None;
        },
        Some(p) => p,
    };
    let fun_body = FunctionDefine {
        name: name.clone(),
        pure_flag: None,
        typeinfo: None,
        args: names,
        code_block: code,
    };
    rc1.register_function(&name, fun_body);
    Some(Ok((rc1, Vec::new())))
}

/// Generates code for `expr` in the context `rc`; `None` outside the
/// generator's domain. `rc` is left as it is: the functions that `expr`
/// defines are registered in the context that comes back with the code.
pub fn base_codegen_checked(rc: &RuntimeContext, labels: &mut UniqueID, expr: &SExpr) -> (r:
    Option<(RuntimeContext, Vec<SExpr>)>)
    requires
        rc.wf(),
    ensures
        gen_matches(
            spec_base_codegen(gen_state(*rc, *old(labels)), expr@),
            rc.types(),
            *final(labels),
            r,
        ),
    decreases size(expr@), 2nat, 0nat,
{
    match expr {
        SExpr::Atom(Atom::Sym(_)) => {
            let mut v: Vec<SExpr> = Vec::new();
            v.push(make_form("load-sym", expr.copy()));
            proof {
                lemma_models(v@);
                assert(models(v@) =~= seq![form("load-sym"@, expr@)]);
            }
            Some((rc.copy(), v))
        },
        SExpr::Atom(_) => {
            let mut v: Vec<SExpr> = Vec::new();
            v.push(make_form("load-const", expr.copy()));
            proof {
                lemma_models(v@);
                assert(models(v@) =~= seq![form("load-const"@, expr@)]);
            }
            Some((rc.copy(), v))
        },
        SExpr::List(_) => {
            match cond_codegen(rc, labels, expr) {
                None => {
                    return None;
                },
                Some(Ok(r)) => {
                    return Some(r);
                },
                Some(Err(_)) => {},
            }
            match begin_codegen(rc, labels, expr) {
                None => {
                    return None;
                },
                Some(Ok(r)) => {
                    return Some(r);
                },
                Some(Err(_)) => {},
            }
            match lambda_codegen(rc, labels, expr) {
                None => {
                    return None;
                },
                Some(Ok(r)) => {
                    return Some(r);
                },
                Some(Err(_)) => {},
            }
            match function_codegen(rc, labels, expr) {
                None => None,
                Some(Ok(r)) => Some(r),
                Some(Err(_)) => None,
            }
        },
    }
}

/// The result of generating code: a new context and the code.
pub type CodeGenResult = Result<(RuntimeContext, Vec<SExpr>), CompileError>;

/// Generates code for `expr` in the context `rc`, taking fresh labels from
/// `labels`. `rc` is left as it is; the context that comes back holds the
/// functions of `rc` and those that `expr` defines, and the types of `rc`.
pub fn base_codegen(rc: &RuntimeContext, labels: &mut UniqueID, expr: &SExpr) -> (r: CodeGenResult)
    requires
        rc.wf(),
        spec_base_codegen(gen_state(*rc, *old(labels)), expr@) is Some,
    ensures
        r matches Ok(p) && gen_matches(
            spec_base_codegen(gen_state(*rc, *old(labels)), expr@),
            rc.types(),
            *final(labels),
            Some(p),
        ),
{
    match base_codegen_checked(rc, labels, expr) {
        Some(p) => Ok(p),
        None => Err(CompileError()),
    }
}

} // verus!
