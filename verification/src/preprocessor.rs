//! Macro expansion.
//!
//! `preprocess` expands the items of a list first, left to right, each item
//! seeing the macros that the items before it defined. If the first expanded
//! item then names a macro, that macro is applied to the remaining items.
//! A syntax-rule macro tries its rules in order and instantiates the template
//! of the first rule whose pattern matches; `(unquote x)` in a template stands
//! for what `x` was bound to.
//!
//! Some inputs lie outside the expander's domain (a pattern outside the
//! matcher's domain, an unbound `unquote`, a macro that no rule matches): on
//! those the outcome in the specifications is `None`, the checked functions
//! return `None`, and the unchecked ones require that it does not happen.
use vstd::prelude::*;
use crate::context::{
    Atom, AtomModel, CResult, CompileContext, CompileError, MacroDefine, MacroFun, MacroModel,
    PMNI, SExpr, SExprModel, SyntaxRuleDefine, copy_exprs_from, lemma_list_view, lemma_models,
    models, rule_models, sym_model,
};
use crate::matching::{dyn_match_checked, spec_dyn_match};
pub use crate::matching::dyn_match;
use crate::records::{MatchRecord, RecordModel, vars_model};
use crate::base_macro::{macro_define_wrapper_checked, spec_macro_define};

verus! {

/// The name of the form that a template replaces by a bound expression.
pub open spec fn unquote_name() -> Seq<char> {
    seq!['u', 'n', 'q', 'u', 'o', 't', 'e']
}

/// Instantiates template `t` with the variables `vars`; `None` where an
/// `unquote` form is malformed or names an unbound variable.
pub open spec fn spec_macro_expand(vars: Map<Seq<char>, SExprModel>, t: SExprModel) -> Option<
    SExprModel,
>
    decreases t, 0int,
{
    match t {
        SExprModel::List(l) => {
            if l.len() > 0 && l[0] == sym_model(unquote_name()) {
                if l.len() != 2 {
                    None
                } else {
                    match l[1] {
                        SExprModel::Atom(AtomModel::Sym(n)) => if vars.contains_key(n) {
                            Some(vars[n])
                        } else {
                            None
                        },
                        _ => None,
                    }
                }
            } else {
                match spec_expand_all(vars, l) {
                    Some(ls) => Some(SExprModel::List(ls)),
                    None => None,
                }
            }
        },
        SExprModel::Atom(_) => Some(t),
    }
}

/// Instantiates each template of `l`.
pub open spec fn spec_expand_all(vars: Map<Seq<char>, SExprModel>, l: Seq<SExprModel>) -> Option<
    Seq<SExprModel>,
>
    decreases l, 0int,
{
    if l.len() == 0 {
        Some(Seq::empty())
    } else {
        match (spec_macro_expand(vars, l[0]), spec_expand_all(vars, l.drop_first())) {
            (Some(x), Some(xs)) => Some(seq![x] + xs),
            _ => None,
        }
    }
}

/// The expansion of the first rule whose pattern matches `arg`.
pub open spec fn spec_apply_rules(rules: Seq<(SExprModel, SExprModel)>, arg: SExprModel) -> Option<
    SExprModel,
>
    decreases rules.len(),
{
    if rules.len() == 0 {
        None
    } else {
        match spec_dyn_match(rules[0].0, arg) {
            None => None,
            Some(Err(_)) => spec_apply_rules(rules.drop_first(), arg),
            Some(Ok(rec)) => spec_macro_expand(rec.vars, rules[0].1),
        }
    }
}

/// The state of the macro table and the result of an expansion step.
pub type Expansion = Option<(Map<Seq<char>, MacroModel>, Result<SExprModel, ()>)>;

/// Applies macro `m` to `arg` with macro table `ms`.
pub open spec fn spec_apply_macro(
    ms: Map<Seq<char>, MacroModel>,
    m: MacroModel,
    arg: SExprModel,
) -> Expansion {
    match m {
        MacroModel::Process(_, _, f) => match f {
            MacroFun::MacroDefineWrapper => spec_macro_define(ms, arg),
        },
        MacroModel::Rules(_, rules) => match spec_apply_rules(rules, arg) {
            None => None,
            Some(e) => Some((ms, Ok(e))),
        },
    }
}

/// Expands the macros of `e` with macro table `ms`.
pub open spec fn spec_preprocess(ms: Map<Seq<char>, MacroModel>, e: SExprModel) -> Expansion
    decreases e, 1int,
{
    match e {
        SExprModel::Atom(_) => Some((ms, Ok(e))),
        SExprModel::List(l) => match spec_preprocess_all(ms, l) {
            None => None,
            Some((ms2, Err(_))) => Some((ms2, Err(()))),
            Some((ms2, Ok(r))) => spec_after_items(ms2, r),
        },
    }
}

/// Applies the macro that the first of the expanded items `r` names, if any.
pub open spec fn spec_after_items(ms: Map<Seq<char>, MacroModel>, r: Seq<SExprModel>) -> Expansion {
    if r.len() > 0 && r[0] is Atom && r[0]->Atom_0 is Sym && ms.contains_key(
        r[0]->Atom_0->Sym_0,
    ) {
        spec_apply_macro(ms, ms[r[0]->Atom_0->Sym_0], SExprModel::List(r.drop_first()))
    } else {
        Some((ms, Ok(SExprModel::List(r))))
    }
}

/// Expands each of `l` in turn, threading the macro table.
pub open spec fn spec_preprocess_all(ms: Map<Seq<char>, MacroModel>, l: Seq<SExprModel>) -> Option<
    (Map<Seq<char>, MacroModel>, Result<Seq<SExprModel>, ()>),
>
    decreases l, 0int,
{
    if l.len() == 0 {
        Some((ms, Ok(Seq::empty())))
    } else {
        match spec_preprocess(ms, l[0]) {
            None => None,
            Some((ms1, Err(_))) => Some((ms1, Err(()))),
            Some((ms1, Ok(x))) => prepend_expr(x, spec_preprocess_all(ms1, l.drop_first())),
        }
    }
}

/// The expanded items `pre` followed by the outcome `rest`.
pub open spec fn prepend_exprs(
    pre: Seq<SExprModel>,
    rest: Option<(Map<Seq<char>, MacroModel>, Result<Seq<SExprModel>, ()>)>,
) -> Option<(Map<Seq<char>, MacroModel>, Result<Seq<SExprModel>, ()>)> {
    match rest {
        None => None,
        Some((ms, Err(_))) => Some((ms, Err(()))),
        Some((ms, Ok(xs))) => Some((ms, Ok(pre + xs))),
    }
}

/// The expanded item `x` followed by the outcome `rest`.
pub open spec fn prepend_expr(
    x: SExprModel,
    rest: Option<(Map<Seq<char>, MacroModel>, Result<Seq<SExprModel>, ()>)>,
) -> Option<(Map<Seq<char>, MacroModel>, Result<Seq<SExprModel>, ()>)> {
    prepend_exprs(seq![x], rest)
}

/// The model of a compilation result.
pub open spec fn cresult_model(r: CResult) -> Result<SExprModel, ()> {
    match r {
        Ok(e) => Ok(e@),
        Err(_) => Err(()),
    }
}

/// A checked step ended as `expected` says, leaving `context` in its state.
pub open spec fn step_matches(
    expected: Expansion,
    context: CompileContext,
    r: Option<CResult>,
) -> bool {
    match expected {
        None => r is None,
        Some((ms, res)) => r matches Some(x) && context.wf() && context.macros() == ms
            && cresult_model(x) == res,
    }
}

/// The symbol `unquote`'s name has the expected characters.
proof fn lemma_unquote_literal()
    ensures
        "unquote"@ == unquote_name(),
{
    reveal_strlit("unquote");
    assert("unquote"@ =~= unquote_name());
}

/// Instantiates `template` with the variables of `record`; `None` where an
/// `unquote` form is malformed or unbound.
pub fn macro_expand_checked(record: &MatchRecord, template: &SExpr) -> (r: Option<SExpr>)
    requires
        record.wf(),
    ensures
        r matches Some(e) ==> spec_macro_expand(record@.vars, template@) == Some(e@),
        r is None ==> spec_macro_expand(record@.vars, template@) is None,
    decreases template,
{
    proof {
        lemma_unquote_literal();
    }
    match template {
        SExpr::List(l) => {
            proof {
                lemma_list_view(*l);
            }
            if l.len() > 0 && crate::matching::is_sym_named(&l[0], "unquote") {
                if l.len() != 2 {
                    return None;
                }
                match &l[1] {
                    SExpr::Atom(Atom::Sym(n)) => {
                        match record.0.get(n.as_str()) {
                            Some(e) => {
                                return Some(e.copy());
                            },
                            None => {
                                return None;
                            },
                        }
                    },
                    _ => {
                        return None;
                    },
                }
            }
            let ghost ls = models(l@);
            let mut out: Vec<SExpr> = Vec::new();
            let mut i: usize = 0;
            while i < l.len()
                invariant
                    record.wf(),
                    *template == SExpr::List(*l),
                    ls == models(l@),
                    ls.len() == l@.len(),
                    forall|j: int| 0 <= j < l@.len() ==> #[trigger] ls[j] == l@[j]@,
                    i <= l@.len(),
                    out@.len() == i,
                    forall|j: int|
                        0 <= j < i ==> spec_macro_expand(record@.vars, ls[j]) == Some(
                            #[trigger] out@[j]@,
                        ),
                decreases l@.len() - i,
            {
                assert(decreases_to!(template => l@[i as int]));
                match macro_expand_checked(record, &l[i]) {
                    Some(e) => {
                        out.push(e);
                    },
                    None => {
                        proof {
                            lemma_expand_all_fails(record@.vars, ls, i as int);
                        }
                        return None;
                    },
                }
                i = i + 1;
            }
            proof {
                lemma_models(out@);
                lemma_expand_all_succeeds(record@.vars, ls, models(out@));
                lemma_list_view(out);
            }
            Some(SExpr::List(out))
        },
        SExpr::Atom(_) => Some(template.copy()),
    }
}

/// If one template of `l` cannot be instantiated, neither can `l`.
proof fn lemma_expand_all_fails(vars: Map<Seq<char>, SExprModel>, l: Seq<SExprModel>, i: int)
    requires
        0 <= i < l.len(),
        spec_macro_expand(vars, l[i]) is None,
    ensures
        spec_expand_all(vars, l) is None,
    decreases l.len(),
{
    if i > 0 {
        lemma_expand_all_fails(vars, l.drop_first(), i - 1);
    }
}

/// If each template of `l` instantiates to the matching item of `out`, `l` instantiates to `out`.
proof fn lemma_expand_all_succeeds(
    vars: Map<Seq<char>, SExprModel>,
    l: Seq<SExprModel>,
    out: Seq<SExprModel>,
)
    requires
        l.len() == out.len(),
        forall|j: int| 0 <= j < l.len() ==> spec_macro_expand(vars, l[j]) == Some(#[trigger] out[j]),
    ensures
        spec_expand_all(vars, l) == Some(out),
    decreases l.len(),
{
    if l.len() > 0 {
        assert forall|j: int| 0 <= j < l.drop_first().len() implies spec_macro_expand(
            vars,
            l.drop_first()[j],
        ) == Some(#[trigger] out.drop_first()[j]) by {
            assert(spec_macro_expand(vars, l[j + 1]) == Some(out[j + 1]));
        }
        lemma_expand_all_succeeds(vars, l.drop_first(), out.drop_first());
        assert(seq![out[0]] + out.drop_first() =~= out);
        assert(spec_macro_expand(vars, l[0]) == Some(out[0]));
    }
}

/// Instantiates `template` with the variables of `record`.
pub fn macro_expand(record: &MatchRecord, template: &SExpr) -> (r: CResult)
    requires
        record.wf(),
        spec_macro_expand(record@.vars, template@) is Some,
    ensures
        r matches Ok(e) && Some(e@) == spec_macro_expand(record@.vars, template@),
{
    match macro_expand_checked(record, template) {
        Some(e) => Ok(e),
        None => Err(CompileError()),
    }
}

/// Applies `macro_define` to `sexprs`; `None` outside the expander's domain.
pub fn apply_macro_checked(
    context: &mut CompileContext,
    macro_define: &MacroDefine,
    sexprs: &SExpr,
) -> (r: Option<CResult>)
    requires
        old(context).wf(),
    ensures
        final(context).type_defines == old(context).type_defines,
        step_matches(
            spec_apply_macro(old(context).macros(), macro_define@, sexprs@),
            *final(context),
            r,
        ),
{
    match macro_define {
        MacroDefine::ProcessMacro(PMNI(_, _, f)) => match f {
            MacroFun::MacroDefineWrapper => macro_define_wrapper_checked(context, sexprs),
        },
        MacroDefine::SyntaxRule(SyntaxRuleDefine(nm, rules)) => {
            let ghost rs = rule_models(rules@);
            let mut i: usize = 0;
            assert(rs.skip(0) =~= rs);
            while i < rules.len()
                invariant
                    rs == rule_models(rules@),
                    macro_define@ == MacroModel::Rules(nm@, rs),
                    context.wf(),
                    context.macros() == old(context).macros(),
                    i <= rules@.len(),
                    spec_apply_rules(rs, sexprs@) == spec_apply_rules(rs.skip(i as int), sexprs@),
                decreases rules@.len() - i,
            {
                let o = dyn_match_checked(&rules[i].0, sexprs);
                proof {
                    assert(rs.skip(i as int).drop_first() =~= rs.skip(i + 1));
                    assert(rs.skip(i as int)[0] == (rules@[i as int].0@, rules@[i as int].1@));
                }
                match o {
                    None => {
                        return None;
                    },
                    Some(Err(_)) => {},
                    Some(Ok(record)) => {
                        return match macro_expand_checked(&record, &rules[i].1) {
                            Some(e) => Some(Ok(e)),
                            None => None,
                        };
                    },
                }
                i = i + 1;
            }
            None
        },
    }
}

/// Applies `macro_define` to `sexprs`.
pub fn apply_macro(context: &mut CompileContext, macro_define: &MacroDefine, sexprs: &SExpr) -> (r:
    CResult)
    requires
        old(context).wf(),
        spec_apply_macro(old(context).macros(), macro_define@, sexprs@) is Some,
    ensures
        final(context).type_defines == old(context).type_defines,
        step_matches(
            spec_apply_macro(old(context).macros(), macro_define@, sexprs@),
            *final(context),
            Some(r),
        ),
{
    match apply_macro_checked(context, macro_define, sexprs) {
        Some(r) => r,
        None => Err(CompileError()),
    }
}

/// Expands the items of `list`, then applies the macro that the first of
/// them names, if any; `None` outside the expander's domain.
pub fn list_match(context: &mut CompileContext, list: &Vec<SExpr>) -> (r: Option<CResult>)
    requires
        old(context).wf(),
    ensures
        final(context).type_defines == old(context).type_defines,
        step_matches(
            match spec_preprocess_all(old(context).macros(), models(list@)) {
                None => None,
                Some((ms2, Err(_))) => Some((ms2, Err(()))),
                Some((ms2, Ok(items))) => spec_after_items(ms2, items),
            },
            *final(context),
            r,
        ),
    decreases list, 0nat,
{
    let ghost ls = models(list@);
    let ghost ms0 = context.macros();
    proof {
        lemma_models(list@);
    }
    let mut out: Vec<SExpr> = Vec::new();
    let mut i: usize = 0;
    assert(ls.skip(0) =~= ls);
    assert(prepend_exprs(Seq::empty(), spec_preprocess_all(ms0, ls)) == spec_preprocess_all(ms0, ls))
        by {
        match spec_preprocess_all(ms0, ls) {
            Some((m, Ok(x))) => {
                assert(Seq::<SExprModel>::empty() + x =~= x);
            },
            _ => {},
        }
    }
    while i < list.len()
        invariant
            ms0 == old(context).macros(),
            ls == models(list@),
            ls.len() == list@.len(),
            forall|j: int| 0 <= j < list@.len() ==> #[trigger] ls[j] == list@[j]@,
            i <= list@.len(),
            context.wf(),
            context.type_defines == old(context).type_defines,
            spec_preprocess_all(ms0, ls) == prepend_exprs(
                models(out@),
                spec_preprocess_all(context.macros(), ls.skip(i as int)),
            ),
        decreases list@.len() - i,
    {
        let ghost ms_before = context.macros();
        let ghost pre = models(out@);
        proof {
            assert(ls.skip(i as int).drop_first() =~= ls.skip(i + 1));
            assert(ls.skip(i as int)[0] == list@[i as int]@);
        }
        assert(decreases_to!(list => list@[i as int]));
        match preprocess_checked(context, &list[i]) {
            None => {
                return None;
            },
            Some(Err(e)) => {
                return Some(Err(e));
            },
            Some(Ok(x)) => {
                let ghost xm = x@;
                let ghost before_out = out@;
                out.push(x);
                proof {
                    lemma_models(out@);
                    lemma_models(before_out);
                    assert(models(out@) =~= pre.push(xm));
                    let rest = spec_preprocess_all(context.macros(), ls.skip(i + 1));
                    match rest {
                        Some((m, Ok(xs))) => {
                            assert(pre + (seq![xm] + xs) =~= pre.push(xm) + xs);
                        },
                        _ => {},
                    }
                }
            },
        }
        i = i + 1;
    }
    proof {
        assert(ls.skip(i as int).len() == 0);
        assert(models(out@) + Seq::<SExprModel>::empty() =~= models(out@));
        lemma_models(out@);
    }
    let ghost items = models(out@);
    if out.len() > 0 {
        if let SExpr::Atom(Atom::Sym(n)) = &out[0] {
            if let Some(m) = context.find_macro(n.as_str()) {
                let v = copy_exprs_from(&out, 1);
                proof {
                    lemma_list_view(v);
                    lemma_models(out@.subrange(1, out@.len() as int));
                    assert(models(v@) =~= items.drop_first());
                }
                let rest = SExpr::List(v);
                return apply_macro_checked(context, &m, &rest);
            }
        }
    }
    let r = SExpr::List(out);
    proof {
        lemma_list_view(out);
    }
    Some(Ok(r))
}

/// Expands the macros of `src`; `None` outside the expander's domain.
pub fn preprocess_checked(context: &mut CompileContext, src: &SExpr) -> (r: Option<CResult>)
    requires
        old(context).wf(),
    ensures
        final(context).type_defines == old(context).type_defines,
        step_matches(spec_preprocess(old(context).macros(), src@), *final(context), r),
    decreases src, 1nat,
{
    match src {
        SExpr::Atom(_) => Some(Ok(src.copy())),
        SExpr::List(l) => {
            proof {
                lemma_list_view(*l);
            }
            list_match(context, l)
        },
    }
}

/// Expands the macros of `src`.
pub fn preprocess(context: &mut CompileContext, src: &SExpr) -> (r: CResult)
    requires
        old(context).wf(),
        spec_preprocess(old(context).macros(), src@) is Some,
    ensures
        final(context).type_defines == old(context).type_defines,
        step_matches(spec_preprocess(old(context).macros(), src@), *final(context), Some(r)),
{
    match preprocess_checked(context, src) {
        Some(r) => r,
        None => Err(CompileError()),
    }
}

} // verus!
