//! The macros that the library defines natively: `macro`, which defines a
//! syntax-rule macro, written `(macro name [pattern template] ...)`.
use vstd::prelude::*;
use crate::context::{
    Atom, AtomModel, CResult, CompileContext, CompileError, MacroDefine, MacroFun, MacroModel,
    SExpr, SExprModel, SyntaxRuleDefine, lemma_list_view, lemma_models, models, nil,
    rule_models, sym, sym_model,
};
use crate::matching::{dyn_match_checked, ellipsis_name, lemma_quote_literal, spec_dyn_match};
use crate::preprocessor::{Expansion, step_matches};
use crate::records::{seqs_model, vars_model};
pub use crate::utils::internal_parse_simple_expr;

verus! {

/// The pattern variable that a `macro` form binds to the macro's name.
pub open spec fn name_key() -> Seq<char> {
    "name"@
}

/// The pattern variable bound to the patterns of the rules.
pub open spec fn pattern_key() -> Seq<char> {
    "pattern"@
}

/// The pattern variable bound to the templates of the rules.
pub open spec fn template_key() -> Seq<char> {
    "template"@
}

/// The name of the native macro that defines macros.
pub open spec fn macro_key() -> Seq<char> {
    "macro"@
}

/// The pattern of the arguments of `macro`: `(name [pattern template] ...)`.
pub open spec fn macro_define_pattern_model() -> SExprModel {
    SExprModel::List(
        seq![
            sym_model(name_key()),
            SExprModel::List(seq![sym_model(pattern_key()), sym_model(template_key())]),
            sym_model(ellipsis_name()),
        ],
    )
}

/// The rules made of the patterns `ps` and the templates `ts`, pairwise, as
/// far as both reach.
pub open spec fn zip_rules(ps: Seq<SExprModel>, ts: Seq<SExprModel>) -> Seq<
    (SExprModel, SExprModel),
> {
    Seq::new(
        if ps.len() <= ts.len() {
            ps.len()
        } else {
            ts.len()
        },
        |i: int| (ps[i], ts[i]),
    )
}

/// What `macro` does with its arguments `arg` and macro table `ms`: it
/// defines the macro that `arg` names, with the rules that `arg` gives, and
/// yields `nil`; a name that is not a symbol is an error.
pub open spec fn spec_macro_define(ms: Map<Seq<char>, MacroModel>, arg: SExprModel) -> Expansion {
    match spec_dyn_match(macro_define_pattern_model(), arg) {
        None => None,
        Some(Err(_)) => Some((ms, Err(()))),
        Some(Ok(rec)) => {
            if !rec.vars.contains_key(name_key()) {
                None
            } else {
                match rec.vars[name_key()] {
                    SExprModel::Atom(AtomModel::Sym(n)) => {
                        if rec.seqs.contains_key(pattern_key()) && rec.seqs.contains_key(
                            template_key(),
                        ) {
                            Some(
                                (
                                    ms.insert(
                                        n,
                                        MacroModel::Rules(
                                            n,
                                            zip_rules(
                                                rec.seqs[pattern_key()],
                                                rec.seqs[template_key()],
                                            ),
                                        ),
                                    ),
                                    Ok(SExprModel::Atom(AtomModel::Nil)),
                                ),
                            )
                        } else {
                            None
                        }
                    },
                    _ => Some((ms, Err(()))),
                }
            }
        },
    }
}

/// The pattern of the arguments of `macro`.
pub fn macro_define_pattern() -> (r: SExpr)
    ensures
        r@ == macro_define_pattern_model(),
{
    proof {
        lemma_quote_literal();
    }
    let mut inner: Vec<SExpr> = Vec::new();
    inner.push(sym("pattern"));
    inner.push(sym("template"));
    proof {
        lemma_list_view(inner);
        assert(models(inner@) =~= seq![sym_model(pattern_key()), sym_model(template_key())]);
    }
    let inner = SExpr::List(inner);
    let mut outer: Vec<SExpr> = Vec::new();
    outer.push(sym("name"));
    outer.push(inner);
    outer.push(sym("..."));
    proof {
        lemma_list_view(outer);
        assert(models(outer@) =~= seq![
            sym_model(name_key()),
            SExprModel::List(seq![sym_model(pattern_key()), sym_model(template_key())]),
            sym_model(ellipsis_name()),
        ]);
    }
    SExpr::List(outer)
}

/// `macro`: defines the macro that `sexprs` describes; `None` outside the
/// expander's domain.
pub fn macro_define_wrapper_checked(context: &mut CompileContext, sexprs: &SExpr) -> (r: Option<
    CResult,
>)
    requires
        old(context).wf(),
    ensures
        final(context).type_defines == old(context).type_defines,
        step_matches(spec_macro_define(old(context).macros(), sexprs@), *final(context), r),
{
    let pattern = macro_define_pattern();
    let record = match dyn_match_checked(&pattern, sexprs) {
        None => {
            return None;
        },
        Some(Err(e)) => {
            return Some(Err(e));
        },
        Some(Ok(record)) => record,
    };
    let name = match record.0.get("name") {
        None => {
            return None;
        },
        Some(SExpr::Atom(Atom::Sym(n))) => n.clone(),
        Some(_) => {
            return Some(Err(CompileError()));
        },
    };
    let patterns = match record.1.get("pattern") {
        None => {
            return None;
        },
        Some(v) => v,
    };
    let templates = match record.1.get("template") {
        None => {
            return None;
        },
        Some(v) => v,
    };
    let ghost ps = models(patterns@);
    let ghost ts = models(templates@);
    proof {
        lemma_models(patterns@);
        lemma_models(templates@);
    }
    let mut body: Vec<(SExpr, SExpr)> = Vec::new();
    let mut i: usize = 0;
    while i < patterns.len() && i < templates.len()
        invariant
            ps == models(patterns@),
            ts == models(templates@),
            ps.len() == patterns@.len(),
            ts.len() == templates@.len(),
            forall|j: int| 0 <= j < patterns@.len() ==> #[trigger] ps[j] == patterns@[j]@,
            forall|j: int| 0 <= j < templates@.len() ==> #[trigger] ts[j] == templates@[j]@,
            i <= patterns@.len(),
            i <= templates@.len(),
            body@.len() == i,
            forall|j: int|
                0 <= j < i ==> #[trigger] body@[j].0@ == ps[j] && body@[j].1@ == ts[j],
        decreases patterns@.len() - i,
    {
        let p = patterns[i].copy();
        let t = templates[i].copy();
        body.push((p, t));
        i = i + 1;
    }
    assert(rule_models(body@) =~= zip_rules(ps, ts));
    let ghost nm = name@;
    let def = MacroDefine::SyntaxRule(SyntaxRuleDefine(name.clone(), body));
    context.register_macro(&name, def);
    Some(Ok(nil()))
}

/// `macro`: defines the macro that `sexprs` describes.
pub fn macro_define_wrapper(context: &mut CompileContext, sexprs: &SExpr) -> (r: CResult)
    requires
        old(context).wf(),
        spec_macro_define(old(context).macros(), sexprs@) is Some,
    ensures
        final(context).type_defines == old(context).type_defines,
        step_matches(spec_macro_define(old(context).macros(), sexprs@), *final(context), Some(r)),
{
    match macro_define_wrapper_checked(context, sexprs) {
        Some(r) => r,
        None => Err(CompileError()),
    }
}

/// `macro`: defines the macro that `sexprs` describes (the name this function
/// also goes by).
pub fn macro_define(context: &mut CompileContext, sexprs: &SExpr) -> (r: CResult)
    requires
        old(context).wf(),
        spec_macro_define(old(context).macros(), sexprs@) is Some,
    ensures
        final(context).type_defines == old(context).type_defines,
        step_matches(spec_macro_define(old(context).macros(), sexprs@), *final(context), Some(r)),
{
    macro_define_wrapper(context, sexprs)
}

/// Registers `macro` as a native macro.
#[allow(non_snake_case)]
fn macro_define_wrapper_register__(context: &mut CompileContext)
    requires
        old(context).wf(),
    ensures
        final(context).type_defines == old(context).type_defines,
        final(context).wf(),
        final(context).macros() == old(context).macros().insert(
            macro_key(),
            MacroModel::Process(macro_key(), macro_define_pattern_model(), MacroFun::MacroDefineWrapper),
        ),
{
    let k = String::from_str("macro");
    context.register_native_macro(&k, macro_define_pattern(), MacroFun::MacroDefineWrapper);
}

/// Defines the native macros: `macro`.
pub fn load_prelude_macro(context: &mut CompileContext)
    requires
        old(context).wf(),
    ensures
        final(context).type_defines == old(context).type_defines,
        final(context).wf(),
        final(context).macros() == old(context).macros().insert(
            macro_key(),
            MacroModel::Process(macro_key(), macro_define_pattern_model(), MacroFun::MacroDefineWrapper),
        ),
{
    macro_define_wrapper_register__(context);
}

} // verus!
