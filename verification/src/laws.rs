//! Properties that hold across the library's operations.
use vstd::prelude::*;
use crate::base_macro::{
    macro_key, name_key, pattern_key, spec_macro_define, template_key, zip_rules,
};
use crate::context::{AtomModel, BuiltinType, MacroFun, MacroModel, SExprModel, builtin_accepts, sym_model};
use crate::base_macro::macro_define_pattern_model;
use crate::matching::{ellipsis_name, quote_name, spec_dyn_match, spec_match_prefix};
use crate::records::{RecordModel, merged_seqs, merged_vars};
use crate::parser::unescape;
use crate::preprocessor::{
    prepend_expr, spec_after_items, spec_apply_rules, spec_expand_all, spec_macro_expand, spec_preprocess,
    spec_preprocess_all,
    unquote_name,
};
use crate::utils::{decimal, digit_char, next_count, unique_name};
use crate::gen2lyzh4ir::{
    GenState, begin_pattern_model, bump, cond_pattern_model, finish_cond, function_pattern_model,
    lambda_pattern_model, spec_base_codegen, spec_begin_codegen, spec_cond_clauses,
    spec_cond_codegen, spec_cond_step, spec_function_codegen, spec_lambda_codegen,
    spec_vec_codegen,
};
use crate::matching::size;

verus! {

// ----- expansion -----

/// With no macros defined, expansion gives back every expression unchanged
/// and defines nothing.
pub proof fn law_expansion_without_macros_is_identity(e: SExprModel)
    ensures
        spec_preprocess(Map::empty(), e) == Some(
            (Map::<Seq<char>, MacroModel>::empty(), Ok::<SExprModel, ()>(e)),
        ),
    decreases e, 1int,
{
    match e {
        SExprModel::Atom(_) => {},
        SExprModel::List(l) => {
            lemma_expand_all_without_macros(l);
        },
    }
}

/// With no macros defined, expanding the items of a list gives them back.
proof fn lemma_expand_all_without_macros(l: Seq<SExprModel>)
    ensures
        spec_preprocess_all(Map::empty(), l) == Some(
            (Map::<Seq<char>, MacroModel>::empty(), Ok::<Seq<SExprModel>, ()>(l)),
        ),
    decreases l, 0int,
{
    if l.len() > 0 {
        law_expansion_without_macros_is_identity(l[0]);
        lemma_expand_all_without_macros(l.drop_first());
        assert(seq![l[0]] + l.drop_first() =~= l);
    } else {
        assert(l =~= Seq::<SExprModel>::empty());
    }
}

/// No list in `t` is an `unquote` form.
pub open spec fn no_unquote(t: SExprModel) -> bool
    decreases t, 1int,
{
    match t {
        SExprModel::Atom(_) => true,
        SExprModel::List(l) => !(l.len() > 0 && l[0] == sym_model(unquote_name())) && all_no_unquote(
            l,
        ),
    }
}

/// No item of `l` holds an `unquote` form.
pub open spec fn all_no_unquote(l: Seq<SExprModel>) -> bool
    decreases l, 0int,
{
    l.len() == 0 || (no_unquote(l[0]) && all_no_unquote(l.drop_first()))
}

/// A template without `unquote` forms instantiates to itself, whatever the bindings.
pub proof fn law_template_without_unquote_is_unchanged(
    vars: Map<Seq<char>, SExprModel>,
    t: SExprModel,
)
    requires
        no_unquote(t),
    ensures
        spec_macro_expand(vars, t) == Some(t),
    decreases t, 1int,
{
    match t {
        SExprModel::Atom(_) => {},
        SExprModel::List(l) => {
            lemma_templates_without_unquote(vars, l);
        },
    }
}

/// Templates without `unquote` forms instantiate to themselves.
proof fn lemma_templates_without_unquote(vars: Map<Seq<char>, SExprModel>, l: Seq<SExprModel>)
    requires
        all_no_unquote(l),
    ensures
        spec_expand_all(vars, l) == Some(l),
    decreases l, 0int,
{
    if l.len() > 0 {
        law_template_without_unquote_is_unchanged(vars, l[0]);
        lemma_templates_without_unquote(vars, l.drop_first());
        assert(seq![l[0]] + l.drop_first() =~= l);
    }
}

/// Binding a variable by matching and then instantiating `(unquote var)`
/// gives back the matched expression.
pub proof fn law_unquote_gives_back_the_match(name: Seq<char>, t: SExprModel)
    ensures
        spec_dyn_match(sym_model(name), t) matches Some(Ok(rec)) && spec_macro_expand(
            rec.vars,
            SExprModel::List(seq![sym_model(unquote_name()), sym_model(name)]),
        ) == Some(t),
{
}

/// Defining a macro binds its name to the rules made of the patterns and
/// templates given, leaves every other macro as it was, and yields `nil`.
pub proof fn law_macro_definition_binds_the_rules(
    ms: Map<Seq<char>, MacroModel>,
    arg: SExprModel,
)
    requires
        spec_macro_define(ms, arg) matches Some((_, Ok(_))),
    ensures
        spec_dyn_match(crate::base_macro::macro_define_pattern_model(), arg) matches Some(Ok(rec))
            && rec.vars[name_key()] matches SExprModel::Atom(AtomModel::Sym(n))
            && spec_macro_define(ms, arg) == Some(
            (
                ms.insert(
                    n,
                    MacroModel::Rules(
                        n,
                        zip_rules(rec.seqs[pattern_key()], rec.seqs[template_key()]),
                    ),
                ),
                Ok::<SExprModel, ()>(SExprModel::Atom(AtomModel::Nil)),
            ),
        ),
{
}

/// A list headed by the symbol `macro`, where `macro` is the native
/// macro-defining macro and the list's items expand to themselves, defines
/// the macro that the rest of the list describes.
pub proof fn law_macro_form_defines(
    ms: Map<Seq<char>, MacroModel>,
    l: Seq<SExprModel>,
    d: SExprModel,
)
    requires
        l.len() > 0,
        l[0] == sym_model(macro_key()),
        ms.contains_key(macro_key()),
        ms[macro_key()] == MacroModel::Process(macro_key(), d, MacroFun::MacroDefineWrapper),
        spec_preprocess_all(ms, l) == Some((ms, Ok::<Seq<SExprModel>, ()>(l))),
    ensures
        spec_preprocess(ms, SExprModel::List(l)) == spec_macro_define(
            ms,
            SExprModel::List(l.drop_first()),
        ),
{
}

/// A list headed by the name of a syntax-rule macro, whose items expand to
/// themselves, expands as the first of the macro's rules that matches the
/// rest of the list says.
pub proof fn law_macro_use_applies_rules(
    ms: Map<Seq<char>, MacroModel>,
    l: Seq<SExprModel>,
    name: Seq<char>,
    rules: Seq<(SExprModel, SExprModel)>,
)
    requires
        l.len() > 0,
        l[0] == sym_model(name),
        ms.contains_key(name),
        ms[name] == MacroModel::Rules(name, rules),
        spec_preprocess_all(ms, l) == Some((ms, Ok::<Seq<SExprModel>, ()>(l))),
    ensures
        spec_preprocess(ms, SExprModel::List(l)) == (match spec_apply_rules(
            rules,
            SExprModel::List(l.drop_first()),
        ) {
            None => None,
            Some(e) => Some((ms, Ok::<SExprModel, ()>(e))),
        }),
{
}

/// A macro just defined is found under its name with its definition, and
/// every other name keeps what it had.
pub proof fn law_register_then_find(
    ms: Map<Seq<char>, MacroModel>,
    k: Seq<char>,
    v: MacroModel,
    other: Seq<char>,
)
    requires
        other != k,
    ensures
        ms.insert(k, v).contains_key(k),
        ms.insert(k, v)[k] == v,
        ms.insert(k, v).contains_key(other) == ms.contains_key(other),
        ms.contains_key(other) ==> ms.insert(k, v)[other] == ms[other],
{
}

/// Every macro of `ms` is still defined in `ms2`.
pub open spec fn keeps_macros(ms: Map<Seq<char>, MacroModel>, ms2: Map<Seq<char>, MacroModel>) -> bool {
    forall|k: Seq<char>| #[trigger] ms.contains_key(k) ==> ms2.contains_key(k)
}

/// Expansion never forgets a macro: every macro defined before is still
/// defined after.
pub proof fn law_expansion_keeps_macros(ms: Map<Seq<char>, MacroModel>, e: SExprModel)
    ensures
        spec_preprocess(ms, e) matches Some((ms2, _)) ==> keeps_macros(ms, ms2),
    decreases e, 1int,
{
    match e {
        SExprModel::Atom(_) => {},
        SExprModel::List(l) => {
            lemma_expand_items_keeps_macros(ms, l);
            match spec_preprocess_all(ms, l) {
                Some((ms2, Ok(r))) => {
                    lemma_after_items_keeps_macros(ms2, r);
                    if let Some((ms3, _)) = spec_after_items(ms2, r) {
                        assert forall|k: Seq<char>| #[trigger] ms.contains_key(k) implies ms3.contains_key(k) by {
                            assert(ms2.contains_key(k));
                        }
                    }
                },
                _ => {},
            }
        },
    }
}

/// Expanding the items of a list never forgets a macro.
proof fn lemma_expand_items_keeps_macros(ms: Map<Seq<char>, MacroModel>, l: Seq<SExprModel>)
    ensures
        spec_preprocess_all(ms, l) matches Some((ms2, _)) ==> keeps_macros(ms, ms2),
    decreases l, 0int,
{
    if l.len() > 0 {
        law_expansion_keeps_macros(ms, l[0]);
        match spec_preprocess(ms, l[0]) {
            Some((ms1, Ok(x))) => {
                lemma_expand_items_keeps_macros(ms1, l.drop_first());
                if let Some((ms2, _)) = spec_preprocess_all(ms1, l.drop_first()) {
                    assert forall|k: Seq<char>| #[trigger] ms.contains_key(k) implies ms2.contains_key(k) by {
                        assert(ms1.contains_key(k));
                    }
                }
            },
            _ => {},
        }
    }
}

/// Applying the macro that heads expanded items never forgets a macro.
proof fn lemma_after_items_keeps_macros(ms: Map<Seq<char>, MacroModel>, r: Seq<SExprModel>)
    ensures
        spec_after_items(ms, r) matches Some((ms2, _)) ==> keeps_macros(ms, ms2),
{
}

/// An atom at the head of a list stands for itself, and the items after it
/// are expanded all the same, whatever the atom is.
pub proof fn law_items_after_an_atom_are_expanded(
    ms: Map<Seq<char>, MacroModel>,
    a: AtomModel,
    xs: Seq<SExprModel>,
)
    ensures
        spec_preprocess_all(ms, seq![SExprModel::Atom(a)] + xs) == (match spec_preprocess_all(
            ms,
            xs,
        ) {
            None => None,
            Some((ms2, Err(_))) => Some((ms2, Err(()))),
            Some((ms2, Ok(ys))) => Some((ms2, Ok(seq![SExprModel::Atom(a)] + ys))),
        }),
{
    let l = seq![SExprModel::Atom(a)] + xs;
    assert(l[0] == SExprModel::Atom(a));
    assert(l.drop_first() =~= xs);
    assert(spec_preprocess(ms, l[0]) == Some((ms, Ok::<SExprModel, ()>(l[0]))));
    assert(spec_preprocess_all(ms, l) == prepend_expr(l[0], spec_preprocess_all(ms, xs)));
}

/// A list headed by the name of a syntax-rule macro expands its other items
/// first, in turn, and then applies the macro's rules to what they expanded to.
pub proof fn law_macro_use_expands_items_first(
    ms: Map<Seq<char>, MacroModel>,
    name: Seq<char>,
    rules: Seq<(SExprModel, SExprModel)>,
    xs: Seq<SExprModel>,
    ms2: Map<Seq<char>, MacroModel>,
    ys: Seq<SExprModel>,
)
    requires
        spec_preprocess_all(ms, xs) == Some((ms2, Ok::<Seq<SExprModel>, ()>(ys))),
        ms2.contains_key(name),
        ms2[name] == MacroModel::Rules(name, rules),
    ensures
        spec_preprocess(ms, SExprModel::List(seq![sym_model(name)] + xs)) == (match spec_apply_rules(
            rules,
            SExprModel::List(ys),
        ) {
            None => None,
            Some(e) => Some((ms2, Ok::<SExprModel, ()>(e))),
        }),
{
    law_items_after_an_atom_are_expanded(ms, AtomModel::Sym(name), xs);
    let r = seq![sym_model(name)] + ys;
    assert(r[0] == sym_model(name));
    assert(r.drop_first() =~= ys);
}

/// A `macro` form whose argument names the macro by a symbol and gives its
/// rules defines that macro, whatever the table held before (an earlier
/// definition of the same name included), and yields `nil`.
pub proof fn law_macro_definition_always_defines(
    ms: Map<Seq<char>, MacroModel>,
    arg: SExprModel,
    rec: RecordModel,
    n: Seq<char>,
)
    requires
        spec_dyn_match(macro_define_pattern_model(), arg) == Some(Ok::<RecordModel, ()>(rec)),
        rec.vars.contains_key(name_key()),
        rec.vars[name_key()] == sym_model(n),
        rec.seqs.contains_key(pattern_key()),
        rec.seqs.contains_key(template_key()),
    ensures
        spec_macro_define(ms, arg) == Some(
            (
                ms.insert(
                    n,
                    MacroModel::Rules(
                        n,
                        zip_rules(rec.seqs[pattern_key()], rec.seqs[template_key()]),
                    ),
                ),
                Ok::<SExprModel, ()>(SExprModel::Atom(AtomModel::Nil)),
            ),
        ),
{
}

// ----- matching, then expanding -----

/// A pattern made of symbols (none of them `...`) and non-empty lists, none
/// of them a two-item list headed by `quote`.
pub open spec fn simple_pattern(p: SExprModel) -> bool
    decreases p, 1int,
{
    match p {
        SExprModel::Atom(AtomModel::Sym(n)) => n != ellipsis_name(),
        SExprModel::Atom(_) => false,
        SExprModel::List(l) => l.len() > 0 && !(l.len() == 2 && l[0] == sym_model(quote_name()))
            && simple_patterns(l),
    }
}

/// Every pattern of `l` is simple.
pub open spec fn simple_patterns(l: Seq<SExprModel>) -> bool
    decreases l, 0int,
{
    l.len() == 0 || (simple_pattern(l[0]) && simple_patterns(l.drop_first()))
}

/// `t` has the shape of `p`: each list of `p` faces a list of `t` of the same length.
pub open spec fn same_shape(p: SExprModel, t: SExprModel) -> bool
    decreases p, 1int,
{
    match p {
        SExprModel::Atom(_) => true,
        SExprModel::List(l) => match t {
            SExprModel::List(y) => l.len() == y.len() && all_same_shape(l, y),
            SExprModel::Atom(_) => false,
        },
    }
}

/// Each of `l` has the shape of the item of `y` at its place.
pub open spec fn all_same_shape(l: Seq<SExprModel>, y: Seq<SExprModel>) -> bool
    decreases l, 0int,
{
    l.len() == 0 || (y.len() > 0 && same_shape(l[0], y[0]) && all_same_shape(
        l.drop_first(),
        y.drop_first(),
    ))
}

/// The names of the symbols of `p`.
pub open spec fn pattern_syms(p: SExprModel) -> Set<Seq<char>>
    decreases p, 1int,
{
    match p {
        SExprModel::Atom(AtomModel::Sym(n)) => set![n],
        SExprModel::Atom(_) => Set::empty(),
        SExprModel::List(l) => patterns_syms(l),
    }
}

/// The names of the symbols of the patterns `l`.
pub open spec fn patterns_syms(l: Seq<SExprModel>) -> Set<Seq<char>>
    decreases l, 0int,
{
    if l.len() == 0 {
        Set::empty()
    } else {
        pattern_syms(l[0]).union(patterns_syms(l.drop_first()))
    }
}

/// No symbol occurs twice in `p`.
pub open spec fn distinct_syms(p: SExprModel) -> bool
    decreases p, 1int,
{
    match p {
        SExprModel::List(l) => all_distinct_syms(l),
        SExprModel::Atom(_) => true,
    }
}

/// No symbol occurs twice in the patterns `l`.
pub open spec fn all_distinct_syms(l: Seq<SExprModel>) -> bool
    decreases l, 0int,
{
    l.len() == 0 || (distinct_syms(l[0]) && all_distinct_syms(l.drop_first()) && pattern_syms(
        l[0],
    ).disjoint(patterns_syms(l.drop_first())))
}

/// What matching `p` against `t` binds each symbol of `p` to.
pub open spec fn pattern_binds(p: SExprModel, t: SExprModel) -> Map<Seq<char>, SExprModel>
    decreases p, 1int,
{
    match p {
        SExprModel::Atom(AtomModel::Sym(n)) => map![n => t],
        SExprModel::Atom(_) => Map::empty(),
        SExprModel::List(l) => match t {
            SExprModel::List(y) => patterns_binds(l, y),
            SExprModel::Atom(_) => Map::empty(),
        },
    }
}

/// What matching the patterns `l` against the items `y` binds, a later
/// item winning on a shared name.
pub open spec fn patterns_binds(l: Seq<SExprModel>, y: Seq<SExprModel>) -> Map<
    Seq<char>,
    SExprModel,
>
    decreases l, 0int,
{
    if l.len() == 0 || y.len() == 0 {
        Map::empty()
    } else {
        pattern_binds(l[0], y[0]).union_prefer_right(patterns_binds(l.drop_first(), y.drop_first()))
    }
}

/// `p` with each symbol `v` replaced by `(unquote v)`.
pub open spec fn unquoted(p: SExprModel) -> SExprModel
    decreases p, 1int,
{
    match p {
        SExprModel::Atom(AtomModel::Sym(n)) => SExprModel::List(
            seq![sym_model(unquote_name()), sym_model(n)],
        ),
        SExprModel::Atom(_) => p,
        SExprModel::List(l) => SExprModel::List(all_unquoted(l)),
    }
}

/// Each of `l` with its symbols unquoted.
pub open spec fn all_unquoted(l: Seq<SExprModel>) -> Seq<SExprModel>
    decreases l, 0int,
{
    if l.len() == 0 {
        Seq::empty()
    } else {
        seq![unquoted(l[0])] + all_unquoted(l.drop_first())
    }
}

/// The variables of a record followed by others: those of the record,
/// overridden by the later ones.
proof fn lemma_merged_vars_cons(r: RecordModel, rest: Seq<RecordModel>)
    ensures
        merged_vars(seq![r] + rest) == r.vars.union_prefer_right(merged_vars(rest)),
        merged_seqs(seq![r] + rest) == r.seqs.union_prefer_right(merged_seqs(rest)),
    decreases rest.len(),
{
    let all = seq![r] + rest;
    assert(merged_vars(all) == merged_vars(all.drop_last()).union_prefer_right(all.last().vars));
    assert(merged_seqs(all) == merged_seqs(all.drop_last()).union_prefer_right(all.last().seqs));
    if rest.len() == 0 {
        assert(all.drop_last() =~= Seq::<RecordModel>::empty());
        assert(all.last() == r);
        assert(merged_vars(all.drop_last()) == Map::<Seq<char>, SExprModel>::empty());
        assert(merged_seqs(all.drop_last()) == Map::<Seq<char>, Seq<SExprModel>>::empty());
        assert(merged_vars(rest) == Map::<Seq<char>, SExprModel>::empty());
        assert(merged_seqs(rest) == Map::<Seq<char>, Seq<SExprModel>>::empty());
        assert(merged_vars(all) =~= r.vars.union_prefer_right(merged_vars(rest)));
        assert(merged_seqs(all) =~= r.seqs.union_prefer_right(merged_seqs(rest)));
    } else {
        lemma_merged_vars_cons(r, rest.drop_last());
        assert(all.drop_last() =~= seq![r] + rest.drop_last());
        assert(all.last() == rest.last());
        assert(merged_vars(rest) == merged_vars(rest.drop_last()).union_prefer_right(rest.last().vars));
        assert(merged_seqs(rest) == merged_seqs(rest.drop_last()).union_prefer_right(rest.last().seqs));
        assert(merged_vars(all) =~= r.vars.union_prefer_right(merged_vars(rest)));
        assert(merged_seqs(all) =~= r.seqs.union_prefer_right(merged_seqs(rest)));
    }
}

/// A simple pattern matches an expression of its shape, binding what
/// `pattern_binds` says and no sequences.
proof fn lemma_simple_match(p: SExprModel, t: SExprModel)
    requires
        simple_pattern(p),
        same_shape(p, t),
    ensures
        spec_dyn_match(p, t) == Some(
            Ok::<RecordModel, ()>(RecordModel { vars: pattern_binds(p, t), seqs: Map::empty() }),
        ),
    decreases p, 1int,
{
    match p {
        SExprModel::Atom(_) => {},
        SExprModel::List(l) => {
            let y = t->List_0;
            lemma_simple_match_prefix(l, y);
            assert(l[l.len() - 1] != sym_model(ellipsis_name())) by {
                lemma_simple_patterns_last(l);
            }
            assert(Map::<Seq<char>, Seq<SExprModel>>::empty().union_prefer_right(
                Map::<Seq<char>, Seq<SExprModel>>::empty(),
            ) =~= Map::<Seq<char>, Seq<SExprModel>>::empty());
        },
    }
}

/// The last of non-empty simple patterns is not the symbol `...`.
proof fn lemma_simple_patterns_last(l: Seq<SExprModel>)
    requires
        l.len() > 0,
        simple_patterns(l),
    ensures
        simple_pattern(l[l.len() - 1]),
        l[l.len() - 1] != sym_model(ellipsis_name()),
    decreases l.len(),
{
    if l.len() > 1 {
        lemma_simple_patterns_last(l.drop_first());
        assert(l.drop_first()[l.len() - 2] == l[l.len() - 1]);
    }
    let x = l[l.len() - 1];
    if x == sym_model(ellipsis_name()) {
        assert(!simple_pattern(x));
    }
}

/// Simple patterns match items of their shapes, one record each.
proof fn lemma_simple_match_prefix(l: Seq<SExprModel>, y: Seq<SExprModel>)
    requires
        simple_patterns(l),
        l.len() == y.len(),
        all_same_shape(l, y),
    ensures
        spec_match_prefix(l, y) matches Some(Ok(rs)) && merged_vars(rs) == patterns_binds(l, y)
            && merged_seqs(rs) == Map::<Seq<char>, Seq<SExprModel>>::empty(),
    decreases l, 0int,
{
    if l.len() == 0 {
        assert(merged_vars(Seq::<RecordModel>::empty()) =~= patterns_binds(l, y));
    } else {
        lemma_simple_match(l[0], y[0]);
        lemma_simple_match_prefix(l.drop_first(), y.drop_first());
        let r0 = RecordModel { vars: pattern_binds(l[0], y[0]), seqs: Map::empty() };
        let rs = spec_match_prefix(l.drop_first(), y.drop_first())->Some_0->Ok_0;
        lemma_merged_vars_cons(r0, rs);
        assert(spec_match_prefix(l, y) == Some(Ok::<Seq<RecordModel>, ()>(seq![r0] + rs)));
        assert(Map::<Seq<char>, Seq<SExprModel>>::empty().union_prefer_right(
            Map::<Seq<char>, Seq<SExprModel>>::empty(),
        ) =~= Map::<Seq<char>, Seq<SExprModel>>::empty());
    }
}

/// Matching an expression of a pattern's shape binds exactly the pattern's symbols.
proof fn lemma_binds_dom(p: SExprModel, t: SExprModel)
    requires
        same_shape(p, t),
    ensures
        pattern_binds(p, t).dom() == pattern_syms(p),
    decreases p, 1int,
{
    match p {
        SExprModel::Atom(AtomModel::Sym(n)) => {
            assert(pattern_binds(p, t).dom() =~= pattern_syms(p));
        },
        SExprModel::Atom(_) => {
            assert(pattern_binds(p, t).dom() =~= pattern_syms(p));
        },
        SExprModel::List(l) => {
            lemma_binds_dom_all(l, t->List_0);
        },
    }
}

/// Matching items of the patterns' shapes binds exactly the patterns' symbols.
proof fn lemma_binds_dom_all(l: Seq<SExprModel>, y: Seq<SExprModel>)
    requires
        l.len() == y.len(),
        all_same_shape(l, y),
    ensures
        patterns_binds(l, y).dom() == patterns_syms(l),
    decreases l, 0int,
{
    if l.len() == 0 {
        assert(patterns_binds(l, y).dom() =~= patterns_syms(l));
    } else {
        lemma_binds_dom(l[0], y[0]);
        lemma_binds_dom_all(l.drop_first(), y.drop_first());
        assert(patterns_binds(l, y).dom() =~= patterns_syms(l));
    }
}

/// Instantiating the unquoted pattern with bindings that agree with what
/// the match bound gives back the expression.
proof fn lemma_expand_unquoted(vars: Map<Seq<char>, SExprModel>, p: SExprModel, t: SExprModel)
    requires
        simple_pattern(p),
        distinct_syms(p),
        same_shape(p, t),
        forall|n: Seq<char>| #[trigger] pattern_syms(p).contains(n) ==> vars.contains_key(n)
            && vars[n] == pattern_binds(p, t)[n],
    ensures
        spec_macro_expand(vars, unquoted(p)) == Some(t),
    decreases p, 1int,
{
    match p {
        SExprModel::Atom(AtomModel::Sym(n)) => {
            assert(pattern_syms(p).contains(n));
        },
        SExprModel::Atom(_) => {},
        SExprModel::List(l) => {
            let y = t->List_0;
            assert(pattern_syms(p) == patterns_syms(l));
            assert(pattern_binds(p, t) == patterns_binds(l, y));
            lemma_expand_all_unquoted(vars, l, y);
            lemma_unquoted_head(l);
        },
    }
}

/// The first of the unquoted simple patterns is a list, not the symbol `unquote`.
proof fn lemma_unquoted_head(l: Seq<SExprModel>)
    requires
        l.len() > 0,
        simple_patterns(l),
    ensures
        all_unquoted(l).len() > 0,
        all_unquoted(l)[0] is List,
{
    assert(all_unquoted(l)[0] == unquoted(l[0]));
    assert(simple_pattern(l[0]));
    match l[0] {
        SExprModel::Atom(AtomModel::Sym(n)) => {},
        SExprModel::Atom(_) => {},
        SExprModel::List(_) => {},
    }
}

/// Instantiating the unquoted patterns `l` gives back the items `y`.
proof fn lemma_expand_all_unquoted(
    vars: Map<Seq<char>, SExprModel>,
    l: Seq<SExprModel>,
    y: Seq<SExprModel>,
)
    requires
        simple_patterns(l),
        all_distinct_syms(l),
        l.len() == y.len(),
        all_same_shape(l, y),
        forall|n: Seq<char>| #[trigger] patterns_syms(l).contains(n) ==> vars.contains_key(n)
            && vars[n] == patterns_binds(l, y)[n],
    ensures
        spec_expand_all(vars, all_unquoted(l)) == Some(y),
    decreases l, 0int,
{
    if l.len() == 0 {
        assert(y =~= Seq::<SExprModel>::empty());
    } else {
        let rest = l.drop_first();
        let yr = y.drop_first();
        lemma_binds_dom(l[0], y[0]);
        lemma_binds_dom_all(rest, yr);
        assert forall|n: Seq<char>| #[trigger] pattern_syms(l[0]).contains(n) implies vars.contains_key(
            n,
        ) && vars[n] == pattern_binds(l[0], y[0])[n] by {
            assert(patterns_syms(l).contains(n));
            assert(!patterns_syms(rest).contains(n));
        }
        assert forall|n: Seq<char>| #[trigger] patterns_syms(rest).contains(n) implies vars.contains_key(
            n,
        ) && vars[n] == patterns_binds(rest, yr)[n] by {
            assert(patterns_syms(l).contains(n));
        }
        lemma_expand_unquoted(vars, l[0], y[0]);
        lemma_expand_all_unquoted(vars, rest, yr);
        let u = all_unquoted(l);
        assert(u[0] == unquoted(l[0]));
        assert(u.drop_first() =~= all_unquoted(rest));
        assert(seq![y[0]] + yr =~= y);
    }
}

/// Matching a pattern made of lists and distinct symbols against an
/// expression of its shape, then instantiating the pattern with each symbol
/// `v` replaced by `(unquote v)`, gives back the expression.
pub proof fn law_match_then_expand_rebuilds(p: SExprModel, t: SExprModel)
    requires
        simple_pattern(p),
        distinct_syms(p),
        same_shape(p, t),
    ensures
        spec_dyn_match(p, t) matches Some(Ok(rec)) && spec_macro_expand(rec.vars, unquoted(p))
            == Some(t),
{
    lemma_simple_match(p, t);
    lemma_binds_dom(p, t);
    lemma_expand_unquoted(pattern_binds(p, t), p, t);
}

/// The table after binding each of `regs` in turn, starting from `m`, as
/// `register_function` and `register_macro` bind a name.
pub open spec fn after_registrations<V>(m: Map<Seq<char>, V>, regs: Seq<(Seq<char>, V)>) -> Map<
    Seq<char>,
    V,
>
    decreases regs.len(),
{
    if regs.len() == 0 {
        m
    } else {
        after_registrations(m, regs.drop_last()).insert(regs.last().0, regs.last().1)
    }
}

/// After a sequence of registrations, a name registered at place `i` and
/// not again later is found with the definition registered at `i`.
pub proof fn law_find_last_registration<V>(
    m: Map<Seq<char>, V>,
    regs: Seq<(Seq<char>, V)>,
    i: int,
)
    requires
        0 <= i < regs.len(),
        forall|j: int| i < j < regs.len() ==> #[trigger] regs[j].0 != regs[i].0,
    ensures
        after_registrations(m, regs).contains_key(regs[i].0),
        after_registrations(m, regs)[regs[i].0] == regs[i].1,
    decreases regs.len(),
{
    if i < regs.len() - 1 {
        let p = regs.drop_last();
        assert forall|j: int| i < j < p.len() implies #[trigger] p[j].0 != p[i].0 by {
            assert(p[j] == regs[j] && p[i] == regs[i]);
            assert(regs[j].0 != regs[i].0);
        }
        law_find_last_registration(m, p, i);
        assert(regs[regs.len() - 1].0 != regs[i].0);
        assert(p[i] == regs[i]);
    }
}

/// After a sequence of registrations, a name never registered is found
/// exactly where it was found before, with the same definition.
pub proof fn law_unregistered_name_unchanged<V>(
    m: Map<Seq<char>, V>,
    regs: Seq<(Seq<char>, V)>,
    k: Seq<char>,
)
    requires
        forall|j: int| 0 <= j < regs.len() ==> #[trigger] regs[j].0 != k,
    ensures
        after_registrations(m, regs).contains_key(k) == m.contains_key(k),
        m.contains_key(k) ==> after_registrations(m, regs)[k] == m[k],
    decreases regs.len(),
{
    if regs.len() > 0 {
        let p = regs.drop_last();
        assert forall|j: int| 0 <= j < p.len() implies #[trigger] p[j].0 != k by {
            assert(p[j] == regs[j]);
        }
        law_unregistered_name_unchanged(m, p, k);
        assert(regs[regs.len() - 1].0 != k);
    }
}

// ----- types -----

/// `Top` and `Bot` stand for any type; `Unit`, `Bool`, `Char`, `U8`, `U32`,
/// `U64`, `I32`, `I64`, `F32` and `F64` each stand for themselves; nothing
/// else is accepted (`Str` and `Arr` not even for themselves).
pub proof fn law_builtin_acceptance(a: BuiltinType, b: BuiltinType)
    ensures
        builtin_accepts(a, b) <==> (a == BuiltinType::Top || a == BuiltinType::Bot || (a == b && (
        a == BuiltinType::Unit || a == BuiltinType::Bool || a == BuiltinType::Char || a
            == BuiltinType::U8 || a == BuiltinType::U32 || a == BuiltinType::U64 || a
            == BuiltinType::I32 || a == BuiltinType::I64 || a == BuiltinType::F32 || a
            == BuiltinType::F64))),
{
}

// ----- text -----

/// Text without backslashes is its own unescaped form.
pub proof fn law_unescape_plain_text(s: Seq<char>)
    requires
        forall|i: int| 0 <= i < s.len() ==> s[i] != '\\',
    ensures
        unescape(s) == s,
    decreases s.len(),
{
    if s.len() > 0 {
        assert forall|i: int| 0 <= i < s.skip(1).len() implies s.skip(1)[i] != '\\' by {
            assert(s.skip(1)[i] == s[i + 1]);
        }
        law_unescape_plain_text(s.skip(1));
        assert(seq![s[0]] + s.skip(1) =~= s);
    }
}

// ----- fresh names -----

/// A decimal numeral has at least one digit.
proof fn lemma_decimal_len(n: nat)
    ensures
        decimal(n).len() >= 1,
        n >= 10 ==> decimal(n).len() >= 2,
    decreases n,
{
    if n >= 10 {
        lemma_decimal_len(n / 10);
    }
}

/// Different digits have different characters.
proof fn lemma_digit_char_injective(a: nat, b: nat)
    requires
        a < 10,
        b < 10,
        digit_char(a) == digit_char(b),
    ensures
        a == b,
{
}

/// Different numbers have different numerals.
pub proof fn law_decimal_injective(a: nat, b: nat)
    requires
        decimal(a) == decimal(b),
    ensures
        a == b,
    decreases a,
{
    lemma_decimal_len(a);
    lemma_decimal_len(b);
    if a < 10 && b < 10 {
        assert(decimal(a)[0] == digit_char(a));
        assert(decimal(b)[0] == digit_char(b));
        lemma_digit_char_injective(a, b);
    } else if a >= 10 && b >= 10 {
        let da = decimal(a);
        let db = decimal(b);
        assert(da.last() == digit_char(a % 10));
        assert(db.last() == digit_char(b % 10));
        lemma_digit_char_injective(a % 10, b % 10);
        assert(da.drop_last() =~= decimal(a / 10));
        assert(db.drop_last() =~= decimal(b / 10));
        law_decimal_injective(a / 10, b / 10);
    }
}

/// Different counters give different names.
pub proof fn law_unique_names_differ(n: u32, m: u32)
    requires
        n != m,
    ensures
        unique_name(n) != unique_name(m),
{
    if unique_name(n) == unique_name(m) {
        let p = seq!['u', 'n', 'n', 'a', 'm', 'e', 'd', '-'];
        assert(unique_name(n).skip(8) =~= decimal(n as nat));
        assert(unique_name(m).skip(8) =~= decimal(m as nat));
        law_decimal_injective(n as nat, m as nat);
    }
}

/// Two names taken one after the other from a generator differ.
pub proof fn law_next_name_is_fresh(n: u32)
    ensures
        unique_name(next_count(n)) != unique_name(n),
{
    law_unique_names_differ(next_count(n), n);
}

/// The counter of a generator after `i` more names, from counter `n`.
pub open spec fn count_after(n: u32, i: nat) -> u32
    decreases i,
{
    if i == 0 {
        n
    } else {
        next_count(count_after(n, (i - 1) as nat))
    }
}

/// After `i` names the counter is `n + i`, modulo 2^32.
proof fn lemma_count_after(n: u32, i: nat)
    ensures
        count_after(n, i) as int == (n + i) % 0x1_0000_0000,
    decreases i,
{
    if i > 0 {
        lemma_count_after(n, (i - 1) as nat);
        let c = count_after(n, (i - 1) as nat);
        let m: int = 0x1_0000_0000;
        assert(c as int == (n + i - 1) % m);
        assert((n + i) % m == if c as int == m - 1 { 0 } else { c as int + 1 }) by {
            let q = (n + i - 1) / m;
            assert(n + i - 1 == q * m + c) by (nonlinear_arith)
                requires c as int == (n + i - 1) % m, m > 0, q == (n + i - 1) / m;
            if c as int == m - 1 {
                assert(n + i == (q + 1) * m) by (nonlinear_arith)
                    requires n + i - 1 == q * m + c, c == m - 1;
                assert((n + i) % m == 0) by (nonlinear_arith)
                    requires n + i == (q + 1) * m, m > 0;
            } else {
                assert(n + i == q * m + (c + 1)) by (nonlinear_arith)
                    requires n + i - 1 == q * m + c;
                assert((n + i) % m == c + 1) by (nonlinear_arith)
                    requires n + i == q * m + (c + 1), 0 <= c + 1 < m;
            }
        }
    }
}

/// Names taken one after another from a generator differ, up to 2^32 of
/// them: the `i`-th and the `j`-th names after counter `n` are different.
pub proof fn law_names_in_a_row_differ(n: u32, i: nat, j: nat)
    requires
        i < j < 0x1_0000_0000,
    ensures
        unique_name(count_after(n, i)) != unique_name(count_after(n, j)),
{
    lemma_count_after(n, i);
    lemma_count_after(n, j);
    let m: int = 0x1_0000_0000;
    assert((n + i) % m != (n + j) % m) by (nonlinear_arith)
        requires 0 <= n < m, 0 <= i < j < m, m > 0;
    law_unique_names_differ(count_after(n, i), count_after(n, j));
}

// ----- code generation -----

/// Every function of `st` is still defined in `st2`.
pub open spec fn keeps_functions(st: GenState, st2: GenState) -> bool {
    forall|k: Seq<char>| #[trigger] st.functions.contains_key(k) ==> st2.functions.contains_key(k)
}

/// Code generation never forgets a function: every function defined before
/// is still defined after.
pub proof fn law_codegen_keeps_functions(st: GenState, e: SExprModel)
    ensures
        spec_base_codegen(st, e) matches Some((st2, _)) ==> keeps_functions(st, st2),
    decreases size(e), 2int, 0int,
{
    match e {
        SExprModel::Atom(_) => {},
        SExprModel::List(_) => {
            lemma_cond_keeps(st, e);
            lemma_begin_keeps(st, e);
            lemma_lambda_keeps(st, e);
            lemma_function_keeps(st, e);
        },
    }
}

/// A symbol generates `(load-sym x)` and every other atom `(load-const a)`,
/// in the same state.
pub proof fn law_atoms_load(st: GenState, a: AtomModel)
    ensures
        a is Sym ==> spec_base_codegen(st, SExprModel::Atom(a)) == Some(
            (
                st,
                seq![SExprModel::List(seq![sym_model("load-sym"@), SExprModel::Atom(a)])],
            ),
        ),
        !(a is Sym) ==> spec_base_codegen(st, SExprModel::Atom(a)) == Some(
            (
                st,
                seq![SExprModel::List(seq![sym_model("load-const"@), SExprModel::Atom(a)])],
            ),
        ),
{
}

/// Generating a sequence of expressions generates the first, then the rest
/// from the state it left, and joins their code; nothing gives nothing.
pub proof fn law_vec_codegen_steps(st: GenState, x: SExprModel, xs: Seq<SExprModel>, b: nat)
    requires
        size(x) < b,
    ensures
        spec_vec_codegen(st, Seq::empty(), b) == Some((st, Seq::<SExprModel>::empty())),
        spec_vec_codegen(st, seq![x] + xs, b) == (match spec_base_codegen(st, x) {
            None => None,
            Some((st1, c1)) => match spec_vec_codegen(st1, xs, b) {
                None => None,
                Some((st2, c2)) => Some((st2, c1 + c2)),
            },
        }),
{
    let all = seq![x] + xs;
    assert(all[0] == x);
    assert(all.drop_first() =~= xs);
}

/// `cond` never forgets a function.
proof fn lemma_cond_keeps(st: GenState, e: SExprModel)
    ensures
        spec_cond_codegen(st, e) matches Some(Ok((st2, _))) ==> keeps_functions(st, st2),
    decreases size(e), 1int, 0int,
{
    match spec_dyn_match(cond_pattern_model(), e) {
        Some(Ok(rec)) => {
            if rec.seqs.contains_key("boolexpr"@) && rec.seqs.contains_key("expr"@) {
                let clauses = spec_cond_clauses(
                    bump(st),
                    rec.seqs["boolexpr"@],
                    rec.seqs["expr"@],
                    unique_name(st.labels),
                    Seq::empty(),
                    size(e),
                );
                lemma_cond_clauses_keeps(
                    bump(st),
                    rec.seqs["boolexpr"@],
                    rec.seqs["expr"@],
                    unique_name(st.labels),
                    Seq::empty(),
                    size(e),
                );
                assert(spec_cond_codegen(st, e) == finish_cond(clauses, unique_name(st.labels)));
                if let Some((st2, code)) = clauses {
                    assert(bump(st).functions == st.functions);
                    assert forall|k: Seq<char>| #[trigger] st.functions.contains_key(k) implies st2.functions.contains_key(k) by {
                        assert(bump(st).functions.contains_key(k));
                    }
                }
            }
        },
        _ => {},
    }
}

/// The clauses of a `cond` never forget a function.
proof fn lemma_cond_clauses_keeps(
    st: GenState,
    bs: Seq<SExprModel>,
    es: Seq<SExprModel>,
    end_label: Seq<char>,
    acc: Seq<SExprModel>,
    b: nat,
)
    ensures
        spec_cond_clauses(st, bs, es, end_label, acc, b) matches Some((st2, _)) ==> keeps_functions(
            st,
            st2,
        ),
    decreases b, 0int, bs.len() + 1,
{
    if bs.len() > 0 && es.len() > 0 {
        lemma_cond_step_keeps(st, bs[0], es[0], end_label, b);
        match spec_cond_step(st, bs[0], es[0], end_label, b) {
            Some((st3, code)) => {
                lemma_cond_clauses_keeps(
                    st3,
                    bs.drop_first(),
                    es.drop_first(),
                    end_label,
                    code,
                    b,
                );
            },
            None => {},
        }
    }
}

/// One `cond` clause never forgets a function.
proof fn lemma_cond_step_keeps(
    st: GenState,
    test: SExprModel,
    body: SExprModel,
    end_label: Seq<char>,
    b: nat,
)
    ensures
        spec_cond_step(st, test, body, end_label, b) matches Some((st2, _)) ==> keeps_functions(
            st,
            st2,
        ),
    decreases b, 0int, 0int,
{
    if size(test) < b && size(body) < b {
        law_codegen_keeps_functions(st, test);
        match spec_base_codegen(st, test) {
            Some((st1, t)) => {
                law_codegen_keeps_functions(st1, body);
            },
            None => {},
        }
    }
}

/// Generating a sequence of expressions never forgets a function.
proof fn lemma_vec_keeps(st: GenState, items: Seq<SExprModel>, b: nat)
    ensures
        spec_vec_codegen(st, items, b) matches Some((st2, _)) ==> keeps_functions(st, st2),
    decreases b, 0int, items.len(),
{
    if items.len() > 0 && size(items[0]) < b {
        law_codegen_keeps_functions(st, items[0]);
        match spec_base_codegen(st, items[0]) {
            Some((st1, c1)) => {
                lemma_vec_keeps(st1, items.drop_first(), b);
            },
            None => {},
        }
    }
}

/// `begin` never forgets a function.
proof fn lemma_begin_keeps(st: GenState, e: SExprModel)
    ensures
        spec_begin_codegen(st, e) matches Some(Ok((st2, _))) ==> keeps_functions(st, st2),
    decreases size(e), 1int, 0int,
{
    match spec_dyn_match(begin_pattern_model(), e) {
        Some(Ok(rec)) => {
            if rec.seqs.contains_key("expr"@) {
                lemma_vec_keeps(st, rec.seqs["expr"@].take(1), size(e));
            }
        },
        _ => {},
    }
}

/// `lambda` never forgets a function.
proof fn lemma_lambda_keeps(st: GenState, e: SExprModel)
    ensures
        spec_lambda_codegen(st, e) matches Some(Ok((st2, _))) ==> keeps_functions(st, st2),
    decreases size(e), 1int, 0int,
{
    match spec_dyn_match(lambda_pattern_model(), e) {
        Some(Ok(rec)) => {
            if rec.seqs.contains_key("body"@) {
                lemma_vec_keeps(st, rec.seqs["body"@], size(e));
            }
        },
        _ => {},
    }
}

/// `function` never forgets a function.
proof fn lemma_function_keeps(st: GenState, e: SExprModel)
    ensures
        spec_function_codegen(st, e) matches Some(Ok((st2, _))) ==> keeps_functions(st, st2),
    decreases size(e), 1int, 0int,
{
    match spec_dyn_match(function_pattern_model(), e) {
        Some(Ok(rec)) => {
            if rec.seqs.contains_key("body"@) {
                lemma_vec_keeps(st, rec.seqs["body"@], size(e));
            }
        },
        _ => {},
    }
}

} // verus!
