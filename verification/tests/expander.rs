use corn_cob::base_macro::{load_prelude_macro, macro_define, macro_define_wrapper};
use corn_cob::context::{
    nil, sym, Atom, CompileContext, MacroDefine, MacroFun, SExpr, SyntaxRuleDefine, TypeDefine, PMNI,
};
use corn_cob::matching::{dyn_match, dyn_match_checked};
use corn_cob::preprocessor::{
    apply_macro, apply_macro_checked, macro_expand, macro_expand_checked, preprocess,
    preprocess_checked,
};
use corn_cob::records::{merge_hash_table, MatchRecord};
use corn_cob::table::NameTable;
use corn_cob::utils::ipse;

fn text(e: &SExpr) -> String {
    e.to_string()
}

fn bound(m: &MatchRecord, k: &str) -> String {
    text(m.0.get(k).expect("bound"))
}

fn bound_seq(m: &MatchRecord, k: &str) -> Vec<String> {
    m.1.get(k).expect("bound").iter().map(text).collect()
}

#[test]
fn symbol_pattern_binds_everything() {
    let m = dyn_match(&sym("x"), &ipse("(a b)")).unwrap();
    assert_eq!(bound(&m, "x"), "(a b)");
    assert_eq!(m.1.entries.len(), 0);
}

#[test]
fn quote_pattern_matches_exactly() {
    let m = dyn_match(&ipse("'cond"), &sym("cond")).unwrap();
    assert_eq!(m.0.entries.len(), 0);
    assert!(dyn_match(&ipse("'cond"), &sym("other")).is_err());
}

#[test]
fn list_pattern_matches_items() {
    let m = dyn_match(&ipse("(a b)"), &ipse("(1 (2 3))")).unwrap();
    assert_eq!(bound(&m, "a"), "1");
    assert_eq!(bound(&m, "b"), "(2 3)");
    // one item short: the last pattern stays unbound
    let m = dyn_match(&ipse("(a b)"), &ipse("(1)")).unwrap();
    assert_eq!(bound(&m, "a"), "1");
    assert!(m.0.get("b").is_none());
    // extra items are ignored
    let m = dyn_match(&ipse("(a)"), &ipse("(1 2 3)")).unwrap();
    assert_eq!(bound(&m, "a"), "1");
}

#[test]
fn ellipsis_groups_repeated_matches() {
    let m = dyn_match(&ipse("(name [pattern template] ...)"), &ipse("(t1 [(_ a) (*a)] [p q])"))
        .unwrap();
    assert_eq!(bound(&m, "name"), "t1");
    assert_eq!(bound_seq(&m, "pattern"), vec!["(_ a)", "p"]);
    assert_eq!(bound_seq(&m, "template"), vec!["(*a)", "q"]);
}

#[test]
fn mismatch_is_an_error() {
    assert!(dyn_match(&ipse("(x 'k)"), &ipse("(1 j)")).is_err());
    assert!(dyn_match(&ipse("(x ...)"), &ipse("(1 2)")).is_ok());
}

#[test]
fn outside_the_domain_is_none() {
    // a list pattern against an atom
    assert!(dyn_match_checked(&ipse("(a b)"), &sym("x")).is_none());
    // a target too short for the pattern
    assert!(dyn_match_checked(&ipse("(a b c)"), &ipse("(1)")).is_none());
    // a pattern that is neither a symbol nor a list
    assert!(dyn_match_checked(&ipse("7"), &ipse("7")).is_none());
    // an empty list pattern
    assert!(dyn_match_checked(&ipse("()"), &ipse("()")).is_none());
}

#[test]
fn merge_prefers_later_records() {
    let a = dyn_match(&sym("x"), &sym("first")).unwrap();
    let b = dyn_match(&sym("x"), &sym("second")).unwrap();
    let c = dyn_match(&sym("y"), &sym("third")).unwrap();
    let m = merge_hash_table(&vec![a, b, c]);
    assert_eq!(bound(&m, "x"), "second");
    assert_eq!(bound(&m, "y"), "third");
}

#[test]
fn expand_replaces_unquotes() {
    let m = dyn_match(&ipse("(a b)"), &ipse("(1 (2 3))")).unwrap();
    let r = macro_expand(&m, &ipse("(f ,a (g ,b) c)")).unwrap();
    assert_eq!(text(&r), "(f 1 (g (2 3)) c)");
    let same = macro_expand(&m, &ipse("(no unquote here)")).unwrap();
    assert_eq!(text(&same), "(no unquote here)");
    assert!(macro_expand_checked(&m, &ipse(",zzz")).is_none());
    assert!(macro_expand_checked(&m, &ipse("(unquote a b)")).is_none());
}

#[test]
fn macro_definition_then_use() {
    let mut context = CompileContext::new();
    load_prelude_macro(&mut context);
    let r = preprocess(&mut context, &ipse("(macro swap [(x y) (,y ,x)])")).unwrap();
    assert!(matches!(r, SExpr::Atom(Atom::Nil)));
    assert!(context.find_macro("swap").is_some());
    let r = preprocess(&mut context, &ipse("(swap 1 2)")).unwrap();
    assert_eq!(text(&r), "(2 1)");
    // items are expanded first
    let r = preprocess(&mut context, &ipse("(list (swap a b))")).unwrap();
    assert_eq!(text(&r), "(list (b a))");
}

#[test]
fn program_scenario() {
    let mut context = CompileContext::new();
    load_prelude_macro(&mut context);
    let r = preprocess(&mut context, &ipse("(macro t1 [(_ a) (*a)])")).unwrap();
    assert_eq!(text(&r), "nil");
    let r = preprocess(&mut context, &ipse("(t1 x)")).unwrap();
    assert_eq!(text(&r), "(*a)");
}

#[test]
fn rules_are_tried_in_order() {
    let mut context = CompileContext::new();
    load_prelude_macro(&mut context);
    preprocess(&mut context, &ipse("(macro m [('one) first] [(x) (other ,x)])")).unwrap();
    assert_eq!(text(&preprocess(&mut context, &ipse("(m one)")).unwrap()), "first");
    assert_eq!(text(&preprocess(&mut context, &ipse("(m two)")).unwrap()), "(other two)");
}

#[test]
fn no_rule_matches_is_outside_the_domain() {
    let mut context = CompileContext::new();
    load_prelude_macro(&mut context);
    preprocess(&mut context, &ipse("(macro m [('one) first])")).unwrap();
    assert!(preprocess_checked(&mut context, &ipse("(m two)")).is_none());
}

#[test]
fn macro_name_must_be_a_symbol() {
    let mut context = CompileContext::new();
    assert!(macro_define_wrapper(&mut context, &ipse("(5 [a b])")).is_err());
    assert!(macro_define(&mut context, &ipse("(m [a b])")).is_ok());
    assert!(context.find_macro("m").is_some());
}

#[test]
fn without_macros_nothing_changes() {
    let mut context = CompileContext::new();
    let e = ipse("(a (b 'c) [d ,e] \"s\")");
    let r = preprocess(&mut context, &e).unwrap();
    assert_eq!(text(&r), text(&e));
    assert!(preprocess_checked(&mut context, &nil()).unwrap().is_ok());
}

#[test]
fn apply_macro_uses_rules() {
    let mut context = CompileContext::new();
    let rules = vec![(ipse("(x)"), ipse("(twice ,x ,x)"))];
    let def = MacroDefine::SyntaxRule(SyntaxRuleDefine("twice".to_string(), rules));
    let r = apply_macro(&mut context, &def, &ipse("(7)")).unwrap();
    assert_eq!(text(&r), "(twice 7 7)");
    assert!(apply_macro_checked(&mut context, &def, &ipse("7")).is_none());
    let native = MacroDefine::ProcessMacro(PMNI(
        "macro".to_string(),
        ipse("(name [pattern template] ...)"),
        MacroFun::MacroDefineWrapper,
    ));
    let r = apply_macro(&mut context, &native, &ipse("(id [(x) ,x])")).unwrap();
    assert_eq!(text(&r), "nil");
    assert!(context.find_macro("id").is_some());
}

#[test]
fn name_table_replaces_values() {
    let mut t: NameTable<u32> = NameTable::new();
    t.insert("a".to_string(), 1);
    t.insert("b".to_string(), 2);
    t.insert("a".to_string(), 3);
    assert_eq!(t.entries.len(), 2);
    assert_eq!(t.get("a"), Some(&3));
    assert_eq!(t.get("b"), Some(&2));
    assert_eq!(t.get("c"), None);
}

#[test]
fn unquote_gives_back_the_match() {
    let target = ipse("(deep (nested [list]) \"s\")");
    let m = dyn_match(&sym("x"), &target).unwrap();
    let r = macro_expand(&m, &ipse(",x")).unwrap();
    assert!(r.equal(&target));
}

#[test]
fn register_then_find() {
    let mut context = CompileContext::new();
    let a = MacroDefine::SyntaxRule(SyntaxRuleDefine("a".to_string(), vec![(sym("x"), sym("y"))]));
    context.register_macro(&"a".to_string(), a);
    context.register_native_macro(&"b".to_string(), nil(), MacroFun::MacroDefineWrapper);
    match context.find_macro("a") {
        Some(MacroDefine::SyntaxRule(SyntaxRuleDefine(n, rules))) => {
            assert_eq!(n, "a");
            assert_eq!(rules.len(), 1);
            assert_eq!(text(&rules[0].0), "x");
            assert_eq!(text(&rules[0].1), "y");
        }
        other => panic!("unexpected {:?}", other),
    }
    match context.find_macro("b") {
        Some(MacroDefine::ProcessMacro(PMNI(n, d, MacroFun::MacroDefineWrapper))) => {
            assert_eq!(n, "b");
            assert_eq!(text(&d), "nil");
        }
        other => panic!("unexpected {:?}", other),
    }
    let replacement = MacroDefine::SyntaxRule(SyntaxRuleDefine("a".to_string(), vec![]));
    context.register_macro(&"a".to_string(), replacement);
    match context.find_macro("a") {
        Some(MacroDefine::SyntaxRule(SyntaxRuleDefine(_, rules))) => assert!(rules.is_empty()),
        other => panic!("unexpected {:?}", other),
    }
    assert!(context.find_macro("b").is_some());
    assert!(context.find_macro("c").is_none());
}

#[test]
fn process_macro_shows_its_name() {
    let m = PMNI("macro".to_string(), nil(), MacroFun::MacroDefineWrapper);
    assert_eq!(m.to_string(), "<process-macro 'macro'>");
}

#[test]
fn expansion_keeps_defined_macros() {
    let mut context = CompileContext::new();
    load_prelude_macro(&mut context);
    preprocess(&mut context, &ipse("(macro swap [(x y) (,y ,x)])")).unwrap();
    preprocess(&mut context, &ipse("(a (b c) 3)")).unwrap();
    preprocess(&mut context, &ipse("(macro other [(x) x])")).unwrap();
    preprocess(&mut context, &ipse("(swap 1 2)")).unwrap();
    assert!(context.find_macro("macro").is_some());
    assert!(context.find_macro("swap").is_some());
    assert!(context.find_macro("other").is_some());
}

#[test]
fn expansion_keeps_defined_types() {
    let mut context = CompileContext::new();
    context.type_defines.insert("num".to_string(), TypeDefine { record: NameTable::new() });
    load_prelude_macro(&mut context);
    preprocess(&mut context, &ipse("(macro swap [(x y) (,y ,x)])")).unwrap();
    preprocess(&mut context, &ipse("(swap 1 2)")).unwrap();
    assert!(context.type_defines.get("num").is_some());
}

#[test]
fn match_then_expand_rebuilds_the_target() {
    let target = ipse("(1 (x \"s\") (z w))");
    let rec = dyn_match(&ipse("(a (b c) d)"), &target).unwrap();
    let r = macro_expand(&rec, &ipse("(,a (,b ,c) ,d)")).unwrap();
    assert!(r.equal(&target));
    assert_eq!(text(&r), "(1 (x \"s\") (z w))");
}
