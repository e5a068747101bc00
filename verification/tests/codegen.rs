use corn_cob::context::{
    nil, sym, Atom, BuiltinType, CompileError, FunctionDefine, RuntimeContext, SExpr, TypeDefine,
    TypeExpr,
};
use corn_cob::gen2lyzh4ir::{base_codegen, base_codegen_checked, weak_type_check, weak_type_inference};
use corn_cob::table::NameTable;
use corn_cob::utils::{concat_vec, ipse, next_name, UniqueID};

fn texts(v: &Vec<SExpr>) -> Vec<String> {
    v.iter().map(|e| e.to_string()).collect()
}

fn code_of(r: Result<(RuntimeContext, Vec<SExpr>), CompileError>) -> Vec<SExpr> {
    r.unwrap().1
}

#[test]
fn atoms_load() {
    let rc = RuntimeContext::new();
    let mut ids = UniqueID::new();
    assert_eq!(texts(&code_of(base_codegen(&rc, &mut ids, &sym("x")))), vec!["(load-sym x)"]);
    assert_eq!(texts(&code_of(base_codegen(&rc, &mut ids, &nil()))), vec!["(load-const nil)"]);
    assert_eq!(
        texts(&code_of(base_codegen(&rc, &mut ids, &ipse("42")))),
        vec!["(load-const 42)"]
    );
}

#[test]
fn cond_generates_jumps() {
    let rc = RuntimeContext::new();
    let mut ids = UniqueID::new();
    let code = code_of(base_codegen(&rc, &mut ids, &ipse("(cond [a b])")));
    assert_eq!(
        texts(&code),
        vec![
            "(load-sym a)",
            "(dyn-cast builtin.bool)",
            "(if-false-jump unnamed-1)",
            "(load-sym b)",
            "(jump unnamed-0)",
            "(:label unnamed-1)",
            "(built-exception-throw \"Conditional branch is not captured\")",
            "(:label unnamed-0)",
        ]
    );
    // the label generator went on
    assert_eq!(next_name(&mut ids), "unnamed-2");
}

#[test]
fn cond_keeps_the_last_clause() {
    let rc = RuntimeContext::new();
    let mut ids = UniqueID::new();
    let code = code_of(base_codegen(&rc, &mut ids, &ipse("(cond [a b] [c d])")));
    assert_eq!(
        texts(&code),
        vec![
            "(load-sym c)",
            "(dyn-cast builtin.bool)",
            "(if-false-jump unnamed-2)",
            "(load-sym d)",
            "(jump unnamed-0)",
            "(:label unnamed-2)",
            "(built-exception-throw \"Conditional branch is not captured\")",
            "(:label unnamed-0)",
        ]
    );
}

#[test]
fn begin_generates_the_first_expression() {
    let rc = RuntimeContext::new();
    let mut ids = UniqueID::new();
    let code = code_of(base_codegen(&rc, &mut ids, &ipse("(begin (cond [a b]) (cond [c d]))")));
    assert_eq!(
        texts(&code),
        vec![
            "(load-sym a)",
            "(dyn-cast builtin.bool)",
            "(if-false-jump unnamed-1)",
            "(load-sym b)",
            "(jump unnamed-0)",
            "(:label unnamed-1)",
            "(built-exception-throw \"Conditional branch is not captured\")",
            "(:label unnamed-0)",
        ]
    );
    // the second expression is not generated
    assert_eq!(next_name(&mut ids), "unnamed-2");
}

#[test]
fn lambda_registers_a_function() {
    let rc = RuntimeContext::new();
    let mut ids = UniqueID::new();
    let (rc2, code) = base_codegen(&rc, &mut ids, &ipse("(lambda (x y) (cond [x y]))")).unwrap();
    assert!(code.is_empty());
    // the context given is left as it was
    assert!(rc.find_function("unnamed-2").is_none());
    let f = rc2.find_function("unnamed-2").expect("registered");
    assert_eq!(f.name, "unnamed-2");
    assert_eq!(f.args, vec!["x".to_string(), "y".to_string()]);
    assert_eq!(texts(&f.code_block)[0], "(load-sym x)");
    assert_eq!(f.code_block.len(), 8);
    assert!(f.pure_flag.is_none());
    assert!(f.typeinfo.is_none());
    assert!(rc2.find_function("unnamed-0").is_none());
}

#[test]
fn lambda_variables_must_be_symbols() {
    let rc = RuntimeContext::new();
    let mut ids = UniqueID::new();
    // the lambda attempt fails on the variable `1`; the function attempt then
    // meets a target too short for its pattern
    assert!(base_codegen_checked(&rc, &mut ids, &ipse("(lambda (x 1) (cond [x x]))")).is_none());
    assert!(rc.find_function("unnamed-0").is_none());
}

#[test]
fn function_forms_are_outside_the_domain() {
    let rc = RuntimeContext::new();
    let mut ids = UniqueID::new();
    // the `cond` attempt meets the atom `inc` where it expects a clause
    assert!(base_codegen_checked(&rc, &mut ids, &ipse("(function inc (n) (cond [n n]))")).is_none());
}

#[test]
fn other_lists_are_outside_the_domain() {
    let rc = RuntimeContext::new();
    let mut ids = UniqueID::new();
    assert!(base_codegen_checked(&rc, &mut ids, &ipse("(f)")).is_none());
    assert!(base_codegen_checked(&rc, &mut ids, &ipse("(f x)")).is_none());
    assert!(base_codegen_checked(&rc, &mut ids, &ipse("(begin 1 2)")).is_none());
}

#[test]
fn types_of_expressions() {
    assert!(matches!(weak_type_inference(&nil()), TypeExpr::Built(BuiltinType::Top)));
    assert!(matches!(
        weak_type_check(&nil(), &TypeExpr::Built(BuiltinType::Bool)),
        Ok(TypeExpr::Built(BuiltinType::Top))
    ));
}

#[test]
fn builtin_assert() {
    assert!(matches!(BuiltinType::Top.assert_type(&BuiltinType::Str), Ok(BuiltinType::Top)));
    assert!(matches!(BuiltinType::Bot.assert_type(&BuiltinType::U8), Ok(BuiltinType::Bot)));
    assert!(matches!(BuiltinType::I64.assert_type(&BuiltinType::I64), Ok(BuiltinType::I64)));
    assert!(matches!(BuiltinType::I64.assert_type(&BuiltinType::I32), Err(CompileError())));
    assert!(BuiltinType::Str.assert_type(&BuiltinType::Str).is_err());
    assert!(BuiltinType::Arr.assert_type(&BuiltinType::Arr).is_err());
    assert!(BuiltinType::Unit.assert_type(&BuiltinType::Top).is_err());
    assert!(matches!(
        TypeExpr::Built(BuiltinType::F64).assert_type(&TypeExpr::Built(BuiltinType::F64)),
        Ok(TypeExpr::Built(BuiltinType::F64))
    ));
    assert!(TypeExpr::Built(BuiltinType::F64)
        .assert_type(&TypeExpr::Built(BuiltinType::F32))
        .is_err());
}

#[test]
fn unique_names_count_up() {
    let mut ids = UniqueID::new();
    assert_eq!(ids.next(), "unnamed-0");
    assert_eq!(ids.next(), "unnamed-1");
    for _ in 0..8 {
        ids.next();
    }
    assert_eq!(ids.next(), "unnamed-10");
}

#[test]
fn concat_keeps_order() {
    let v = concat_vec(vec![sym("a"), sym("b")], vec![sym("c")]);
    assert_eq!(texts(&v), vec!["a", "b", "c"]);
    assert_eq!(texts(&concat_vec(Vec::new(), Vec::new())), Vec::<String>::new());
}

#[test]
fn expression_text() {
    assert_eq!(SExpr::Atom(Atom::Bool(true)).to_string(), "true");
    assert_eq!(SExpr::Atom(Atom::Bool(false)).to_string(), "false");
    assert_eq!(SExpr::Atom(Atom::Int(-12)).to_string(), "-12");
    assert_eq!(SExpr::Atom(Atom::Int(i64::MIN)).to_string(), "-9223372036854775808");
    assert_eq!(SExpr::Atom(Atom::Uint(0)).to_string(), "0");
    assert_eq!(SExpr::Atom(Atom::Char('c')).to_string(), "'c'");
    assert_eq!(SExpr::Atom(Atom::Str("hi".to_string())).to_string(), "\"hi\"");
    assert_eq!(SExpr::List(vec![]).to_string(), "()");
    assert_eq!(
        SExpr::List(vec![sym(""), sym("a"), SExpr::List(vec![])]).to_string(),
        "(a ())"
    );
    assert_eq!(Atom::Nil.to_string(), "nil");
}

#[test]
fn expression_accessors() {
    let e = ipse("(a b)");
    assert!(!e.is_sym());
    assert_eq!(e.get_list().len(), 2);
    assert_eq!(e.get_list()[0].get_sym(), "a");
    assert!(e.equal(&ipse("( a  b )")));
    assert!(!e.equal(&ipse("(a c)")));
}

#[test]
fn codegen_keeps_earlier_functions() {
    let rc = RuntimeContext::new();
    let mut ids = UniqueID::new();
    let (rc, code) = base_codegen(&rc, &mut ids, &ipse("(lambda (x) (cond [x x]))")).unwrap();
    assert!(code.is_empty());
    assert!(rc.find_function("unnamed-2").is_some());
    let (rc, _) = base_codegen(&rc, &mut ids, &ipse("(cond [a b])")).unwrap();
    let (rc, _) = base_codegen(&rc, &mut ids, &ipse("(lambda (y) (cond [y y]))")).unwrap();
    let (rc, _) = base_codegen(&rc, &mut ids, &sym("z")).unwrap();
    let f = rc.find_function("unnamed-2").expect("still registered");
    assert_eq!(f.args, vec!["x".to_string()]);
    assert!(rc.find_function("unnamed-7").is_some());
}

#[test]
fn codegen_returns_a_new_context() {
    let mut rc = RuntimeContext::new();
    let mut record = NameTable::new();
    record.insert("n".to_string(), TypeExpr::Built(BuiltinType::I64));
    rc.type_defines.insert("num".to_string(), TypeDefine { record });
    let mut ids = UniqueID::new();
    let (rc2, _) = base_codegen(&rc, &mut ids, &ipse("(lambda (x) (cond [x x]))")).unwrap();
    assert!(rc.find_function("unnamed-2").is_none());
    assert!(rc2.find_function("unnamed-2").is_some());
    let t = rc2.type_defines.get("num").expect("types are kept");
    assert!(matches!(t.record.get("n"), Some(TypeExpr::Built(BuiltinType::I64))));
}

#[test]
fn find_gives_the_last_registration() {
    let mut rc = RuntimeContext::default();
    assert!(rc.type_defines.get("any").is_none());
    let def = |name: &str, arg: &str| FunctionDefine {
        name: name.to_string(),
        pure_flag: None,
        typeinfo: None,
        args: vec![arg.to_string()],
        code_block: vec![],
    };
    rc.register_function(&"f".to_string(), def("f", "a"));
    rc.register_function(&"g".to_string(), def("g", "b"));
    rc.register_function(&"f".to_string(), def("f", "c"));
    assert_eq!(rc.find_function("f").unwrap().args, vec!["c".to_string()]);
    assert_eq!(rc.find_function("g").unwrap().args, vec!["b".to_string()]);
    assert!(rc.find_function("h").is_none());
}
