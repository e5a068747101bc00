use corn_cob::context::{Atom, SExpr};
use corn_cob::parser::{escape, escape_char_map, parse};
use corn_cob::utils::{internal_parse_simple_expr, ipse};

fn text(e: &SExpr) -> String {
    e.to_string()
}

fn read_all(src: &str) -> Vec<String> {
    parse(src).expect("readable").iter().map(text).collect()
}

#[test]
fn reads_atoms() {
    let es = parse("nil #t #f 42 -7 +3 1.50 sym 'x' \"s\" r\"raw\\n\"").unwrap();
    assert_eq!(es.len(), 11);
    assert!(matches!(es[0], SExpr::Atom(Atom::Nil)));
    assert!(matches!(es[1], SExpr::Atom(Atom::Bool(true))));
    assert!(matches!(es[2], SExpr::Atom(Atom::Bool(false))));
    assert!(matches!(es[3], SExpr::Atom(Atom::Uint(42))));
    assert!(matches!(es[4], SExpr::Atom(Atom::Int(-7))));
    assert!(matches!(es[5], SExpr::Atom(Atom::Int(3))));
    match &es[6] {
        SExpr::Atom(Atom::Float(t)) => assert_eq!(t, "1.50"),
        other => panic!("not a float: {:?}", other),
    }
    match &es[7] {
        SExpr::Atom(Atom::Sym(t)) => assert_eq!(t, "sym"),
        other => panic!("not a symbol: {:?}", other),
    }
    assert!(matches!(es[8], SExpr::Atom(Atom::Char('x'))));
    match &es[9] {
        SExpr::Atom(Atom::Str(t)) => assert_eq!(t, "s"),
        other => panic!("not a string: {:?}", other),
    }
    match &es[10] {
        SExpr::Atom(Atom::Str(t)) => assert_eq!(t, "raw\\n"),
        other => panic!("not a string: {:?}", other),
    }
}

#[test]
fn reads_lists_and_brackets() {
    assert_eq!(read_all("(macro t1 [(_ a) (*a)])"), vec!["(macro t1 ((_ a) (*a)))"]);
    assert_eq!(read_all("()"), vec!["()"]);
    assert_eq!(read_all("(a (b c) d) e"), vec!["(a (b c) d)", "e"]);
}

#[test]
fn reads_quote_and_unquote() {
    assert_eq!(read_all("'a"), vec!["(quote a)"]);
    assert_eq!(read_all(",x"), vec!["(unquote x)"]);
    assert_eq!(read_all("'(a b)"), vec!["(quote (a b))"]);
    assert_eq!(read_all("'\\n'"), vec!["'\n'"]);
}

#[test]
fn reads_escapes_in_strings() {
    let es = parse("\"a\\tb\\\"c\\\\\"").unwrap();
    match &es[0] {
        SExpr::Atom(Atom::Str(t)) => assert_eq!(t, "a\tb\"c\\"),
        other => panic!("not a string: {:?}", other),
    }
}

#[test]
fn skips_layout_and_comments() {
    assert_eq!(read_all("  ; a comment\n  x ; more\n y"), vec!["x", "y"]);
    assert_eq!(read_all(""), Vec::<String>::new());
    assert_eq!(read_all(" \t\r\n"), Vec::<String>::new());
}

#[test]
fn rejects_unreadable_text() {
    assert!(parse("(a b").is_none());
    assert!(parse("a)").is_none());
    assert!(parse("(a]").is_none());
    assert!(parse("\"open").is_none());
    assert!(parse("\"bad \\q escape\"").is_none());
    assert!(parse("18446744073709551616").is_none());
    assert!(parse("-9223372036854775809").is_none());
    assert!(parse("'").is_none());
}

#[test]
fn reads_integer_limits() {
    let es = parse("18446744073709551615 -9223372036854775808 +9223372036854775807").unwrap();
    assert!(matches!(es[0], SExpr::Atom(Atom::Uint(u64::MAX))));
    assert!(matches!(es[1], SExpr::Atom(Atom::Int(i64::MIN))));
    assert!(matches!(es[2], SExpr::Atom(Atom::Int(i64::MAX))));
}

#[test]
fn words_that_are_symbols() {
    assert_eq!(read_all("- + ... 1.x nil2 #true"), vec!["-", "+", "...", "1.x", "nil2", "#true"]);
    let es = parse("nil2").unwrap();
    assert!(es[0].is_sym());
}

#[test]
fn escape_maps_each_escape() {
    assert_eq!(escape_char_map('n'), '\n');
    assert_eq!(escape_char_map('r'), '\r');
    assert_eq!(escape_char_map('t'), '\t');
    assert_eq!(escape_char_map('\\'), '\\');
    assert_eq!(escape_char_map('\''), '\'');
    assert_eq!(escape_char_map('"'), '"');
}

#[test]
fn escape_replaces_escapes() {
    assert_eq!(escape("plain text"), "plain text");
    assert_eq!(escape("a\\nb"), "a\nb");
    assert_eq!(escape("\\\"q\\\""), "\"q\"");
    assert_eq!(escape("end\\"), "end");
}

#[test]
fn internal_parse_takes_the_first() {
    assert_eq!(text(&internal_parse_simple_expr("(a b) c")), "(a b)");
    assert_eq!(text(&ipse("(name [pattern template] ...)")), "(name (pattern template) ...)");
}

#[test]
fn printed_text_reads_back() {
    for src in [
        "(quote (a b))",
        "(f -12 7 2.50 'c' \"text\" nil () (x (y)))",
        "sym",
        "18446744073709551615",
        "(unquote x)",
    ] {
        let e = ipse(src);
        let printed = e.to_string();
        let again = parse(&printed).expect("reads back");
        assert_eq!(again.len(), 1);
        assert!(again[0].equal(&e), "{} read back as {}", printed, again[0].to_string());
    }
}

#[test]
fn booleans_print_as_words() {
    let e = ipse("#t");
    assert_eq!(e.to_string(), "true");
    let again = parse(&e.to_string()).unwrap();
    assert!(again[0].is_sym());
}
