use std::str::FromStr;

use pattern_subst::Var;
use pattern_subst::VarExposed;
use pattern_subst::VarParseError;

#[test]
fn var_parse() {
    assert_eq!(Var::from_str("?a").unwrap().display_string(), "?a");
    assert_eq!(Var::from_str("?abc 123").unwrap().display_string(), "?abc 123");
    assert!(Var::from_str("a").is_err());
    assert!(Var::from_str("a?").is_err());
    assert!(Var::from_str("?").is_err());
    assert!(Var::from_str("?#").is_err());
    assert!(Var::from_str("?#foo").is_err());

    // numeric vars
    assert_eq!(Var::from_str("?#0").unwrap(), Var::from_u32(0));
    assert_eq!(Var::from_str("?#010").unwrap(), Var::from_u32(10));
    assert_eq!(Var::from_str("?#10").unwrap(), Var::from_str("?#0010").unwrap());
    assert_eq!(Var::from_str("?#010").unwrap(), Var::from_u32(10));
}

#[test]
fn symbol_round_trip() {
    for text in ["?x", "?abc", "?x-y-z", "?1a", "??", "?\u{e9}t\u{e9}"] {
        let v = Var::parse(text).unwrap();
        assert_eq!(v.display_string(), text);
    }
}

#[test]
fn numeric_canonical_display() {
    assert_eq!(Var::parse("?#0010").unwrap().display_string(), "?#10");
    assert_eq!(Var::parse("?#10").unwrap().display_string(), "?#10");
    assert_eq!(Var::parse("?#0").unwrap().display_string(), "?#0");
    assert_eq!(Var::parse("?#000").unwrap().display_string(), "?#0");
    assert_eq!(Var::from_u32(4294967295).display_string(), "?#4294967295");
    assert_eq!(
        Var::parse("?#0004294967295").unwrap(),
        Var::from_u32(4294967295)
    );
}

#[test]
fn missing_question_mark_errors() {
    for text in ["a", "a?", "?", ""] {
        match Var::parse(text) {
            Err(VarParseError::MissingQuestionMark(t)) => assert_eq!(t, text),
            other => panic!("expected MissingQuestionMark, got {:?}", other),
        }
    }
}

#[test]
fn bad_number_errors() {
    for text in ["?#", "?#foo", "?##", "?#x7", "?#12x", "?#+5", "?#-5", "?# 1", "?#4294967296"] {
        match Var::parse(text) {
            Err(VarParseError::BadNumber(t)) => assert_eq!(t, text),
            other => panic!("expected BadNumber, got {:?}", other),
        }
    }
}

#[test]
fn error_messages() {
    let e = Var::parse("a").unwrap_err();
    assert_eq!(
        e.message(),
        "pattern variable \"a\" should have a leading question mark"
    );
    let e = Var::parse("?#foo").unwrap_err();
    assert_eq!(e.message(), "number pattern variable \"?#foo\" was malformed");
}

#[test]
fn variants_never_equal() {
    // A symbol variable whose text happens to look numeric is still a
    // different variable from the numeric one that displays the same.
    let sym = Var::from_symbol(symbol_table::GlobalSymbol::from("?#1"));
    let num = Var::parse("?#1").unwrap();
    assert_eq!(sym.display_string(), num.display_string());
    assert_ne!(sym, num);
}

#[test]
fn symbol_equality_is_by_text() {
    let a = Var::parse("?a").unwrap();
    let b = Var::from_symbol(symbol_table::GlobalSymbol::from("?a"));
    let c = Var::parse("?b").unwrap();
    assert_eq!(a, b);
    assert_ne!(a, c);
    assert_ne!(a, Var::from_u32(0));
}

#[test]
fn as_u32_and_expose() {
    let n = Var::from_u32(42);
    assert_eq!(n.as_u32(), Some(42));
    assert_eq!(n.expose(), VarExposed::Num(42));
    assert_eq!(n.expose().try_into_num(), Ok(42));
    assert_eq!(n.expose().try_into_sym(), Err(VarExposed::Num(42)));

    let s = Var::parse("?a").unwrap();
    assert_eq!(s.as_u32(), None);
    assert_eq!(s.expose(), VarExposed::Sym("?a"));
    assert_eq!(s.expose().try_into_sym(), Ok("?a"));
    assert_eq!(s.expose().try_into_num(), Err(VarExposed::Sym("?a")));
}

#[test]
fn debug_strings() {
    assert_eq!(Var::parse("?a b").unwrap().debug_string(), "\"?a b\"");
    assert_eq!(Var::from_u32(7).debug_string(), "?#7");
}
