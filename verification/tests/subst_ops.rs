use pattern_subst::Id;
use pattern_subst::Subst;
use pattern_subst::Var;

fn v(text: &str) -> Var {
    Var::parse(text).unwrap()
}

#[test]
fn empty_and_first_insert() {
    let mut s = Subst::with_capacity(4);
    assert_eq!(s.len(), 0);
    assert!(s.is_empty());
    assert_eq!(s.get(v("?x")), None);

    let prev = s.insert(v("?x"), Id(3));
    assert_eq!(prev, None);
    assert_eq!(s.len(), 1);
    assert!(!s.is_empty());
    assert_eq!(s.get(v("?x")), Some(Id(3)));
    assert_eq!(s.index(v("?x")), Id(3));
}

#[test]
fn rebinding_keeps_position() {
    let mut s = Subst::with_capacity(0);
    assert_eq!(s.insert(v("?x"), Id(1)), None);
    assert_eq!(s.insert(v("?y"), Id(2)), None);
    let prev = s.insert(v("?x"), Id(9));
    assert_eq!(prev, Some(Id(1)));
    assert_eq!(s.get(v("?x")), Some(Id(9)));
    assert_eq!(s.len(), 2);
    assert_eq!(s.iter(), vec![(v("?x"), Id(9)), (v("?y"), Id(2))]);
}

#[test]
fn from_pairs_first_wins() {
    let pairs = vec![(v("?v1"), Id(10)), (v("?v2"), Id(20)), (v("?v1"), Id(30))];
    let s = Subst::from_pairs(&pairs);
    assert_eq!(s.len(), 2);
    assert_eq!(s.get(v("?v1")), Some(Id(10)));
    assert_eq!(s.get(v("?v2")), Some(Id(20)));
    assert_eq!(s.iter(), vec![(v("?v1"), Id(10)), (v("?v2"), Id(20))]);
}

#[test]
fn get_unbound_is_none() {
    let mut s = Subst::with_capacity(1);
    s.insert(v("?bound"), Id(1));
    assert_eq!(s.get(v("?unbound")), None);
    assert_eq!(s.get(Var::from_u32(5)), None);
}

#[test]
fn iteration_is_restartable() {
    let mut s = Subst::with_capacity(2);
    s.insert(v("?a"), Id(1));
    s.insert(Var::from_u32(2), Id(2));
    s.insert(v("?c"), Id(3));
    let once = s.iter();
    let twice = s.iter();
    assert_eq!(once, twice);
    assert_eq!(
        once,
        vec![(v("?a"), Id(1)), (Var::from_u32(2), Id(2)), (v("?c"), Id(3))]
    );
}

#[test]
fn numeric_and_symbol_keys_are_distinct() {
    let mut s = Subst::with_capacity(2);
    let sym = Var::from_symbol(symbol_table::GlobalSymbol::from("?#1"));
    let num = Var::from_u32(1);
    s.insert(sym, Id(7));
    s.insert(num, Id(8));
    assert_eq!(s.len(), 2);
    assert_eq!(s.get(sym), Some(Id(7)));
    assert_eq!(s.get(num), Some(Id(8)));
}

#[test]
fn debug_rendering() {
    let mut s = Subst::with_capacity(2);
    assert_eq!(s.debug_string(), "{}");
    s.insert(v("?x"), Id(1));
    assert_eq!(s.debug_string(), "{?x: 1}");
    s.insert(Var::from_u32(10), Id(25));
    assert_eq!(s.debug_string(), "{?x: 1, ?#10: 25}");
}

#[test]
fn clone_and_default() {
    let empty = Subst::default();
    assert!(empty.is_empty());

    let mut s = Subst::with_capacity(1);
    s.insert(v("?x"), Id(4));
    let mut t = s.clone();
    assert_eq!(t.iter(), s.iter());
    // The copy is independent of the value it was cloned from.
    t.insert(v("?y"), Id(5));
    assert_eq!(s.len(), 1);
    assert_eq!(t.len(), 2);
}

#[test]
fn id_value() {
    let id = Id(12);
    assert_eq!(id.value(), 12);
    assert_eq!(id.0, 12);
}
