use lib::variables::{set_var, Variables};

#[test]
fn assign_then_read() {
    let mut v = Variables::new();
    set_var(&mut v, "x", "1");
    assert_eq!(v.get("x"), Some("1".to_string()));
    assert!(v.contains("x"));
    assert_eq!(v.len(), 1);
}

#[test]
fn empty_value_unsets() {
    let mut v = Variables::new();
    set_var(&mut v, "x", "1");
    set_var(&mut v, "x", "");
    assert_eq!(v.get("x"), None);
    assert!(v.is_empty());
}

#[test]
fn empty_name_is_ignored() {
    let mut v = Variables::new();
    set_var(&mut v, "", "1");
    assert!(v.is_empty());
}

#[test]
fn last_assignment_wins() {
    let mut v = Variables::new();
    set_var(&mut v, "a", "first");
    set_var(&mut v, "a", "second");
    assert_eq!(v.get("a"), Some("second".to_string()));
    assert_eq!(v.len(), 1);
}

#[test]
fn other_variables_kept() {
    let mut v = Variables::new();
    set_var(&mut v, "a", "1");
    set_var(&mut v, "b", "2");
    set_var(&mut v, "a", "");
    assert_eq!(v.get("b"), Some("2".to_string()));
    assert_eq!(v.get("a"), None);
}

#[test]
fn lines_in_ascending_order() {
    let mut v = Variables::new();
    set_var(&mut v, "zeta", "last");
    set_var(&mut v, "alpha", "first");
    set_var(&mut v, "mid", "m");
    set_var(&mut v, "?", "0");
    assert_eq!(v.lines(), vec!["?=0", "alpha=first", "mid=m", "zeta=last"]);
}

#[test]
fn insert_and_remove() {
    let mut v = Variables::new();
    v.insert("k", "");
    assert_eq!(v.get("k"), Some(String::new()));
    v.remove("k");
    v.remove("absent");
    assert!(v.is_empty());
}
