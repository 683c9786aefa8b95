use zypo_lib::parser::scope::Scope;

/// A fresh scope holds exactly the global frame.
#[test]
fn new_scope_depth() {
    let s: Scope<i32> = Scope::new();
    assert_eq!(s.depth(), 1);
}

/// Entering and leaving frames is balanced: the depth returns to its
/// initial value after each pair.
#[test]
fn enter_leave_balance() {
    let mut s: Scope<i32> = Scope::new();
    s.enter_scope();
    s.enter_scope();
    assert_eq!(s.depth(), 3);
    s.leave_scope();
    assert_eq!(s.depth(), 2);
    s.leave_scope();
    assert_eq!(s.depth(), 1);
}

/// An inner declaration shadows the outer one, and leaving the inner frame
/// makes the outer binding visible again.
#[test]
fn shadowing_resolution() {
    let mut s: Scope<i32> = Scope::new();
    assert_eq!(s.insert("x".to_string(), 1), None);
    s.enter_scope();
    assert_eq!(s.insert("x".to_string(), 2), None);
    assert_eq!(s.get(&"x".to_string()), Some(&2));
    s.leave_scope();
    assert_eq!(s.get(&"x".to_string()), Some(&1));
}

/// Inserting a name twice into one frame returns the previous binding;
/// resolution of an unknown name returns nothing.
#[test]
fn insert_returns_previous() {
    let mut s: Scope<&str> = Scope::new();
    assert_eq!(s.insert("k".to_string(), "first"), None);
    assert_eq!(s.insert("k".to_string(), "second"), Some("first"));
    assert_eq!(s.get(&"k".to_string()), Some(&"second"));
    assert_eq!(s.get(&"missing".to_string()), None);
}

/// Bindings of a left frame are discarded for good.
#[test]
fn leaving_discards_bindings() {
    let mut s: Scope<i32> = Scope::new();
    s.enter_scope();
    s.insert("tmp".to_string(), 7);
    s.leave_scope();
    assert_eq!(s.get(&"tmp".to_string()), None);
}
