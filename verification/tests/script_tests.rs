use rogue_creator::packages::math::int_pow;
use rogue_creator::script::ident::{combine_list, make_id, str_to_int};
use rogue_creator::script::resolver::Resolver;
use rogue_creator::script::scope::{Scope, ScopeStack};

#[test]
fn resolver_refs() {
    let mut r = Resolver::new();
    assert_eq!(r.get_package_ref(None), None);
    assert_eq!(r.get_package_ref(Some("m")), None);
    r.set_package("root");
    r.add_package_ref("m", "main.scr");
    assert_eq!(r.get_package_ref(None), Some("root".to_string()));
    assert_eq!(r.get_package_ref(Some("m")), Some("main.scr".to_string()));
    r.add_package_ref("m", "other.scr");
    assert_eq!(r.get_package_ref(Some("m")), Some("other.scr".to_string()));
    r.reset_package_refs();
    assert_eq!(r.get_package_ref(None), None);
    assert_eq!(r.get_package_ref(Some("m")), None);
}

#[test]
fn scope_declare_and_read() {
    let mut sc: Scope<i64> = Scope::new(0);
    assert_eq!(sc.get_var("x"), None);
    assert!(sc.new_var("x", Some(30)));
    assert_eq!(sc.get_var("x"), Some(&30));
    assert!(!sc.new_var("x", Some(31)));
    assert_eq!(sc.get_var("x"), Some(&30));
    assert!(sc.new_var("y", None));
    assert_eq!(sc.get_var("y"), Some(&0));
}

#[test]
fn scope_set() {
    let mut sc: Scope<i64> = Scope::new(0);
    assert!(!sc.set_var("x", 30));
    assert_eq!(sc.get_var("x"), None);
    sc.new_var("x", Some(30));
    assert!(sc.set_var("x", 25));
    assert_eq!(sc.get_var("x"), Some(&25));
}

#[test]
fn scope_extend_and_reduce() {
    let mut sc: Scope<i64> = Scope::new(0);
    sc.extend();
    sc.new_var("x", Some(30));
    assert_eq!(sc.get_var("x"), Some(&30));
    sc.reduce();
    assert_eq!(sc.get_var("x"), None);
}

#[test]
fn scope_shadow_and_retract() {
    let mut sc: Scope<i64> = Scope::new(0);
    sc.new_var("x", Some(30));
    sc.extend();
    assert_eq!(sc.get_var("x"), Some(&30));
    sc.new_var("x", Some(25));
    assert_eq!(sc.get_var("x"), Some(&25));
    assert!(sc.set_var("x", 26));
    sc.reduce();
    assert_eq!(sc.get_var("x"), Some(&30));
}

#[test]
fn scope_set_reaches_outer_frame() {
    let mut sc: Scope<i64> = Scope::new(0);
    sc.new_var("x", Some(1));
    sc.extend();
    assert!(sc.set_var("x", 2));
    sc.reduce();
    assert_eq!(sc.get_var("x"), Some(&2));
}

#[test]
fn scope_without_frames() {
    let mut sc: Scope<i64> = Scope::new(0);
    sc.reduce();
    assert!(!sc.new_var("x", Some(1)));
    assert_eq!(sc.get_var("x"), None);
    sc.reduce();
    assert_eq!(sc.get_var("x"), None);
}

#[test]
fn identifiers() {
    assert_eq!(make_id(b"player"), Ok("player".to_string()));
    assert_eq!(make_id(b"x1"), Ok("x1".to_string()));
    assert_eq!(make_id(b""), Err("Id has no characters.".to_string()));
    assert_eq!(make_id(b"1x"), Err("Id begins with non-letter.".to_string()));
    assert_eq!(make_id(b"while"), Err("while matches keyword".to_string()));
    assert_eq!(make_id(b"func"), Err("func matches keyword".to_string()));
    assert_eq!(make_id("émile".as_bytes()), Ok("émile".to_string()));
}

#[test]
fn integer_literals() {
    assert_eq!(str_to_int(b"42"), Ok(42));
    assert_eq!(str_to_int(b"-17"), Ok(-17));
    assert_eq!(str_to_int(b"+5"), Ok(5));
    assert_eq!(str_to_int(b"9223372036854775807"), Ok(i64::MAX));
    assert_eq!(str_to_int(b"-9223372036854775808"), Ok(i64::MIN));
    assert_eq!(str_to_int(b"9223372036854775808"), Err("Not an integer: 9223372036854775808".to_string()));
    assert_eq!(str_to_int(b"12a"), Err("Not an integer: 12a".to_string()));
    assert_eq!(str_to_int(b"-"), Err("Not an integer: -".to_string()));
    assert_eq!(str_to_int(b""), Err("Not an integer: ".to_string()));
    assert_eq!(str_to_int(&[0xff, 0x30]), Err("Incorrectly parsed input string.".to_string()));
}

#[test]
fn integer_literals_agree_with_std() {
    for t in ["0", "007", "-0", "+12", "99999999999999999999", "- 1", "1_000", "12345678901234567"] {
        assert_eq!(str_to_int(t.as_bytes()).ok(), t.parse::<i64>().ok(), "text {}", t);
    }
}

#[test]
fn lists_combine() {
    assert_eq!(combine_list(vec![1, 2], Some(3)), vec![1, 2, 3]);
    assert_eq!(combine_list(vec![1, 2], None), vec![1, 2]);
    assert_eq!(combine_list(Vec::<i32>::new(), Some(4)), vec![4]);
}

#[derive(Debug, Clone, PartialEq)]
enum Num {
    Int(i64),
    Float(f64),
}

fn stack() -> ScopeStack<Num> {
    ScopeStack::new(Num::Int(0))
}

#[test]
fn create_state_and_scope() {
    let mut state = stack();
    state.push_scope();
    state.pop_scope();
}

#[test]
fn declare_variable() {
    let mut state = stack();
    state.push_scope();
    assert!(state.register_var("x", Some(Num::Int(30))));
}

#[test]
fn read_variable() {
    let mut state = stack();
    state.push_scope();
    state.register_var("x", Some(Num::Int(30)));
    assert_eq!(state.get_var("x").unwrap(), &Num::Int(30));
}

#[test]
fn read_undeclared_variable() {
    let mut state = stack();
    state.push_scope();
    assert_eq!(state.get_var("x"), None);
}

#[test]
fn set_undeclared_variable() {
    let mut state = stack();
    state.push_scope();
    assert!(!state.set_var("x", Num::Int(30)));
}

#[test]
fn set_variable() {
    let mut state = stack();
    state.push_scope();
    state.register_var("x", Some(Num::Int(30)));
    assert_eq!(state.get_var("x").unwrap(), &Num::Int(30));
    state.set_var("x", Num::Float(2.5));
    assert_eq!(state.get_var("x").unwrap(), &Num::Float(2.5));
}

#[test]
fn set_multi_variables() {
    let mut state = stack();
    state.push_scope();
    state.register_var("x", Some(Num::Int(30)));
    state.register_var("y", Some(Num::Float(3.3)));
    assert_eq!(state.get_var("x").unwrap(), &Num::Int(30));
    assert_eq!(state.get_var("y").unwrap(), &Num::Float(3.3));
}

#[test]
fn push_and_pop_scopes() {
    let mut state = stack();
    state.push_scope();
    state.register_var("x", Some(Num::Int(30)));
    assert_eq!(state.get_var("x").unwrap(), &Num::Int(30));
    state.pop_scope();
    assert_eq!(state.get_var("x"), None);
}

#[test]
fn pap_and_repush_scopes() {
    let mut state = stack();
    state.push_scope();
    state.register_var("x", Some(Num::Int(30)));
    assert_eq!(state.get_var("x").unwrap(), &Num::Int(30));
    state.pop_scope();
    state.push_scope();
    assert_eq!(state.get_var("x"), None);
}

#[test]
fn pap_scopes_with_base_var() {
    let mut state = stack();
    state.push_scope();
    state.register_var("x", Some(Num::Int(30)));
    assert_eq!(state.get_var("x").unwrap(), &Num::Int(30));
    state.push_scope();
    assert_eq!(state.get_var("x"), None);
    state.pop_scope();
    assert_eq!(state.get_var("x").unwrap(), &Num::Int(30));
}

#[test]
fn pap_scopes_with_same_name_vars() {
    let mut state = stack();
    state.push_scope();
    state.register_var("x", Some(Num::Int(30)));
    assert_eq!(state.get_var("x").unwrap(), &Num::Int(30));
    state.push_scope();
    state.register_var("x", Some(Num::Float(4.5)));
    assert_eq!(state.get_var("x").unwrap(), &Num::Float(4.5));
    state.pop_scope();
    assert_eq!(state.get_var("x").unwrap(), &Num::Int(30));
}

#[test]
fn extend_scope() {
    let mut state = stack();
    state.push_scope();
    state.extend_scope();
    state.register_var("x", Some(Num::Int(30)));
    assert_eq!(state.get_var("x").unwrap(), &Num::Int(30));
    state.reduce_scope();
    assert_eq!(state.get_var("x"), None);
}

#[test]
fn shadow_variables() {
    let mut state = stack();
    state.push_scope();
    state.register_var("x", Some(Num::Int(30)));
    assert_eq!(state.get_var("x").unwrap(), &Num::Int(30));
    state.extend_scope();
    state.register_var("x", Some(Num::Float(2.5)));
    assert_eq!(state.get_var("x").unwrap(), &Num::Float(2.5));
}

#[test]
fn shadow_variables_and_retract() {
    let mut state = stack();
    state.push_scope();
    state.register_var("x", Some(Num::Int(30)));
    assert_eq!(state.get_var("x").unwrap(), &Num::Int(30));
    state.extend_scope();
    state.register_var("x", Some(Num::Float(2.5)));
    assert_eq!(state.get_var("x").unwrap(), &Num::Float(2.5));
    state.reduce_scope();
    assert_eq!(state.get_var("x").unwrap(), &Num::Int(30));
}

#[test]
fn register_without_value_takes_zero() {
    let mut state = stack();
    assert!(!state.register_var("x", None));
    state.push_scope();
    assert!(state.register_var("x", None));
    assert!(!state.register_var("x", Some(Num::Int(1))));
    assert_eq!(state.get_var("x").unwrap(), &Num::Int(0));
}

#[test]
fn many_declarations_retract_together() {
    let mut state = stack();
    state.push_scope();
    state.register_var("x", Some(Num::Int(30)));
    state.extend_scope();
    state.register_var("x", Some(Num::Float(2.5)));
    state.register_var("y", Some(Num::Int(7)));
    state.register_var("z", None);
    state.reduce_scope();
    assert_eq!(state.get_var("x").unwrap(), &Num::Int(30));
    assert_eq!(state.get_var("y"), None);
    assert_eq!(state.get_var("z"), None);
}

#[test]
fn whole_number_powers() {
    assert_eq!(int_pow(2, 10), Some(1024));
    assert_eq!(int_pow(-3, 3), Some(-27));
    assert_eq!(int_pow(7, 0), Some(1));
    assert_eq!(int_pow(0, 0), Some(1));
    assert_eq!(int_pow(0, 5), Some(0));
    assert_eq!(int_pow(-1, 7), Some(-1));
    assert_eq!(int_pow(-1, 8), Some(1));
    assert_eq!(int_pow(-2, 63), Some(i64::MIN));
    assert_eq!(int_pow(2, 63), None);
    assert_eq!(int_pow(10, 19), None);
    assert_eq!(int_pow(3, -1), None);
    assert_eq!(int_pow(1, -1), Some(1));
    assert_eq!(int_pow(2, 1 << 32), Some(1));
}
