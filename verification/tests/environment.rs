use cilly::bytecode_translation::environment::Environment;
use cilly::error::Error;

fn name(s: &str) -> String {
    s.to_string()
}

#[test]
fn a_new_environment_has_an_empty_global_scope() {
    let env = Environment::new();
    assert_eq!(env.get_dep(), 0);
    assert_eq!(env.get_values_count(0), 0);
    assert!(env.is_bottom(0));
    assert!(!env.is_bottom(1));
    assert!(env.pc_stack_empty());
    assert!(matches!(env.get_val(name("x")), Err(Error::SymbolNotFound)));
    assert!(matches!(env.get_func_addr(name("f")), Err(Error::SymbolNotFound)));
}

#[test]
fn slots_count_the_declarations_of_a_scope() {
    let mut env = Environment::new();
    assert!(env.new_val(name("a"), 0).is_ok());
    assert!(env.new_val(name("b"), 0).is_ok());
    assert!(env.new_val(name("c"), 0).is_ok());
    assert_eq!(env.get_values_count(0), 3);
    assert!(matches!(env.get_val(name("a")), Ok((0, 0))));
    assert!(matches!(env.get_val(name("b")), Ok((0, 1))));
    assert!(matches!(env.get_val(name("c")), Ok((0, 2))));
}

#[test]
fn a_name_cannot_be_declared_twice_in_one_scope() {
    let mut env = Environment::new();
    assert!(env.new_val(name("a"), 0).is_ok());
    assert!(matches!(env.new_val(name("a"), 0), Err(Error::DuplicatedDef)));
    assert_eq!(env.get_values_count(0), 1);
    assert!(env.new_val(name("b"), 0).is_ok());
    assert!(matches!(env.get_val(name("b")), Ok((0, 1))));
}

#[test]
fn depth_counts_scopes_from_the_innermost() {
    let mut env = Environment::new();
    assert!(env.new_val(name("g"), 0).is_ok());
    env.new_scope();
    assert!(env.new_val(name("p"), 0).is_ok());
    env.new_scope();
    assert!(env.new_val(name("x"), 0).is_ok());
    assert_eq!(env.get_dep(), 2);
    assert!(matches!(env.get_val(name("x")), Ok((0, 0))));
    assert!(matches!(env.get_val(name("p")), Ok((1, 0))));
    assert!(matches!(env.get_val(name("g")), Ok((2, 0))));
    assert!(env.is_bottom(2));
    assert!(!env.is_bottom(0));
    env.leave_scope();
    assert!(matches!(env.get_val(name("x")), Err(Error::SymbolNotFound)));
    assert!(matches!(env.get_val(name("p")), Ok((0, 0))));
    assert!(matches!(env.get_val(name("g")), Ok((1, 0))));
}

#[test]
fn an_inner_declaration_shadows_an_outer_one() {
    let mut env = Environment::new();
    assert!(env.new_val(name("a"), 0).is_ok());
    assert!(env.new_val(name("b"), 0).is_ok());
    env.new_scope();
    assert!(env.new_val(name("b"), 0).is_ok());
    assert!(matches!(env.get_val(name("b")), Ok((0, 0))));
    assert!(matches!(env.get_val(name("a")), Ok((1, 0))));
    env.leave_scope();
    assert!(matches!(env.get_val(name("b")), Ok((0, 1))));
}

#[test]
fn a_name_can_be_declared_in_an_outer_scope() {
    let mut env = Environment::new();
    env.new_scope();
    assert!(env.new_val(name("g"), 1).is_ok());
    assert_eq!(env.get_values_count(1), 1);
    assert_eq!(env.get_values_count(0), 0);
    assert!(matches!(env.get_val(name("g")), Ok((1, 0))));
}

#[test]
fn the_global_scope_is_never_closed() {
    let mut env = Environment::new();
    assert!(env.new_val(name("g"), 0).is_ok());
    env.leave_scope();
    env.leave_scope();
    assert_eq!(env.get_dep(), 0);
    assert!(matches!(env.get_val(name("g")), Ok((0, 0))));
}

#[test]
fn functions_are_found_by_name() {
    let mut env = Environment::new();
    assert!(env.new_func(name("add"), 12, vec![name("a"), name("b")]).is_ok());
    assert!(env.new_func(name("main"), 40, vec![]).is_ok());
    let (addr, params) = env.get_func_addr(name("add")).expect("add is defined");
    assert_eq!(addr, 12);
    assert_eq!(params, vec![name("a"), name("b")]);
    let (addr, params) = env.get_func_addr(name("main")).expect("main is defined");
    assert_eq!(addr, 40);
    assert!(params.is_empty());
    assert!(matches!(env.get_func_addr(name("sub")), Err(Error::SymbolNotFound)));
}

#[test]
fn a_function_cannot_be_defined_twice() {
    let mut env = Environment::new();
    assert!(env.new_func(name("f"), 1, vec![]).is_ok());
    assert!(matches!(env.new_func(name("f"), 2, vec![name("x")]), Err(Error::DuplicatedDef)));
    let (addr, params) = env.get_func_addr(name("f")).expect("f is defined");
    assert_eq!(addr, 1);
    assert!(params.is_empty());
}

#[test]
fn functions_and_variables_have_separate_names() {
    let mut env = Environment::new();
    assert!(env.new_func(name("f"), 1, vec![]).is_ok());
    assert!(env.new_val(name("f"), 0).is_ok());
    assert!(matches!(env.get_val(name("f")), Ok((0, 0))));
}

#[test]
fn loop_headers_are_a_stack() {
    let mut env = Environment::new();
    env.push_pc(10);
    env.push_pc(20);
    assert!(!env.pc_stack_empty());
    assert_eq!(env.pc_stack_top(), 20);
    assert_eq!(env.pop_pc(), 20);
    assert_eq!(env.pc_stack_top(), 10);
    assert_eq!(env.pop_pc(), 10);
    assert!(env.pc_stack_empty());
}
