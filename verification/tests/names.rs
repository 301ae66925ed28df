use linux_rtic::names::{
    capacity_literal, declared_static_local_resource_ident, internal_task_context_ident,
    internal_task_spawn_ident, local_resources_ident, mark_internal_name, regroup_inputs,
    regroup_parts,
    run_queue_ident, shared_resources_ident, spawn_enum_ident, static_local_resource_ident,
    static_shared_resource_ident, task_input_queue_ident, thread_ident,
};

#[test]
fn internal_names_carry_the_prefix() {
    assert_eq!(mark_internal_name("Monotonics"), "__rtic_internal_Monotonics");
    assert_eq!(mark_internal_name(""), "__rtic_internal_");
}

#[test]
fn task_input_queue_name() {
    assert_eq!(task_input_queue_ident("foo"), "__rtic_internal_foo_input_queue");
}

#[test]
fn run_queue_name() {
    assert_eq!(run_queue_ident(0), "__rtic_internal_P0_run_queue");
    assert_eq!(run_queue_ident(7), "__rtic_internal_P7_run_queue");
    assert_eq!(run_queue_ident(12), "__rtic_internal_P12_run_queue");
    assert_eq!(run_queue_ident(255), "__rtic_internal_P255_run_queue");
}

#[test]
fn thread_name() {
    assert_eq!(thread_ident(1), "__rtic_internal_thread_P1");
    assert_eq!(thread_ident(99), "__rtic_internal_thread_P99");
}

#[test]
fn spawn_enum_name() {
    assert_eq!(spawn_enum_ident(3), "P3_tasks");
    assert_eq!(spawn_enum_ident(100), "P100_tasks");
}

#[test]
fn task_context_name() {
    assert_eq!(internal_task_context_ident("foo"), "__rtic_internal_foo_context");
}

#[test]
fn task_spawn_name() {
    assert_eq!(internal_task_spawn_ident("foo"), "__rtic_internal_foo_spawn");
}

#[test]
fn shared_resources_struct_name() {
    assert_eq!(shared_resources_ident("task1"), "__rtic_internal_task1SharedResources");
}

#[test]
fn local_resources_struct_name() {
    assert_eq!(local_resources_ident("init"), "__rtic_internal_initLocalResources");
}

#[test]
fn static_shared_resource_name() {
    assert_eq!(static_shared_resource_ident("a"), "__rtic_internal_shared_resource_a");
}

#[test]
fn static_local_resource_name() {
    assert_eq!(static_local_resource_ident("b"), "__rtic_internal_local_resource_b");
}

#[test]
fn declared_static_local_resource_name() {
    assert_eq!(
        declared_static_local_resource_ident("count", "foo"),
        "__rtic_internal_local_foo_count"
    );
}

#[test]
fn capacity_literal_is_decimal() {
    assert_eq!(capacity_literal(0), "0");
    assert_eq!(capacity_literal(9), "9");
    assert_eq!(capacity_literal(10), "10");
    assert_eq!(capacity_literal(4096), "4096");
    assert_eq!(capacity_literal(1234567890), "1234567890");
    assert_eq!(capacity_literal(usize::MAX), usize::MAX.to_string());
}

#[test]
fn input_names_are_numbered_from_zero() {
    assert!(regroup_inputs(0).is_empty());
    assert_eq!(regroup_inputs(1), vec!["_0"]);
    assert_eq!(regroup_inputs(3), vec!["_0", "_1", "_2"]);
    assert_eq!(regroup_inputs(12)[11], "_11");
}

fn strings(texts: &[&str]) -> Vec<String> {
    texts.iter().map(|text| text.to_string()).collect()
}

#[test]
fn single_input_stands_for_itself() {
    let (args, tupled, untupled, ty) = regroup_parts(&strings(&["Foo"]));
    assert_eq!(args, vec!["_0: Foo"]);
    assert_eq!(tupled, "_0");
    assert_eq!(untupled, vec!["_0"]);
    assert_eq!(ty, "Foo");
}

#[test]
fn two_inputs_make_a_tuple() {
    let (args, tupled, untupled, ty) = regroup_parts(&strings(&["i32", "i64"]));
    assert_eq!(args, vec!["_0: i32", "_1: i64"]);
    assert_eq!(tupled, "(_0,_1,)");
    assert_eq!(untupled, vec!["_0", "_1"]);
    assert_eq!(ty, "(i32,i64,)");
}

#[test]
fn no_input_makes_the_empty_tuple() {
    let (args, tupled, untupled, ty) = regroup_parts(&strings(&[]));
    assert!(args.is_empty());
    assert_eq!(tupled, "()");
    assert!(untupled.is_empty());
    assert_eq!(ty, "()");
}

#[test]
fn many_inputs_are_numbered_in_order() {
    let tys = strings(&["A", "B", "C", "D", "E", "F", "G", "H", "I", "J", "K"]);
    let (args, tupled, untupled, ty) = regroup_parts(&tys);
    assert_eq!(args.len(), 11);
    assert_eq!(args[10], "_10: K");
    assert_eq!(untupled[10], "_10");
    assert_eq!(tupled, "(_0,_1,_2,_3,_4,_5,_6,_7,_8,_9,_10,)");
    assert_eq!(ty, "(A,B,C,D,E,F,G,H,I,J,K,)");
}
