//! The names under which the runtime's parts are declared: one for each
//! queue, thread, resource and task function, made from the name of the task
//! or resource, or from the priority level, that the part belongs to.

use vstd::prelude::*;
use vstd::string::*;

verus! {

/// The character for the digit `d`.
pub open spec fn digit(d: nat) -> char {
    if d == 0 {
        '0'
    } else if d == 1 {
        '1'
    } else if d == 2 {
        '2'
    } else if d == 3 {
        '3'
    } else if d == 4 {
        '4'
    } else if d == 5 {
        '5'
    } else if d == 6 {
        '6'
    } else if d == 7 {
        '7'
    } else if d == 8 {
        '8'
    } else {
        '9'
    }
}

/// The number `n` written in decimal digits, without leading zeros.
pub open spec fn decimal(n: nat) -> Seq<char>
    decreases n,
{
    if n < 10 {
        seq![digit(n)]
    } else {
        decimal(n / 10).push(digit(n % 10))
    }
}

/// The prefix of every name that belongs to the runtime.
pub open spec fn internal_prefix() -> Seq<char> {
    "__rtic_internal_"@
}

fn digit_str(d: usize) -> (s: &'static str)
    requires
        d < 10,
    ensures
        s@ == seq![digit(d as nat)],
{
    proof {
        reveal_strlit("0");
        reveal_strlit("1");
        reveal_strlit("2");
        reveal_strlit("3");
        reveal_strlit("4");
        reveal_strlit("5");
        reveal_strlit("6");
        reveal_strlit("7");
        reveal_strlit("8");
        reveal_strlit("9");
    }
    let s = if d == 0 {
        "0"
    } else if d == 1 {
        "1"
    } else if d == 2 {
        "2"
    } else if d == 3 {
        "3"
    } else if d == 4 {
        "4"
    } else if d == 5 {
        "5"
    } else if d == 6 {
        "6"
    } else if d == 7 {
        "7"
    } else if d == 8 {
        "8"
    } else {
        "9"
    };
    assert(s@ =~= seq![digit(d as nat)]);
    s
}

/// Turns `capacity` into an unsuffixed integer literal
pub fn capacity_literal(capacity: usize) -> (s: String)
    ensures
        s@ == decimal(capacity as nat),
    decreases capacity,
{
    if capacity < 10 {
        String::from_str(digit_str(capacity))
    } else {
        let mut s = capacity_literal(capacity / 10);
        s.append(digit_str(capacity % 10));
        s
    }
}

/// Mark a name as internal
pub fn mark_internal_name(name: &str) -> (s: String)
    ensures
        s@ == internal_prefix() + name@,
{
    String::from_str("__rtic_internal_").concat(name)
}

/// Identifier for the task input queue
pub fn task_input_queue_ident(task: &str) -> (s: String)
    ensures
        s@ == internal_prefix() + task@ + "_input_queue"@,
{
    mark_internal_name(task).concat("_input_queue")
}

/// Identifier for the run queue
pub fn run_queue_ident(priority: u8) -> (s: String)
    ensures
        s@ == internal_prefix() + "P"@ + decimal(priority as nat) + "_run_queue"@,
{
    let level = capacity_literal(priority as usize);
    mark_internal_name("P").concat(level.as_str()).concat("_run_queue")
}

/// Generates an identifier for a thread that executes tasks at a given priority level
pub fn thread_ident(priority: u8) -> (s: String)
    ensures
        s@ == internal_prefix() + "thread_P"@ + decimal(priority as nat),
{
    let level = capacity_literal(priority as usize);
    mark_internal_name("thread_P").concat(level.as_str())
}

/// Generates an identifier for the `enum` of `spawn`-able tasks
///
/// This identifier needs the same structure as the run queue identifier because there's one
/// ready queue for each of these enums
pub fn spawn_enum_ident(priority: u8) -> (s: String)
    ensures
        s@ == "P"@ + decimal(priority as nat) + "_tasks"@,
{
    let level = capacity_literal(priority as usize);
    String::from_str("P").concat(level.as_str()).concat("_tasks")
}

/// Generate an internal identifier for task context
pub fn internal_task_context_ident(task: &str) -> (s: String)
    ensures
        s@ == internal_prefix() + task@ + "_context"@,
{
    mark_internal_name(task).concat("_context")
}

/// Generate an internal identifier for task spawn function
pub fn internal_task_spawn_ident(task: &str) -> (s: String)
    ensures
        s@ == internal_prefix() + task@ + "_spawn"@,
{
    mark_internal_name(task).concat("_spawn")
}

/// Generates a pre-reexport identifier for the "shared resources" struct of
/// the context with the given name
pub fn shared_resources_ident(context: &str) -> (s: String)
    ensures
        s@ == internal_prefix() + context@ + "SharedResources"@,
{
    mark_internal_name(context).concat("SharedResources")
}

/// Generates a pre-reexport identifier for the "local resources" struct of
/// the context with the given name
pub fn local_resources_ident(context: &str) -> (s: String)
    ensures
        s@ == internal_prefix() + context@ + "LocalResources"@,
{
    mark_internal_name(context).concat("LocalResources")
}

/// Identifier for the storage of a shared resource
pub fn static_shared_resource_ident(name: &str) -> (s: String)
    ensures
        s@ == internal_prefix() + "shared_resource_"@ + name@,
{
    mark_internal_name("shared_resource_").concat(name)
}

/// Identifier for the storage of a local resource
pub fn static_local_resource_ident(name: &str) -> (s: String)
    ensures
        s@ == internal_prefix() + "local_resource_"@ + name@,
{
    mark_internal_name("local_resource_").concat(name)
}

/// Identifier for the storage of a local resource that a task declares
/// for itself
pub fn declared_static_local_resource_ident(name: &str, task_name: &str) -> (s: String)
    ensures
        s@ == internal_prefix() + "local_"@ + task_name@ + "_"@ + name@,
{
    String::from_str("__rtic_internal_").concat("local_").concat(task_name).concat("_").concat(
        name,
    )
}

/// The names that stand for the inputs of a task in the order of the inputs:
/// `_0`, `_1` and so on.
pub fn regroup_inputs(inputs: usize) -> (names: Vec<String>)
    ensures
        names@.len() == inputs,
        forall|i: int| 0 <= i < inputs ==> (#[trigger] names@[i])@ == "_"@ + decimal(i as nat),
{
    let mut names: Vec<String> = Vec::new();
    let mut i: usize = 0;
    while i < inputs
        invariant
            i <= inputs,
            names@.len() == i,
            forall|j: int| 0 <= j < i ==> (#[trigger] names@[j])@ == "_"@ + decimal(j as nat),
        decreases inputs - i,
    {
        let number = capacity_literal(i);
        names.push(String::from_str("_").concat(number.as_str()));
        i = i + 1;
    }
    names
}

/// The name that stands for input `i` of a task: `_0`, `_1` and so on.
pub open spec fn input_name(i: nat) -> Seq<char> {
    "_"@ + decimal(i)
}

/// The names that stand for the first `n` inputs of a task.
pub open spec fn input_names(n: nat) -> Seq<Seq<char>> {
    Seq::new(n, |i: int| input_name(i as nat))
}

/// What each of the strings reads.
pub open spec fn texts(strings: Seq<String>) -> Seq<Seq<char>> {
    strings.map_values(|s: String| s@)
}

/// The items one after the other, each followed by a comma.
pub open spec fn listed(items: Seq<Seq<char>>) -> Seq<char>
    decreases items.len(),
{
    if items.len() == 0 {
        Seq::empty()
    } else {
        listed(items.drop_last()) + items.last() + ","@
    }
}

/// The items as a tuple: in round brackets, each followed by a comma.
pub open spec fn tuple_of(items: Seq<Seq<char>>) -> Seq<char> {
    "("@ + listed(items) + ")"@
}

/// Regroups the inputs of a task, given the type of each as text.
///
/// The inputs go by the names `_0`, `_1` and so on, whatever they were called.
/// The parts are: the typed arguments, `_0: i32`, `_1: i64`; the inputs as one
/// pattern; the names alone; and the inputs' type. A single input stands for
/// itself, as `_0` of its own type. Any other number of inputs makes a tuple:
/// `(_0,_1,)` of type `(i32,i64,)`, and `()` of type `()` for none.
pub fn regroup_parts(tys: &Vec<String>) -> (parts: (Vec<String>, String, Vec<String>, String))
    ensures
        parts.0@.len() == tys@.len(),
        parts.2@.len() == tys@.len(),
        forall|i: int|
            0 <= i < tys@.len() ==> (#[trigger] parts.0@[i])@ == input_name(i as nat) + ": "@
                + tys@[i]@,
        forall|i: int| 0 <= i < tys@.len() ==> (#[trigger] parts.2@[i])@ == input_name(i as nat),
        tys@.len() == 1 ==> parts.1@ == input_name(0) && parts.3@ == tys@[0]@,
        tys@.len() != 1 ==> parts.1@ == tuple_of(input_names(tys@.len())) && parts.3@ == tuple_of(
            texts(tys@),
        ),
{
    let names = regroup_inputs(tys.len());
    let mut args: Vec<String> = Vec::new();
    let mut pats = String::from_str("(");
    let mut types = String::from_str("(");
    let mut i: usize = 0;
    while i < tys.len()
        invariant
            i <= tys@.len(),
            names@.len() == tys@.len(),
            forall|j: int| 0 <= j < names@.len() ==> (#[trigger] names@[j])@ == input_name(j as nat),
            args@.len() == i,
            forall|j: int|
                0 <= j < i ==> (#[trigger] args@[j])@ == input_name(j as nat) + ": "@ + tys@[j]@,
            pats@ == "("@ + listed(input_names(i as nat)),
            types@ == "("@ + listed(texts(tys@).take(i as int)),
        decreases tys@.len() - i,
    {
        let name = names[i].as_str();
        let ty = tys[i].as_str();
        args.push(String::from_str(name).concat(": ").concat(ty));
        pats.append(name);
        pats.append(",");
        types.append(ty);
        types.append(",");
        proof {
            let more_names = input_names((i + 1) as nat);
            let more_types = texts(tys@).take(i + 1);
            assert(more_names.drop_last() =~= input_names(i as nat));
            assert(more_names.last() == name@);
            assert(more_types.drop_last() =~= texts(tys@).take(i as int));
            assert(more_types.last() == ty@);
            assert(pats@ =~= "("@ + listed(more_names));
            assert(types@ =~= "("@ + listed(more_types));
        }
        i = i + 1;
    }
    proof {
        assert(texts(tys@).take(i as int) =~= texts(tys@));
    }
    if tys.len() == 1 {
        let tupled = names[0].clone();
        let ty = tys[0].clone();
        (args, tupled, names, ty)
    } else {
        pats.append(")");
        types.append(")");
        (args, pats, names, types)
    }
}

} // verus!
