use avmore::avm1::{Action, ExecOutcome, ExecutionContext, PushValue, Vm};
use avmore::coerce::{Eval, Fault, FloatAnswer, FloatOp, FloatQuery, Primitive};
use avmore::values::ToPrimitiveHint;
use avmore::host::LoggedHost;
use avmore::number::AvmNumber;

fn chars(s: &str) -> Vec<char> {
    s.chars().collect()
}

fn text(v: &Vec<char>) -> String {
    v.iter().collect()
}

fn string(s: &str) -> PushValue {
    PushValue::String(chars(s))
}

fn num(n: i64) -> PushValue {
    PushValue::Number(AvmNumber::from_i64(n))
}

fn float(x: f64) -> PushValue {
    PushValue::Number(AvmNumber { bits: x.to_bits() })
}

fn start(swf_version: u8) -> ExecutionContext {
    let mut vm = Vm::new(swf_version);
    let id = vm.create_script(Vec::new(), None, None);
    match ExecutionContext::new(vm, id) {
        Ok(c) => c,
        Err(_) => panic!("no script"),
    }
}

/// Answers a question the way binary64 arithmetic does.
fn answer(q: FloatQuery) -> FloatAnswer {
    match q {
        FloatQuery::Arithmetic { op, left, right } => {
            let (l, r) = (f64::from_bits(left), f64::from_bits(right));
            let x = match op {
                FloatOp::Add => l + r,
                FloatOp::Subtract => l - r,
                FloatOp::Multiply => l * r,
                FloatOp::Divide => l / r,
            };
            FloatAnswer::Arithmetic { op, left, right, result: x.to_bits() }
        }
        FloatQuery::Digits { bits } => {
            let e = format!("{:e}", f64::from_bits(bits).abs());
            let (mantissa, exponent) = e.split_once('e').unwrap();
            let digits: Vec<char> = mantissa.chars().filter(|c| *c != '.').collect();
            let exponent: i64 = exponent.parse().unwrap();
            FloatAnswer::Digits { bits, digits, exponent: exponent + 1 }
        }
    }
}

/// Runs the actions, answering every question; returns the logged lines
/// and the outcome of the last action.
fn run(swf_version: u8, actions: Vec<Action>) -> (Vec<String>, ExecOutcome) {
    let mut ectx = start(swf_version);
    let mut last = ExecOutcome::Continue;
    for a in &actions {
        loop {
            last = ectx.exec(a);
            match last {
                ExecOutcome::Ask(q) => ectx.provide_answer(answer(q)),
                _ => break,
            }
        }
        if let ExecOutcome::Fault(_) = last {
            break;
        }
    }
    let mut host = LoggedHost::new();
    ectx.flush(&mut host);
    (host.logs.iter().map(text).collect(), last)
}

fn traces(swf_version: u8, actions: Vec<Action>) -> Vec<String> {
    let (logs, last) = run(swf_version, actions);
    assert_eq!(last, ExecOutcome::Continue);
    logs
}

#[test]
fn test_avm_value_eq() {
    let logs = traces(
        11,
        vec![
            Action::Push(vec![string("Hello, World!"), string("Hello, World!")]),
            Action::StrictEquals,
            Action::Trace,
        ],
    );
    assert_eq!(logs, vec!["true"]);
}

#[test]
fn hello_world() {
    let logs = traces(11, vec![Action::Push(vec![string("Hello, World!")]), Action::Trace]);
    let expected_logs = vec!["Hello, World!"];
    assert_eq!(logs, expected_logs);
}

#[test]
fn one_plus_one_equals_two() {
    let logs = traces(
        11,
        vec![
            Action::Push(vec![string("1 + 1 = "), num(1), num(1)]),
            Action::Add2,
            Action::Add2,
            Action::Trace,
        ],
    );
    let expected_logs = vec!["1 + 1 = 2"];
    assert_eq!(logs, expected_logs);
}

#[test]
fn read_object() {
    let logs = traces(
        11,
        vec![
            Action::Push(vec![string("Hello, World!"), string("foo"), num(1)]),
            Action::InitObject,
            Action::Push(vec![string("foo")]),
            Action::GetMember,
            Action::Trace,
        ],
    );
    let expected_logs = vec!["Hello, World!"];
    assert_eq!(logs, expected_logs);
}

#[test]
fn legacy_boolean_under_swf_4_and_5() {
    let program = || vec![Action::Push(vec![num(1), num(1)]), Action::Equals, Action::Trace];
    assert_eq!(traces(4, program()), vec!["1"]);
    assert_eq!(traces(5, program()), vec!["true"]);
}

#[test]
fn divide_by_zero_under_swf_4_and_5() {
    let program = || vec![Action::Push(vec![num(1), num(0)]), Action::Divide, Action::Trace];
    assert_eq!(traces(4, program()), vec!["#ERROR#"]);
    assert_eq!(traces(5, program()), vec!["Infinity"]);
    let zero = || vec![Action::Push(vec![num(0), num(0)]), Action::Divide, Action::Trace];
    assert_eq!(traces(5, zero()), vec!["NaN"]);
    let negative = || vec![Action::Push(vec![num(-3), num(0)]), Action::Divide, Action::Trace];
    assert_eq!(traces(5, negative()), vec!["-Infinity"]);
}

#[test]
fn undeclared_variable_warning() {
    let program = || vec![Action::Push(vec![string("x")]), Action::GetVariable, Action::Trace];
    assert_eq!(
        traces(7, program()),
        vec!["Warning: Reference to undeclared variable, 'x'", "undefined"]
    );
    assert_eq!(
        traces(6, program()),
        vec!["Warning: Reference to undeclared variable, 'x'", ""]
    );
}

#[test]
fn push_then_pop_keeps_depth() {
    let mut ectx = start(11);
    ectx.exec(&Action::Push(vec![num(7)]));
    let before = ectx.frame.stack.values.len();
    ectx.exec(&Action::Push(vec![num(1), string("a"), PushValue::Null, PushValue::Undefined]));
    for _ in 0..4 {
        ectx.exec(&Action::Pop);
    }
    assert_eq!(ectx.frame.stack.values.len(), before);
    ectx.exec(&Action::Pop);
    ectx.exec(&Action::Pop);
    assert_eq!(ectx.frame.stack.values.len(), 0);
}

#[test]
fn strict_equals_is_reflexive_but_for_nan() {
    let same = |v: PushValue| {
        let w = match &v {
            PushValue::String(s) => PushValue::String(s.clone()),
            PushValue::Number(n) => PushValue::Number(*n),
            PushValue::Boolean(b) => PushValue::Boolean(*b),
            PushValue::Null => PushValue::Null,
            _ => PushValue::Undefined,
        };
        traces(11, vec![Action::Push(vec![v, w]), Action::StrictEquals, Action::Trace])
    };
    assert_eq!(same(num(3)), vec!["true"]);
    assert_eq!(same(string("s")), vec!["true"]);
    assert_eq!(same(PushValue::Null), vec!["true"]);
    assert_eq!(same(PushValue::Undefined), vec!["true"]);
    assert_eq!(same(PushValue::Boolean(false)), vec!["true"]);
    assert_eq!(same(float(f64::NAN)), vec!["false"]);
    assert_eq!(
        traces(11, vec![Action::Push(vec![float(0.0), float(-0.0)]), Action::StrictEquals, Action::Trace]),
        vec!["true"]
    );
    assert_eq!(
        traces(11, vec![Action::Push(vec![num(1), string("1")]), Action::StrictEquals, Action::Trace]),
        vec!["false"]
    );
}

#[test]
fn define_local_leaves_enclosing_scope() {
    let logs = traces(
        11,
        vec![
            Action::Push(vec![string("x"), num(1)]),
            Action::DefineLocal,
            Action::Push(vec![string("x"), num(2)]),
            Action::DefineLocal,
            Action::Push(vec![string("x")]),
            Action::GetVariable,
            Action::Trace,
        ],
    );
    assert_eq!(logs, vec!["2"]);
}

#[test]
fn set_variable_then_get() {
    let logs = traces(
        11,
        vec![
            Action::Push(vec![string("y"), string("hi")]),
            Action::SetVariable,
            Action::Push(vec![string("y")]),
            Action::GetVariable,
            Action::Trace,
        ],
    );
    assert_eq!(logs, vec!["hi"]);
}

#[test]
fn number_texts() {
    let t = |v: PushValue| traces(11, vec![Action::Push(vec![v]), Action::Trace]);
    assert_eq!(t(num(0)), vec!["0"]);
    assert_eq!(t(float(-0.0)), vec!["0"]);
    assert_eq!(t(num(-42)), vec!["-42"]);
    assert_eq!(t(num(9007199254740991)), vec!["9007199254740991"]);
    assert_eq!(t(float(1.5)), vec!["1.5"]);
    assert_eq!(t(float(0.001)), vec!["0.001"]);
    assert_eq!(t(float(1e-7)), vec!["1e-7"]);
    assert_eq!(t(float(1.25e25)), vec!["1.25e+25"]);
    assert_eq!(t(float(1e21)), vec!["1e+21"]);
    assert_eq!(t(float(123456789012345680000.0)), vec!["123456789012345680000"]);
    assert_eq!(t(float(f64::NEG_INFINITY)), vec!["-Infinity"]);
    assert_eq!(t(float(f64::NAN)), vec!["NaN"]);
    assert_eq!(t(PushValue::Null), vec!["null"]);
    assert_eq!(t(PushValue::Boolean(true)), vec!["true"]);
}

#[test]
fn arithmetic_results() {
    let op = |a: PushValue, b: PushValue, action: Action| traces(11, vec![Action::Push(vec![a, b]), action, Action::Trace]);
    assert_eq!(op(num(7), num(5), Action::Subtract), vec!["2"]);
    assert_eq!(op(num(-7), num(5), Action::Multiply), vec!["-35"]);
    assert_eq!(op(num(12), num(4), Action::Divide), vec!["3"]);
    assert_eq!(op(num(1), num(3), Action::Divide), vec!["0.3333333333333333"]);
    assert_eq!(op(float(0.1), float(0.2), Action::Add2), vec!["0.30000000000000004"]);
    assert_eq!(op(num(2), num(3), Action::Add), vec!["5"]);
    assert_eq!(traces(11, vec![Action::Push(vec![num(41)]), Action::Increment, Action::Trace]), vec!["42"]);
}

#[test]
fn answers_are_asked_for_then_used() {
    let mut ectx = start(11);
    ectx.exec(&Action::Push(vec![float(0.5), float(0.25)]));
    let r = ectx.exec(&Action::Add2);
    let q = match r {
        ExecOutcome::Ask(q) => q,
        _ => panic!("expected a question"),
    };
    assert_eq!(
        q,
        FloatQuery::Arithmetic { op: FloatOp::Add, left: 0.5f64.to_bits(), right: 0.25f64.to_bits() }
    );
    assert_eq!(ectx.frame.stack.values.len(), 2);
    ectx.provide_answer(answer(q));
    assert_eq!(ectx.exec(&Action::Add2), ExecOutcome::Continue);
    assert_eq!(ectx.frame.stack.values.len(), 1);
}

#[test]
fn malformed_digits_are_refused() {
    let mut ectx = start(11);
    let bits = 1.5f64.to_bits();
    ectx.exec(&Action::Push(vec![float(1.5)]));
    ectx.provide_answer(FloatAnswer::Digits { bits, digits: vec!['0', '1'], exponent: 1 });
    assert_eq!(ectx.exec(&Action::Trace), ExecOutcome::Fault(Fault::BadAnswer));
}

#[test]
fn comparisons() {
    let cmp = |a: PushValue, b: PushValue, action: Action, swf: u8| {
        traces(swf, vec![Action::Push(vec![a, b]), action, Action::Trace])
    };
    assert_eq!(cmp(num(1), num(2), Action::Less2, 11), vec!["true"]);
    assert_eq!(cmp(num(2), num(1), Action::Less2, 11), vec!["false"]);
    assert_eq!(cmp(float(f64::NAN), num(1), Action::Less2, 11), vec!["false"]);
    assert_eq!(cmp(num(2), num(1), Action::Greater, 11), vec!["true"]);
    assert_eq!(cmp(num(1), num(2), Action::Less, 4), vec!["1"]);
    assert_eq!(cmp(PushValue::Null, PushValue::Undefined, Action::Equals2, 11), vec!["true"]);
    assert_eq!(cmp(PushValue::Boolean(true), num(1), Action::Equals2, 11), vec!["true"]);
    assert_eq!(cmp(string("a"), string("a"), Action::StringEquals, 11), vec!["true"]);
    assert_eq!(cmp(num(1), num(0), Action::And, 11), vec!["false"]);
    assert_eq!(cmp(num(1), num(0), Action::Or, 4), vec!["1"]);
}

#[test]
fn string_opcodes() {
    assert_eq!(
        traces(11, vec![Action::Push(vec![string("ab"), num(12)]), Action::StringAdd, Action::Trace]),
        vec!["ab12"]
    );
    assert_eq!(
        traces(11, vec![Action::Push(vec![string("hello")]), Action::StringLength, Action::Trace]),
        vec!["5"]
    );
}

#[test]
fn objects_print_through_to_string() {
    let logs = traces(11, vec![Action::Push(vec![num(0)]), Action::InitObject, Action::Trace]);
    assert_eq!(logs, vec!["[object Object]"]);
    let logs = traces(
        11,
        vec![Action::Push(vec![string("x"), num(0)]), Action::InitObject, Action::Add2, Action::Trace],
    );
    assert_eq!(logs, vec!["x[object Object]"]);
}

#[test]
fn faults() {
    let (_, last) = run(11, vec![Action::Unsupported]);
    assert_eq!(last, ExecOutcome::Fault(Fault::Unsupported));
    let (_, last) = run(11, vec![Action::Push(vec![PushValue::Register(0)])]);
    assert_eq!(last, ExecOutcome::Fault(Fault::Unsupported));
    // An own `toString` that is not a function hides the intrinsic one.
    let (_, last) = run(
        11,
        vec![Action::Push(vec![num(1), string("toString"), num(1)]), Action::InitObject, Action::Trace],
    );
    assert_eq!(last, ExecOutcome::Fault(Fault::TypeError));
    let (_, last) = run(11, vec![Action::Push(vec![string("s")]), Action::If { offset: 3 }]);
    assert_eq!(last, ExecOutcome::Fault(Fault::Unsupported));
}

#[test]
fn init_object_deepest_pair_wins() {
    let logs = traces(
        11,
        vec![
            Action::Push(vec![string("first"), string("k"), string("second"), string("k"), num(2)]),
            Action::InitObject,
            Action::Push(vec![string("k")]),
            Action::GetMember,
            Action::Trace,
        ],
    );
    assert_eq!(logs, vec!["first"]);
}

#[test]
fn constant_pool_and_missing_entries() {
    let logs = traces(
        11,
        vec![
            Action::Push(vec![PushValue::Constant(0)]),
            Action::Trace,
            Action::ConstantPool(vec![chars("a"), chars("b")]),
            Action::Push(vec![PushValue::Constant(1), PushValue::Constant(5)]),
            Action::Trace,
            Action::Trace,
        ],
    );
    assert_eq!(logs, vec!["undefined", "undefined", "b"]);
}

#[test]
fn garbage_collection_keeps_reachable_values() {
    let mut ectx = start(11);
    ectx.exec(&Action::Push(vec![string("keep")]));
    ectx.exec(&Action::Push(vec![string("drop")]));
    ectx.exec(&Action::Pop);
    let cells = ectx.vm.heap.boxes.len();
    ectx.collect_garbage();
    assert_eq!(ectx.vm.heap.boxes.len(), cells);
    assert!(ectx.vm.heap.boxes[cells - 1].value.is_none());
    assert_eq!(ectx.exec(&Action::Trace), ExecOutcome::Continue);
    let mut host = LoggedHost::new();
    ectx.flush(&mut host);
    assert_eq!(host.logs.iter().map(text).collect::<Vec<_>>(), vec!["keep"]);
}

#[test]
fn to_string_after_to_primitive_is_to_string() {
    let mut ectx = start(11);
    ectx.exec(&Action::Push(vec![num(0)]));
    ectx.exec(&Action::InitObject);
    ectx.exec(&Action::Push(vec![
        string("s"),
        num(3),
        PushValue::Null,
        PushValue::Boolean(true),
        PushValue::Undefined,
    ]));
    let values = ectx.frame.stack.values.clone();
    let heap = &ectx.vm.heap;
    let answers = &ectx.vm.answers;
    let mut seen = Vec::new();
    for v in values {
        let direct = match v.to_avm_string(heap, 11, answers) {
            Eval::Done(t) => text(&t),
            _ => panic!("no text"),
        };
        let via = match v.to_avm_primitive(heap, ToPrimitiveHint::String) {
            Eval::Done(Primitive::Value(p)) => match p.to_avm_string(heap, 11, answers) {
                Eval::Done(t) => text(&t),
                _ => panic!("no text"),
            },
            Eval::Done(Primitive::Text(t)) => text(&t),
            _ => panic!("no primitive"),
        };
        assert_eq!(direct, via);
        seen.push(direct);
    }
    assert_eq!(seen, vec!["[object Object]", "s", "3", "null", "true", "undefined"]);
}

#[test]
fn function_call_and_return() {
    let mut vm = Vm::new(11);
    let id = vm.create_script(vec![1, 2, 3, 4, 5], None, None);
    let mut ectx = match ExecutionContext::new(vm, id) {
        Ok(c) => c,
        Err(_) => panic!("no script"),
    };
    let define = Action::DefineFunction { name: chars("f"), parameters: Vec::new(), body_size: 3 };
    assert_eq!(ectx.exec(&define), ExecOutcome::Continue);
    assert_eq!(ectx.frame.ip, 3);
    // `DefineFunction` pushes the function too.
    ectx.exec(&Action::Pop);
    ectx.exec(&Action::Push(vec![string("below"), num(9), num(1), string("f")]));
    assert_eq!(ectx.exec(&Action::CallFunction), ExecOutcome::Continue);
    assert_eq!(ectx.frame.code, vec![1, 2, 3]);
    assert_eq!(ectx.frame.ip, 0);
    assert_eq!(ectx.callers.len(), 1);
    assert_eq!(ectx.frame.stack.values.len(), 0);
    assert!(!ectx.return_at_end());
    ectx.exec(&Action::Push(vec![string("result")]));
    ectx.exec(&Action::Return);
    assert_eq!(ectx.callers.len(), 0);
    assert_eq!(ectx.frame.ip, 3);
    ectx.exec(&Action::Trace);
    ectx.exec(&Action::Trace);
    let mut host = LoggedHost::new();
    ectx.flush(&mut host);
    assert_eq!(host.logs.iter().map(text).collect::<Vec<_>>(), vec!["result", "below"]);
}

#[test]
fn function_end_returns_undefined() {
    let mut vm = Vm::new(11);
    let id = vm.create_script(vec![1, 2, 3, 4, 5], None, None);
    let mut ectx = match ExecutionContext::new(vm, id) {
        Ok(c) => c,
        Err(_) => panic!("no script"),
    };
    let define = Action::DefineFunction { name: chars("g"), parameters: Vec::new(), body_size: 2 };
    ectx.exec(&define);
    ectx.exec(&Action::Pop);
    ectx.exec(&Action::Push(vec![num(0), string("g")]));
    assert_eq!(ectx.exec(&Action::CallFunction), ExecOutcome::Continue);
    ectx.exec(&Action::Jump { offset: 2 });
    assert!(ectx.return_at_end());
    assert_eq!(ectx.callers.len(), 0);
    assert_eq!(ectx.exec(&Action::Trace), ExecOutcome::Continue);
    let mut host = LoggedHost::new();
    ectx.flush(&mut host);
    assert_eq!(host.logs.iter().map(text).collect::<Vec<_>>(), vec!["undefined"]);
}

#[test]
fn calling_what_is_not_a_function() {
    let (_, last) = run(11, vec![Action::Push(vec![num(0), string("nothing")]), Action::CallFunction]);
    assert_eq!(last, ExecOutcome::Fault(Fault::TypeError));
    let mut vm = Vm::new(11);
    let id = vm.create_script(vec![1, 2, 3], None, None);
    let mut ectx = match ExecutionContext::new(vm, id) {
        Ok(c) => c,
        Err(_) => panic!("no script"),
    };
    let define = Action::DefineFunction { name: chars("h"), parameters: vec![chars("a")], body_size: 1 };
    assert_eq!(ectx.exec(&define), ExecOutcome::Fault(Fault::Unsupported));
    let define = Action::DefineFunction { name: chars("h"), parameters: Vec::new(), body_size: 9 };
    assert_eq!(ectx.exec(&define), ExecOutcome::Fault(Fault::Unsupported));
}

#[test]
fn flush_to_log_keeps_order() {
    let mut ectx = start(7);
    ectx.exec(&Action::Push(vec![string("a"), string("x")]));
    ectx.exec(&Action::GetVariable);
    ectx.exec(&Action::Trace);
    ectx.exec(&Action::Trace);
    let mut host = LoggedHost::new();
    ectx.flush_to_log(&mut host);
    assert!(ectx.vm.output.is_empty());
    assert_eq!(
        host.logs.iter().map(text).collect::<Vec<_>>(),
        vec!["Warning: Reference to undeclared variable, 'x'", "undefined", "a"]
    );
}

#[test]
fn a_fault_changes_nothing() {
    let mut vm = Vm::new(11);
    let id = vm.create_script(vec![1, 2, 3], None, None);
    let mut ectx = match ExecutionContext::new(vm, id) {
        Ok(c) => c,
        Err(_) => panic!("no script"),
    };
    ectx.exec(&Action::Push(vec![num(5)]));
    let cells = ectx.vm.heap.boxes.len();
    let r = ectx.step(&Action::Push(vec![string("s"), PushValue::Register(1)]), 2);
    assert_eq!(r, ExecOutcome::Fault(Fault::Unsupported));
    assert_eq!(ectx.frame.ip, 0);
    assert_eq!(ectx.frame.stack.values.len(), 1);
    assert_eq!(ectx.vm.heap.boxes.len(), cells);
    assert_eq!(ectx.steps, 0);
    assert_eq!(ectx.step(&Action::Pop, 1), ExecOutcome::Continue);
    assert_eq!(ectx.frame.ip, 1);
    assert_eq!(ectx.steps, 1);
}
