use jsruntime::{BuiltIn, BuiltinFn, ExecutionError, JsResult, JsThread, Value};

/// Pushes the sum of its argument count and the bound context onto the stack
/// and returns the target.
struct Noisy;

impl<'a> BuiltinFn<'a> for Noisy {
    fn call(
        &self,
        arguments: usize,
        frame: &mut JsThread<'a>,
        target: Value<'a>,
        context: Option<Value<'a>>,
    ) -> JsResult<'a, Option<Value<'a>>> {
        let extra = context.map(|c| c.bits()).unwrap_or(0);
        frame.stack.push(Value::from_bits(arguments as u64 + extra));
        frame.stack.push(Value::from_bits(99));
        Ok(Some(target))
    }
}

/// Pops everything and throws.
struct Greedy;

impl<'a> BuiltinFn<'a> for Greedy {
    fn call(
        &self,
        _arguments: usize,
        frame: &mut JsThread<'a>,
        target: Value<'a>,
        _context: Option<Value<'a>>,
    ) -> JsResult<'a, Option<Value<'a>>> {
        frame.stack.clear();
        Err(ExecutionError::Thrown(target))
    }
}

fn thread_with(values: &[u64]) -> JsThread<'static> {
    let mut thread = JsThread::new();
    for v in values {
        thread.stack.push(Value::from_bits(*v));
    }
    thread
}

fn bits(thread: &JsThread) -> Vec<u64> {
    thread.stack.iter().map(|v| v.bits()).collect()
}

#[test]
fn arguments_and_pushes_are_dropped() {
    let mut thread = thread_with(&[1, 2, 3, 4]);
    let builtin = BuiltIn { op: Noisy, context: Some(Value::from_bits(10)) };
    let result = builtin.apply_return(2, &mut thread, Value::from_bits(77));
    match result {
        Ok(Some(v)) => assert_eq!(v.bits(), 77),
        _ => panic!("expected the target back"),
    }
    assert_eq!(bits(&thread), vec![1, 2]);
}

#[test]
fn no_arguments_keeps_the_caller_stack() {
    let mut thread = thread_with(&[5, 6]);
    let builtin = BuiltIn { op: Noisy, context: None };
    let result = builtin.apply_return(0, &mut thread, Value::from_bits(1));
    assert!(matches!(result, Ok(Some(_))));
    assert_eq!(bits(&thread), vec![5, 6]);
}

#[test]
fn a_builtin_that_pops_below_its_frame_is_not_undone() {
    let mut thread = thread_with(&[1, 2, 3]);
    let builtin = BuiltIn { op: Greedy, context: None };
    let result = builtin.apply_return(1, &mut thread, Value::from_bits(8));
    match result {
        Err(ExecutionError::Thrown(v)) => assert_eq!(v.bits(), 8),
        _ => panic!("expected a throw"),
    }
    assert!(thread.stack.is_empty());
}

#[test]
fn truncate_stack_cuts_or_keeps() {
    let mut thread = thread_with(&[1, 2, 3]);
    thread.truncate_stack(5);
    assert_eq!(bits(&thread), vec![1, 2, 3]);
    thread.truncate_stack(1);
    assert_eq!(bits(&thread), vec![1]);
}
