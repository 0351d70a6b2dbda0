use rox::stack::Stack;
use rox::value::Value;

fn number(n: f64) -> Value {
    Value::Number(n.to_bits())
}

#[test]
fn test_push() {
    let mut stack = Stack::new();
    stack.push(number(1.0));
    stack.push(number(2.0));
    stack.push(number(3.0));
    assert_eq!(stack.len(), 3);
}

#[test]
fn test_pop() {
    let mut stack = Stack::new();
    stack.push(number(1.0));
    stack.push(number(2.0));
    stack.push(number(3.0));
    assert_eq!(stack.pop(), Some(number(3.0)));
    assert_eq!(stack.pop(), Some(number(2.0)));
    assert_eq!(stack.pop(), Some(number(1.0)));
    assert_eq!(stack.pop(), None);
}

#[test]
fn stack_test_peek() {
    let mut stack = Stack::new();
    stack.push(number(1.0));
    stack.push(number(2.0));
    stack.push(number(3.0));
    assert_eq!(stack.peek(0), Some(&number(3.0)));
    assert_eq!(stack.peek(1), Some(&number(2.0)));
    assert_eq!(stack.peek(2), Some(&number(1.0)));
    assert_eq!(stack.peek(3), None);
}

#[test]
fn stack_test_len() {
    let mut stack = Stack::new();
    stack.push(number(1.0));
    stack.push(number(2.0));
    stack.push(number(3.0));
    assert_eq!(stack.len(), 3);
}

#[test]
fn test_reset() {
    let mut stack = Stack::new();
    stack.push(number(1.0));
    stack.push(number(2.0));
    stack.push(number(3.0));
    stack.reset();
    assert_eq!(stack.len(), 0);
}

#[test]
fn stack_test_is_empty() {
    let mut stack = Stack::new();
    assert!(stack.is_empty());
    stack.push(number(1.0));
    assert!(!stack.is_empty());
    stack.pop();
    assert!(stack.is_empty());
}
