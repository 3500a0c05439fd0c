use rotext::utils::stack::{ArrayStack, Stack, VecStack};

#[test]
fn array_stack_works() {
    let mut s = ArrayStack::<usize, 2>::new();
    assert!(s.pop().is_none());
    assert!(s.try_push(1).is_ok());
    assert!(s.try_push(2).is_ok());
    assert!(s.try_push(3).is_err());
    assert_eq!(s.pop(), Some(2));
    assert_eq!(s.pop(), Some(1));
    assert!(s.try_push(4).is_ok());
}

#[test]
fn vec_stack_keeps_order() {
    let mut s = VecStack::<usize>::new();
    assert!(s.try_push(1).is_ok());
    assert!(s.try_push(2).is_ok());
    assert_eq!(s.as_slice(), &[1, 2]);
    assert_eq!(s.pop(), Some(2));
    assert_eq!(s.pop(), Some(1));
    assert_eq!(s.pop(), None);
}
