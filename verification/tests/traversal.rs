use mosaic::stack::{Coord, CoordStack};

#[test]
fn test() {
    let mut list = CoordStack::new();

    list.push(Coord { x: 1, y: 1 });
    list.push(Coord { x: 2, y: 2 });
    assert_eq!(2, list.pop().unwrap().x);
    assert_eq!(1, list.pop().unwrap().x);
}

#[test]
fn pop_on_empty_returns_none() {
    let mut stack = CoordStack::new();
    assert!(stack.is_empty());
    assert!(stack.pop().is_none());
}

#[test]
fn lifo_order_full() {
    let mut stack = CoordStack::new();
    stack.push(Coord { x: 0, y: 9 });
    stack.push(Coord { x: 4, y: 7 });
    stack.push(Coord { x: 8, y: 3 });
    assert_eq!(Some(Coord { x: 8, y: 3 }), stack.pop());
    assert_eq!(Some(Coord { x: 4, y: 7 }), stack.pop());
    assert_eq!(Some(Coord { x: 0, y: 9 }), stack.pop());
    assert!(stack.is_empty());
}
