use simple_gl::{CustomError, CustomResult, Shape, ShapesManager};
use std::cell::RefCell;
use std::rc::Rc;

/// A shape that records every lifecycle call in a shared log and can be
/// scripted to fail a given operation.
struct TestShape {
    id: u32,
    fail_update: bool,
    fail_draw: bool,
    log: Rc<RefCell<Vec<String>>>,
}

impl TestShape {
    fn ok(id: u32, log: &Rc<RefCell<Vec<String>>>) -> Self {
        TestShape {
            id,
            fail_update: false,
            fail_draw: false,
            log: Rc::clone(log),
        }
    }
}

impl Shape for TestShape {
    type Context = u32;
    type Event = u32;

    fn init(&mut self, ctx: &u32) -> CustomResult {
        self.log.borrow_mut().push(format!("init {} ctx {}", self.id, ctx));
        Ok(())
    }

    fn update(&mut self, elapsed_ms: u64) -> CustomResult {
        self.log
            .borrow_mut()
            .push(format!("update {} at {}", self.id, elapsed_ms));
        if self.fail_update {
            Err(CustomError::Other(format!("shape {} broke", self.id)))
        } else {
            Ok(())
        }
    }

    fn input(&mut self, event: &u32) -> CustomResult {
        self.log
            .borrow_mut()
            .push(format!("input {} event {}", self.id, event));
        Ok(())
    }

    fn draw(&self) -> CustomResult {
        self.log.borrow_mut().push(format!("draw {}", self.id));
        if self.fail_draw {
            Err(CustomError::Other(format!("shape {} draw broke", self.id)))
        } else {
            Ok(())
        }
    }
}

#[test]
fn update_dispatches_in_insertion_order() {
    let log = Rc::new(RefCell::new(Vec::new()));
    let mut manager = ShapesManager::new();
    manager.add_shape(TestShape::ok(1, &log));
    manager.add_shape(TestShape::ok(2, &log));
    manager.add_shape(TestShape::ok(3, &log));
    assert!(manager.update(16).is_ok());
    assert_eq!(
        *log.borrow(),
        vec!["update 1 at 16", "update 2 at 16", "update 3 at 16"]
    );
}

#[test]
fn update_stops_at_first_failure_and_returns_its_error() {
    let log = Rc::new(RefCell::new(Vec::new()));
    let mut manager = ShapesManager::new();
    manager.add_shape(TestShape::ok(1, &log));
    let mut failing = TestShape::ok(2, &log);
    failing.fail_update = true;
    manager.add_shape(failing);
    manager.add_shape(TestShape::ok(3, &log));
    manager.add_shape(TestShape::ok(4, &log));
    let e = manager.update(5).unwrap_err();
    match e {
        CustomError::Other(msg) => assert_eq!(msg, "shape 2 broke"),
        other => panic!("unexpected error {:?}", other),
    }
    assert_eq!(*log.borrow(), vec!["update 1 at 5", "update 2 at 5"]);
}

#[test]
fn init_passes_the_context_to_every_shape_in_order() {
    let log = Rc::new(RefCell::new(Vec::new()));
    let mut manager = ShapesManager::new();
    manager.add_shape(TestShape::ok(1, &log));
    manager.add_shape(TestShape::ok(2, &log));
    assert!(manager.init(&42).is_ok());
    assert_eq!(*log.borrow(), vec!["init 1 ctx 42", "init 2 ctx 42"]);
}

#[test]
fn input_dispatches_one_event_to_every_shape_in_order() {
    let log = Rc::new(RefCell::new(Vec::new()));
    let mut manager = ShapesManager::new();
    manager.add_shape(TestShape::ok(1, &log));
    manager.add_shape(TestShape::ok(2, &log));
    assert!(manager.input(&9).is_ok());
    assert_eq!(*log.borrow(), vec!["input 1 event 9", "input 2 event 9"]);
}

#[test]
fn draw_stops_at_first_failure() {
    let log = Rc::new(RefCell::new(Vec::new()));
    let mut manager = ShapesManager::new();
    manager.add_shape(TestShape::ok(1, &log));
    let mut failing = TestShape::ok(2, &log);
    failing.fail_draw = true;
    manager.add_shape(failing);
    manager.add_shape(TestShape::ok(3, &log));
    let e = manager.draw().unwrap_err();
    assert!(matches!(e, CustomError::Other(_)));
    assert_eq!(*log.borrow(), vec!["draw 1", "draw 2"]);
}

#[test]
fn empty_manager_dispatches_are_ok() {
    let mut manager: ShapesManager<TestShape> = ShapesManager::new();
    assert!(manager.init(&0).is_ok());
    assert!(manager.update(0).is_ok());
    assert!(manager.input(&0).is_ok());
    assert!(manager.draw().is_ok());
}
