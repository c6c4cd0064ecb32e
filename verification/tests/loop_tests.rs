use simple_gl::{CustomError, CustomResult, Shape, ShapesManager, SimpleGl, WindowSystem};
use std::cell::{Cell, RefCell};
use std::rc::Rc;

/// A scripted windowing collaborator: reports "should close" after a
/// fixed number of iterations and counts setup, poll and swap calls.
struct MockWindow {
    close_after: u32,
    close_checks: Cell<u32>,
    time: u64,
    queued_events: RefCell<Vec<Vec<u32>>>,
    swaps: Rc<Cell<u32>>,
    setup_calls: Rc<RefCell<Vec<String>>>,
}

impl MockWindow {
    fn new(close_after: u32) -> Self {
        MockWindow {
            close_after,
            close_checks: Cell::new(0),
            time: 0,
            queued_events: RefCell::new(Vec::new()),
            swaps: Rc::new(Cell::new(0)),
            setup_calls: Rc::new(RefCell::new(Vec::new())),
        }
    }
}

impl WindowSystem for MockWindow {
    type Event = u32;

    fn make_current(&mut self) {
        self.setup_calls.borrow_mut().push("make_current".to_string());
    }

    fn set_key_polling(&mut self) {
        self.setup_calls.borrow_mut().push("set_key_polling".to_string());
    }

    fn set_vsync(&mut self) {
        self.setup_calls.borrow_mut().push("set_vsync".to_string());
    }

    fn should_close(&self) -> bool {
        let seen = self.close_checks.get();
        self.close_checks.set(seen + 1);
        seen >= self.close_after
    }

    fn get_time_ms(&mut self) -> u64 {
        self.time += 16;
        self.time
    }

    fn poll_events(&mut self) -> Vec<u32> {
        let mut queue = self.queued_events.borrow_mut();
        if queue.is_empty() {
            Vec::new()
        } else {
            queue.remove(0)
        }
    }

    fn swap_buffers(&mut self) {
        self.swaps.set(self.swaps.get() + 1);
    }
}

/// A shape that counts its lifecycle calls and can fail `update` on a
/// chosen call number.
struct CountingShape {
    updates: Rc<Cell<u32>>,
    draws: Rc<Cell<u32>>,
    inputs: Rc<RefCell<Vec<u32>>>,
    elapsed_seen: Rc<RefCell<Vec<u64>>>,
    fail_update_on_call: Option<u32>,
}

impl Shape for CountingShape {
    type Context = u32;
    type Event = u32;

    fn init(&mut self, _ctx: &u32) -> CustomResult {
        Ok(())
    }

    fn update(&mut self, elapsed_ms: u64) -> CustomResult {
        self.updates.set(self.updates.get() + 1);
        self.elapsed_seen.borrow_mut().push(elapsed_ms);
        if self.fail_update_on_call == Some(self.updates.get()) {
            Err(CustomError::Other("simulation diverged".to_string()))
        } else {
            Ok(())
        }
    }

    fn input(&mut self, event: &u32) -> CustomResult {
        self.inputs.borrow_mut().push(*event);
        Ok(())
    }

    fn draw(&self) -> CustomResult {
        self.draws.set(self.draws.get() + 1);
        Ok(())
    }
}

fn counting_shape(fail_update_on_call: Option<u32>) -> CountingShape {
    CountingShape {
        updates: Rc::new(Cell::new(0)),
        draws: Rc::new(Cell::new(0)),
        inputs: Rc::new(RefCell::new(Vec::new())),
        elapsed_seen: Rc::new(RefCell::new(Vec::new())),
        fail_update_on_call,
    }
}

#[test]
fn loop_runs_exactly_until_close_and_succeeds() {
    let window = MockWindow::new(3);
    let swaps = Rc::clone(&window.swaps);
    let shape = counting_shape(None);
    let updates = Rc::clone(&shape.updates);
    let draws = Rc::clone(&shape.draws);
    let mut manager = ShapesManager::new();
    manager.add_shape(shape);
    let mut driver = SimpleGl::init(window, &7, manager).unwrap();
    assert!(driver.main_loop().is_ok());
    assert_eq!(draws.get(), 3);
    assert_eq!(updates.get(), 3);
    assert_eq!(swaps.get(), 3);
}

#[test]
fn loop_performs_setup_in_order_before_running() {
    let window = MockWindow::new(0);
    let setup = Rc::clone(&window.setup_calls);
    let manager: ShapesManager<CountingShape> = ShapesManager::new();
    let mut driver = SimpleGl::init(window, &7, manager).unwrap();
    assert!(driver.main_loop().is_ok());
    assert_eq!(
        *setup.borrow(),
        vec!["make_current", "set_key_polling", "set_vsync"]
    );
}

#[test]
fn loop_aborts_on_update_failure_with_that_error() {
    let window = MockWindow::new(10);
    let swaps = Rc::clone(&window.swaps);
    let shape = counting_shape(Some(2));
    let updates = Rc::clone(&shape.updates);
    let draws = Rc::clone(&shape.draws);
    let mut manager = ShapesManager::new();
    manager.add_shape(shape);
    let mut driver = SimpleGl::init(window, &7, manager).unwrap();
    let e = driver.main_loop().unwrap_err();
    match e {
        CustomError::Other(msg) => assert_eq!(msg, "simulation diverged"),
        other => panic!("unexpected error {:?}", other),
    }
    assert_eq!(updates.get(), 2);
    assert_eq!(draws.get(), 1);
    assert_eq!(swaps.get(), 1);
}

#[test]
fn loop_dispatches_polled_events_in_arrival_order() {
    let window = MockWindow::new(2);
    window
        .queued_events
        .borrow_mut()
        .push(vec![11, 22, 33]);
    let shape = counting_shape(None);
    let inputs = Rc::clone(&shape.inputs);
    let mut manager = ShapesManager::new();
    manager.add_shape(shape);
    let mut driver = SimpleGl::init(window, &7, manager).unwrap();
    assert!(driver.main_loop().is_ok());
    assert_eq!(*inputs.borrow(), vec![11, 22, 33]);
}

#[test]
fn loop_hands_update_the_elapsed_time() {
    let window = MockWindow::new(2);
    let shape = counting_shape(None);
    let elapsed = Rc::clone(&shape.elapsed_seen);
    let mut manager = ShapesManager::new();
    manager.add_shape(shape);
    let mut driver = SimpleGl::init(window, &7, manager).unwrap();
    assert!(driver.main_loop().is_ok());
    // the mock clock advances 16 ms per reading, one reading per iteration
    assert_eq!(*elapsed.borrow(), vec![16, 16]);
}
