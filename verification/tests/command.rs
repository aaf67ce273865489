use std::cell::RefCell;
use std::rc::Rc;

use behavior_tree::command::{Command, CommandStack};

#[derive(Default, Debug, PartialEq)]
struct State {
    value: i64,
    finalized: Vec<i64>,
}

type SharedState = Rc<RefCell<State>>;

#[derive(Debug, Clone)]
struct AddCmd {
    amount: i64,
}

impl Command for AddCmd {
    type Context = SharedState;

    // Specification hooks of the `Command` trait: outside verification
    // they are required stubs that nothing ever calls.
    fn executed(self, _: Self::Context) -> Self {
        unreachable!()
    }

    fn reverted(self, _: Self::Context) -> Self {
        unreachable!()
    }

    fn finalized_context(self, _: Self::Context) -> Self::Context {
        unreachable!()
    }

    fn execute(&mut self, context: &mut Self::Context) {
        context.borrow_mut().value += self.amount;
    }

    fn revert(&mut self, context: &mut Self::Context) {
        context.borrow_mut().value -= self.amount;
    }

    fn finalize(&mut self, context: &mut Self::Context) {
        context.borrow_mut().finalized.push(self.amount);
    }
}

fn shared() -> SharedState {
    Rc::new(RefCell::new(State::default()))
}

#[test]
fn do_undo_redo_cycle() {
    let state = shared();
    let mut stack: CommandStack<AddCmd> = CommandStack::new();

    stack.do_command(AddCmd { amount: 1 }, state.clone());
    stack.do_command(AddCmd { amount: 2 }, state.clone());
    stack.do_command(AddCmd { amount: 3 }, state.clone());
    assert_eq!(state.borrow().value, 6);

    stack.undo(state.clone());
    assert_eq!(state.borrow().value, 3);
    stack.undo(state.clone());
    assert_eq!(state.borrow().value, 1);
    stack.undo(state.clone());
    assert_eq!(state.borrow().value, 0);

    // Undoing past the beginning does nothing.
    stack.undo(state.clone());
    assert_eq!(state.borrow().value, 0);

    // The first redo after a full undo re-executes the first command and
    // moves the cursor past it.
    stack.redo(state.clone());
    assert_eq!(state.borrow().value, 1);
    stack.redo(state.clone());
    assert_eq!(state.borrow().value, 3);
    stack.redo(state.clone());
    assert_eq!(state.borrow().value, 6);

    // Redoing past the end does nothing.
    stack.redo(state.clone());
    assert_eq!(state.borrow().value, 6);

    assert!(state.borrow().finalized.is_empty());
}

#[test]
fn new_command_truncates_redo_history() {
    let state = shared();
    let mut stack: CommandStack<AddCmd> = CommandStack::new();

    stack.do_command(AddCmd { amount: 1 }, state.clone());
    stack.do_command(AddCmd { amount: 2 }, state.clone());
    stack.do_command(AddCmd { amount: 4 }, state.clone());
    assert_eq!(state.borrow().value, 7);

    stack.undo(state.clone());
    stack.undo(state.clone());
    assert_eq!(state.borrow().value, 1);

    // A new command drops the two undone commands, finalizing them in
    // history order.
    stack.do_command(AddCmd { amount: 8 }, state.clone());
    assert_eq!(state.borrow().value, 9);
    assert_eq!(state.borrow().finalized, vec![2, 4]);

    // The dropped commands are gone. The cursor still sits on the newest
    // command, so one redo re-executes it, and after that there is
    // nothing left to redo.
    stack.redo(state.clone());
    assert_eq!(state.borrow().value, 17);
    stack.redo(state.clone());
    assert_eq!(state.borrow().value, 17);
}

#[test]
fn undo_on_empty_stack_is_a_no_op() {
    let state = shared();
    let mut stack: CommandStack<AddCmd> = CommandStack::new();
    stack.undo(state.clone());
    stack.redo(state.clone());
    assert_eq!(*state.borrow(), State::default());
}
