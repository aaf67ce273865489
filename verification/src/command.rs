//! A linear undo/redo command stack: an ordered history of commands with a
//! cursor. Executing a new command truncates everything after the cursor
//! (finalizing the dropped commands in order) before appending; undo and
//! redo move the cursor, reverting or re-executing the command it passes.

use vstd::prelude::*;

verus! {

/// The capability of an undoable command: apply, revert, and a last chance
/// to release resources when history is truncated past it.
///
/// The three spec functions name, per implementation, what each operation
/// does to the command's own state or to the context; the methods'
/// contracts bind the executable code to them.
pub trait Command: Sized {
    /// The caller-owned environment the command acts on.
    type Context;

    /// The command's own state after `execute` runs in `context`.
    spec fn executed(self, context: Self::Context) -> Self;

    /// The command's own state after `revert` runs in `context`.
    spec fn reverted(self, context: Self::Context) -> Self;

    /// The context after `finalize` runs in it.
    spec fn finalized_context(self, context: Self::Context) -> Self::Context;

    /// Applies the command to `context`.
    fn execute(&mut self, context: &mut Self::Context)
        ensures
            *final(self) == old(self).executed(*old(context)),
    ;

    /// Undoes the command's effect on `context`.
    fn revert(&mut self, context: &mut Self::Context)
        ensures
            *final(self) == old(self).reverted(*old(context)),
    ;

    /// Runs when the command is dropped from history for good.
    fn finalize(&mut self, context: &mut Self::Context)
        ensures
            *final(context) == old(self).finalized_context(*old(context)),
    ;
}

/// The context after finalizing `cmds[k..]` in order, starting from `ctx`.
pub open spec fn finalize_from<C: Command>(cmds: Seq<C>, k: int, ctx: C::Context) -> C::Context
    decreases cmds.len() - k,
{
    if !(0 <= k < cmds.len()) {
        ctx
    } else {
        finalize_from(cmds, k + 1, cmds[k].finalized_context(ctx))
    }
}

/// A linear history of commands with an undo/redo cursor.
pub struct CommandStack<C> {
    commands: Vec<C>,
    top: Option<usize>,
}

impl<C> CommandStack<C> {
    /// The commands in history, oldest first.
    pub closed spec fn history(self) -> Seq<C> {
        self.commands@
    }

    /// The cursor: the index of the last executed command, or `None` when
    /// everything has been undone (or nothing was ever executed).
    pub closed spec fn cursor(self) -> Option<usize> {
        self.top
    }

    /// The stack's invariant: the cursor never points past the end of
    /// history, and a cursor exists only over a non-empty history.
    pub open spec fn wf(self) -> bool {
        match self.cursor() {
            Some(t) => t <= self.history().len() && self.history().len() > 0,
            None => true,
        }
    }

    /// Where the next command lands: the cursor advanced by one, which is
    /// also how much of the old history survives the truncation.
    pub open spec fn next_top(self) -> int {
        if self.history().len() == 0 {
            0
        } else {
            match self.cursor() {
                None => 0,
                Some(t) => t + 1,
            }
        }
    }

    /// Creates an empty command stack.
    pub fn new() -> (s: CommandStack<C>)
        ensures
            s.wf(),
            s.history().len() == 0,
            s.cursor() is None,
    {
        CommandStack { commands: Vec::new(), top: None }
    }
}

impl<C: Command> CommandStack<C> {
    /// Truncates history after the cursor — finalizing each dropped
    /// command in order, threading `context` through — then executes
    /// `command` in the threaded context and appends it; the cursor ends
    /// on the new command.
    #[verifier::loop_isolation(false)]
    pub fn do_command(&mut self, command: C, context: C::Context)
        requires
            old(self).wf(),
            old(self).history().len() < usize::MAX,
        ensures
            final(self).wf(),
            ({
                let keep = old(self).next_top();
                let n = old(self).history().len() as int;
                let kept = if keep <= n {
                    old(self).history().take(keep)
                } else {
                    old(self).history()
                };
                let threaded = finalize_from(old(self).history(), keep, context);
                &&& final(self).history() == kept.push(command.executed(threaded))
                &&& final(self).cursor() == Some(keep as usize)
            }),
    {
        let mut context = context;
        let mut command = command;
        let ghost command0 = command;
        let ghost history0 = self.history();
        let ghost context0 = context;
        let n = self.commands.len();
        let new_top: usize = if n == 0 {
            0
        } else {
            match self.top {
                None => 0,
                Some(t) => t + 1,
            }
        };
        self.top = Some(new_top);
        if new_top < n {
            let mut j: usize = new_top;
            while j < n
                invariant
                    new_top <= j <= n,
                    self.commands@.len() == n,
                    self.top == Some(new_top),
                    forall|i: int|
                        0 <= i < n && !(new_top <= i < j) ==> #[trigger] self.commands@[i]
                            == history0[i],
                    finalize_from(history0, j as int, context) == finalize_from(
                        history0,
                        new_top as int,
                        context0,
                    ),
                decreases n - j,
            {
                let cmd = vstd::std_specs::vec::vec_index_mut(&mut self.commands, j);
                cmd.finalize(&mut context);
                j = j + 1;
            }
            self.commands.truncate(new_top);
            proof {
                assert(self.commands@ =~= history0.take(new_top as int));
            }
        }
        command.execute(&mut context);
        self.commands.push(command);
        proof {
            let keep = old(self).next_top();
            let threaded = finalize_from(history0, keep, context0);
            if keep <= n as int {
                assert(self.commands@ =~= history0.take(keep).push(command0.executed(threaded)));
            } else {
                assert(self.commands@ =~= history0.push(command0.executed(threaded)));
            }
        }
    }

    /// Reverts the command under the cursor (if the cursor is in range)
    /// and steps the cursor back, to `None` once the whole history has
    /// been undone. Does nothing on an empty history or a `None` cursor.
    pub fn undo(&mut self, context: C::Context)
        requires
            old(self).wf(),
        ensures
            final(self).wf(),
            ({
                let n = old(self).history().len() as int;
                if n == 0 || old(self).cursor() is None {
                    *final(self) == *old(self)
                } else {
                    let t = old(self).cursor()->0 as int;
                    &&& final(self).history() == (if t < n {
                        old(self).history().update(t, old(self).history()[t].reverted(context))
                    } else {
                        old(self).history()
                    })
                    &&& final(self).cursor() == (if t == 0 {
                        Option::<usize>::None
                    } else {
                        Some((t - 1) as usize)
                    })
                }
            }),
    {
        let mut context = context;
        if self.commands.len() != 0 {
            match self.top {
                Some(t) => {
                    if t < self.commands.len() {
                        let cmd = vstd::std_specs::vec::vec_index_mut(&mut self.commands, t);
                        cmd.revert(&mut context);
                    }
                    if t == 0 {
                        self.top = None;
                    } else {
                        self.top = Some(t - 1);
                    }
                },
                None => {},
            }
        }
    }

    /// Re-executes the command under the cursor (if the cursor is in
    /// range) and advances the cursor. On a `None` cursor over a non-empty
    /// history it re-executes the first command and sets the cursor to
    /// one — the first redo after a full undo therefore skips the cursor
    /// past the command it ran. Does nothing on an empty history or a
    /// cursor already at the end.
    pub fn redo(&mut self, context: C::Context)
        requires
            old(self).wf(),
        ensures
            final(self).wf(),
            ({
                let n = old(self).history().len() as int;
                if n == 0 {
                    *final(self) == *old(self)
                } else {
                    match old(self).cursor() {
                        None => {
                            &&& final(self).history() == old(self).history().update(
                                0,
                                old(self).history()[0].executed(context),
                            )
                            &&& final(self).cursor() == Some(1usize)
                        },
                        Some(t) => {
                            if t < n {
                                &&& final(self).history() == old(self).history().update(
                                    t as int,
                                    old(self).history()[t as int].executed(context),
                                )
                                &&& final(self).cursor() == Some((t + 1) as usize)
                            } else {
                                *final(self) == *old(self)
                            }
                        },
                    }
                }
            }),
    {
        let mut context = context;
        if self.commands.len() != 0 {
            match self.top {
                None => {
                    self.top = Some(1);
                    let cmd = vstd::std_specs::vec::vec_index_mut(&mut self.commands, 0);
                    cmd.execute(&mut context);
                },
                Some(t) => {
                    if t < self.commands.len() {
                        let cmd = vstd::std_specs::vec::vec_index_mut(&mut self.commands, t);
                        cmd.execute(&mut context);
                        self.top = Some(t + 1);
                    }
                },
            }
        }
    }
}

} // verus!
