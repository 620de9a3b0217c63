//! The per-sub-path draw state machine: a sub-path is `Inactive` until a
//! move opens it, `Active` once opened, and `Commands` once a segment
//! command has been given. A failing transition leaves the state alone.

use vstd::prelude::*;

use crate::geom::Point;

verus! {

/// A segment command given to the current sub-path.
#[derive(Debug, Clone, Copy, PartialEq, Eq, Structural)]
pub enum Command {
    LineTo,
    CubicBezier,
    QuadraticBezier,
}

/// An opened sub-path: where it started.
#[derive(Debug, Clone, Copy, PartialEq, Eq, Structural)]
pub struct Active {
    pub first: Point,
}

impl Active {
    pub fn new(first: Point) -> (r: Active)
        ensures
            r.first == first,
    {
        Active { first }
    }
}

/// A sub-path that has been given commands: which kinds, where it is, and
/// where it started.
#[derive(Debug, Clone, Copy, PartialEq, Eq, Structural)]
pub struct Commands {
    pub line_to: bool,
    pub cubic_bezier: bool,
    pub quadratic_bezier: bool,
    pub current: Point,
    pub first: Point,
}

/// The freshly opened command state: no commands yet, current at the
/// start.
pub open spec fn spec_commands_new(first: Point) -> Commands {
    Commands {
        line_to: false,
        cubic_bezier: false,
        quadratic_bezier: false,
        current: first,
        first,
    }
}

/// The command state once one more command kind has been seen.
pub open spec fn spec_with_command(c: Commands, command: Command) -> Commands {
    match command {
        Command::LineTo => Commands { line_to: true, ..c },
        Command::CubicBezier => Commands { cubic_bezier: true, ..c },
        Command::QuadraticBezier => Commands { quadratic_bezier: true, ..c },
    }
}

impl Commands {
    pub fn new(first: Point) -> (r: Commands)
        ensures
            r == spec_commands_new(first),
    {
        Commands {
            line_to: false,
            cubic_bezier: false,
            quadratic_bezier: false,
            current: first,
            first,
        }
    }

    pub fn with_command(self, command: Command) -> (r: Commands)
        ensures
            r == spec_with_command(self, command),
    {
        match command {
            Command::CubicBezier => Commands { cubic_bezier: true, ..self },
            Command::QuadraticBezier => Commands { quadratic_bezier: true, ..self },
            Command::LineTo => Commands { line_to: true, ..self },
        }
    }
}

/// The three stages of a sub-path's life.
#[derive(Debug, Clone, Copy, PartialEq, Eq, Structural)]
pub enum State {
    Inactive,
    Active(Active),
    Commands(Commands),
}

/// Errors of the draw state machine.
#[derive(Debug)]
pub enum GraphicsStateError {
    /// The machine cannot move from the first named state to the second.
    StateTransition(&'static str, &'static str),
    /// The machine was read as a state it is not in.
    AttemptToAccessWrongState(&'static str),
    /// The machine is in the named state but should not be.
    StateAssertion(&'static str),
}

/// The draw state of the sub-path under construction.
#[derive(Debug, Clone, Copy)]
pub struct DrawState(pub State);

impl Default for DrawState {
    /// No sub-path is open.
    fn default() -> (r: DrawState)
        ensures
            r.0 is Inactive,
    {
        DrawState(State::Inactive)
    }
}

impl DrawState {
    pub fn current(&self) -> (r: State)
        ensures
            r == self.0,
    {
        self.0
    }

    pub fn assert_is_inactive(&self) -> (r: Result<(), GraphicsStateError>)
        ensures
            r is Ok <==> self.0 is Inactive,
    {
        match &self.0 {
            State::Inactive => Ok(()),
            _ => Err(GraphicsStateError::AttemptToAccessWrongState("Inactive")),
        }
    }

    pub fn assert_is_not_inactive(&self) -> (r: Result<(), GraphicsStateError>)
        ensures
            r is Ok <==> !(self.0 is Inactive),
    {
        match &self.0 {
            State::Inactive => Err(GraphicsStateError::StateAssertion("Inactive")),
            _ => Ok(()),
        }
    }

    pub fn assert_is_active(&self) -> (r: Result<Active, GraphicsStateError>)
        ensures
            match r {
                Ok(a) => self.0 == State::Active(a),
                Err(_) => !(self.0 is Active),
            },
    {
        match &self.0 {
            State::Active(s) => Ok(*s),
            _ => Err(GraphicsStateError::AttemptToAccessWrongState("Active")),
        }
    }

    pub fn assert_is_commands(&self) -> (r: Result<&Commands, GraphicsStateError>)
        ensures
            match r {
                Ok(c) => self.0 == State::Commands(*c),
                Err(_) => !(self.0 is Commands),
            },
    {
        match &self.0 {
            State::Commands(data) => Ok(data),
            _ => Err(GraphicsStateError::AttemptToAccessWrongState("Commands")),
        }
    }

    /// Ends the sub-path: permitted from every state.
    pub fn make_inactive(&mut self) -> (r: Result<(), GraphicsStateError>)
        ensures
            r is Ok,
            final(self).0 is Inactive,
    {
        self.0 = State::Inactive;
        Ok(())
    }

    /// Opens a sub-path at `at`. Opening while already `Active` keeps the
    /// earlier start; a sub-path that has commands cannot be reopened, and
    /// the failure leaves the state unchanged.
    pub fn make_active(&mut self, at: Point) -> (r: Result<(), GraphicsStateError>)
        ensures
            match old(self).0 {
                State::Inactive => r is Ok && final(self).0 == State::Active(
                    Active { first: at },
                ),
                State::Active(_) => r is Ok && final(self).0 == old(self).0,
                State::Commands(_) => {
                    &&& r matches Err(GraphicsStateError::StateTransition(a, b))
                    &&& a@ == "Commands"@
                    &&& b@ == "Active"@
                    &&& final(self).0 == old(self).0
                },
            },
    {
        match &self.0 {
            State::Inactive => {
                self.0 = State::Active(Active::new(at));
                Ok(())
            },
            State::Active(_) => Ok(()),
            State::Commands(_) => Err(GraphicsStateError::StateTransition("Commands", "Active")),
        }
    }

    /// Gives the open sub-path a command. A sub-path that was never opened
    /// takes no command: the call fails and the state is unchanged, so
    /// `Commands` is only ever entered from `Active`.
    pub fn make_commands(&mut self, command: Command) -> (r: Result<(), GraphicsStateError>)
        ensures
            match old(self).0 {
                State::Inactive => {
                    &&& r matches Err(GraphicsStateError::StateTransition(a, b))
                    &&& a@ == "Inactive"@
                    &&& b@ == "Commands"@
                    &&& final(self).0 == old(self).0
                },
                State::Active(s) => r is Ok && final(self).0 == State::Commands(
                    spec_with_command(spec_commands_new(s.first), command),
                ),
                State::Commands(c) => r is Ok && final(self).0 == State::Commands(
                    spec_with_command(c, command),
                ),
            },
    {
        match self.0 {
            State::Inactive => Err(GraphicsStateError::StateTransition("Inactive", "Commands")),
            State::Active(s) => {
                let c = Commands::new(s.first);
                let c = c.with_command(command);
                self.0 = State::Commands(c);
                Ok(())
            },
            State::Commands(current) => {
                self.0 = State::Commands(current.with_command(command));
                Ok(())
            },
        }
    }
}

/// What one transition does to a state, with a failing transition leaving
/// it alone.
pub open spec fn spec_step(s: State, op: DrawOp) -> State {
    match op {
        DrawOp::MakeInactive => State::Inactive,
        DrawOp::MakeActive(at) => match s {
            State::Inactive => State::Active(Active { first: at }),
            _ => s,
        },
        DrawOp::MakeCommands(c) => match s {
            State::Inactive => s,
            State::Active(a) => State::Commands(spec_with_command(spec_commands_new(a.first), c)),
            State::Commands(k) => State::Commands(spec_with_command(k, c)),
        },
    }
}

/// A transition request, for stating laws over runs of the machine.
#[derive(Debug, Clone, Copy, PartialEq, Eq, Structural)]
pub enum DrawOp {
    MakeInactive,
    MakeActive(Point),
    MakeCommands(Command),
}

/// The machine never enters `Commands` except from `Active`: whatever
/// transition is requested of a state that is not yet in `Commands`, the
/// result is in `Commands` only when the sub-path had been made active
/// first.
pub proof fn lemma_commands_needs_active(s: State, op: DrawOp)
    requires
        !(s is Commands),
        spec_step(s, op) is Commands,
    ensures
        s is Active,
        op is MakeCommands,
{
}

/// The state after the first `i` transitions of a run.
pub open spec fn spec_run(start: State, ops: Seq<DrawOp>, i: int) -> State
    decreases i,
{
    if i <= 0 {
        start
    } else {
        spec_step(spec_run(start, ops, i - 1), ops[i - 1])
    }
}

/// Over any run that does not begin in `Commands`, the machine stands in
/// `Active` at some point strictly before it first stands in `Commands`:
/// a sub-path passes through `Active` before it takes commands.
pub proof fn lemma_run_commands_needs_active(start: State, ops: Seq<DrawOp>, i: int)
    requires
        0 <= i <= ops.len(),
        !(start is Commands),
        spec_run(start, ops, i) is Commands,
    ensures
        exists|j: int| 0 <= j < i && #[trigger] spec_run(start, ops, j) is Active,
    decreases i,
{
    if i == 0 {
        assert(false);
    } else {
        let prev = spec_run(start, ops, i - 1);
        if prev is Commands {
            lemma_run_commands_needs_active(start, ops, i - 1);
            let j = choose|j: int|
                0 <= j < i - 1 && #[trigger] spec_run(start, ops, j) is Active;
            assert(spec_run(start, ops, j) is Active);
        } else {
            lemma_commands_needs_active(prev, ops[i - 1]);
            assert(spec_run(start, ops, i - 1) is Active);
        }
    }
}

} // verus!
