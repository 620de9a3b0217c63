//! The draw state the tessellation side keeps per sub-path: the same
//! three-stage machine as the path builder's, without coordinates; it
//! remembers only which command kinds the sub-path has been given.

use vstd::prelude::*;

verus! {

/// A segment command given to the current sub-path.
#[derive(Debug, Clone, Copy, PartialEq, Eq, Structural)]
pub enum Command {
    LineTo,
    CubicBezier,
    QuadraticBezier,
}

/// Which command kinds the sub-path has been given.
#[derive(Debug, Clone, Copy, PartialEq, Eq, Structural)]
pub struct Commands {
    pub line_to: bool,
    pub cubic_bezier: bool,
    pub quadratic_bezier: bool,
}

impl Default for Commands {
    /// No commands yet.
    fn default() -> (r: Commands)
        ensures
            r == (Commands { line_to: false, cubic_bezier: false, quadratic_bezier: false }),
    {
        Commands { line_to: false, cubic_bezier: false, quadratic_bezier: false }
    }
}

/// The three stages of a sub-path's life on this side.
#[derive(Debug, Clone, Copy, PartialEq, Eq, Structural)]
pub enum State {
    Inactive,
    Begun,
    HasGivenCommands(Commands),
}

/// Errors of this machine.
#[derive(Debug)]
pub enum GraphicsStateError {
    /// The machine cannot move from the first named state to the second.
    InvalidStateTransition(&'static str, &'static str),
    /// The machine was read as a state it is not in.
    InvalidAttemptToAccessState(&'static str),
}

/// The command state with one more command kind recorded.
pub open spec fn spec_record_command(c: Commands, command: Command) -> Commands {
    match command {
        Command::LineTo => Commands { line_to: true, ..c },
        Command::CubicBezier => Commands { cubic_bezier: true, ..c },
        Command::QuadraticBezier => Commands { quadratic_bezier: true, ..c },
    }
}

/// The draw state of the sub-path under tessellation.
#[derive(Debug, Clone, Copy)]
pub struct DrawState(pub State);

impl Default for DrawState {
    /// No sub-path is open.
    fn default() -> (r: DrawState)
        ensures
            r.0 is Inactive,
    {
        DrawState(State::Inactive)
    }
}

impl DrawState {
    pub fn as_inactive(&self) -> (r: Result<(), GraphicsStateError>)
        ensures
            r is Ok <==> self.0 is Inactive,
    {
        match &self.0 {
            State::Inactive => Ok(()),
            _ => Err(GraphicsStateError::InvalidAttemptToAccessState("Inactive")),
        }
    }

    pub fn as_begun(&self) -> (r: Result<(), GraphicsStateError>)
        ensures
            r is Ok <==> self.0 is Begun,
    {
        match &self.0 {
            State::Begun => Ok(()),
            _ => Err(GraphicsStateError::InvalidAttemptToAccessState("Begun")),
        }
    }

    pub fn as_has_given_commands(&self) -> (r: Result<&Commands, GraphicsStateError>)
        ensures
            match r {
                Ok(c) => self.0 == State::HasGivenCommands(*c),
                Err(_) => !(self.0 is HasGivenCommands),
            },
    {
        match &self.0 {
            State::HasGivenCommands(data) => Ok(data),
            _ => Err(GraphicsStateError::InvalidAttemptToAccessState("HasGivenCommands")),
        }
    }

    /// Ends the sub-path: permitted from every state.
    pub fn to_inactive(&mut self) -> (r: Result<(), GraphicsStateError>)
        ensures
            r is Ok,
            final(self).0 is Inactive,
    {
        self.0 = State::Inactive;
        Ok(())
    }

    /// Opens a sub-path. One that has been given commands cannot be
    /// reopened; the failure leaves the state unchanged.
    pub fn to_begun(&mut self) -> (r: Result<(), GraphicsStateError>)
        ensures
            match old(self).0 {
                State::Inactive => r is Ok && final(self).0 is Begun,
                State::Begun => r is Ok && final(self).0 is Begun,
                State::HasGivenCommands(_) => {
                    &&& r matches Err(GraphicsStateError::InvalidStateTransition(a, b))
                    &&& a@ == "HasGivenCommands"@
                    &&& b@ == "Begun"@
                    &&& final(self).0 == old(self).0
                },
            },
    {
        match &self.0 {
            State::Inactive => {
                self.0 = State::Begun;
                Ok(())
            },
            State::Begun => Ok(()),
            State::HasGivenCommands(_) => Err(
                GraphicsStateError::InvalidStateTransition("HasGivenCommands", "Begun"),
            ),
        }
    }

    /// Gives the open sub-path a command; a sub-path that was never
    /// opened takes none, and the failure leaves the state unchanged.
    pub fn to_has_given_commands(&mut self, command: Command) -> (r: Result<
        (),
        GraphicsStateError,
    >)
        ensures
            match old(self).0 {
                State::Inactive => {
                    &&& r matches Err(GraphicsStateError::InvalidStateTransition(a, b))
                    &&& a@ == "Inactive"@
                    &&& b@ == "HasGivenCommands"@
                    &&& final(self).0 == old(self).0
                },
                State::Begun => r is Ok && final(self).0 == State::HasGivenCommands(
                    spec_record_command(
                        Commands { line_to: false, cubic_bezier: false, quadratic_bezier: false },
                        command,
                    ),
                ),
                State::HasGivenCommands(c) => r is Ok && final(self).0
                    == State::HasGivenCommands(spec_record_command(c, command)),
            },
    {
        match self.0 {
            State::Inactive => Err(
                GraphicsStateError::InvalidStateTransition("Inactive", "HasGivenCommands"),
            ),
            State::Begun => {
                self.0 = State::HasGivenCommands(
                    Self::generate_command_state(command, None),
                );
                Ok(())
            },
            State::HasGivenCommands(data) => {
                self.0 = State::HasGivenCommands(
                    Self::generate_command_state(command, Some(data)),
                );
                Ok(())
            },
        }
    }

    /// The command state after recording `new_command` on top of the
    /// current commands, if any.
    fn generate_command_state(new_command: Command, current_commands: Option<Commands>) -> (r:
        Commands)
        ensures
            r == spec_record_command(
                match current_commands {
                    Some(c) => c,
                    None => Commands {
                        line_to: false,
                        cubic_bezier: false,
                        quadratic_bezier: false,
                    },
                },
                new_command,
            ),
    {
        let mut commands = match current_commands {
            Some(c) => c,
            None => Commands::default(),
        };
        match new_command {
            Command::LineTo => {
                commands.line_to = true;
            },
            Command::CubicBezier => {
                commands.cubic_bezier = true;
            },
            Command::QuadraticBezier => {
                commands.quadratic_bezier = true;
            },
        }
        commands
    }
}

} // verus!
