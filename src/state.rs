use vstd::prelude::*;

verus! {

/// Number of application states.
pub const STATE_COUNT: u64 = 7;

/// The screens of the device; exactly one is active at a time.
#[derive(Clone, Copy, Debug, PartialEq, Eq, Hash, Structural)]
pub enum AppState {
    Splash,
    Home,
    StepSequencer,
    EditTrack,
    EditPitch,
    ModeExecution,
    Generator,
}

/// Why a requested state change was not made.
#[derive(Clone, Copy, Debug, PartialEq, Eq, Structural)]
pub enum StateError {
    /// The request does not decode to a known state.
    InvalidStateRequest,
    /// The requested state is already the current one.
    RedundantStateRequest,
}

/// Position of `s` in the declaration order, starting at zero.
pub open spec fn ordinal_spec(s: AppState) -> nat {
    match s {
        AppState::Splash => 0,
        AppState::Home => 1,
        AppState::StepSequencer => 2,
        AppState::EditTrack => 3,
        AppState::EditPitch => 4,
        AppState::ModeExecution => 5,
        AppState::Generator => 6,
    }
}

/// The state at position `n`, if there is one.
pub open spec fn state_of(n: int) -> Option<AppState> {
    if n == 0 {
        Some(AppState::Splash)
    } else if n == 1 {
        Some(AppState::Home)
    } else if n == 2 {
        Some(AppState::StepSequencer)
    } else if n == 3 {
        Some(AppState::EditTrack)
    } else if n == 4 {
        Some(AppState::EditPitch)
    } else if n == 5 {
        Some(AppState::ModeExecution)
    } else if n == 6 {
        Some(AppState::Generator)
    } else {
        None
    }
}

/// The state that a request for `requested` leads to from `current`.
pub open spec fn next_state(current: AppState, requested: Option<AppState>) -> AppState {
    match requested {
        Some(s) => s,
        None => current,
    }
}

impl AppState {
    pub fn ordinal(&self) -> (r: u64)
        ensures
            r == ordinal_spec(*self),
    {
        match self {
            AppState::Splash => 0,
            AppState::Home => 1,
            AppState::StepSequencer => 2,
            AppState::EditTrack => 3,
            AppState::EditPitch => 4,
            AppState::ModeExecution => 5,
            AppState::Generator => 6,
        }
    }

    /// The state at position `n`, if there is one.
    pub fn from_ordinal(n: u64) -> (r: Option<AppState>)
        ensures
            r == state_of(n as int),
            r is None <==> n >= STATE_COUNT,
            r matches Some(s) ==> ordinal_spec(s) == n,
    {
        match n {
            0 => Some(AppState::Splash),
            1 => Some(AppState::Home),
            2 => Some(AppState::StepSequencer),
            3 => Some(AppState::EditTrack),
            4 => Some(AppState::EditPitch),
            5 => Some(AppState::ModeExecution),
            6 => Some(AppState::Generator),
            _ => None,
        }
    }
}

/// The outcome of a request for `requested` while in `current`.
pub open spec fn change_state_to_spec(current: AppState, requested: Option<AppState>) -> Result<
    AppState,
    StateError,
> {
    match requested {
        None => Err(StateError::InvalidStateRequest),
        Some(s) => if s == current {
            Err(StateError::RedundantStateRequest)
        } else {
            Ok(s)
        },
    }
}

/// Decides a request to move from `current` to `requested` (`None` when
/// the request did not decode to a state): the new state, or why there is
/// none.
pub fn change_state_to(current: AppState, requested: Option<AppState>) -> (r: Result<
    AppState,
    StateError,
>)
    ensures
        r == change_state_to_spec(current, requested),
        requested is None ==> r == Err::<AppState, StateError>(StateError::InvalidStateRequest),
        requested == Some(current) ==> r == Err::<AppState, StateError>(
            StateError::RedundantStateRequest,
        ),
        requested matches Some(s) ==> (s != current ==> r == Ok::<AppState, StateError>(s)),
{
    match requested {
        Some(s) => {
            if s != current {
                Ok(s)
            } else {
                Err(StateError::RedundantStateRequest)
            }
        },
        None => Err(StateError::InvalidStateRequest),
    }
}

} // verus!
