//! The two appearance themes, and how the value of a change notification
//! selects one.

use vstd::prelude::*;

verus! {

/// The appearance that the desktop asks for.
#[derive(Clone, Copy, Debug, PartialEq, Eq, Structural)]
pub enum Theme {
    Light,
    Dark,
}

/// An unsigned value that stands for no theme.
#[derive(Clone, Copy, Debug, PartialEq, Eq, Structural)]
pub struct UnexpectedValue {
    pub value: u32,
}

/// The theme that `value` stands for: 0 is light and 1 is dark. No other
/// value stands for a theme.
pub open spec fn decoded(value: u32) -> Result<Theme, UnexpectedValue> {
    if value == 0 {
        Ok(Theme::Light)
    } else if value == 1 {
        Ok(Theme::Dark)
    } else {
        Err(UnexpectedValue { value })
    }
}

impl Theme {
    /// The other theme.
    pub open spec fn spec_opposite(self) -> Theme {
        match self {
            Theme::Light => Theme::Dark,
            Theme::Dark => Theme::Light,
        }
    }

    /// The other theme.
    #[verifier::when_used_as_spec(spec_opposite)]
    pub fn opposite(self) -> (other: Theme)
        ensures
            other == self.spec_opposite(),
    {
        match self {
            Theme::Light => Theme::Dark,
            Theme::Dark => Theme::Light,
        }
    }

    /// The theme that `value` stands for, or the value itself where it stands
    /// for none.
    pub fn decode(value: u32) -> (theme: Result<Theme, UnexpectedValue>)
        ensures
            theme == decoded(value),
    {
        match value {
            0 => Ok(Theme::Light),
            1 => Ok(Theme::Dark),
            _ => Err(UnexpectedValue { value }),
        }
    }
}

/// What a change notification carried as its value, as far as it can be
/// read.
#[derive(Clone, Copy, Debug, PartialEq, Eq, Structural)]
pub enum Payload {
    /// The value is this unsigned integer.
    Unsigned(u32),
    /// The notification's arguments could not be taken apart, or its value is
    /// no unsigned integer.
    Unreadable,
}

/// What is to be done about a change notification.
#[derive(Clone, Copy, Debug, PartialEq, Eq, Structural)]
pub enum Reaction {
    /// Bring the configuration files to this theme.
    Apply(Theme),
    /// Report the notification and go on to the next one.
    Skip,
    /// Stop the program: the setting has sent a value that it cannot hold.
    Abort(UnexpectedValue),
}

/// The reaction that `payload` calls for. An unreadable payload is skipped,
/// a value that stands for a theme is applied, and any other value stops the
/// program before a file is touched.
pub open spec fn reaction_to(payload: Payload) -> Reaction {
    match payload {
        Payload::Unreadable => Reaction::Skip,
        Payload::Unsigned(value) => match decoded(value) {
            Ok(theme) => Reaction::Apply(theme),
            Err(unexpected) => Reaction::Abort(unexpected),
        },
    }
}

/// Decides what is to be done about a change notification that carried
/// `payload`.
pub fn react(payload: Payload) -> (reaction: Reaction)
    ensures
        reaction == reaction_to(payload),
{
    match payload {
        Payload::Unreadable => Reaction::Skip,
        Payload::Unsigned(value) => match Theme::decode(value) {
            Ok(theme) => Reaction::Apply(theme),
            Err(unexpected) => Reaction::Abort(unexpected),
        },
    }
}

} // verus!
