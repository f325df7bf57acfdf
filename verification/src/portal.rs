//! The desktop settings portal: which setting is followed, and how the value
//! that arrives with a change of it is read.

use crate::theme::{react, reaction_to, Payload, Reaction};
use vstd::prelude::*;
use zbus::zvariant::OwnedValue;

verus! {

/// zvariant's owned value, the form in which a notification carries the new
/// value of a setting. Nothing inside it is visible to the proofs.
#[verifier::external_type_specification]
#[verifier::external_body]
pub struct ExOwnedValue(OwnedValue);

/// The namespace of the setting that is followed.
pub open spec fn spec_namespace() -> Seq<char> {
    "org.freedesktop.appearance"@
}

/// The namespace of the setting that is followed: the first argument that a
/// subscription filters on.
pub fn namespace() -> (name: &'static str)
    ensures
        name@ == spec_namespace(),
{
    "org.freedesktop.appearance"
}

/// The key of the setting that is followed.
pub open spec fn spec_key() -> Seq<char> {
    "color-scheme"@
}

/// The key of the setting that is followed: the second argument that a
/// subscription filters on.
pub fn key() -> (name: &'static str)
    ensures
        name@ == spec_key(),
{
    "color-scheme"
}

/// The unsigned integer that zvariant's conversion to `u32` finds in `value`,
/// or `None` where the conversion fails. The conversion reads nothing but the
/// value, so the same value always gives the same result.
pub uninterp spec fn unsigned_of(value: OwnedValue) -> Option<u32>;

/// The payload that the outcome of the conversion stands for: the unsigned
/// integer where there is one, and an unreadable payload otherwise.
pub open spec fn payload_of(unsigned: Option<u32>) -> Payload {
    match unsigned {
        Some(number) => Payload::Unsigned(number),
        None => Payload::Unreadable,
    }
}

/// Calls zvariant's conversion of an owned value to `u32`, which is
/// `u32::try_from`, and drops the error. The contract claims only that the
/// result is the one that `unsigned_of` names for this value; what that is on
/// a given value is not stated here.
#[verifier::external_body]
fn unsigned_in(value: OwnedValue) -> (unsigned: Option<u32>)
    ensures
        unsigned == unsigned_of(value),
{
    u32::try_from(value).ok()
}

/// Decides what is to be done about a change notification from the value
/// that it carried: the reaction that `react` gives to the payload which the
/// conversion of the value to an unsigned integer stands for.
pub fn react_to_value(value: OwnedValue) -> (reaction: Reaction)
    ensures
        reaction == reaction_to(payload_of(unsigned_of(value))),
{
    let payload = match unsigned_in(value) {
        Some(number) => Payload::Unsigned(number),
        None => Payload::Unreadable,
    };
    react(payload)
}

} // verus!
