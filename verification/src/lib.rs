//! A password-protected, calendar-keyed journal library.
//!
//! The crate provides the strict calendar-day identifier ([`date::Date`]),
//! the encrypted persistence layer with its closed error taxonomy
//! ([`diary`]), the runtime entry model ([`model`]), and the modal control
//! state machine that drives an editing session ([`app`]). Terminal
//! rendering and file access are left to the embedding program, which feeds
//! events into the state machine and performs the actions it returns.

pub mod app;
pub mod codec;
pub mod date;
pub mod diary;
pub mod model;
mod text;
pub mod ui;

use vstd::prelude::*;

verus! {

use crate::diary::DiaryError;

/// Whether container bytes are recognized as this application's format.
///
/// This is the probe behind "is this our file, or not our format at all":
/// it attempts a load with the empty credential and classifies every
/// outcome other than a header-level format rejection — an unsound prefix,
/// or a container that does not hold the payload its prefix declares — as
/// recognized: the container may merely need a different credential. An
/// oversized file is likewise recognized, since it is rejected before its
/// header is read.
pub fn check_format(bytes: &Vec<u8>) -> (r: bool)
    ensures
        r == (bytes@.len() > crate::diary::MAX_CONTAINER_SIZE || (crate::diary::declared_fits(
            bytes@,
        ) && crate::diary::header_ok(bytes@))),
{
    if bytes.len() > crate::diary::MAX_CONTAINER_SIZE {
        return true;
    }
    if !crate::diary::container_well_sized(bytes) {
        return false;
    }
    match crate::diary::unseal(bytes, "") {
        Ok(_) => true,
        Err(e) => !(e == DiaryError::InvalidFormat),
    }
}

} // verus!
