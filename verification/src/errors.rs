use vstd::prelude::*;

verus! {

/// Why a lobby, registration or escrow operation was refused.
///
/// Every operation of the engine is all-or-nothing: when one of these is
/// returned, no state was changed.
#[derive(Clone, Copy, Debug, PartialEq, Eq, Structural)]
pub enum Error {
    /// The acting address has not completed registration.
    NotRegistered,
    /// The acting address is already registered.
    AlreadyRegistered,
    /// The supplied username has an invalid length.
    InvalidUsername,
    /// The lobby identifier (or a looked-up key) is unknown.
    NotFound,
    /// The operation is illegal for the current lifecycle status.
    InvalidState,
    /// Wrong private code, wrong identity claim, or the acting address is not
    /// the required authority.
    AccessDenied,
    /// The roster is already at the configured target player count, or the
    /// identifier space is exhausted.
    CapacityExceeded,
    /// The proposed symbol is already present in the lobby's symbol set.
    DuplicateSymbol,
    /// The acting address is already present in the roster.
    AlreadyJoined,
    /// Target player count out of bounds, or an empty code on a private lobby.
    InvalidConfiguration,
    /// The stake movement could not complete.
    TransferFailed,
}

} // verus!
