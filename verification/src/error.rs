//! The error taxonomy of the session core.

use vstd::prelude::*;

verus! {

/// Every failure a session can report.
///
/// - `AuthenticationError`: a handshake proof was invalid; the session is
///   aborted and not retried.
/// - `ProtocolError`: a control message was malformed; the session moves to
///   its error state and the connection is closed.
/// - `UnsupportedMedia`: negotiation rejected a codec or parameter; the
///   session stays in its prior state and the client may retry.
/// - `InvalidState`: a request was not valid in the current state; it is
///   rejected and the state is unchanged.
/// - `DecryptionFailure`: a frame or packet failed authentication; it is
///   dropped and counted while the session continues.
/// - `ClockUnavailable`: no valid clock offset yet; playout is withheld.
#[derive(Clone, Copy, PartialEq, Eq, Debug, Structural)]
pub enum SessionError {
    /// A handshake proof was invalid.
    AuthenticationError,
    /// A control message was malformed.
    ProtocolError,
    /// Negotiation rejected an unsupported codec or parameter.
    UnsupportedMedia,
    /// The request is not valid in the current state.
    InvalidState,
    /// A frame or packet failed authentication.
    DecryptionFailure,
    /// No valid clock offset is available yet.
    ClockUnavailable,
}

} // verus!
