//! Errors of the protocol, in three kinds.
use vstd::prelude::*;

verus! {

/// What went wrong in a protocol step.
#[derive(Clone, Copy, Debug, PartialEq, Eq)]
pub enum FrostError {
    /// A byte buffer has the wrong length.
    InvalidLength,
    /// A scalar encoding is not below the group order.
    NonCanonicalScalar,
    /// A point encoding is not a point of the group, or is the identity.
    InvalidPoint,
    /// Threshold, group size or own index out of range.
    InvalidParameters,
    /// A participant index is zero, above the group size, or one's own.
    IndexOutOfRange { user: u16 },
    /// A second contribution from the same participant.
    DuplicateIndex { user: u16 },
    /// Too many or too few contributions were collected.
    WrongParticipantCount,
    /// No contribution was collected from this participant.
    MissingParticipant { user: u16 },
    /// The proof of knowledge in a commitment does not verify.
    InvalidProof { user: u16 },
    /// A share does not match its sender's commitment.
    MaliciousShare { user: u16 },
    /// The aggregated signature does not verify under the group key.
    InvalidSignature,
    /// Fewer signers than the threshold, or more than the group.
    InsufficientSigners,
    /// The operating system's generator gave zero scalars on every draw; the
    /// call may be repeated.
    RandomnessFailure,
    /// The message differs from the one bound at preprocessing.
    MessageMismatch,
    /// The session is not in the round that the call belongs to: it was
    /// already advanced past it, or not yet brought to it.
    SessionConsumed,
}

/// The three kinds of error.
#[derive(Clone, Copy, Debug, PartialEq, Eq)]
pub enum ErrorKind {
    /// Malformed input; the session is unaffected.
    InputValidation,
    /// A participant misbehaved; the session must restart.
    ProtocolViolation,
    /// The caller used the API wrongly.
    Misuse,
}

pub open spec fn kind_of(e: FrostError) -> ErrorKind {
    match e {
        FrostError::InvalidProof { .. } => ErrorKind::ProtocolViolation,
        FrostError::MaliciousShare { .. } => ErrorKind::ProtocolViolation,
        FrostError::InvalidSignature => ErrorKind::ProtocolViolation,
        FrostError::InsufficientSigners => ErrorKind::Misuse,
        FrostError::SessionConsumed => ErrorKind::Misuse,
        FrostError::MessageMismatch => ErrorKind::Misuse,
        _ => ErrorKind::InputValidation,
    }
}

impl FrostError {
    pub fn kind(&self) -> (r: ErrorKind)
        ensures
            r == kind_of(*self),
    {
        match self {
            FrostError::InvalidProof { .. } => ErrorKind::ProtocolViolation,
            FrostError::MaliciousShare { .. } => ErrorKind::ProtocolViolation,
            FrostError::InvalidSignature => ErrorKind::ProtocolViolation,
            FrostError::InsufficientSigners => ErrorKind::Misuse,
            FrostError::SessionConsumed => ErrorKind::Misuse,
            FrostError::MessageMismatch => ErrorKind::Misuse,
            _ => ErrorKind::InputValidation,
        }
    }
}

} // verus!
