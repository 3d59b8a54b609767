//! Refusals, with the status and the message that a client is given.

use vstd::prelude::*;

verus! {

/// Why a request was refused.
#[derive(Clone, Copy, Debug, PartialEq, Eq, Structural)]
pub enum Refusal {
    InvalidNickname,
    InvalidWebhookEvent,
    ParticipantRequired,
    InvalidResumeToken,
    IdentityGone,
    InvalidWebhook,
    InvalidSignature,
    HostRequired,
    RecordingNotFound,
    ParticipantNotFound,
    TrackFileNotFound,
    UnknownTrack,
    HostTaken,
    Internal,
    NoHostPassword,
    DiskFull,
}

/// The HTTP status of a refusal.
pub open spec fn status_of(refusal: Refusal) -> u16 {
    match refusal {
        Refusal::InvalidNickname | Refusal::InvalidWebhookEvent => 400,
        Refusal::ParticipantRequired | Refusal::InvalidResumeToken | Refusal::IdentityGone
        | Refusal::InvalidWebhook | Refusal::InvalidSignature => 401,
        Refusal::HostRequired => 403,
        Refusal::RecordingNotFound | Refusal::ParticipantNotFound | Refusal::TrackFileNotFound
        | Refusal::UnknownTrack => 404,
        Refusal::HostTaken => 409,
        Refusal::Internal => 500,
        Refusal::NoHostPassword => 503,
        Refusal::DiskFull => 507,
    }
}

/// The message of a refusal; `None` where the reply has no body.
pub open spec fn message_of(refusal: Refusal) -> Option<Seq<char>> {
    match refusal {
        Refusal::InvalidNickname => Some("nickname must be 1-80 characters"@),
        Refusal::InvalidWebhookEvent => Some("invalid webhook event"@),
        Refusal::ParticipantRequired => Some("participant authorization required"@),
        Refusal::InvalidResumeToken => Some("invalid resume credential"@),
        Refusal::IdentityGone => Some("identity no longer exists"@),
        Refusal::InvalidWebhook => Some("invalid webhook"@),
        Refusal::InvalidSignature => None,
        Refusal::HostRequired => Some("host authorization required"@),
        Refusal::RecordingNotFound => Some("recording not found"@),
        Refusal::ParticipantNotFound => Some("participant not found"@),
        Refusal::TrackFileNotFound => Some("track file not found"@),
        Refusal::UnknownTrack => None,
        Refusal::HostTaken => Some("this room session already has a host"@),
        Refusal::Internal => Some("internal server error"@),
        Refusal::NoHostPassword => Some("host password is not configured"@),
        Refusal::DiskFull => Some("insufficient recording disk space"@),
    }
}

impl Refusal {
    /// The HTTP status.
    pub fn status(self) -> (status: u16)
        ensures
            status == status_of(self),
    {
        match self {
            Refusal::InvalidNickname | Refusal::InvalidWebhookEvent => 400,
            Refusal::ParticipantRequired | Refusal::InvalidResumeToken | Refusal::IdentityGone
            | Refusal::InvalidWebhook | Refusal::InvalidSignature => 401,
            Refusal::HostRequired => 403,
            Refusal::RecordingNotFound | Refusal::ParticipantNotFound
            | Refusal::TrackFileNotFound | Refusal::UnknownTrack => 404,
            Refusal::HostTaken => 409,
            Refusal::Internal => 500,
            Refusal::NoHostPassword => 503,
            Refusal::DiskFull => 507,
        }
    }

    /// The message; `None` where the reply has no body.
    pub fn message(self) -> (message: Option<&'static str>)
        ensures
            crate::auth::str_of(message) == message_of(self),
    {
        match self {
            Refusal::InvalidNickname => Some("nickname must be 1-80 characters"),
            Refusal::InvalidWebhookEvent => Some("invalid webhook event"),
            Refusal::ParticipantRequired => Some("participant authorization required"),
            Refusal::InvalidResumeToken => Some("invalid resume credential"),
            Refusal::IdentityGone => Some("identity no longer exists"),
            Refusal::InvalidWebhook => Some("invalid webhook"),
            Refusal::InvalidSignature => None,
            Refusal::HostRequired => Some("host authorization required"),
            Refusal::RecordingNotFound => Some("recording not found"),
            Refusal::ParticipantNotFound => Some("participant not found"),
            Refusal::TrackFileNotFound => Some("track file not found"),
            Refusal::UnknownTrack => None,
            Refusal::HostTaken => Some("this room session already has a host"),
            Refusal::Internal => Some("internal server error"),
            Refusal::NoHostPassword => Some("host password is not configured"),
            Refusal::DiskFull => Some("insufficient recording disk space"),
        }
    }
}

/// Every refusal says whose fault it was: a request that makes no sense (400), one that does
/// not show who asks (401) or that this participant may not make (403), one for what does not
/// exist (404), a claim on what another has (409), and what the server lacks: an error of its
/// own (500), a password (503) or room on the disk (507).
pub proof fn law_status_tells_the_reason(refusal: Refusal)
    ensures
        status_of(refusal) == 400 <==> refusal is InvalidNickname || refusal is InvalidWebhookEvent,
        status_of(refusal) == 401 <==> refusal is ParticipantRequired
            || refusal is InvalidResumeToken || refusal is IdentityGone || refusal is InvalidWebhook
            || refusal is InvalidSignature,
        status_of(refusal) == 403 <==> refusal is HostRequired,
        status_of(refusal) == 404 <==> refusal is RecordingNotFound
            || refusal is ParticipantNotFound || refusal is TrackFileNotFound
            || refusal is UnknownTrack,
        status_of(refusal) == 409 <==> refusal is HostTaken,
        status_of(refusal) == 500 <==> refusal is Internal,
        status_of(refusal) == 503 <==> refusal is NoHostPassword,
        status_of(refusal) == 507 <==> refusal is DiskFull,
        message_of(refusal) is None <==> refusal is InvalidSignature || refusal is UnknownTrack,
{
}

/// Every refusal that has a body says in it what is missing.
pub proof fn law_message_tells_the_reason(refusal: Refusal)
    ensures
        refusal is InvalidNickname ==> message_of(refusal) == Some(
            "nickname must be 1-80 characters"@,
        ),
        refusal is InvalidWebhookEvent ==> message_of(refusal) == Some("invalid webhook event"@),
        refusal is ParticipantRequired ==> message_of(refusal) == Some(
            "participant authorization required"@,
        ),
        refusal is InvalidResumeToken ==> message_of(refusal) == Some(
            "invalid resume credential"@,
        ),
        refusal is IdentityGone ==> message_of(refusal) == Some("identity no longer exists"@),
        refusal is InvalidWebhook ==> message_of(refusal) == Some("invalid webhook"@),
        refusal is HostRequired ==> message_of(refusal) == Some("host authorization required"@),
        refusal is RecordingNotFound ==> message_of(refusal) == Some("recording not found"@),
        refusal is ParticipantNotFound ==> message_of(refusal) == Some("participant not found"@),
        refusal is TrackFileNotFound ==> message_of(refusal) == Some("track file not found"@),
        refusal is HostTaken ==> message_of(refusal) == Some(
            "this room session already has a host"@,
        ),
        refusal is Internal ==> message_of(refusal) == Some("internal server error"@),
        refusal is NoHostPassword ==> message_of(refusal) == Some(
            "host password is not configured"@,
        ),
        refusal is DiskFull ==> message_of(refusal) == Some("insufficient recording disk space"@),
{
}

} // verus!
