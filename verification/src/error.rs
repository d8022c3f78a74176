//! Everything that can go wrong on a connection, and how it is reported.

use vstd::prelude::*;
use vstd::string::*;

use crate::text;

verus! {

/// A failure of the transport. Variants that hold a `String` carry the text of
/// the fault that the stream, the codec or the endpoint reported.
#[derive(Debug)]
pub enum TransportError {
    /// The codec could not serialize a message.
    Encode(String),
    /// A message body is over [`crate::wire::MAX_MESSAGE_BYTES`].
    MessageTooLarge,
    /// The codec could not decode a complete frame.
    InvalidFrame(String),
    /// Reading the first bytes of a frame failed.
    Read(String),
    /// The stream ended or failed inside a frame header.
    TruncatedHeader(String),
    /// A frame announced more bytes than the reader allows.
    FrameTooLong { len: usize, limit: usize },
    /// The stream ended or failed inside a frame body.
    TruncatedFrame(String),
    /// The peer stopped a send stream with an error code, or it was lost.
    SendStopped(String),
    /// Writing a frame failed.
    Write(String),
    /// The own type manifest is over [`crate::wire::MAX_MANIFEST_BYTES`].
    ManifestTooLarge,
    /// Exchanging the protocol header failed.
    ProtocolHeader(String),
    /// Writing the type manifest failed.
    TypeManifest(String),
    /// The peer speaks another wire protocol.
    ProtocolMismatch,
    /// The peer finished its control stream before its type manifest.
    MissingManifest,
    /// The peer's ordered type list is another one.
    ManifestMismatch,
    /// A connection or stream operation failed.
    Connection(String),
    /// Reading a lane header failed.
    LaneHeader(String),
    /// A lane announced another position than its own.
    LaneMismatch,
    /// Reading the readiness byte failed.
    Readiness(String),
    /// The readiness byte is not the agreed one.
    InvalidReadiness,
    /// The TLS handshake failed.
    TlsHandshake(String),
    /// The setup took longer than [`crate::kernel::SETUP_TIMEOUT_SECS`].
    SetupTimedOut,
}

impl TransportError {
    /// The text that is reported for this error.
    pub open spec fn text(self) -> Seq<char> {
        match self {
            TransportError::Encode(e) => "seek encode: "@ + e@,
            TransportError::MessageTooLarge => "seek message exceeds 64 MiB"@,
            TransportError::InvalidFrame(e) => "seek invalid frame: "@ + e@,
            TransportError::Read(e) => "seek read: "@ + e@,
            TransportError::TruncatedHeader(e) => "seek truncated header: "@ + e@,
            TransportError::FrameTooLong { len, limit } => "seek frame length "@ + text::decimal(
                len as nat,
            ) + " exceeds limit "@ + text::decimal(limit as nat),
            TransportError::TruncatedFrame(e) => "seek truncated frame: "@ + e@,
            TransportError::SendStopped(e) => "seek send stream stopped: "@ + e@,
            TransportError::Write(e) => "seek write: "@ + e@,
            TransportError::ManifestTooLarge => "seek type manifest too large"@,
            TransportError::ProtocolHeader(e) => "seek protocol header: "@ + e@,
            TransportError::TypeManifest(e) => "seek type manifest: "@ + e@,
            TransportError::ProtocolMismatch =>
                "seek wire protocol mismatch; update both peers"@,
            TransportError::MissingManifest => "seek missing type manifest"@,
            TransportError::ManifestMismatch =>
                "seek ordered type identities differ between peers"@,
            TransportError::Connection(e) => e@,
            TransportError::LaneHeader(e) => "seek lane header: "@ + e@,
            TransportError::LaneMismatch => "seek lane identifier mismatch"@,
            TransportError::Readiness(e) => "seek readiness: "@ + e@,
            TransportError::InvalidReadiness => "seek invalid readiness acknowledgement"@,
            TransportError::TlsHandshake(e) => "seek TLS handshake: "@ + e@,
            TransportError::SetupTimedOut => "seek setup timed out"@,
        }
    }

    /// Renders the error.
    pub fn message(&self) -> (message: String)
        ensures
            message@ == self.text(),
    {
        match self {
            TransportError::Encode(e) => text::joined("seek encode: ", e.as_str()),
            TransportError::MessageTooLarge => "seek message exceeds 64 MiB".to_owned(),
            TransportError::InvalidFrame(e) => text::joined("seek invalid frame: ", e.as_str()),
            TransportError::Read(e) => text::joined("seek read: ", e.as_str()),
            TransportError::TruncatedHeader(e) => text::joined(
                "seek truncated header: ",
                e.as_str(),
            ),
            TransportError::FrameTooLong { len, limit } => {
                let mut message = text::joined(
                    "seek frame length ",
                    text::decimal_text(*len).as_str(),
                );
                message.append(" exceeds limit ");
                message.append(text::decimal_text(*limit).as_str());
                message
            },
            TransportError::TruncatedFrame(e) => text::joined(
                "seek truncated frame: ",
                e.as_str(),
            ),
            TransportError::SendStopped(e) => text::joined(
                "seek send stream stopped: ",
                e.as_str(),
            ),
            TransportError::Write(e) => text::joined("seek write: ", e.as_str()),
            TransportError::ManifestTooLarge => "seek type manifest too large".to_owned(),
            TransportError::ProtocolHeader(e) => text::joined("seek protocol header: ", e.as_str()),
            TransportError::TypeManifest(e) => text::joined("seek type manifest: ", e.as_str()),
            TransportError::ProtocolMismatch =>
                "seek wire protocol mismatch; update both peers".to_owned(),
            TransportError::MissingManifest => "seek missing type manifest".to_owned(),
            TransportError::ManifestMismatch =>
                "seek ordered type identities differ between peers".to_owned(),
            TransportError::Connection(e) => e.clone(),
            TransportError::LaneHeader(e) => text::joined("seek lane header: ", e.as_str()),
            TransportError::LaneMismatch => "seek lane identifier mismatch".to_owned(),
            TransportError::Readiness(e) => text::joined("seek readiness: ", e.as_str()),
            TransportError::InvalidReadiness =>
                "seek invalid readiness acknowledgement".to_owned(),
            TransportError::TlsHandshake(e) => text::joined("seek TLS handshake: ", e.as_str()),
            TransportError::SetupTimedOut => "seek setup timed out".to_owned(),
        }
    }
}

/// The text of an error ends in the text of the fault that it carries, and what
/// stands before that is the same whatever the fault is. `none` is an empty
/// text. An error of a connection or stream is told as it was reported.
pub proof fn law_error_texts_carry_their_fault(e: String, none: String)
    requires
        none@.len() == 0,
    ensures
        TransportError::Encode(e).text() == TransportError::Encode(none).text() + e@,
        TransportError::InvalidFrame(e).text() == TransportError::InvalidFrame(none).text() + e@,
        TransportError::Read(e).text() == TransportError::Read(none).text() + e@,
        TransportError::TruncatedHeader(e).text() == TransportError::TruncatedHeader(none).text() + e@,
        TransportError::TruncatedFrame(e).text() == TransportError::TruncatedFrame(none).text() + e@,
        TransportError::SendStopped(e).text() == TransportError::SendStopped(none).text() + e@,
        TransportError::Write(e).text() == TransportError::Write(none).text() + e@,
        TransportError::ProtocolHeader(e).text() == TransportError::ProtocolHeader(none).text() + e@,
        TransportError::TypeManifest(e).text() == TransportError::TypeManifest(none).text() + e@,
        TransportError::LaneHeader(e).text() == TransportError::LaneHeader(none).text() + e@,
        TransportError::Readiness(e).text() == TransportError::Readiness(none).text() + e@,
        TransportError::TlsHandshake(e).text() == TransportError::TlsHandshake(none).text() + e@,
        TransportError::Connection(e).text() == e@,
{
    assert("seek encode: "@ + none@ =~= "seek encode: "@);
    assert("seek invalid frame: "@ + none@ =~= "seek invalid frame: "@);
    assert("seek read: "@ + none@ =~= "seek read: "@);
    assert("seek truncated header: "@ + none@ =~= "seek truncated header: "@);
    assert("seek truncated frame: "@ + none@ =~= "seek truncated frame: "@);
    assert("seek send stream stopped: "@ + none@ =~= "seek send stream stopped: "@);
    assert("seek write: "@ + none@ =~= "seek write: "@);
    assert("seek protocol header: "@ + none@ =~= "seek protocol header: "@);
    assert("seek type manifest: "@ + none@ =~= "seek type manifest: "@);
    assert("seek lane header: "@ + none@ =~= "seek lane header: "@);
    assert("seek readiness: "@ + none@ =~= "seek readiness: "@);
    assert("seek TLS handshake: "@ + none@ =~= "seek TLS handshake: "@);
}

/// The text of every error but that of a connection or stream says first that it
/// is of this library.
pub proof fn law_error_texts_name_the_library(error: TransportError)
    requires
        !(error is Connection),
    ensures
        error.text().len() >= 5,
        error.text().take(5) == "seek "@,
{
    reveal_strlit("seek ");
    reveal_strlit("seek encode: ");
    reveal_strlit("seek invalid frame: ");
    reveal_strlit("seek read: ");
    reveal_strlit("seek truncated header: ");
    reveal_strlit("seek truncated frame: ");
    reveal_strlit("seek send stream stopped: ");
    reveal_strlit("seek write: ");
    reveal_strlit("seek protocol header: ");
    reveal_strlit("seek type manifest: ");
    reveal_strlit("seek lane header: ");
    reveal_strlit("seek readiness: ");
    reveal_strlit("seek TLS handshake: ");
    reveal_strlit("seek message exceeds 64 MiB");
    reveal_strlit("seek frame length ");
    reveal_strlit("seek type manifest too large");
    reveal_strlit("seek wire protocol mismatch; update both peers");
    reveal_strlit("seek missing type manifest");
    reveal_strlit("seek ordered type identities differ between peers");
    reveal_strlit("seek lane identifier mismatch");
    reveal_strlit("seek invalid readiness acknowledgement");
    reveal_strlit("seek setup timed out");
    assert(error.text().take(5) =~= "seek "@);
}

/// The text of a frame that is too long holds both numbers, in decimal.
pub proof fn law_too_long_frames_are_told_in_numbers(len: usize, limit: usize)
    ensures
        ({
            let error = TransportError::FrameTooLong { len, limit };
            let a = "seek frame length "@;
            let b = " exceeds limit "@;
            let x = text::decimal(len as nat);
            let y = text::decimal(limit as nat);
            &&& error.text().len() == a.len() + x.len() + b.len() + y.len()
            &&& error.text().take(a.len() as int) == a
            &&& error.text().subrange(a.len() as int, (a.len() + x.len()) as int) == x
            &&& error.text().skip(error.text().len() - y.len()) == y
        }),
{
    let error = TransportError::FrameTooLong { len, limit };
    let a = "seek frame length "@;
    let x = text::decimal(len as nat);
    let y = text::decimal(limit as nat);
    assert(error.text().take(a.len() as int) =~= a);
    assert(error.text().subrange(a.len() as int, (a.len() + x.len()) as int) =~= x);
    assert(error.text().skip(error.text().len() - y.len()) =~= y);
}

} // verus!
