//! The error type of the library.

use vstd::prelude::*;
use vstd::string::*;

verus! {

/// What went wrong, with a text for the user.
#[derive(Debug)]
pub enum RottenError {
    Discovery(String),
    Pairing(String),
    Protocol(String),
    Video(String),
    Capture(String),
    Crypto(String),
    DeviceNotFound(String),
    CredentialsNotFound { device_id: String },
    Io(String),
    Json(String),
}

/// An error by its kind and text.
pub enum ErrorView {
    Discovery(Seq<char>),
    Pairing(Seq<char>),
    Protocol(Seq<char>),
    Video(Seq<char>),
    Capture(Seq<char>),
    Crypto(Seq<char>),
    DeviceNotFound(Seq<char>),
    CredentialsNotFound(Seq<char>),
    Io(Seq<char>),
    Json(Seq<char>),
}

impl View for RottenError {
    type V = ErrorView;

    open spec fn view(&self) -> ErrorView {
        match self {
            RottenError::Discovery(s) => ErrorView::Discovery(s@),
            RottenError::Pairing(s) => ErrorView::Pairing(s@),
            RottenError::Protocol(s) => ErrorView::Protocol(s@),
            RottenError::Video(s) => ErrorView::Video(s@),
            RottenError::Capture(s) => ErrorView::Capture(s@),
            RottenError::Crypto(s) => ErrorView::Crypto(s@),
            RottenError::DeviceNotFound(s) => ErrorView::DeviceNotFound(s@),
            RottenError::CredentialsNotFound { device_id } => ErrorView::CredentialsNotFound(
                device_id@,
            ),
            RottenError::Io(s) => ErrorView::Io(s@),
            RottenError::Json(s) => ErrorView::Json(s@),
        }
    }
}

/// The text shown for an error.
pub open spec fn error_text(e: ErrorView) -> Seq<char> {
    match e {
        ErrorView::Discovery(s) => "discovery error: "@ + s,
        ErrorView::Pairing(s) => "pairing error: "@ + s,
        ErrorView::Protocol(s) => "protocol error: "@ + s,
        ErrorView::Video(s) => "video error: "@ + s,
        ErrorView::Capture(s) => "capture error: "@ + s,
        ErrorView::Crypto(s) => "crypto error: "@ + s,
        ErrorView::DeviceNotFound(s) => "device not found: "@ + s,
        ErrorView::CredentialsNotFound(s) => "credentials not found for device "@ + s,
        ErrorView::Io(s) => "io error: "@ + s,
        ErrorView::Json(s) => "json error: "@ + s,
    }
}

/// `label` followed by `detail`.
pub fn labelled(label: &str, detail: &str) -> (r: String)
    ensures
        r@ == label@ + detail@,
{
    let mut s = String::from_str(label);
    s.append(detail);
    s
}

impl RottenError {
    /// The text shown for this error.
    pub fn message(&self) -> (r: String)
        ensures
            r@ == error_text(self@),
    {
        match self {
            RottenError::Discovery(s) => labelled("discovery error: ", s.as_str()),
            RottenError::Pairing(s) => labelled("pairing error: ", s.as_str()),
            RottenError::Protocol(s) => labelled("protocol error: ", s.as_str()),
            RottenError::Video(s) => labelled("video error: ", s.as_str()),
            RottenError::Capture(s) => labelled("capture error: ", s.as_str()),
            RottenError::Crypto(s) => labelled("crypto error: ", s.as_str()),
            RottenError::DeviceNotFound(s) => labelled("device not found: ", s.as_str()),
            RottenError::CredentialsNotFound { device_id } => labelled(
                "credentials not found for device ",
                device_id.as_str(),
            ),
            RottenError::Io(s) => labelled("io error: ", s.as_str()),
            RottenError::Json(s) => labelled("json error: ", s.as_str()),
        }
    }
}

pub fn crypto_error(text: &str) -> (r: RottenError)
    ensures
        r@ == ErrorView::Crypto(text@),
{
    RottenError::Crypto(String::from_str(text))
}

pub fn protocol_error(text: &str) -> (r: RottenError)
    ensures
        r@ == ErrorView::Protocol(text@),
{
    RottenError::Protocol(String::from_str(text))
}

pub fn pairing_error(text: &str) -> (r: RottenError)
    ensures
        r@ == ErrorView::Pairing(text@),
{
    RottenError::Pairing(String::from_str(text))
}

pub fn video_error(text: &str) -> (r: RottenError)
    ensures
        r@ == ErrorView::Video(text@),
{
    RottenError::Video(String::from_str(text))
}

/// The message of an error ends in what it was told, behind the name of its kind.
pub proof fn law_message_names_kind(s: Seq<char>)
    ensures
        error_text(ErrorView::Discovery(s)) == "discovery error: "@ + s,
        error_text(ErrorView::Pairing(s)) == "pairing error: "@ + s,
        error_text(ErrorView::Protocol(s)) == "protocol error: "@ + s,
        error_text(ErrorView::Video(s)) == "video error: "@ + s,
        error_text(ErrorView::Capture(s)) == "capture error: "@ + s,
        error_text(ErrorView::Crypto(s)) == "crypto error: "@ + s,
        error_text(ErrorView::DeviceNotFound(s)) == "device not found: "@ + s,
        error_text(ErrorView::CredentialsNotFound(s)) == "credentials not found for device "@ + s,
        error_text(ErrorView::Io(s)) == "io error: "@ + s,
        error_text(ErrorView::Json(s)) == "json error: "@ + s,
{
}
} // verus!
