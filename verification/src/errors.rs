//! The errors of the address manager and of the node.
use std::sync::mpsc::{RecvError, SendError};
use vstd::prelude::*;
use vstd::string::to_string_from_display_ensures;

verus! {

/// The receiving half of a channel found it closed.
#[verifier::external_type_specification]
#[verifier::external_body]
pub struct ExRecvError(RecvError);

/// The sending half of a channel found it closed; holds what was not sent.
#[verifier::external_type_specification]
#[verifier::external_body]
#[verifier::reject_recursive_types(T)]
pub struct ExSendError<T>(SendError<T>);

/// A clock reading was earlier than another one.
#[verifier::external_type_specification]
#[verifier::external_body]
pub struct ExSystemTimeError(std::time::SystemTimeError);

/// A block filter could not be made or read.
#[verifier::external_type_specification]
#[verifier::external_body]
pub struct ExBip158Error(bitcoin::util::bip158::Error);

/// What a connection to a peer reported when it failed.
#[derive(Debug)]
pub struct PeerError {
    /// The report of the connection.
    pub description: String,
}

/// An error of the address manager.
#[derive(Debug)]
pub enum AddrsMngrError {
    /// A name could not be resolved, or an address not be converted.
    IO(std::io::Error),
    /// The connection to a peer failed.
    Peer(PeerError),
    /// A channel between the fetcher and its workers is closed.
    Mpsc(String),
}

impl AddrsMngrError {
    /// The text that describes an error.
    pub open spec fn spec_message(self) -> Seq<char> {
        match self {
            AddrsMngrError::IO(_) => "std IO Error"@,
            AddrsMngrError::Peer(_) => "P2P Network Error"@,
            AddrsMngrError::Mpsc(detail) => "Internal MPSC Error: "@ + detail@,
        }
    }

    /// The text that describes this error.
    pub fn message(&self) -> (text: String)
        ensures
            text@ == self.spec_message(),
    {
        match self {
            AddrsMngrError::IO(_) => String::from_str("std IO Error"),
            AddrsMngrError::Peer(_) => String::from_str("P2P Network Error"),
            AddrsMngrError::Mpsc(detail) => labelled("Internal MPSC Error: ", detail.as_str()),
        }
    }
}

impl From<std::io::Error> for AddrsMngrError {
    fn from(e: std::io::Error) -> (r: Self) {
        AddrsMngrError::IO(e)
    }
}

impl vstd::std_specs::convert::FromSpecImpl<std::io::Error> for AddrsMngrError {
    open spec fn obeys_from_spec() -> bool {
        true
    }

    open spec fn from_spec(e: std::io::Error) -> Self {
        AddrsMngrError::IO(e)
    }
}

impl From<PeerError> for AddrsMngrError {
    fn from(e: PeerError) -> (r: Self) {
        AddrsMngrError::Peer(e)
    }
}

impl vstd::std_specs::convert::FromSpecImpl<PeerError> for AddrsMngrError {
    open spec fn obeys_from_spec() -> bool {
        true
    }

    open spec fn from_spec(e: PeerError) -> Self {
        AddrsMngrError::Peer(e)
    }
}

impl From<RecvError> for AddrsMngrError {
    fn from(e: RecvError) -> (r: Self)
        ensures
            r matches AddrsMngrError::Mpsc(detail) && to_string_from_display_ensures(&e, detail),
    {
        AddrsMngrError::Mpsc(e.to_string())
    }
}

impl vstd::std_specs::convert::FromSpecImpl<RecvError> for AddrsMngrError {
    open spec fn obeys_from_spec() -> bool {
        false
    }

    open spec fn from_spec(e: RecvError) -> Self {
        arbitrary()
    }
}

impl<T> From<SendError<T>> for AddrsMngrError {
    fn from(e: SendError<T>) -> (r: Self)
        ensures
            r matches AddrsMngrError::Mpsc(detail) && to_string_from_display_ensures(&e, detail),
    {
        AddrsMngrError::Mpsc(e.to_string())
    }
}

impl<T> vstd::std_specs::convert::FromSpecImpl<SendError<T>> for AddrsMngrError {
    open spec fn obeys_from_spec() -> bool {
        false
    }

    open spec fn from_spec(e: SendError<T>) -> Self {
        arbitrary()
    }
}

/// An error of the node while it syncs by compact filters.
#[derive(Debug)]
pub enum CompactFiltersError {
    /// A peer sent an invalid or unexpected response.
    InvalidResponse,
    /// The headers returned are invalid.
    InvalidHeaders,
    /// The compact filter headers returned are invalid.
    InvalidFilterHeader,
    /// The compact filter returned is invalid.
    InvalidFilter,
    /// The peer is missing a block in the valid chain.
    MissingBlock,
    /// Block hash at specified height not found.
    BlockHashNotFound,
    /// The data stored in the block filters storage are corrupted.
    DataCorruption,
    /// A peer is not connected.
    NotConnected,
    /// A peer took too long to reply to one of our messages.
    Timeout,
    /// The peer doesn't advertise the service flag.
    PeerBloomDisabled,
    /// No peers have been specified.
    NoPeers,
    /// The database failed. Holds the text of its error: the library does not link the database.
    Db(String),
    /// An I/O operation failed.
    Io(std::io::Error),
    /// A block filter could not be made or read.
    Bip158(bitcoin::util::bip158::Error),
    /// The system time went backwards.
    Time(std::time::SystemTimeError),
    /// The connection to a peer failed.
    Peer(PeerError),
}

impl CompactFiltersError {
    /// Whether a text describes an error: a fixed sentence, or a label with the text that the
    /// inner error displays as.
    pub open spec fn described_by(self, text: Seq<char>) -> bool {
        match self {
            CompactFiltersError::InvalidResponse => text == "A peer sent an invalid or unexpected response"@,
            CompactFiltersError::InvalidHeaders => text == "The headers returned are invalid"@,
            CompactFiltersError::InvalidFilterHeader => text == "The compact filter headers returned are invalid"@,
            CompactFiltersError::InvalidFilter => text == "The compact filter returned is invalid"@,
            CompactFiltersError::MissingBlock => text == "The peer is missing a block in the valid chain"@,
            CompactFiltersError::BlockHashNotFound => text == "Block hash at specified height not found"@,
            CompactFiltersError::DataCorruption => text == "The data stored in the block filters storage are corrupted"@,
            CompactFiltersError::NotConnected => text == "A peer is not connected"@,
            CompactFiltersError::Timeout => text == "A peer took too long to reply to one of our messages"@,
            CompactFiltersError::PeerBloomDisabled => text == "The peer doesn't advertise the service flag"@,
            CompactFiltersError::NoPeers => text == "No peers have been specified"@,
            CompactFiltersError::Db(detail) => text == "Internal database error : "@ + detail@,
            CompactFiltersError::Io(e) => exists|detail: String|
                #[trigger] to_string_from_display_ensures(&e, detail) && text == "Internal I/O error : "@ + detail@,
            CompactFiltersError::Bip158(e) => exists|detail: String|
                #[trigger] to_string_from_display_ensures(&e, detail) && text == "Invalid BIP158 filter : "@ + detail@,
            CompactFiltersError::Time(e) => exists|detail: String|
                #[trigger] to_string_from_display_ensures(&e, detail) && text == "Internal system time error : "@ + detail@,
            CompactFiltersError::Peer(_) => text == "Internal Peer Error"@,
        }
    }

    /// The text that describes this error.
    pub fn message(&self) -> (text: String)
        ensures
            self.described_by(text@),
    {
        match self {
            CompactFiltersError::InvalidResponse => String::from_str(
                "A peer sent an invalid or unexpected response",
            ),
            CompactFiltersError::InvalidHeaders => String::from_str(
                "The headers returned are invalid",
            ),
            CompactFiltersError::InvalidFilterHeader => String::from_str(
                "The compact filter headers returned are invalid",
            ),
            CompactFiltersError::InvalidFilter => String::from_str(
                "The compact filter returned is invalid",
            ),
            CompactFiltersError::MissingBlock => String::from_str(
                "The peer is missing a block in the valid chain",
            ),
            CompactFiltersError::BlockHashNotFound => String::from_str(
                "Block hash at specified height not found",
            ),
            CompactFiltersError::DataCorruption => String::from_str(
                "The data stored in the block filters storage are corrupted",
            ),
            CompactFiltersError::NotConnected => String::from_str("A peer is not connected"),
            CompactFiltersError::Timeout => String::from_str(
                "A peer took too long to reply to one of our messages",
            ),
            CompactFiltersError::PeerBloomDisabled => String::from_str(
                "The peer doesn't advertise the service flag",
            ),
            CompactFiltersError::NoPeers => String::from_str("No peers have been specified"),
            CompactFiltersError::Db(detail) => labelled(
                "Internal database error : ",
                detail.as_str(),
            ),
            CompactFiltersError::Io(e) => {
                let detail = e.to_string();
                labelled("Internal I/O error : ", detail.as_str())
            },
            CompactFiltersError::Bip158(e) => {
                let detail = e.to_string();
                labelled("Invalid BIP158 filter : ", detail.as_str())
            },
            CompactFiltersError::Time(e) => {
                let detail = e.to_string();
                labelled("Internal system time error : ", detail.as_str())
            },
            CompactFiltersError::Peer(_) => String::from_str("Internal Peer Error"),
        }
    }
}

impl From<std::io::Error> for CompactFiltersError {
    fn from(e: std::io::Error) -> (r: Self) {
        CompactFiltersError::Io(e)
    }
}

impl vstd::std_specs::convert::FromSpecImpl<std::io::Error> for CompactFiltersError {
    open spec fn obeys_from_spec() -> bool {
        true
    }

    open spec fn from_spec(e: std::io::Error) -> Self {
        CompactFiltersError::Io(e)
    }
}

impl From<bitcoin::util::bip158::Error> for CompactFiltersError {
    fn from(e: bitcoin::util::bip158::Error) -> (r: Self) {
        CompactFiltersError::Bip158(e)
    }
}

impl vstd::std_specs::convert::FromSpecImpl<bitcoin::util::bip158::Error> for CompactFiltersError {
    open spec fn obeys_from_spec() -> bool {
        true
    }

    open spec fn from_spec(e: bitcoin::util::bip158::Error) -> Self {
        CompactFiltersError::Bip158(e)
    }
}

impl From<std::time::SystemTimeError> for CompactFiltersError {
    fn from(e: std::time::SystemTimeError) -> (r: Self) {
        CompactFiltersError::Time(e)
    }
}

impl vstd::std_specs::convert::FromSpecImpl<std::time::SystemTimeError> for CompactFiltersError {
    open spec fn obeys_from_spec() -> bool {
        true
    }

    open spec fn from_spec(e: std::time::SystemTimeError) -> Self {
        CompactFiltersError::Time(e)
    }
}

impl From<PeerError> for CompactFiltersError {
    fn from(e: PeerError) -> (r: Self) {
        CompactFiltersError::Peer(e)
    }
}

impl vstd::std_specs::convert::FromSpecImpl<PeerError> for CompactFiltersError {
    open spec fn obeys_from_spec() -> bool {
        true
    }

    open spec fn from_spec(e: PeerError) -> Self {
        CompactFiltersError::Peer(e)
    }
}

/// The label followed by the detail.
fn labelled(label: &str, detail: &str) -> (text: String)
    ensures
        text@ == label@ + detail@,
{
    let mut text = String::from_str(label);
    text.append(detail);
    text
}

} // verus!
