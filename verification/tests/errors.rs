use cbf_node::errors::{AddrsMngrError, CompactFiltersError, PeerError};
use std::sync::mpsc::{RecvError, SendError};
use std::time::{Duration, UNIX_EPOCH};

fn io_error() -> std::io::Error {
    std::io::Error::new(std::io::ErrorKind::Other, "disk on fire")
}

fn peer_error() -> PeerError {
    PeerError { description: String::from("handshake refused") }
}

#[test]
fn manager_errors_and_their_messages() {
    let io = AddrsMngrError::from(io_error());
    assert!(matches!(io, AddrsMngrError::IO(_)));
    assert_eq!(io.message(), "std IO Error");
    let peer = AddrsMngrError::from(peer_error());
    assert!(matches!(peer, AddrsMngrError::Peer(_)));
    assert_eq!(peer.message(), "P2P Network Error");
    let channel = AddrsMngrError::Mpsc(String::from("closed"));
    assert_eq!(channel.message(), "Internal MPSC Error: closed");
}

#[test]
fn channel_errors_keep_their_text() {
    match AddrsMngrError::from(RecvError) {
        AddrsMngrError::Mpsc(text) => assert_eq!(text, RecvError.to_string()),
        _ => panic!("a channel failed"),
    }
    match AddrsMngrError::from(SendError(7u8)) {
        AddrsMngrError::Mpsc(text) => assert_eq!(text, SendError(7u8).to_string()),
        _ => panic!("a channel failed"),
    }
}

#[test]
fn fixed_sync_messages() {
    let all = vec![
        (
            CompactFiltersError::InvalidResponse,
            "A peer sent an invalid or unexpected response",
        ),
        (CompactFiltersError::InvalidHeaders, "The headers returned are invalid"),
        (
            CompactFiltersError::InvalidFilterHeader,
            "The compact filter headers returned are invalid",
        ),
        (CompactFiltersError::InvalidFilter, "The compact filter returned is invalid"),
        (
            CompactFiltersError::MissingBlock,
            "The peer is missing a block in the valid chain",
        ),
        (
            CompactFiltersError::BlockHashNotFound,
            "Block hash at specified height not found",
        ),
        (
            CompactFiltersError::DataCorruption,
            "The data stored in the block filters storage are corrupted",
        ),
        (CompactFiltersError::NotConnected, "A peer is not connected"),
        (
            CompactFiltersError::Timeout,
            "A peer took too long to reply to one of our messages",
        ),
        (
            CompactFiltersError::PeerBloomDisabled,
            "The peer doesn't advertise the service flag",
        ),
        (CompactFiltersError::NoPeers, "No peers have been specified"),
        (CompactFiltersError::from(peer_error()), "Internal Peer Error"),
    ];
    for (error, text) in all {
        assert_eq!(error.message(), text);
    }
}

#[test]
fn sync_messages_with_a_cause() {
    let db = CompactFiltersError::Db(String::from("no such column"));
    assert_eq!(db.message(), "Internal database error : no such column");
    let io = CompactFiltersError::from(io_error());
    assert!(matches!(io, CompactFiltersError::Io(_)));
    assert_eq!(io.message(), "Internal I/O error : disk on fire");
    let filter = CompactFiltersError::from(bitcoin::util::bip158::Error::Io(io_error()));
    assert!(matches!(filter, CompactFiltersError::Bip158(_)));
    assert_eq!(filter.message(), "Invalid BIP158 filter : disk on fire");
    let later = UNIX_EPOCH + Duration::from_secs(1);
    let backwards = UNIX_EPOCH.duration_since(later).unwrap_err();
    let expected = format!("Internal system time error : {}", backwards);
    let time = CompactFiltersError::from(backwards);
    assert!(matches!(time, CompactFiltersError::Time(_)));
    assert_eq!(time.message(), expected);
}
