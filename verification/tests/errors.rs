use rubic_network::error::NetworkError;
use rubic_network::peers::describe;

fn all_errors() -> Vec<NetworkError> {
    vec![
        NetworkError::Io("broken pipe".to_string()),
        NetworkError::ConnectionFailed("refused".to_string()),
        NetworkError::Timeout,
        NetworkError::InvalidResponse,
        NetworkError::PeerLimitReached,
        NetworkError::Database("locked".to_string()),
        NetworkError::Serialization("bad tag".to_string()),
        NetworkError::Network("unreachable".to_string()),
        NetworkError::PeerNotFound,
        NetworkError::PoolExhausted,
        NetworkError::InvalidConfig("no peers".to_string()),
    ]
}

#[test]
fn recoverable_errors() {
    let recoverable: Vec<bool> = all_errors().iter().map(|e| e.is_recoverable()).collect();
    assert_eq!(
        recoverable,
        vec![false, true, true, false, false, false, false, true, false, true, false]
    );
}

#[test]
fn permanent_errors() {
    let permanent: Vec<bool> = all_errors().iter().map(|e| e.is_permanent()).collect();
    assert_eq!(
        permanent,
        vec![false, false, false, false, true, false, false, false, true, false, true]
    );
}

#[test]
fn no_error_is_recoverable_and_permanent() {
    assert!(all_errors().iter().all(|e| !(e.is_recoverable() && e.is_permanent())));
}

#[test]
fn error_messages() {
    let messages: Vec<String> = all_errors().iter().map(|e| e.message()).collect();
    assert_eq!(
        messages,
        vec![
            "IO error: broken pipe",
            "Connection failed: refused",
            "Connection timeout",
            "Invalid response",
            "Peer limit reached",
            "Database error: locked",
            "Serialization error: bad tag",
            "Network error: unreachable",
            "Peer not found",
            "Connection pool exhausted",
            "Invalid configuration: no peers",
        ]
    );
}

#[test]
fn described_results() {
    assert_eq!(describe(Ok(7)), Ok(7));
    assert_eq!(
        describe::<()>(Err(NetworkError::Database("locked".to_string()))),
        Err("Database error: locked".to_string())
    );
}
