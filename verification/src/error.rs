//! What can go wrong in the network layer.

use vstd::prelude::*;

verus! {

/// The result of a network operation.
pub type NetworkResult<T> = Result<T, NetworkError>;

/// An error of the network layer.
#[derive(Debug)]
pub enum NetworkError {
    /// Reading, writing or connecting failed; holds the system's message.
    Io(String),
    /// A peer could not be reached or is not to be connected to.
    ConnectionFailed(String),
    /// An operation did not finish in time.
    Timeout,
    /// A peer sent something that is not a packet.
    InvalidResponse,
    /// The set holds as many peers as it may.
    PeerLimitReached,
    /// The peer database refused an operation.
    Database(String),
    /// A value could not be turned into bytes or back.
    Serialization(String),
    /// Any other failure of the network.
    Network(String),
    /// No such peer.
    PeerNotFound,
    /// The connection pool gives out no more connections.
    PoolExhausted,
    /// A configuration makes no sense.
    InvalidConfig(String),
}

impl NetworkError {
    /// Whether trying again may help.
    pub open spec fn recoverable(self) -> bool {
        ||| self is Timeout
        ||| self is ConnectionFailed
        ||| self is PoolExhausted
        ||| self is Network
    }

    /// Whether trying again cannot help.
    pub open spec fn permanent(self) -> bool {
        ||| self is PeerLimitReached
        ||| self is InvalidConfig
        ||| self is PeerNotFound
    }

    /// Whether the error says that the connection itself is gone.
    pub open spec fn breaks_connection(self) -> bool {
        ||| self is ConnectionFailed
        ||| self is Timeout
        ||| self is Io
    }

    /// The error as shown to a user.
    pub open spec fn text(self) -> Seq<char> {
        match self {
            NetworkError::Io(cause) => "IO error: "@ + cause@,
            NetworkError::ConnectionFailed(cause) => "Connection failed: "@ + cause@,
            NetworkError::Timeout => "Connection timeout"@,
            NetworkError::InvalidResponse => "Invalid response"@,
            NetworkError::PeerLimitReached => "Peer limit reached"@,
            NetworkError::Database(cause) => "Database error: "@ + cause@,
            NetworkError::Serialization(cause) => "Serialization error: "@ + cause@,
            NetworkError::Network(cause) => "Network error: "@ + cause@,
            NetworkError::PeerNotFound => "Peer not found"@,
            NetworkError::PoolExhausted => "Connection pool exhausted"@,
            NetworkError::InvalidConfig(cause) => "Invalid configuration: "@ + cause@,
        }
    }

    /// Whether trying the failed operation again may help.
    pub fn is_recoverable(&self) -> (recoverable: bool)
        ensures
            recoverable == self.recoverable(),
    {
        matches!(
            self,
            NetworkError::Timeout
                | NetworkError::ConnectionFailed(_)
                | NetworkError::PoolExhausted
                | NetworkError::Network(_)
        )
    }

    /// Whether the failed operation will go on failing.
    pub fn is_permanent(&self) -> (permanent: bool)
        ensures
            permanent == self.permanent(),
    {
        matches!(
            self,
            NetworkError::PeerLimitReached
                | NetworkError::InvalidConfig(_)
                | NetworkError::PeerNotFound
        )
    }

    /// The error as a line of text.
    pub fn message(&self) -> (message: String)
        ensures
            message@ == self.text(),
    {
        match self {
            NetworkError::Io(cause) => labelled("IO error: ", cause),
            NetworkError::ConnectionFailed(cause) => labelled("Connection failed: ", cause),
            NetworkError::Timeout => "Connection timeout".to_owned(),
            NetworkError::InvalidResponse => "Invalid response".to_owned(),
            NetworkError::PeerLimitReached => "Peer limit reached".to_owned(),
            NetworkError::Database(cause) => labelled("Database error: ", cause),
            NetworkError::Serialization(cause) => labelled("Serialization error: ", cause),
            NetworkError::Network(cause) => labelled("Network error: ", cause),
            NetworkError::PeerNotFound => "Peer not found".to_owned(),
            NetworkError::PoolExhausted => "Connection pool exhausted".to_owned(),
            NetworkError::InvalidConfig(cause) => labelled("Invalid configuration: ", cause),
        }
    }
}

/// `cause` with `label` in front of it.
pub(crate) fn labelled(label: &str, cause: &str) -> (text: String)
    ensures
        text@ == label@ + cause@,
{
    let mut text = label.to_owned();
    text.append(cause);
    text
}

/// No error is both recoverable and permanent.
pub proof fn recoverable_errors_are_not_permanent(error: NetworkError)
    ensures
        !(error.recoverable() && error.permanent()),
{
}

/// Which errors may pass, which will not, and which say that the connection is gone, whatever
/// their cause.
pub proof fn errors_are_told_apart(cause: String)
    ensures
        NetworkError::Timeout.recoverable(),
        NetworkError::ConnectionFailed(cause).recoverable(),
        NetworkError::PoolExhausted.recoverable(),
        NetworkError::Network(cause).recoverable(),
        !NetworkError::Io(cause).recoverable(),
        !NetworkError::InvalidResponse.recoverable(),
        !NetworkError::PeerLimitReached.recoverable(),
        !NetworkError::Database(cause).recoverable(),
        !NetworkError::Serialization(cause).recoverable(),
        !NetworkError::PeerNotFound.recoverable(),
        !NetworkError::InvalidConfig(cause).recoverable(),
        NetworkError::PeerLimitReached.permanent(),
        NetworkError::InvalidConfig(cause).permanent(),
        NetworkError::PeerNotFound.permanent(),
        !NetworkError::Io(cause).permanent(),
        !NetworkError::ConnectionFailed(cause).permanent(),
        !NetworkError::Timeout.permanent(),
        !NetworkError::InvalidResponse.permanent(),
        !NetworkError::Database(cause).permanent(),
        !NetworkError::Serialization(cause).permanent(),
        !NetworkError::Network(cause).permanent(),
        !NetworkError::PoolExhausted.permanent(),
        NetworkError::ConnectionFailed(cause).breaks_connection(),
        NetworkError::Timeout.breaks_connection(),
        NetworkError::Io(cause).breaks_connection(),
        !NetworkError::InvalidResponse.breaks_connection(),
        !NetworkError::PeerLimitReached.breaks_connection(),
        !NetworkError::Database(cause).breaks_connection(),
        !NetworkError::Serialization(cause).breaks_connection(),
        !NetworkError::Network(cause).breaks_connection(),
        !NetworkError::PeerNotFound.breaks_connection(),
        !NetworkError::PoolExhausted.breaks_connection(),
        !NetworkError::InvalidConfig(cause).breaks_connection(),
{
}

/// An error with a cause names its kind and then the whole cause; any other names its kind alone.
pub proof fn errors_name_their_cause(cause: String)
    ensures
        NetworkError::Io(cause).text() == "IO error: "@ + cause@,
        NetworkError::ConnectionFailed(cause).text() == "Connection failed: "@ + cause@,
        NetworkError::Database(cause).text() == "Database error: "@ + cause@,
        NetworkError::Serialization(cause).text() == "Serialization error: "@ + cause@,
        NetworkError::Network(cause).text() == "Network error: "@ + cause@,
        NetworkError::InvalidConfig(cause).text() == "Invalid configuration: "@ + cause@,
        NetworkError::Timeout.text() == "Connection timeout"@,
        NetworkError::InvalidResponse.text() == "Invalid response"@,
        NetworkError::PeerLimitReached.text() == "Peer limit reached"@,
        NetworkError::PeerNotFound.text() == "Peer not found"@,
        NetworkError::PoolExhausted.text() == "Connection pool exhausted"@,
{
}

} // verus!
