//! Where a node's geolocation store lives: the leader writes to the Redis
//! master, a follower reads from the replica.
use vstd::prelude::*;

verus! {

/// `redis::Client`, carried through as an opaque value.
#[verifier::external_type_specification]
#[verifier::external_body]
pub struct ExRedisClient(redis::Client);

/// `redis::RedisError`, carried through as an opaque value.
#[verifier::external_type_specification]
#[verifier::external_body]
pub struct ExRedisError(redis::RedisError);

/// Whether `redis::Client::open` accepts `url`: whether it parses as a Redis
/// address of a kind this build supports (with the features enabled here, for
/// example a `redis://` address with a host).
pub uninterp spec fn redis_url_accepted(url: Seq<char>) -> bool;

/// The client `redis::Client::open` makes of `url`: the connection settings
/// (address, database number, user, password, protocol) it parses from it.
pub uninterp spec fn redis_client_for(url: Seq<char>) -> redis::Client;

/// Calls `redis::Client::open(url)`, which parses the address and opens no
/// connection. The contract claims that it succeeds exactly when the address
/// is accepted, and that the client it returns is the one made of that text:
/// both depend on the text of `url` alone (the client holds only the parsed
/// connection settings). Which addresses are accepted and what the settings
/// are is left to the names and not stated.
#[verifier::external_body]
fn open_client(url: &str) -> (r: Result<redis::Client, redis::RedisError>)
    ensures
        r is Ok <==> redis_url_accepted(url@),
        r matches Ok(c) ==> c == redis_client_for(url@),
{
    redis::Client::open(url)
}

/// Why no store could be reached.
pub enum RepositoryError {
    /// Redis refused the address.
    InvalidAddress(redis::RedisError),
}

pub struct RedisFactory {
    master_url: String,
    replica_url: String,
}

impl RedisFactory {
    /// The address of the Redis master.
    pub closed spec fn master(&self) -> Seq<char> {
        self.master_url@
    }

    /// The address of the Redis replica.
    pub closed spec fn replica(&self) -> Seq<char> {
        self.replica_url@
    }

    pub fn new(master_url: String, replica_url: String) -> (r: Self)
        ensures
            r.master() == master_url@,
            r.replica() == replica_url@,
    {
        Self { master_url, replica_url }
    }

    fn open(url: &String) -> (r: Result<redis::Client, RepositoryError>)
        ensures
            r is Ok <==> redis_url_accepted(url@),
            r matches Ok(c) ==> c == redis_client_for(url@),
    {
        match open_client(url.as_str()) {
            Ok(client) => Ok(client),
            Err(e) => Err(RepositoryError::InvalidAddress(e)),
        }
    }

    /// The client for the leader's store, on the master's address.
    pub fn create_leader_client(&self) -> (r: Result<redis::Client, RepositoryError>)
        ensures
            r is Ok <==> redis_url_accepted(self.master()),
            r matches Ok(c) ==> c == redis_client_for(self.master()),
    {
        Self::open(&self.master_url)
    }

    /// The client for a follower's store, on the replica's address.
    pub fn create_follower_client(&self) -> (r: Result<redis::Client, RepositoryError>)
        ensures
            r is Ok <==> redis_url_accepted(self.replica()),
            r matches Ok(c) ==> c == redis_client_for(self.replica()),
    {
        Self::open(&self.replica_url)
    }
}

} // verus!
