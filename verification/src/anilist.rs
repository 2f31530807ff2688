//! AniList-side types: the remote watch list client's data, its error
//! taxonomy, and the pure classification of query responses.  The HTTP
//! transport itself lives outside the library.

pub mod data;

use vstd::prelude::*;

verus! {

pub type MediaListIdentifier = i64;

pub type UserIdentifier = i64;

/// Per-request terminal errors of the remote list client.
#[derive(Debug)]
pub enum AnilistError {
    RequestDataError,
    ConnectionError,
    ParsingError,
    InvalidToken,
}

impl AnilistError {
    /// A human-readable description of the error.
    pub fn message(&self) -> (r: &'static str)
        ensures
            match self {
                AnilistError::RequestDataError => r@ == "Request data error"@,
                AnilistError::ConnectionError => r@ == "Connection error"@,
                AnilistError::ParsingError => r@ == "Parsing error"@,
                AnilistError::InvalidToken => r@ == "Invalid token"@,
            },
    {
        match self {
            AnilistError::RequestDataError => "Request data error",
            AnilistError::ConnectionError => "Connection error",
            AnilistError::ParsingError => "Parsing error",
            AnilistError::InvalidToken => "Invalid token",
        }
    }
}

/// Variables of the watch-list query.
#[derive(Debug)]
pub struct MediaListCollectionQueryVariables {
    pub user_id: UserIdentifier,
}

/// Variables of the progress-update mutation.
#[derive(Debug)]
pub struct MediaListCollectionMutateVariables {
    pub id: MediaListIdentifier,
    pub progress: i32,
}

/// A query document together with its variables.
#[derive(Debug)]
pub struct Query<'a, T> {
    pub query: &'a str,
    pub variables: Option<T>,
}

/// A successful response envelope.
#[derive(Debug)]
pub struct QueryResponse<T> {
    pub data: T,
}

impl<T> QueryResponse<T> {
    /// The decision core of response handling: a 400 status whose body
    /// reported an invalid token is an authentication failure, any other
    /// undecodable body a parsing failure, and a decoded envelope yields
    /// its data.
    pub fn classify(status_code: u16, invalid_token: bool, parsed: Option<QueryResponse<T>>) -> (r:
        Result<T, AnilistError>)
        ensures
            match r {
                Result::Ok(d) => !(status_code == 400 && invalid_token) && parsed is Some && d
                    == parsed->0.data,
                Result::Err(e) => if status_code == 400 && invalid_token {
                    e is InvalidToken
                } else {
                    parsed is None && e is ParsingError
                },
            },
    {
        if status_code == 400 && invalid_token {
            return Result::Err(AnilistError::InvalidToken);
        }
        match parsed {
            Option::Some(response) => Result::Ok(response.data),
            Option::None => Result::Err(AnilistError::ParsingError),
        }
    }
}

/// Credentials of the remote list client; the HTTP calls built on them
/// live outside the library.
#[derive(Clone, Debug, PartialEq)]
pub struct AnilistClient {
    pub token: String,
    pub user_id: UserIdentifier,
}

impl AnilistClient {
    pub fn new(token: String, user_id: UserIdentifier) -> (r: Self)
        ensures
            r.token == token,
            r.user_id == user_id,
    {
        Self { token, user_id }
    }

    /// Create a new client from only a token.  Used for authentication only.
    pub fn new_from_token(token: String) -> (r: Self)
        ensures
            r.token == token,
            r.user_id == 0,
    {
        Self { token, user_id: 0 }
    }
}

} // verus!
