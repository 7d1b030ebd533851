//! The address of the Twitch integration's websocket server.
use vstd::prelude::*;
use url::{ParseError, Url};

verus! {

#[verifier::external_type_specification]
#[verifier::external_body]
pub struct ExUrl(Url);

#[verifier::external_type_specification]
#[verifier::external_body]
pub struct ExUrlParseError(ParseError);

/// How often the websocket client tries to connect, and to reconnect,
/// before it gives up.
pub const TWITCH_CONNECT_ATTEMPTS: usize = 3;

/// What `Url::parse` makes of `input`: the parsed URL, or `None` where it
/// reports an error. It depends on `input` alone.
pub uninterp spec fn url_parse_result(input: Seq<char>) -> Option<Url>;

/// `Url::parse`: the parsed URL, or the parse error. The contract says
/// that the outcome is the named result `url_parse_result` of `input`:
/// the parse fails exactly where the name is `None`, and otherwise yields
/// the URL it names. The URL grammar is not stated.
#[verifier::external_body]
fn url_parse(input: &str) -> (r: Result<Url, ParseError>)
    ensures
        r is Ok <==> url_parse_result(input@) is Some,
        r is Ok ==> url_parse_result(input@) == Some(r->Ok_0),
{
    Url::parse(input)
}

/// Why the Twitch integration could not be set up.
#[derive(Debug, Clone, Copy, PartialEq, Eq, Structural)]
pub enum TwitchError {
    /// The configured address is not a URL.
    InvalidUrl,
}

/// The URL of the Twitch integration server configured as `url_string`;
/// an error where it is not a URL (an empty setting is not one).
pub fn twitch_url(url_string: &String) -> (r: Result<Url, TwitchError>)
    ensures
        r is Ok <==> url_parse_result(url_string@) is Some,
        r is Ok ==> url_parse_result(url_string@) == Some(r->Ok_0),
        r is Err ==> r->Err_0 == TwitchError::InvalidUrl,
{
    match url_parse(url_string.as_str()) {
        Ok(url) => Ok(url),
        Err(_) => Err(TwitchError::InvalidUrl),
    }
}

} // verus!
