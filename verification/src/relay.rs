//! The relay server that connections go through where there is no direct way.

use vstd::prelude::*;
use vstd::string::*;

use iroh::{RelayUrl, RelayUrlParseError};

verus! {

/// The error of reading a relay address. Nothing is known of what it holds.
#[verifier::external_type_specification]
#[verifier::external_body]
pub struct ExRelayUrlParseError(RelayUrlParseError);

/// The address that `RelayUrl::from_str` reads from a text, as `RelayUrl` displays it; nothing
/// where the text is no URL.
pub uninterp spec fn relay_url(text: Seq<char>) -> Option<Seq<char>>;

/// `RelayUrl::from_str`, with the address as it displays itself. Claimed is only that whether the
/// text is accepted, and the address that comes out, depend on the text alone.
#[verifier::external_body]
fn parse_relay_url(text: &str) -> (r: Result<String, RelayUrlParseError>)
    ensures
        r is Ok <==> relay_url(text@) is Some,
        r matches Ok(url) ==> relay_url(text@) == Some(url@),
{
    match text.parse::<RelayUrl>() {
        Ok(url) => Ok(url.to_string()),
        Err(error) => Err(error),
    }
}

/// Which relay servers to use.
pub enum RelayMode {
    /// Those that the network library comes with.
    Default,
    /// The one at this address alone, without address discovery over QUIC.
    Custom(String),
}

/// A choice of relay servers as mathematics sees it.
pub enum RelayModeModel {
    Default,
    Custom(Seq<char>),
}

impl View for RelayMode {
    type V = RelayModeModel;

    open spec fn view(&self) -> RelayModeModel {
        match self {
            RelayMode::Default => RelayModeModel::Default,
            RelayMode::Custom(url) => RelayModeModel::Custom(url@),
        }
    }
}

/// Which relay servers to use for the configured address `custom_url`, which reads as `parsed`.
/// An empty address stands for the servers that the network library comes with; any other has to
/// be a URL.
pub open spec fn relay_mode(custom_url: Seq<char>, parsed: Option<Seq<char>>) -> Option<
    RelayModeModel,
> {
    if custom_url.len() == 0 {
        Some(RelayModeModel::Default)
    } else {
        match parsed {
            Some(url) => Some(RelayModeModel::Custom(url)),
            None => None,
        }
    }
}

/// Chooses the relay servers for the configured address `custom_url`, which reads as `parsed`.
pub fn relay_mode_for(custom_url: &str, parsed: Option<String>) -> (r: Option<RelayMode>)
    ensures
        r is Some <==> custom_url@.len() == 0 || parsed is Some,
        r matches Some(mode) ==> relay_mode(
            custom_url@,
            match parsed {
                Some(url) => Some(url@),
                None => None,
            },
        ) == Some(mode@),
{
    if custom_url.is_empty() {
        Some(RelayMode::Default)
    } else {
        match parsed {
            Some(url) => Some(RelayMode::Custom(url)),
            None => None,
        }
    }
}

/// Chooses the relay servers for the configured address `custom_url`, which is empty or a URL.
pub fn build_relay_mode(custom_url: &str) -> (r: RelayMode)
    requires
        custom_url@.len() == 0 || relay_url(custom_url@) is Some,
    ensures
        relay_mode(custom_url@, relay_url(custom_url@)) == Some(r@),
{
    relay_mode_for(custom_url, parse_relay_url(custom_url).ok()).unwrap()
}

/// Chooses the relay servers for whatever address is configured. An address that is neither empty
/// nor a URL gives nothing.
pub fn try_relay_mode(custom_url: &str) -> (r: Option<RelayMode>)
    ensures
        r is Some <==> relay_mode(custom_url@, relay_url(custom_url@)) is Some,
        r matches Some(mode) ==> relay_mode(custom_url@, relay_url(custom_url@)) == Some(mode@),
{
    if custom_url.is_empty() || parse_relay_url(custom_url).is_ok() {
        Some(build_relay_mode(custom_url))
    } else {
        None
    }
}

/// The usual relay servers are used exactly where no address is configured; an address that reads
/// is used as it reads, whatever its length, and one that does not read is never passed over.
pub proof fn law_configured_relay_is_used(custom_url: Seq<char>, parsed: Option<Seq<char>>)
    ensures
        custom_url.len() == 0 <==> relay_mode(custom_url, parsed) == Some(
            RelayModeModel::Default,
        ),
        custom_url.len() > 0 ==> {
            &&& parsed is Some <==> relay_mode(custom_url, parsed) is Some
            &&& parsed is Some ==> relay_mode(custom_url, parsed) == Some(
                RelayModeModel::Custom(parsed->0),
            )
        },
{
}

/// A model of a choice of relay servers holds what the choice holds.
pub proof fn law_relay_mode_is_seen_whole(mode: RelayMode)
    ensures
        mode is Default <==> mode@ is Default,
        mode matches RelayMode::Custom(url) ==> mode@ == RelayModeModel::Custom(url@),
{
}

} // verus!
