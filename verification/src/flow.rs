//! Authorization initiation and callback exchange.
//!
//! Initiation builds a provider authorization URL with a fresh state token
//! and PKCE challenge, and registers the pending flow under that token.
//! The callback consumes the pending flow exactly once; after the provider
//! exchange, the issued token record is encoded and handed to the client in
//! a redirect to the landing page.

use vstd::prelude::*;
use vstd::string::StringExecFns;

use crate::codec::{b64_of, encode_token, spec_ser_token, TokenRecord};
use crate::errors::CoreError;
use crate::registry::FlowRegistry;

verus! {

/// Provider client with an embedded PKCE verifier; opaque here, consumed by
/// the application when it performs the code exchange.
#[verifier::external_type_specification]
#[verifier::external_body]
pub struct ExAuthCodePkceSpotify(rspotify::AuthCodePkceSpotify);

/// Error type of the provider client, carried through the URL-build wrapper.
#[verifier::external_type_specification]
#[verifier::external_body]
pub struct ExClientError(rspotify::ClientError);

/// The capability set every authorization asks for: read current playback,
/// modify private playlists, read top items.
pub fn requested_scopes() -> (r: Vec<String>)
    ensures
        r@.len() == 3,
        r@[0]@ == "user-read-currently-playing"@,
        r@[1]@ == "playlist-modify-private"@,
        r@[2]@ == "user-top-read"@,
{
    let mut v: Vec<String> = Vec::new();
    v.push("user-read-currently-playing".to_owned());
    v.push("playlist-modify-private".to_owned());
    v.push("user-top-read".to_owned());
    v
}

/// Relies on rspotify's `OAuth::default` (which draws a fresh random state
/// token), `AuthCodePkceSpotify::new` and `get_authorize_url` (which draws
/// the PKCE verifier and builds the authorization URL). State, client and
/// URL are partly random, so nothing is promised of them.
#[verifier::external_body]
fn build_authorize_flow(
    client_id: &str,
    client_secret: &str,
    redirect_uri: &str,
    scopes: &Vec<String>,
) -> (r: Result<(String, rspotify::AuthCodePkceSpotify, String), rspotify::ClientError>) {
    let creds = rspotify::Credentials::new(client_id, client_secret);
    let oauth = rspotify::OAuth {
        redirect_uri: redirect_uri.to_string(),
        scopes: scopes.iter().cloned().collect(),
        ..rspotify::OAuth::default()
    };
    let state = oauth.state.clone();
    let mut client = rspotify::AuthCodePkceSpotify::new(creds, oauth);
    match client.get_authorize_url(None) {
        Ok(url) => Ok((state, client, url)),
        Err(e) => Err(e),
    }
}

/// Starts an authorization: builds the provider authorization URL and
/// registers the pending flow under its fresh state token. On a URL-build
/// failure nothing is registered and the failure surfaces as
/// [`CoreError::ProviderRequestFailed`].
pub fn initiate_authorization(
    reg: &mut FlowRegistry<rspotify::AuthCodePkceSpotify>,
    client_id: &str,
    client_secret: &str,
    redirect_uri: &str,
) -> (r: Result<String, CoreError>)
    requires
        old(reg).wf(),
    ensures
        final(reg).wf(),
        r is Ok ==> exists|s: Seq<char>, c: rspotify::AuthCodePkceSpotify|
            final(reg)@ == old(reg)@.insert(s, c),
        r matches Err(e) ==> *final(reg) == *old(reg) && e == CoreError::ProviderRequestFailed,
{
    let scopes = requested_scopes();
    let flow = build_authorize_flow(client_id, client_secret, redirect_uri, &scopes);
    match flow {
        Result::Err(_) => Result::Err(CoreError::ProviderRequestFailed),
        Result::Ok((state, client, url)) => {
            let ghost s = state@;
            let ghost c = client;
            reg.put(state, client);
            proof {
                assert(reg@ == old(reg)@.insert(s, c));
            }
            Result::Ok(url)
        },
    }
}

/// Consumes the pending flow registered under a callback's state token.
/// An unknown, already consumed or expired token fails with
/// [`CoreError::FlowNotFound`] — the caller's fault, not the server's —
/// and a second call with the same token always does.
pub fn begin_callback<V>(reg: &mut FlowRegistry<V>, state: &String) -> (r: Result<V, CoreError>)
    requires
        old(reg).wf(),
    ensures
        final(reg).wf(),
        match r {
            Ok(v) => old(reg)@.contains_key(state@) && v == old(reg)@[state@] && final(reg)@ == old(
                reg,
            )@.remove(state@),
            Err(e) => !old(reg)@.contains_key(state@) && *final(reg) == *old(reg) && e
                == CoreError::FlowNotFound,
        },
{
    match reg.take(state) {
        Option::Some(v) => Result::Ok(v),
        Option::None => Result::Err(CoreError::FlowNotFound),
    }
}

/// Finishes a callback after a successful code exchange: encodes the issued
/// token record and builds the landing redirect carrying it as the `token`
/// query value. `None` exactly when the record is too large to encode,
/// which no token a provider issues comes near.
pub fn finish_callback(t: &TokenRecord) -> (r: Option<String>)
    ensures
        r is Some <==> spec_ser_token(t@).len() < 0x40000000,
        r matches Some(u) ==> u@ == "/?token="@ + b64_of(spec_ser_token(t@)),
{
    match encode_token(t) {
        Option::None => Option::None,
        Option::Some(enc) => Option::Some("/?token=".to_owned().concat(enc.as_str())),
    }
}

} // verus!
