//! What the recognition service answers, and the errors a recognition attempt
//! can end with.

use vstd::prelude::*;
use crate::codec::{base64_of, encodable, encode_to_uri, spec_encode, uri_prefix};
use crate::signature::{duration_ms, spec_duration_ms, DecodedSignature};

verus! {

/// Why a recognition attempt gave no track.
#[derive(Clone, Copy, Debug, PartialEq, Eq, Structural)]
pub enum RecognitionError {
    /// Fetching the stream or posting the request failed or timed out.
    Transport,
    /// No audio frame could be decoded from the fetched bytes.
    Decode,
    /// The service answered, but matched no track.
    NoMatch,
    /// The service's answer did not have the expected structure.
    Serialization,
}

/// The service's answer to a recognition request.
#[derive(Clone, Debug)]
pub struct ShazamResponse {
    pub timestamp: u64,
    pub tagid: String,
    pub track: Option<ShazamTrack>,
}

/// An identified track.
#[derive(Clone, Debug)]
pub struct ShazamTrack {
    pub key: String,
    pub title: String,
    /// The artist.
    pub subtitle: String,
    pub isrc: Option<String>,
    pub albumadamid: Option<String>,
    pub url: Option<String>,
    pub artists: Option<Vec<ShazamSmall>>,
    pub genres: Option<ShazamGenres>,
    pub images: Option<ShazamImages>,
    pub sections: Option<Vec<ShazamSection>>,
}

#[derive(Clone, Debug)]
pub struct ShazamSmall {
    pub adamid: String,
    pub id: String,
}

#[derive(Clone, Debug)]
pub struct ShazamGenres {
    pub primary: Option<String>,
}

/// Cover-art references.
#[derive(Clone, Debug)]
pub struct ShazamImages {
    pub background: String,
    pub coverart: String,
    pub coverarthq: String,
}

/// A free-form section of track metadata.
#[derive(Clone, Debug)]
pub enum ShazamSection {
    MetaSection { metadata: Vec<ShazamMetadataSection> },
    ArtistSection { id: String, name: String, tabname: String, type_: String },
    Other {  },
}

#[derive(Clone, Debug)]
pub struct ShazamMetadataSection {
    pub text: String,
    pub title: String,
}

/// The outcome a response stands for.
pub open spec fn spec_track_from_response(response: ShazamResponse) -> Result<
    ShazamTrack,
    RecognitionError,
> {
    match response.track {
        Some(track) => Ok(track),
        None => Err(RecognitionError::NoMatch),
    }
}

/// The track a response names; a response without one is a `NoMatch`.
pub fn track_from_response(response: ShazamResponse) -> (r: Result<ShazamTrack, RecognitionError>)
    ensures
        r == spec_track_from_response(response),
{
    match response.track {
        Some(track) => Ok(track),
        None => Err(RecognitionError::NoMatch),
    }
}

/// The identity tracks are compared by: `"<artist> - <title>"`.
pub open spec fn spec_track_identity(track: ShazamTrack) -> Seq<char> {
    track.subtitle@ + " - "@ + track.title@
}

/// Builds the identity of a track.
pub fn track_identity(track: &ShazamTrack) -> (r: String)
    ensures
        r@ == spec_track_identity(*track),
{
    let mut r = track.subtitle.clone();
    r.append(" - ");
    r.append(track.title.as_str());
    r
}

/// Number of user-agent strings requests pick from.
pub const USER_AGENT_COUNT: usize = 6;

/// The user-agent strings requests pick from.
pub open spec fn spec_user_agent(i: int) -> Seq<char> {
    if i == 0 {
        "Dalvik/2.1.0 (Linux; U; Android 5.0.2; VS980 4G Build/LRX22G)"@
    } else if i == 1 {
        "Dalvik/1.6.0 (Linux; U; Android 4.4.2; SM-T210 Build/KOT49H)"@
    } else if i == 2 {
        "Dalvik/2.1.0 (Linux; U; Android 5.1.1; SM-P905V Build/LMY47X)"@
    } else if i == 3 {
        "Dalvik/2.1.0 (Linux; U; Android 6.0.1; SM-G920F Build/MMB29K)"@
    } else if i == 4 {
        "Dalvik/2.1.0 (Linux; U; Android 7.0; SM-G930V Build/NRD90M)"@
    } else {
        "Dalvik/2.1.0 (Linux; U; Android 8.0.0; SM-G950F Build/R16NW)"@
    }
}

/// The `i`-th user-agent string of the pool.
pub fn user_agent(i: usize) -> (r: &'static str)
    requires
        i < USER_AGENT_COUNT,
    ensures
        r@ == spec_user_agent(i as int),
{
    if i == 0 {
        "Dalvik/2.1.0 (Linux; U; Android 5.0.2; VS980 4G Build/LRX22G)"
    } else if i == 1 {
        "Dalvik/1.6.0 (Linux; U; Android 4.4.2; SM-T210 Build/KOT49H)"
    } else if i == 2 {
        "Dalvik/2.1.0 (Linux; U; Android 5.1.1; SM-P905V Build/LMY47X)"
    } else if i == 3 {
        "Dalvik/2.1.0 (Linux; U; Android 6.0.1; SM-G920F Build/MMB29K)"
    } else if i == 4 {
        "Dalvik/2.1.0 (Linux; U; Android 7.0; SM-G930V Build/NRD90M)"
    } else {
        "Dalvik/2.1.0 (Linux; U; Android 8.0.0; SM-G950F Build/R16NW)"
    }
}

/// Path of the recognition endpoint, before the two session identifiers.
pub open spec fn endpoint_prefix() -> Seq<char> {
    "https://amp.shazam.com/discovery/v5/en/US/android/-/tag/"@
}

/// Everything a recognition request carries besides its fixed query
/// parameters and content language.
#[derive(Clone, Debug)]
pub struct RecognitionRequest {
    pub url: String,
    pub user_agent: String,
    /// Length of the signature, in milliseconds.
    pub sample_ms: u32,
    /// Milliseconds since the epoch, kept modulo 2^32.
    pub timestamp: u32,
    /// The encoded signature, as a data URI.
    pub signature_uri: String,
    pub timezone: String,
    pub altitude: u32,
    pub latitude: u32,
    pub longitude: u32,
}

/// Assembles a request from its parts: the URL names the two session
/// identifiers, the location and time zone are fixed.
pub fn build_recognition_request(
    signature_uri: String,
    sample_ms: u32,
    timestamp_ms: u64,
    session_a: &str,
    session_b: &str,
    user_agent: &str,
) -> (r: RecognitionRequest)
    ensures
        r.url@ == endpoint_prefix() + session_a@ + "/"@ + session_b@,
        r.user_agent@ == user_agent@,
        r.sample_ms == sample_ms,
        r.timestamp == timestamp_ms % 0x1_0000_0000,
        r.signature_uri == signature_uri,
        r.timezone@ == "Europe/Paris"@,
        r.altitude == 300,
        r.latitude == 45,
        r.longitude == 2,
{
    let mut url = String::from_str("https://amp.shazam.com/discovery/v5/en/US/android/-/tag/");
    url.append(session_a);
    url.append("/");
    url.append(session_b);
    RecognitionRequest {
        url,
        user_agent: String::from_str(user_agent),
        sample_ms,
        timestamp: (timestamp_ms % 0x1_0000_0000) as u32,
        signature_uri,
        timezone: String::from_str("Europe/Paris"),
        altitude: 300,
        latitude: 45,
        longitude: 2,
    }
}

/// Relies on `uuid::Uuid::new_v4` and its hyphenated text form, which is
/// 36 characters long; the identifier itself is random.
#[verifier::external_body]
fn session_id() -> (r: String)
    ensures
        r@.len() == 36,
{
    uuid::Uuid::new_v4().hyphenated().to_string()
}

/// Relies on `rand::Rng::gen_range` over `0..n` with the thread-local
/// generator: a random index below `n` (it panics on an empty range).
#[verifier::external_body]
fn random_index(n: usize) -> (r: usize)
    requires
        n > 0,
    ensures
        r < n,
{
    rand::Rng::gen_range(&mut rand::thread_rng(), 0..n)
}

/// Prepares the request for a signature at time `timestamp_ms`, with fresh
/// random session identifiers and a user agent drawn from the pool.
pub fn prepare_recognition(signature: &DecodedSignature, timestamp_ms: u64) -> (r: RecognitionRequest)
    requires
        encodable(*signature),
    ensures
        r.signature_uri@ == uri_prefix() + base64_of(spec_encode(*signature)),
        r.sample_ms == spec_duration_ms(*signature),
        r.timestamp == timestamp_ms % 0x1_0000_0000,
        r.url@.len() == endpoint_prefix().len() + 73,
        r.url@.subrange(0, endpoint_prefix().len() as int) == endpoint_prefix(),
        exists|i: int| 0 <= i < USER_AGENT_COUNT && r.user_agent@ == spec_user_agent(i),
        r.timezone@ == "Europe/Paris"@,
        r.altitude == 300,
        r.latitude == 45,
        r.longitude == 2,
{
    let uri = encode_to_uri(signature);
    let sample_ms = duration_ms(signature);
    let session_a = session_id();
    let session_b = session_id();
    let agent = random_index(USER_AGENT_COUNT);
    let r = build_recognition_request(
        uri,
        sample_ms,
        timestamp_ms,
        session_a.as_str(),
        session_b.as_str(),
        user_agent(agent),
    );
    proof {
        reveal_strlit("/");
        assert(r.url@.subrange(0, endpoint_prefix().len() as int) =~= endpoint_prefix());
    }
    r
}

} // verus!
