//! Projection of the provider's "currently playing" report.
//!
//! The provider may report nothing, a non-track item (a podcast episode,
//! say), or a track. Only a track with a provider-canonical URL is shown;
//! everything else projects to "nothing to show", which is an answer, not
//! an error. Artist order is kept as the provider returned it.

use vstd::prelude::*;

verus! {

/// What the caller of the now-playing route receives when a track is
/// playing.
#[derive(Debug, Clone, PartialEq, Eq)]
pub struct NpResponse {
    pub track_name: String,
    pub track_url: String,
    pub artist_names: Vec<String>,
    pub album_name: String,
}

/// The track fields of a provider playback report that the projection
/// reads: its name, album, artists in order, and its external URLs as
/// `(site, url)` pairs with pairwise-distinct sites.
#[derive(Debug, Clone, PartialEq, Eq)]
pub struct TrackInfo {
    pub name: String,
    pub album_name: String,
    pub artist_names: Vec<String>,
    pub external_urls: Vec<(String, String)>,
}

/// An actively playing item, as far as the projection cares: a track, or
/// anything else.
#[derive(Debug, Clone, PartialEq, Eq)]
pub enum PlayingItem {
    Track(TrackInfo),
    Other,
}

/// The value under the first pair of `pairs` whose key reads `key`.
pub open spec fn spec_first_match(pairs: Seq<(String, String)>, key: Seq<char>) -> Option<String>
    decreases pairs.len(),
{
    if pairs.len() == 0 {
        Option::None
    } else if pairs[0].0@ == key {
        Option::Some(pairs[0].1)
    } else {
        spec_first_match(pairs.drop_first(), key)
    }
}

/// The site whose URL counts as the provider-canonical track URL.
pub open spec fn spec_spotify_key() -> Seq<char> {
    "spotify"@
}

/// What the now-playing route answers: absent unless a track with a
/// provider-canonical URL is playing.
pub open spec fn spec_project(item: Option<PlayingItem>) -> Option<NpResponse> {
    match item {
        Option::None => Option::None,
        Option::Some(PlayingItem::Other) => Option::None,
        Option::Some(PlayingItem::Track(t)) => match spec_first_match(
            t.external_urls@,
            spec_spotify_key(),
        ) {
            Option::None => Option::None,
            Option::Some(u) => Option::Some(
                NpResponse {
                    track_name: t.name,
                    track_url: u,
                    artist_names: t.artist_names,
                    album_name: t.album_name,
                },
            ),
        },
    }
}

/// The value under the first pair of `pairs` whose key equals `key`.
fn first_match(pairs: &Vec<(String, String)>, key: &String) -> (r: Option<String>)
    ensures
        r == spec_first_match(pairs@, key@),
{
    let mut i: usize = 0;
    proof {
        assert(pairs@.skip(0) =~= pairs@);
    }
    while i < pairs.len()
        invariant
            i <= pairs@.len(),
            spec_first_match(pairs@, key@) == spec_first_match(pairs@.skip(i as int), key@),
        decreases pairs@.len() - i,
    {
        proof {
            assert(pairs@.skip(i as int)[0] == pairs@[i as int]);
            assert(pairs@.skip(i as int).drop_first() =~= pairs@.skip(i as int + 1));
        }
        if pairs[i].0 == *key {
            let u = pairs[i].1.clone();
            return Option::Some(u);
        }
        i = i + 1;
    }
    proof {
        assert(pairs@.skip(i as int).len() == 0);
    }
    Option::None
}

/// Projects a playback report into the now-playing answer, exactly as
/// [`spec_project`] states: absent for no playback, for a non-track item,
/// and for a track without a provider-canonical URL; otherwise the track's
/// name, URL, album and artists, artist order preserved.
pub fn project_now_playing(item: Option<PlayingItem>) -> (r: Option<NpResponse>)
    ensures
        r == spec_project(item),
{
    match item {
        Option::None => Option::None,
        Option::Some(PlayingItem::Other) => Option::None,
        Option::Some(PlayingItem::Track(t)) => {
            let key = "spotify".to_owned();
            match first_match(&t.external_urls, &key) {
                Option::None => Option::None,
                Option::Some(u) => Option::Some(
                    NpResponse {
                        track_name: t.name,
                        track_url: u,
                        artist_names: t.artist_names,
                        album_name: t.album_name,
                    },
                ),
            }
        },
    }
}

} // verus!
