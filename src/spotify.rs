use vstd::prelude::*;

use crate::room::texts;
use crate::stream_id::{append_decimal, decimal};

verus! {

/// A user's credentials with the music provider.
pub struct Auth {
    pub user_id: Option<String>,
    pub access_token: String,
    pub refresh_token: String,
}

/// The provider's answer to a token request.
pub struct AccessToken {
    pub access_token: String,
    pub token_type: String,
    pub scope: Option<String>,
    pub expires_in: u32,
    pub refresh_token: Option<String>,
}

/// A request to refresh a user's access token.
pub struct SpotifyRequestAuthRefresh {
    pub refresh_token: String,
}

pub struct ExternalUrls {
    pub spotify: String,
}

pub struct Restrictions {
    pub reason: String,
}

pub struct Image {
    pub url: String,
    pub height: u32,
    pub width: u32,
}

pub struct Followers {
    pub href: String,
    pub total: u32,
}

pub struct ExternalIds {
    pub isrc: Option<String>,
    pub ean: Option<String>,
    pub upc: Option<String>,
}

pub struct Artist {
    pub external_urls: ExternalUrls,
    pub followers: Option<Followers>,
    pub genres: Option<Vec<String>>,
    pub href: String,
    pub id: String,
    pub images: Option<Vec<Image>>,
    pub name: String,
    pub popularity: Option<u32>,
    pub obj_type: String,
    pub uri: String,
}

pub struct Album {
    pub album_type: String,
    pub total_tracks: u32,
    pub available_markets: Vec<String>,
    pub external_urls: ExternalUrls,
    pub href: String,
    pub id: String,
    pub images: Vec<Image>,
    pub name: String,
    pub release_date: String,
    pub restrictions: Option<Restrictions>,
    pub obj_type: String,
    pub uri: String,
    pub album_group: Option<String>,
    pub artists: Vec<Artist>,
}

/// Track metadata as the provider describes it.
pub struct Track {
    pub album: Album,
    pub artists: Vec<Artist>,
    pub available_markets: Vec<String>,
    pub disc_number: u32,
    pub duration_ms: u64,
    pub explicit: bool,
    pub external_ids: ExternalIds,
    pub external_urls: ExternalUrls,
    pub href: String,
    pub id: String,
    pub is_playable: Option<bool>,
    pub linked_from: Option<Box<Track>>,
    pub restrictions: Option<Restrictions>,
    pub is_local: bool,
    pub name: String,
    pub popularity: u32,
    pub preview_url: Option<String>,
    pub track_number: u32,
    pub obj_type: String,
    pub uri: String,
}

pub struct SearchResultTracks {
    pub href: String,
    pub items: Vec<Track>,
    pub limit: u32,
    pub offset: u32,
    pub previous: Option<String>,
    pub next: Option<String>,
    pub total: u32,
}

pub struct SearchResult {
    pub tracks: SearchResultTracks,
}

pub struct UserExplicitContent {
    pub filter_enabled: bool,
    pub filter_locked: bool,
}

pub struct UserExternalUrls {
    pub spotify: String,
}

pub struct UserFollowers {
    pub href: Option<String>,
    pub total: u32,
}

pub struct UserImages {
    pub url: String,
    pub height: Option<u32>,
    pub width: Option<u32>,
}

/// The provider's description of the signed-in user.
pub struct User {
    pub country: Option<String>,
    pub display_name: Option<String>,
    pub email: Option<String>,
    pub explicit_content: Option<UserExplicitContent>,
    pub external_urls: UserExternalUrls,
    pub followers: UserFollowers,
    pub href: String,
    pub images: Vec<UserImages>,
    pub product: Option<String>,
    pub obj_type: String,
    pub uri: String,
}

/// What a client needs to show a track.
pub struct ShortTrack {
    pub name: String,
    pub preview_url: String,
    pub uri: String,
    pub artists: Vec<String>,
    pub cover: String,
}

pub open spec fn area(img: Image) -> int {
    img.width as int * img.height as int
}

/// `i` is the first of the images with the smallest area.
pub open spec fn is_smallest_cover(images: Seq<Image>, i: int) -> bool {
    &&& 0 <= i < images.len()
    &&& forall|j: int| 0 <= j < images.len() ==> area(images[i]) <= area(#[trigger] images[j])
    &&& forall|j: int| 0 <= j < i ==> area(#[trigger] images[j]) > area(images[i])
}

pub open spec fn artist_names(artists: Seq<Artist>) -> Seq<Seq<char>> {
    artists.map_values(|a: Artist| a.name@)
}

fn image_area(img: &Image) -> (r: u64)
    ensures
        r == area(*img),
{
    let w = img.width as u64;
    let h = img.height as u64;
    assert(w * h <= 0xffff_ffffu64 * 0xffff_ffffu64) by (nonlinear_arith)
        requires
            w <= 0xffff_ffffu64,
            h <= 0xffff_ffffu64,
    ;
    w * h
}

/// The fields a client shows of a track: its artists' names and the smallest
/// cover of its album (the first such when several are as small).
pub fn shorten_track(track: &Track) -> (r: ShortTrack)
    requires
        track.album.images@.len() > 0,
        track.preview_url is Some,
    ensures
        r.name@ == track.name@,
        r.preview_url@ == track.preview_url.unwrap()@,
        r.uri@ == track.uri@,
        texts(r.artists@) == artist_names(track.artists@),
        exists|i: int| is_smallest_cover(track.album.images@, i) && r.cover@ == track.album.images@[i].url@,
{
    let mut artists: Vec<String> = Vec::new();
    let mut k: usize = 0;
    while k < track.artists.len()
        invariant
            0 <= k <= track.artists.len(),
            texts(artists@) == artist_names(track.artists@.subrange(0, k as int)),
        decreases track.artists.len() - k,
    {
        let ghost prev = artists@;
        artists.push(track.artists[k].name.clone());
        assert(texts(artists@) =~= texts(prev).push(track.artists@[k as int].name@));
        k = k + 1;
        assert(artist_names(track.artists@.subrange(0, k as int)) =~= artist_names(
            track.artists@.subrange(0, k - 1),
        ).push(track.artists@[k - 1].name@));
    }
    assert(track.artists@.subrange(0, k as int) =~= track.artists@);
    let images = &track.album.images;
    let mut best: usize = 0;
    let mut best_area = image_area(&images[0]);
    let mut i: usize = 1;
    while i < images.len()
        invariant
            1 <= i <= images.len(),
            best < i,
            best_area == area(images@[best as int]),
            forall|j: int| 0 <= j < i ==> area(images@[best as int]) <= area(#[trigger] images@[j]),
            forall|j: int| 0 <= j < best ==> area(#[trigger] images@[j]) > area(images@[best as int]),
        decreases images.len() - i,
    {
        let a = image_area(&images[i]);
        if a < best_area {
            best = i;
            best_area = a;
        }
        i = i + 1;
    }
    assert(is_smallest_cover(images@, best as int));
    let preview_url = match &track.preview_url {
        Some(p) => p.clone(),
        None => String::new(),
    };
    ShortTrack {
        name: track.name.clone(),
        preview_url,
        uri: track.uri.clone(),
        artists,
        cover: images[best].url.clone(),
    }
}

/// The credentials after a refresh: the new access token, and the new
/// refresh token when the provider sent one, else the old one.
pub fn refreshed_auth(old: &Auth, token: AccessToken) -> (r: Auth)
    ensures
        r.access_token@ == token.access_token@,
        match token.refresh_token {
            Some(t) => r.refresh_token@ == t@,
            None => r.refresh_token@ == old.refresh_token@,
        },
        r.user_id == old.user_id,
{
    let refresh_token = match token.refresh_token {
        Some(t) => t,
        None => old.refresh_token.clone(),
    };
    let user_id = match &old.user_id {
        Some(u) => Some(u.clone()),
        None => None,
    };
    Auth { user_id, access_token: token.access_token, refresh_token }
}

/// Whether a request that carried a user's token is refreshed and sent once
/// more: exactly when the provider refused the token.
pub fn should_retry_after_refresh(had_token: bool, status: u16) -> (r: bool)
    ensures
        r == (had_token && status == 401),
{
    had_token && status == 401
}

/// The part of a track id after its last `:` (the whole id when it has none).
pub open spec fn short_id(track_id: Seq<char>) -> Seq<char> {
    if exists|i: int| 0 <= i < track_id.len() && track_id[i] == ':' {
        let i = choose|i: int|
            0 <= i < track_id.len() && track_id[i] == ':' && forall|j: int|
                i < j < track_id.len() ==> track_id[j] != ':';
        track_id.subrange(i + 1, track_id.len() as int)
    } else {
        track_id
    }
}

/// The address of a track's metadata.
pub fn track_endpoint(track_id: &str) -> (r: String)
    ensures
        r@ == "https://api.spotify.com/v1/tracks/"@ + short_id(track_id@),
{
    let len = track_id.unicode_len();
    let mut i: usize = len;
    while i > 0
        invariant
            i <= len == track_id@.len(),
            forall|j: int| i <= j < len ==> track_id@[j] != ':',
        ensures
            i <= len == track_id@.len(),
            forall|j: int| i <= j < len ==> track_id@[j] != ':',
            i == 0 || track_id@[i - 1] == ':',
        decreases i,
    {
        if track_id.get_char(i - 1) == ':' {
            break;
        }
        i = i - 1;
    }
    proof {
        let t = track_id@;
        if i > 0 && t[i - 1] == ':' {
            assert(0 <= i - 1 < t.len() && t[i - 1] == ':' && forall|j: int|
                i - 1 < j < t.len() ==> t[j] != ':');
            let k = choose|k: int|
                0 <= k < t.len() && t[k] == ':' && forall|j: int| k < j < t.len() ==> t[j] != ':';
            assert(k == i - 1) by {
                if k < i - 1 {
                    assert(t[i - 1] != ':');
                }
                if k > i - 1 {
                    assert(t[k] != ':');
                }
            }
        } else {
            assert(i == 0);
            assert(t.subrange(0, len as int) =~= t);
        }
    }
    String::from_str("https://api.spotify.com/v1/tracks/").concat(track_id.substring_char(i, len))
}

/// The address of a play command for a device.
pub fn play_endpoint(device_id: &str) -> (r: String)
    ensures
        r@ == "https://api.spotify.com/v1/me/player/play?device_id="@ + device_id@,
{
    String::from_str("https://api.spotify.com/v1/me/player/play?device_id=").concat(device_id)
}

pub open spec fn opt_number(name: Seq<char>, v: Option<u32>) -> Seq<char> {
    match v {
        Some(n) => "&"@ + name + "="@ + decimal(n as nat),
        None => Seq::empty(),
    }
}

/// The address of a search for `query` among items of `search_type`, with
/// the optional result page.
pub fn search_endpoint(query: &str, search_type: &str, limit: Option<u32>, offset: Option<u32>) -> (r: String)
    ensures
        r@ == "https://api.spotify.com/v1/search?q="@ + query@ + "&type="@ + search_type@
            + opt_number("limit"@, limit) + opt_number("offset"@, offset),
{
    let mut s = String::from_str("https://api.spotify.com/v1/search?q=").concat(query).concat(
        "&type=",
    ).concat(search_type);
    let ghost base = s@;
    match limit {
        Some(n) => {
            s.append("&limit=");
            append_decimal(&mut s, n as u64);
        },
        None => {},
    }
    proof {
        reveal_strlit("&limit=");
        reveal_strlit("&");
        reveal_strlit("=");
        reveal_strlit("limit");
        reveal_strlit("&offset=");
        reveal_strlit("offset");
    }
    assert(s@ =~= base + opt_number("limit"@, limit));
    let ghost mid = s@;
    match offset {
        Some(n) => {
            s.append("&offset=");
            append_decimal(&mut s, n as u64);
        },
        None => {},
    }
    assert(s@ =~= mid + opt_number("offset"@, offset));
    s
}

} // verus!
