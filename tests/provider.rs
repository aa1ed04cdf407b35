use listening_room::spotify::{
    play_endpoint, refreshed_auth, search_endpoint, shorten_track, should_retry_after_refresh,
    track_endpoint, AccessToken, Album, Artist, Auth, ExternalIds, ExternalUrls, Image, Track,
};

fn s(x: &str) -> String {
    x.to_string()
}

fn urls() -> ExternalUrls {
    ExternalUrls { spotify: s("https://open.example/x") }
}

fn artist(name: &str) -> Artist {
    Artist {
        external_urls: urls(),
        followers: None,
        genres: None,
        href: s("h"),
        id: s("id"),
        images: None,
        name: s(name),
        popularity: None,
        obj_type: s("artist"),
        uri: s("spotify:artist:1"),
    }
}

fn image(url: &str, w: u32, h: u32) -> Image {
    Image { url: s(url), width: w, height: h }
}

fn track(images: Vec<Image>) -> Track {
    Track {
        album: Album {
            album_type: s("album"),
            total_tracks: 1,
            available_markets: vec![],
            external_urls: urls(),
            href: s("h"),
            id: s("al"),
            images,
            name: s("Album"),
            release_date: s("2020"),
            restrictions: None,
            obj_type: s("album"),
            uri: s("spotify:album:1"),
            album_group: None,
            artists: vec![],
        },
        artists: vec![artist("One"), artist("Two")],
        available_markets: vec![],
        disc_number: 1,
        duration_ms: 180_000,
        explicit: false,
        external_ids: ExternalIds { isrc: None, ean: None, upc: None },
        external_urls: urls(),
        href: s("h"),
        id: s("t1"),
        is_playable: None,
        linked_from: None,
        restrictions: None,
        is_local: false,
        name: s("Song"),
        popularity: 50,
        preview_url: Some(s("https://p.example/1")),
        track_number: 1,
        obj_type: s("track"),
        uri: s("spotify:track:t1"),
    }
}

#[test]
fn short_track_keeps_smallest_cover() {
    let t = track(vec![
        image("big", 640, 640),
        image("small", 64, 64),
        image("also-small", 32, 128),
        image("mid", 300, 300),
    ]);
    let short = shorten_track(&t);
    assert_eq!(short.name, "Song");
    assert_eq!(short.uri, "spotify:track:t1");
    assert_eq!(short.preview_url, "https://p.example/1");
    assert_eq!(short.artists, vec![s("One"), s("Two")]);
    assert_eq!(short.cover, "small");
    let huge = track(vec![image("a", u32::MAX, u32::MAX), image("b", u32::MAX, 2)]);
    assert_eq!(shorten_track(&huge).cover, "b");
}

#[test]
fn endpoints() {
    assert_eq!(track_endpoint("spotify:track:abc"), "https://api.spotify.com/v1/tracks/abc");
    assert_eq!(track_endpoint("abc"), "https://api.spotify.com/v1/tracks/abc");
    assert_eq!(play_endpoint("dev1"), "https://api.spotify.com/v1/me/player/play?device_id=dev1");
    assert_eq!(
        search_endpoint("lofi", "track", Some(20), Some(0)),
        "https://api.spotify.com/v1/search?q=lofi&type=track&limit=20&offset=0"
    );
    assert_eq!(
        search_endpoint("x", "track", None, None),
        "https://api.spotify.com/v1/search?q=x&type=track"
    );
}

#[test]
fn refresh_keeps_old_refresh_token_when_none_sent() {
    let old = Auth { user_id: Some(s("u")), access_token: s("old"), refresh_token: s("r1") };
    let tok = AccessToken {
        access_token: s("new"),
        token_type: s("Bearer"),
        scope: None,
        expires_in: 3600,
        refresh_token: None,
    };
    let a = refreshed_auth(&old, tok);
    assert_eq!(a.access_token, "new");
    assert_eq!(a.refresh_token, "r1");
    assert_eq!(a.user_id, Some(s("u")));
    let tok2 = AccessToken {
        access_token: s("n2"),
        token_type: s("Bearer"),
        scope: None,
        expires_in: 3600,
        refresh_token: Some(s("r2")),
    };
    assert_eq!(refreshed_auth(&old, tok2).refresh_token, "r2");
    assert!(should_retry_after_refresh(true, 401));
    assert!(!should_retry_after_refresh(false, 401));
    assert!(!should_retry_after_refresh(true, 200));
}
