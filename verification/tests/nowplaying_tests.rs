use now_playing::codec::decode_token;
use now_playing::flow::{finish_callback, requested_scopes};
use now_playing::nowplaying::{project_now_playing, PlayingItem, TrackInfo};
use now_playing::pages::{ComposeTemplate, IndexTemplate};
use now_playing::{CoreError, TokenRecord};

fn sample_track() -> TrackInfo {
    TrackInfo {
        name: "Song".to_string(),
        album_name: "Album".to_string(),
        artist_names: vec!["A".to_string(), "B".to_string()],
        external_urls: vec![(
            "spotify".to_string(),
            "https://open.example/track/1".to_string(),
        )],
    }
}

#[test]
fn nothing_playing_projects_to_absent() {
    assert_eq!(project_now_playing(None), None);
}

#[test]
fn non_track_item_projects_to_absent() {
    assert_eq!(project_now_playing(Some(PlayingItem::Other)), None);
}

#[test]
fn track_without_provider_url_projects_to_absent() {
    let mut track = sample_track();
    track.external_urls = vec![("elsewhere".to_string(), "https://x.example/1".to_string())];
    assert_eq!(project_now_playing(Some(PlayingItem::Track(track))), None);
}

#[test]
fn track_projects_with_artist_order_preserved() {
    let response = project_now_playing(Some(PlayingItem::Track(sample_track())))
        .expect("a track with a provider URL is shown");
    assert_eq!(response.track_name, "Song");
    assert_eq!(response.track_url, "https://open.example/track/1");
    assert_eq!(response.album_name, "Album");
    assert_eq!(response.artist_names, vec!["A".to_string(), "B".to_string()]);
}

#[test]
fn provider_url_found_among_others() {
    let mut track = sample_track();
    track.external_urls = vec![
        ("elsewhere".to_string(), "https://x.example/1".to_string()),
        ("spotify".to_string(), "https://open.example/track/2".to_string()),
    ];
    let response = project_now_playing(Some(PlayingItem::Track(track))).unwrap();
    assert_eq!(response.track_url, "https://open.example/track/2");
}

#[test]
fn callback_redirect_carries_the_token() {
    let record = TokenRecord {
        access_token: b"tok".to_vec(),
        refresh_token: None,
        expires_in_seconds: 60,
        scopes: vec![b"user-top-read".to_vec()],
    };
    let url = finish_callback(&record).expect("a small record encodes");
    let token = url
        .strip_prefix("/?token=")
        .expect("redirect goes to the landing page with the token");
    assert_eq!(decode_token(token), Ok(record));
}

#[test]
fn requested_scopes_are_the_fixed_capability_set() {
    let scopes = requested_scopes();
    assert_eq!(
        scopes,
        vec![
            "user-read-currently-playing".to_string(),
            "playlist-modify-private".to_string(),
            "user-top-read".to_string(),
        ]
    );
}

#[test]
fn error_kinds_map_to_status_classes() {
    assert_eq!(CoreError::FlowNotFound.http_status(), 404);
    assert_eq!(CoreError::TokenDecodeFailed.http_status(), 400);
    assert_eq!(CoreError::ProviderRequestFailed.http_status(), 500);
    assert!(CoreError::FlowNotFound.is_client_error());
    assert!(CoreError::TokenDecodeFailed.is_client_error());
    assert!(!CoreError::ProviderRequestFailed.is_client_error());
}

#[test]
fn page_paths() {
    assert_eq!(IndexTemplate.path(), "/");
    assert_eq!(ComposeTemplate.path(), "/compose");
}
