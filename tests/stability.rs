use radiotag::recognition::{
    track_from_response, track_identity, RecognitionError, ShazamResponse, ShazamTrack,
};
use radiotag::stability::{Decision, StabilityTracker};

fn track(artist: &str, title: &str) -> ShazamTrack {
    ShazamTrack {
        key: format!("{}-{}", artist, title),
        title: title.to_string(),
        subtitle: artist.to_string(),
        isrc: None,
        albumadamid: None,
        url: None,
        artists: None,
        genres: None,
        images: None,
        sections: None,
    }
}

fn feed(ids: &[&str]) -> Vec<Decision> {
    let mut t = StabilityTracker::new();
    ids.iter()
        .enumerate()
        .map(|(i, id)| t.observe(&id.to_string(), i as i64))
        .collect()
}

#[test]
fn repeat_announces_once_after_second() {
    assert_eq!(feed(&["A", "A"]), vec![Decision::Pending, Decision::Announce]);
}

#[test]
fn change_then_repeat_announces_new_track() {
    assert_eq!(
        feed(&["A", "B", "B"]),
        vec![Decision::Pending, Decision::Pending, Decision::Announce]
    );
}

#[test]
fn single_recognition_never_announces() {
    assert_eq!(feed(&["A"]), vec![Decision::Pending]);
}

#[test]
fn confirmed_track_is_suppressed() {
    assert_eq!(
        feed(&["A", "A", "A"]),
        vec![Decision::Pending, Decision::Announce, Decision::Suppressed]
    );
}

#[test]
fn confirmation_records_time() {
    let mut t = StabilityTracker::new();
    assert_eq!(t.last_confirmed(), None);
    t.observe(&"X - Y".to_string(), 10);
    assert_eq!(t.last_confirmed(), None);
    t.observe(&"X - Y".to_string(), 25);
    assert_eq!(t.last_confirmed(), Some(("X - Y".to_string(), 25)));
    t.observe(&"X - Y".to_string(), 40);
    assert_eq!(t.last_confirmed(), Some(("X - Y".to_string(), 25)));
}

#[test]
fn identity_is_artist_dash_title() {
    assert_eq!(track_identity(&track("Goldie", "Inner City Life")), "Goldie - Inner City Life");
}

#[test]
fn absent_track_is_no_match() {
    let response = ShazamResponse { timestamp: 5, tagid: "t".to_string(), track: None };
    assert!(matches!(track_from_response(response), Err(RecognitionError::NoMatch)));
}

#[test]
fn present_track_is_returned() {
    let response = ShazamResponse {
        timestamp: 5,
        tagid: "t".to_string(),
        track: Some(track("Artist", "Song")),
    };
    let t = track_from_response(response).unwrap();
    assert_eq!(t.title, "Song");
    assert_eq!(t.subtitle, "Artist");
}

#[test]
fn no_match_leaves_tracker_unchanged() {
    let mut t = StabilityTracker::new();
    let a = Ok(track("Artist", "Song"));
    assert_eq!(t.observe_outcome(&a, 1), Some(Decision::Pending));
    let none = track_from_response(ShazamResponse {
        timestamp: 0,
        tagid: String::new(),
        track: None,
    });
    assert_eq!(t.observe_outcome(&none, 2), None);
    assert_eq!(t.observe_outcome(&Err(RecognitionError::Transport), 3), None);
    // The candidate survived the failed attempts: a second match confirms it.
    assert_eq!(t.observe_outcome(&a, 4), Some(Decision::Announce));
    assert_eq!(t.last_confirmed(), Some(("Artist - Song".to_string(), 4)));
}
