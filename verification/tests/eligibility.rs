use cobblestone::rockbox::PlaybackEntry;
use cobblestone::scrobble::is_scrobble_eligible;

fn sample(total_ms: i64, elapsed_ms: i64) -> PlaybackEntry {
    PlaybackEntry {
        timestamp: 1_700_000_000,
        elapsed_ms,
        total_ms,
        path: String::from("/music/a.mp3"),
    }
}

#[test]
fn short_track_is_rejected() {
    assert!(!is_scrobble_eligible(&sample(29000, 29000)));
}

#[test]
fn half_play_of_minimum_track_is_accepted() {
    assert!(is_scrobble_eligible(&sample(30000, 15000)));
}

#[test]
fn long_track_under_cap_is_rejected() {
    assert!(!is_scrobble_eligible(&sample(600000, 239000)));
}

#[test]
fn long_track_at_cap_is_accepted() {
    assert!(is_scrobble_eligible(&sample(600000, 240000)));
}

#[test]
fn zero_and_negative_lengths_are_rejected() {
    assert!(!is_scrobble_eligible(&sample(0, 100000)));
    assert!(!is_scrobble_eligible(&sample(-5000, 100000)));
}

#[test]
fn just_under_half_is_rejected() {
    assert!(!is_scrobble_eligible(&sample(30000, 14999)));
}
