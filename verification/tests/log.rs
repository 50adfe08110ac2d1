use cobblestone::rockbox::{parse_playback_log, parse_playback_log_raw};

#[test]
fn well_formed_lines_parse_exactly() {
    let text = "1000:5000:30000:/music/a.mp3\n2000:1:2:path:with:colons\n";
    let entries = parse_playback_log_raw(text);
    assert_eq!(entries.len(), 2);
    assert_eq!(entries[0].timestamp, 1000);
    assert_eq!(entries[0].elapsed_ms, 5000);
    assert_eq!(entries[0].total_ms, 30000);
    assert_eq!(entries[0].path, "/music/a.mp3");
    // Splitting stops after the third separator: the path keeps its colons.
    assert_eq!(entries[1].path, "path:with:colons");
}

#[test]
fn comments_blanks_and_noise_are_skipped() {
    let text = "# comment\n\n   \nbadline\n1:2:3\n999:1:2:\n";
    let entries = parse_playback_log_raw(text);
    // Only the last line has three separators; its path is empty.
    assert_eq!(entries.len(), 1);
    assert_eq!(entries[0].timestamp, 999);
    assert_eq!(entries[0].path, "");
}

#[test]
fn surrounding_whitespace_is_trimmed() {
    let entries = parse_playback_log_raw("  3000:60000:120000:/x.mp3  \n");
    assert_eq!(entries.len(), 1);
    assert_eq!(entries[0].timestamp, 3000);
    assert_eq!(entries[0].path, "/x.mp3");
}

#[test]
fn signs_parse_and_overflow_is_noise() {
    let text = "+5:-10:40000:p\n99999999999999999999:1:2:q\n";
    let entries = parse_playback_log_raw(text);
    assert_eq!(entries.len(), 1);
    assert_eq!(entries[0].timestamp, 5);
    assert_eq!(entries[0].elapsed_ms, -10);
}

#[test]
fn missing_trailing_newline_still_parses() {
    let entries = parse_playback_log_raw("7:8:9:last");
    assert_eq!(entries.len(), 1);
    assert_eq!(entries[0].path, "last");
}

#[test]
fn unrepresentable_timestamp_is_kept_unchanged() {
    let entries = parse_playback_log("9223372036854775807:100000:185000:/music/a.mp3\n");
    assert_eq!(entries.len(), 1);
    // Far outside any calendar: the conversion falls back to the raw value.
    assert_eq!(entries[0].timestamp, i64::MAX);
}

#[test]
fn conversion_keeps_every_field_but_the_timestamp() {
    let text = "1700000000:5000:30000:/music/a.mp3\nnoise\n1700000100:1:2:b\n";
    let raw = parse_playback_log_raw(text);
    let converted = parse_playback_log(text);
    assert_eq!(raw.len(), converted.len());
    for (r, c) in raw.iter().zip(converted.iter()) {
        assert_eq!(r.elapsed_ms, c.elapsed_ms);
        assert_eq!(r.total_ms, c.total_ms);
        assert_eq!(r.path, c.path);
    }
}
