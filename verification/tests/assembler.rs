use cobblestone::rockbox::{parse_playback_log, TagCache};
use cobblestone::scrobble::build_scrobble_tracks;

const MAGIC: u32 = 0x5443_4810;

fn push_u32(out: &mut Vec<u8>, v: u32) {
    out.extend_from_slice(&v.to_le_bytes());
}

fn push_i32(out: &mut Vec<u8>, v: i32) {
    out.extend_from_slice(&v.to_le_bytes());
}

fn string_entry(out: &mut Vec<u8>, bytes: &[u8], reverse_id: u32) {
    push_u32(out, bytes.len() as u32);
    push_u32(out, reverse_id);
    out.extend_from_slice(bytes);
}

fn one_row_cache() -> TagCache {
    let mut master = Vec::new();
    push_u32(&mut master, MAGIC);
    master.extend_from_slice(&[0u8; 20]);
    let mut fields = [0i32; 24];
    fields[0] = 12; // artist
    fields[1] = 12; // album
    fields[3] = 12; // title
    fields[14] = 185_000;
    for f in fields.iter() {
        push_i32(&mut master, *f);
    }

    let mut artist = vec![0u8; 12];
    string_entry(&mut artist, b"Artist\0", 0);
    let mut album = vec![0u8; 12];
    string_entry(&mut album, b"Album\0", 0);
    let mut title = vec![0u8; 12];
    string_entry(&mut title, b"Title\0", 0);
    let mut filename = Vec::new();
    push_u32(&mut filename, MAGIC);
    push_u32(&mut filename, 0);
    push_u32(&mut filename, 1);
    string_entry(&mut filename, b"/music/a.mp3\0", 0);

    TagCache::new(master, vec![(0, artist), (1, album), (3, title), (4, filename)]).unwrap()
}

#[test]
fn one_eligible_line_becomes_one_record() {
    let mut cache = one_row_cache();
    let entries = parse_playback_log("1700000000:100000:185000:/music/a.mp3\n");
    let (tracks, missing) = build_scrobble_tracks(&entries, &mut cache).unwrap();
    assert_eq!(tracks.len(), 1);
    assert!(missing.is_empty());
    assert_eq!(tracks[0].artist, "Artist");
    assert_eq!(tracks[0].title, "Title");
    assert_eq!(tracks[0].album.as_deref(), Some("Album"));
    assert_eq!(tracks[0].duration, 185);
}

#[test]
fn unknown_path_is_reported_missing() {
    let mut cache = one_row_cache();
    let entries = parse_playback_log("1700000000:100000:185000:/gone.mp3\n");
    let (tracks, missing) = build_scrobble_tracks(&entries, &mut cache).unwrap();
    assert!(tracks.is_empty());
    assert_eq!(missing, vec!["/gone.mp3".to_string()]);
}

#[test]
fn ineligible_lines_touch_nothing() {
    let mut cache = one_row_cache();
    let entries = parse_playback_log("1700000000:1000:185000:/music/a.mp3\n");
    let (tracks, missing) = build_scrobble_tracks(&entries, &mut cache).unwrap();
    assert!(tracks.is_empty());
    assert!(missing.is_empty());
}

#[test]
fn output_preserves_input_order() {
    let mut cache = one_row_cache();
    let log = "1700000000:185000:185000:/music/a.mp3\n\
               1700000100:185000:185000:/gone.mp3\n\
               1700000200:185000:185000:/music/a.mp3\n";
    let entries = parse_playback_log(log);
    let (tracks, missing) = build_scrobble_tracks(&entries, &mut cache).unwrap();
    assert_eq!(tracks.len(), 2);
    assert_eq!(missing, vec!["/gone.mp3".to_string()]);
    assert!(tracks[0].timestamp < tracks[1].timestamp);
}
