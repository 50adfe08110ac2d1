use cobblestone::rockbox::{tag_to_i32, TagCache, TagCacheError};

const MAGIC: u32 = 0x5443_4810;

fn push_u32(out: &mut Vec<u8>, v: u32, big: bool) {
    if big {
        out.extend_from_slice(&v.to_be_bytes());
    } else {
        out.extend_from_slice(&v.to_le_bytes());
    }
}

fn push_i32(out: &mut Vec<u8>, v: i32, big: bool) {
    if big {
        out.extend_from_slice(&v.to_be_bytes());
    } else {
        out.extend_from_slice(&v.to_le_bytes());
    }
}

/// Three rows: a full one, one whose artist offset is empty, and one
/// whose artist bytes are not valid UTF-8.
fn master_file(big: bool) -> Vec<u8> {
    let mut m = Vec::new();
    push_u32(&mut m, MAGIC, big);
    m.extend_from_slice(&[0u8; 20]);
    let rows: [[i32; 4]; 3] = [
        // artist seek, album seek, title seek, length ms
        [12, 12, 12, 123_456],
        [0, 0, 12, 95_000],
        [27, 0, 12, -44],
    ];
    for row in rows.iter() {
        let mut fields = [0i32; 24];
        fields[0] = row[0];
        fields[1] = row[1];
        fields[3] = row[2];
        fields[14] = row[3];
        for f in fields.iter() {
            push_i32(&mut m, *f, big);
        }
    }
    m
}

fn string_entry(out: &mut Vec<u8>, bytes: &[u8], reverse_id: u32, big: bool) {
    push_u32(out, bytes.len() as u32, big);
    push_u32(out, reverse_id, big);
    out.extend_from_slice(bytes);
}

fn artist_file(big: bool) -> Vec<u8> {
    let mut f = vec![0u8; 12];
    string_entry(&mut f, b"Artist\0", 0, big); // offset 12
    string_entry(&mut f, &[0xFF, b'A'], 2, big); // offset 27, invalid UTF-8
    f
}

fn album_file(big: bool) -> Vec<u8> {
    let mut f = vec![0u8; 12];
    string_entry(&mut f, b"Album\0", 0, big);
    f
}

fn title_file(big: bool) -> Vec<u8> {
    let mut f = vec![0u8; 12];
    string_entry(&mut f, b"Title\0", 0, big);
    f
}

fn filename_file(big: bool) -> Vec<u8> {
    let mut f = Vec::new();
    push_u32(&mut f, MAGIC, big);
    push_u32(&mut f, 0, big);
    push_u32(&mut f, 3, big);
    string_entry(&mut f, b"/music/a.mp3\0", 0, big);
    string_entry(&mut f, b"/empty.mp3\0", 1, big);
    string_entry(&mut f, b"/fuzz.mp3\0", 2, big);
    f
}

fn cache(big: bool) -> TagCache {
    TagCache::new(
        master_file(big),
        vec![
            (0, artist_file(big)),
            (1, album_file(big)),
            (3, title_file(big)),
            (4, filename_file(big)),
        ],
    )
    .expect("cache opens")
}

#[test]
fn little_endian_lookup_resolves_metadata() {
    let mut c = cache(false);
    let info = c.get_track_info("/music/a.mp3").unwrap().unwrap();
    assert_eq!(info.artist, "Artist");
    assert_eq!(info.title, "Title");
    assert_eq!(info.album.as_deref(), Some("Album"));
    assert_eq!(info.duration_seconds, 123);
}

#[test]
fn big_endian_mirror_reads_identically() {
    let mut le = cache(false);
    let mut be = cache(true);
    for path in ["/music/a.mp3", "/empty.mp3", "/fuzz.mp3", "/absent.mp3"] {
        let a = le.get_track_info(path).unwrap();
        let b = be.get_track_info(path).unwrap();
        match (a, b) {
            (None, None) => {}
            (Some(x), Some(y)) => {
                assert_eq!(x.artist, y.artist);
                assert_eq!(x.title, y.title);
                assert_eq!(x.album, y.album);
                assert_eq!(x.duration_seconds, y.duration_seconds);
            }
            other => panic!("lookups disagree: {other:?}"),
        }
    }
}

#[test]
fn absent_path_is_none() {
    let mut c = cache(false);
    assert!(c.get_track_info("/absent.mp3").unwrap().is_none());
    assert!(c.find_idx_id("/absent.mp3").unwrap().is_none());
}

#[test]
fn empty_artist_is_none_even_when_title_resolves() {
    let mut c = cache(false);
    assert!(c.get_track_info("/empty.mp3").unwrap().is_none());
    // The row itself is indexed.
    assert_eq!(c.find_idx_id("/empty.mp3").unwrap(), Some(1));
}

#[test]
fn invalid_utf8_artist_is_replaced_not_fatal() {
    let mut c = cache(false);
    let info = c.get_track_info("/fuzz.mp3").unwrap().unwrap();
    assert_eq!(info.artist, "\u{FFFD}A");
    assert_eq!(info.duration_seconds, 0); // negative length clamps to zero
    assert_eq!(info.album, None);
}

#[test]
fn tag_numbers_convert_to_field_type() {
    assert_eq!(tag_to_i32(0), 0);
    assert_eq!(tag_to_i32(14), 14);
}

#[test]
fn bad_magic_is_a_format_error() {
    let r = TagCache::new(vec![1, 2, 3, 4, 0, 0], vec![]);
    assert!(matches!(r, Err(TagCacheError::Format)));
}

#[test]
fn short_master_is_a_read_error() {
    let r = TagCache::new(vec![0x10, 0x48], vec![]);
    assert!(matches!(r, Err(TagCacheError::Io)));
}

#[test]
fn missing_filename_file_fails_lookup() {
    let mut c = TagCache::new(master_file(false), vec![(0, artist_file(false))]).unwrap();
    assert!(matches!(c.find_idx_id("/music/a.mp3"), Err(TagCacheError::Io)));
}

fn cache_with_filename_file(filename: Vec<u8>) -> TagCache {
    TagCache::new(
        master_file(false),
        vec![
            (0, artist_file(false)),
            (1, album_file(false)),
            (3, title_file(false)),
            (4, filename),
        ],
    )
    .unwrap()
}

#[test]
fn duplicate_paths_keep_the_latest_row() {
    let mut f = Vec::new();
    push_u32(&mut f, MAGIC, false);
    push_u32(&mut f, 0, false);
    push_u32(&mut f, 2, false);
    string_entry(&mut f, b"/music/a.mp3\0", 0, false);
    string_entry(&mut f, b"/music/a.mp3\0", 2, false);
    let mut c = cache_with_filename_file(f);
    assert_eq!(c.find_idx_id("/music/a.mp3").unwrap(), Some(2));
}

#[test]
fn zero_length_index_entries_are_skipped() {
    let mut f = Vec::new();
    push_u32(&mut f, MAGIC, false);
    push_u32(&mut f, 0, false);
    push_u32(&mut f, 2, false);
    // An entry of length zero holds no string bytes at all.
    push_u32(&mut f, 0, false);
    push_u32(&mut f, 7, false);
    string_entry(&mut f, b"/music/a.mp3\0", 0, false);
    let mut c = cache_with_filename_file(f);
    assert_eq!(c.find_idx_id("/music/a.mp3").unwrap(), Some(0));
}

#[test]
fn truncated_index_tail_keeps_the_entries_before_it() {
    let mut f = Vec::new();
    push_u32(&mut f, MAGIC, false);
    push_u32(&mut f, 0, false);
    push_u32(&mut f, 5, false); // claims more entries than the file holds
    string_entry(&mut f, b"/music/a.mp3\0", 0, false);
    f.extend_from_slice(&[1, 2, 3]); // not even a whole entry header
    let mut c = cache_with_filename_file(f);
    assert_eq!(c.find_idx_id("/music/a.mp3").unwrap(), Some(0));
}

#[test]
fn oversized_row_identifier_is_a_format_error() {
    let mut f = Vec::new();
    push_u32(&mut f, MAGIC, false);
    push_u32(&mut f, 0, false);
    push_u32(&mut f, 1, false);
    string_entry(&mut f, b"/music/a.mp3\0", 0x8000_0000, false);
    let mut c = cache_with_filename_file(f);
    assert!(matches!(c.find_idx_id("/music/a.mp3"), Err(TagCacheError::Format)));
}

#[test]
fn index_string_running_past_the_end_is_a_format_error() {
    let mut f = Vec::new();
    push_u32(&mut f, MAGIC, false);
    push_u32(&mut f, 0, false);
    push_u32(&mut f, 1, false);
    push_u32(&mut f, 1000, false); // length far past the end
    push_u32(&mut f, 0, false);
    f.extend_from_slice(b"/short\0");
    let mut c = cache_with_filename_file(f);
    assert!(matches!(c.find_idx_id("/short"), Err(TagCacheError::Format)));
}

#[test]
fn row_past_the_master_end_is_a_format_error() {
    // The reverse index knows a row the master file does not hold.
    let mut f = Vec::new();
    push_u32(&mut f, MAGIC, false);
    push_u32(&mut f, 0, false);
    push_u32(&mut f, 1, false);
    string_entry(&mut f, b"/ghost.mp3\0", 9, false);
    let mut c = cache_with_filename_file(f);
    assert_eq!(c.find_idx_id("/ghost.mp3").unwrap(), Some(9));
    assert!(matches!(c.get_track_info("/ghost.mp3"), Err(TagCacheError::Format)));
}

#[test]
fn close_keeps_the_memoized_index() {
    let mut c = cache(false);
    assert_eq!(c.find_idx_id("/music/a.mp3").unwrap(), Some(0));
    c.close();
    c.close(); // idempotent
    // The index survives; resolving strings needs the side files again.
    assert_eq!(c.find_idx_id("/music/a.mp3").unwrap(), Some(0));
    assert!(matches!(c.get_track_info("/music/a.mp3"), Err(TagCacheError::Io)));
}
