//! Decoding of the player's on-disk tag-cache database and playback log.
//!
//! The tag cache is a master index file of fixed-size rows plus one side
//! file per tag kind.  A row holds one signed 32-bit field per tag kind;
//! for string-valued tags the field is a seek offset into the tag kind's
//! side file.  One distinguished side file, the reverse index, maps file
//! paths back to master rows.  All decoding here works on in-memory byte
//! buffers handed in by the caller; the caller does the file reads.

use vstd::prelude::*;
use crate::bytes::{Endian, spec_u32_at, spec_i32_at, read_u32_at, read_i32_at};
use crate::text::{
    spec_trim, spec_find, spec_split, spec_parse_i64, trimmed_range, find_in_range, parse_i64_str,
};
use vstd::string::StrSliceExecFns;
use chrono::{Local, LocalResult, TimeZone, Utc};

verus! {

/// One playback event from the plain-text log: a device clock reading,
/// how long the track played, the track's full length, and its file path.
#[derive(Debug, Clone)]
pub struct PlaybackEntry {
    pub timestamp: i64,
    pub elapsed_ms: i64,
    pub total_ms: i64,
    pub path: String,
}

/// Track metadata resolved from the tag cache.  Returned only with a
/// non-empty artist and title.
#[derive(Debug, Clone)]
pub struct TrackInfo {
    pub artist: String,
    pub title: String,
    pub album: Option<String>,
    pub duration_seconds: i64,
}

/// The 4-byte magic constant that opens every tag-cache file.
pub const TAGCACHE_MAGIC: u32 = 0x5443_4810;

/// Tag kind numbers of the fields the library reads.
pub const TAG_ARTIST: usize = 0;

pub const TAG_ALBUM: usize = 1;

pub const TAG_TITLE: usize = 3;

pub const TAG_FILENAME: i32 = 4;

pub const TAG_LENGTH: usize = 14;

/// Number of tag kinds in a master row.
pub const TAG_COUNT: usize = 23;

/// A master row holds one extra field beyond the tag kinds.
pub const ROW_FIELDS: usize = 24;

pub const ROW_SIZE: usize = 96;

/// Rows start after this many bytes of the master file.
pub const MASTER_HEADER_SIZE: usize = 24;

/// The header read from the reverse index: magic, data size, entry count.
pub const TAGCACHE_HEADER_SIZE: usize = 12;

pub const TAGFILE_ENTRY_HEADER_SIZE: usize = 8;

/// How decoding a tag-cache file can fail: a read that came up short, or
/// bytes that do not have the expected shape.
#[derive(Debug, Clone, Copy, PartialEq, Eq, Structural)]
pub enum TagCacheError {
    Io,
    Format,
}

/// What `String::from_utf8_lossy` decodes the given bytes to.
pub uninterp spec fn lossy_chars(bytes: Seq<u8>) -> Seq<char>;

/// Relies on String::from_utf8_lossy: the decoding is permissive, never
/// fails, and depends on the bytes alone.
#[verifier::external_body]
fn lossy_string(bytes: &[u8], from: usize, to: usize) -> (r: String)
    requires
        from <= to <= bytes@.len(),
    ensures
        r@ == lossy_chars(bytes@.subrange(from as int, to as int)),
{
    String::from_utf8_lossy(&bytes[from..to]).into_owned()
}

/// The index of the first occurrence of `b` in `s`, or `s.len()` if absent.
pub open spec fn spec_find_byte(s: Seq<u8>, b: u8) -> int
    decreases s.len(),
{
    if s.len() == 0 {
        0
    } else if s[0] == b {
        0
    } else {
        1 + spec_find_byte(s.drop_first(), b)
    }
}

pub proof fn lemma_find_byte_at(s: Seq<u8>, b: u8, k: int)
    requires
        0 <= k <= s.len(),
        forall|j: int| 0 <= j < k ==> s[j] != b,
        k < s.len() ==> s[k] == b,
    ensures
        spec_find_byte(s, b) == k,
    decreases k,
{
    if s.len() > 0 && k > 0 {
        lemma_find_byte_at(s.drop_first(), b, k - 1);
    }
}

/// The index of the first occurrence of `b` in `bytes[from..to]`, or `to`.
fn find_byte_in_range(bytes: &[u8], from: usize, to: usize, b: u8) -> (r: usize)
    requires
        from <= to <= bytes@.len(),
    ensures
        from <= r <= to,
        r - from == spec_find_byte(bytes@.subrange(from as int, to as int), b),
{
    let mut i: usize = from;
    while i < to && bytes[i] != b
        invariant
            from <= i <= to,
            to <= bytes@.len(),
            forall|j: int| from <= j < i ==> bytes@[j] != b,
        decreases to - i,
    {
        i = i + 1;
    }
    proof {
        let sub = bytes@.subrange(from as int, to as int);
        assert(forall|j: int| 0 <= j < i - from ==> sub[j] != b);
        lemma_find_byte_at(sub, b, i - from);
    }
    i
}

/// What resolving one seek offset in a side file yields: no value for an
/// offset that is not positive, that points past the end, or whose entry
/// has length zero; an error for a string that runs past the end; else the
/// bytes before the first null, decoded permissively.
pub open spec fn spec_tag_string(endian: Endian, file: Seq<u8>, seek: int) -> Result<
    Option<Seq<char>>,
    TagCacheError,
> {
    if seek <= 0 {
        Ok(None)
    } else if seek + 8 > file.len() {
        Ok(None)
    } else {
        let n = spec_u32_at(endian, file, seek);
        if n == 0 {
            Ok(None)
        } else if n > file.len() - (seek + 8) {
            Err(TagCacheError::Format)
        } else {
            let data = file.subrange(seek + 8, seek + 8 + n);
            Ok(Some(lossy_chars(data.take(spec_find_byte(data, 0)))))
        }
    }
}

/// How an executable string result matches a specification-level one.
pub open spec fn tag_string_matches(
    r: Result<Option<String>, TagCacheError>,
    s: Result<Option<Seq<char>>, TagCacheError>,
) -> bool {
    match (r, s) {
        (Ok(None), Ok(None)) => true,
        (Ok(Some(x)), Ok(Some(y))) => x@ == y,
        (Err(a), Err(b)) => a == b,
        _ => false,
    }
}

/// Resolves one seek offset in a side file's bytes.
pub fn parse_tag_string(endian: Endian, file: &[u8], seek: i32) -> (r: Result<
    Option<String>,
    TagCacheError,
>)
    ensures
        tag_string_matches(r, spec_tag_string(endian, file@, seek as int)),
{
    if seek <= 0 {
        return Ok(None);
    }
    let len = file.len();
    let start: usize = seek as usize;
    if start > len || 8 > len - start {
        return Ok(None);
    }
    let n = read_u32_at(endian, file, start);
    if n == 0 {
        return Ok(None);
    }
    let data_start: usize = start + 8;
    if n as usize > len - data_start {
        return Err(TagCacheError::Format);
    }
    let data_end: usize = data_start + n as usize;
    let nul = find_byte_in_range(file, data_start, data_end, 0);
    proof {
        let data = file@.subrange(data_start as int, data_end as int);
        assert(data.take(spec_find_byte(data, 0)) =~= file@.subrange(
            data_start as int,
            nul as int,
        ));
    }
    Ok(Some(lossy_string(file, data_start, nul)))
}

/// What probing the master file's magic yields: too few bytes is a failed
/// read; a magic matching neither byte order is a format error; otherwise
/// the byte order the file was written in, little-endian probed first.
pub open spec fn spec_detect_endian(master: Seq<u8>) -> Result<Endian, TagCacheError> {
    if master.len() < 4 {
        Err(TagCacheError::Io)
    } else if spec_u32_at(Endian::Little, master, 0) == TAGCACHE_MAGIC as int {
        Ok(Endian::Little)
    } else if spec_u32_at(Endian::Big, master, 0) == TAGCACHE_MAGIC as int {
        Ok(Endian::Big)
    } else {
        Err(TagCacheError::Format)
    }
}

/// Probes the master file's magic under both byte orders.
pub fn detect_endian(master: &[u8]) -> (r: Result<Endian, TagCacheError>)
    ensures
        r == spec_detect_endian(master@),
{
    if master.len() < 4 {
        return Err(TagCacheError::Io);
    }
    if read_u32_at(Endian::Little, master, 0) == TAGCACHE_MAGIC {
        return Ok(Endian::Little);
    }
    if read_u32_at(Endian::Big, master, 0) == TAGCACHE_MAGIC {
        return Ok(Endian::Big);
    }
    Err(TagCacheError::Format)
}

/// The first side file stored under the given tag kind, if any.
pub open spec fn spec_assoc_find(files: Seq<(i32, Seq<u8>)>, tag: int) -> Option<Seq<u8>>
    decreases files.len(),
{
    if files.len() == 0 {
        None
    } else if files[0].0 == tag {
        Some(files[0].1)
    } else {
        spec_assoc_find(files.drop_first(), tag)
    }
}

/// The view of a list of loaded side files.
pub open spec fn files_view(v: Seq<(i32, Vec<u8>)>) -> Seq<(i32, Seq<u8>)> {
    v.map_values(|p: (i32, Vec<u8>)| (p.0, p.1@))
}

/// The view of a path index: each path as its character sequence.
pub open spec fn index_view(v: Seq<(String, i32)>) -> Seq<(Seq<char>, i32)> {
    v.map_values(|p: (String, i32)| (p.0@, p.1))
}

/// The signed fields of master row `id`, in tag-kind order.
pub open spec fn spec_row(endian: Endian, master: Seq<u8>, id: int) -> Seq<int> {
    Seq::new(ROW_FIELDS as nat, |k: int| spec_i32_at(endian, master, 24 + id * 96 + 4 * k))
}

/// Reading one master row: a negative identifier is a format error, as is
/// a row that runs past the end of the master file.
pub open spec fn spec_read_index_entry(endian: Endian, master: Seq<u8>, id: int) -> Result<
    Seq<int>,
    TagCacheError,
> {
    if id < 0 {
        Err(TagCacheError::Format)
    } else if 24 + id * 96 + 96 > master.len() {
        Err(TagCacheError::Format)
    } else {
        Ok(spec_row(endian, master, id))
    }
}

/// A session over one tag-cache database: the detected byte order, the
/// master file's bytes, the side files the caller has loaded, and the
/// reverse index once it has been built.
pub struct TagCache {
    endian: Endian,
    master: Vec<u8>,
    tag_files: Vec<(i32, Vec<u8>)>,
    path_index: Option<Vec<(String, i32)>>,
}

impl TagCache {
    pub closed spec fn endian(&self) -> Endian {
        self.endian
    }

    pub closed spec fn master(&self) -> Seq<u8> {
        self.master@
    }

    pub closed spec fn tag_files_view(&self) -> Seq<(i32, Seq<u8>)> {
        files_view(self.tag_files@)
    }

    pub closed spec fn index_state(&self) -> Option<Seq<(Seq<char>, i32)>> {
        match self.path_index {
            Some(ref v) => Some(index_view(v@)),
            None => None,
        }
    }

    pub open spec fn spec_tag_file(&self, tag: int) -> Option<Seq<u8>> {
        spec_assoc_find(self.tag_files_view(), tag)
    }

    /// Opens a session over the given master file bytes and side files,
    /// probing the byte order; the reverse index is not yet built.
    pub fn new(master: Vec<u8>, tag_files: Vec<(i32, Vec<u8>)>) -> (r: Result<
        TagCache,
        TagCacheError,
    >)
        ensures
            match r {
                Ok(tc) => {
                    &&& spec_detect_endian(master@) == Ok::<Endian, TagCacheError>(tc.endian())
                    &&& tc.master() == master@
                    &&& tc.tag_files_view() == files_view(tag_files@)
                    &&& tc.index_state() is None
                },
                Err(e) => spec_detect_endian(master@) == Err::<Endian, TagCacheError>(e),
            },
    {
        match detect_endian(master.as_slice()) {
            Ok(endian) => Ok(TagCache { endian, master, tag_files, path_index: None }),
            Err(e) => Err(e),
        }
    }

    /// Releases the loaded side files; the memoized reverse index stays.
    /// Idempotent.
    pub fn close(&mut self)
        ensures
            final(self).endian() == old(self).endian(),
            final(self).master() == old(self).master(),
            final(self).tag_files_view() == Seq::<(i32, Seq<u8>)>::empty(),
            final(self).index_state() == old(self).index_state(),
    {
        self.tag_files = Vec::new();
        proof {
            assert(files_view(Seq::<(i32, Vec<u8>)>::empty()) =~= Seq::<(i32, Seq<u8>)>::empty());
        }
    }

    /// Reads the fields of master row `idx_id`.
    pub fn read_index_entry(&self, idx_id: i32) -> (r: Result<Vec<i32>, TagCacheError>)
        ensures
            match r {
                Ok(row) => {
                    &&& spec_read_index_entry(self.endian(), self.master(), idx_id as int) == Ok::<
                        Seq<int>,
                        TagCacheError,
                    >(row@.map_values(|x: i32| x as int))
                    &&& row@.len() == ROW_FIELDS
                },
                Err(e) => spec_read_index_entry(self.endian(), self.master(), idx_id as int)
                    == Err::<Seq<int>, TagCacheError>(e),
            },
    {
        if idx_id < 0 {
            return Err(TagCacheError::Format);
        }
        let offset64: u64 = 24u64 + (idx_id as u64) * 96u64;
        if offset64 + 96u64 > self.master.len() as u64 {
            return Err(TagCacheError::Format);
        }
        let offset: usize = offset64 as usize;
        let mlen: usize = self.master.len();
        let mut row: Vec<i32> = Vec::new();
        let mut k: usize = 0;
        while k < ROW_FIELDS
            invariant
                k <= ROW_FIELDS,
                offset == 24 + idx_id * 96,
                idx_id >= 0,
                mlen == self.master@.len(),
                offset + 96 <= mlen,
                row@.len() == k,
                forall|j: int|
                    0 <= j < k ==> row@[j] as int == spec_i32_at(
                        self.endian(),
                        self.master(),
                        24 + idx_id * 96 + 4 * j,
                    ),
            decreases ROW_FIELDS - k,
        {
            let v = read_i32_at(self.endian, self.master.as_slice(), offset + 4 * k);
            row.push(v);
            k = k + 1;
        }
        proof {
            assert(row@.map_values(|x: i32| x as int) =~= spec_row(
                self.endian(),
                self.master(),
                idx_id as int,
            ));
        }
        Ok(row)
    }
}

/// One pass over the reverse-index entries: at most `remaining` entries,
/// starting at `pos`.  A header that comes up short ends the scan; a
/// zero-length entry is skipped; a row identifier over `i32::MAX` or a
/// string running past the end is a format error.
pub open spec fn spec_scan_index(
    endian: Endian,
    file: Seq<u8>,
    pos: int,
    remaining: nat,
) -> Result<Seq<(Seq<char>, i32)>, TagCacheError>
    decreases remaining,
{
    if remaining == 0 {
        Ok(Seq::empty())
    } else if pos + 8 > file.len() {
        Ok(Seq::empty())
    } else {
        let n = spec_u32_at(endian, file, pos);
        let idu = spec_u32_at(endian, file, pos + 4);
        if n == 0 {
            spec_scan_index(endian, file, pos + 8, (remaining - 1) as nat)
        } else if idu > i32::MAX {
            Err(TagCacheError::Format)
        } else if pos + 8 + n > file.len() {
            Err(TagCacheError::Format)
        } else {
            let data = file.subrange(pos + 8, pos + 8 + n);
            let path = lossy_chars(data.take(spec_find_byte(data, 0)));
            match spec_scan_index(endian, file, pos + 8 + n, (remaining - 1) as nat) {
                Ok(rest) => Ok(seq![(path, idu as i32)] + rest),
                Err(er) => Err(er),
            }
        }
    }
}

/// Building the whole reverse index from the filename side file: a header
/// shorter than 12 bytes is a failed read, a wrong magic a format error;
/// otherwise the scan of `entry_count` entries from byte 12 on.
pub open spec fn spec_parse_index(endian: Endian, file: Seq<u8>) -> Result<
    Seq<(Seq<char>, i32)>,
    TagCacheError,
> {
    if file.len() < 12 {
        Err(TagCacheError::Io)
    } else if spec_u32_at(endian, file, 0) != TAGCACHE_MAGIC as int {
        Err(TagCacheError::Format)
    } else {
        spec_scan_index(endian, file, 12, spec_u32_at(endian, file, 8) as nat)
    }
}

/// Scans the filename side file into the path-to-row mapping.
#[verifier::rlimit(100)]
pub fn parse_path_index(endian: Endian, file: &[u8]) -> (r: Result<
    Vec<(String, i32)>,
    TagCacheError,
>)
    ensures
        match r {
            Ok(v) => spec_parse_index(endian, file@) == Ok::<
                Seq<(Seq<char>, i32)>,
                TagCacheError,
            >(index_view(v@)),
            Err(e) => spec_parse_index(endian, file@) == Err::<
                Seq<(Seq<char>, i32)>,
                TagCacheError,
            >(e),
        },
{
    let len = file.len();
    if len < 12 {
        return Err(TagCacheError::Io);
    }
    if read_u32_at(endian, file, 0) != TAGCACHE_MAGIC {
        return Err(TagCacheError::Format);
    }
    let entry_count = read_u32_at(endian, file, 8);
    let mut acc: Vec<(String, i32)> = Vec::new();
    let mut pos: usize = 12;
    let mut remaining: u32 = entry_count;
    proof {
        assert(index_view(acc@) + spec_scan_index(endian, file@, 12, entry_count as nat)->Ok_0
            =~= spec_scan_index(endian, file@, 12, entry_count as nat)->Ok_0);
    }
    loop
        invariant
            pos <= len,
            len == file@.len(),
            spec_parse_index(endian, file@) == match spec_scan_index(
                endian,
                file@,
                pos as int,
                remaining as nat,
            ) {
                Ok(rest) => Ok::<Seq<(Seq<char>, i32)>, TagCacheError>(index_view(acc@) + rest),
                Err(er) => Err::<Seq<(Seq<char>, i32)>, TagCacheError>(er),
            },
        decreases remaining,
    {
        let ghost current = spec_scan_index(endian, file@, pos as int, remaining as nat);
        if remaining == 0 || len - pos < 8 {
            proof {
                assert(current == Ok::<Seq<(Seq<char>, i32)>, TagCacheError>(Seq::empty()));
                assert(index_view(acc@) + Seq::<(Seq<char>, i32)>::empty() =~= index_view(acc@));
            }
            return Ok(acc);
        }
        let n = read_u32_at(endian, file, pos);
        let idu = read_u32_at(endian, file, pos + 4);
        if n == 0 {
            proof {
                assert(current == spec_scan_index(
                    endian,
                    file@,
                    pos + 8,
                    (remaining - 1) as nat,
                ));
            }
            pos = pos + 8;
            remaining = remaining - 1;
            proof {
                assert(spec_parse_index(endian, file@) == match spec_scan_index(
                    endian,
                    file@,
                    pos as int,
                    remaining as nat,
                ) {
                    Ok(rest) => Ok::<Seq<(Seq<char>, i32)>, TagCacheError>(
                        index_view(acc@) + rest,
                    ),
                    Err(er) => Err::<Seq<(Seq<char>, i32)>, TagCacheError>(er),
                });
            }
            continue ;
        }
        if idu > 0x7FFF_FFFF {
            return Err(TagCacheError::Format);
        }
        if n as usize > len - (pos + 8) {
            return Err(TagCacheError::Format);
        }
        let data_start: usize = pos + 8;
        let data_end: usize = data_start + n as usize;
        let nul = find_byte_in_range(file, data_start, data_end, 0);
        proof {
            let data = file@.subrange(data_start as int, data_end as int);
            assert(data.take(spec_find_byte(data, 0)) =~= file@.subrange(
                data_start as int,
                nul as int,
            ));
        }
        let path = lossy_string(file, data_start, nul);
        let ghost entry_v = (path@, idu as i32);
        let ghost acc_old = acc@;
        acc.push((path, idu as i32));
        proof {
            let rest = spec_scan_index(endian, file@, data_end as int, (remaining - 1) as nat);
            assert(current == match rest {
                Ok(r0) => Ok::<Seq<(Seq<char>, i32)>, TagCacheError>(seq![entry_v] + r0),
                Err(er) => Err::<Seq<(Seq<char>, i32)>, TagCacheError>(er),
            });
            if rest is Ok {
                assert(index_view(acc@) =~= index_view(acc_old).push(entry_v));
                assert(index_view(acc_old).push(entry_v) + rest->Ok_0 =~= index_view(acc_old) + (
                seq![entry_v] + rest->Ok_0));
                assert(index_view(acc@) + rest->Ok_0 == index_view(acc_old) + (seq![entry_v]
                    + rest->Ok_0));
            }
        }
        pos = data_end;
        remaining = remaining - 1;
        proof {
            assert(spec_parse_index(endian, file@) == match spec_scan_index(
                endian,
                file@,
                pos as int,
                remaining as nat,
            ) {
                Ok(rest) => Ok::<Seq<(Seq<char>, i32)>, TagCacheError>(index_view(acc@) + rest),
                Err(er) => Err::<Seq<(Seq<char>, i32)>, TagCacheError>(er),
            });
        }
    }
}

/// The row identifier stored for a path, the latest entry winning.
pub open spec fn spec_index_lookup(entries: Seq<(Seq<char>, i32)>, path: Seq<char>) -> Option<i32>
    decreases entries.len(),
{
    if entries.len() == 0 {
        None
    } else if entries.last().0 == path {
        Some(entries.last().1)
    } else {
        spec_index_lookup(entries.drop_last(), path)
    }
}

/// Looks a path up in the built index, the latest entry winning.
fn index_lookup(entries: &Vec<(String, i32)>, path: &str) -> (r: Option<i32>)
    ensures
        r == spec_index_lookup(index_view(entries@), path@),
{
    let ghost iv = index_view(entries@);
    let mut i: usize = entries.len();
    proof {
        assert(iv.take(i as int) =~= iv);
    }
    while i > 0
        invariant
            i <= entries.len(),
            iv == index_view(entries@),
            spec_index_lookup(iv, path@) == spec_index_lookup(iv.take(i as int), path@),
        decreases i,
    {
        proof {
            assert(iv.take(i as int).last() == iv[i - 1]);
            assert(iv.take(i as int).drop_last() =~= iv.take(i - 1));
        }
        if crate::text::str_eq(entries[i - 1].0.as_str(), path) {
            return Some(entries[i - 1].1);
        }
        i = i - 1;
    }
    proof {
        assert(iv.take(0) =~= Seq::<(Seq<char>, i32)>::empty());
    }
    None
}

/// The first side file stored under the given tag kind, if any.
fn find_tag_file<'a>(files: &'a Vec<(i32, Vec<u8>)>, tag: i32) -> (r: Option<&'a Vec<u8>>)
    ensures
        match r {
            Some(f) => spec_assoc_find(files_view(files@), tag as int) == Some(f@),
            None => spec_assoc_find(files_view(files@), tag as int) is None,
        },
{
    let ghost fv = files_view(files@);
    let mut i: usize = 0;
    proof {
        assert(fv.skip(0) =~= fv);
    }
    while i < files.len()
        invariant
            i <= files.len(),
            fv == files_view(files@),
            spec_assoc_find(fv, tag as int) == spec_assoc_find(fv.skip(i as int), tag as int),
        decreases files.len() - i,
    {
        proof {
            assert(fv.skip(i as int)[0] == fv[i as int]);
            assert(fv.skip(i as int).drop_first() =~= fv.skip(i + 1));
        }
        if files[i].0 == tag {
            return Some(&files[i].1);
        }
        i = i + 1;
    }
    None
}

/// The reverse index a lookup would use: the memoized one if built, else
/// the one the filename side file parses to; a missing filename side file
/// is a failed read.
pub open spec fn spec_effective_index(c: TagCache) -> Result<
    Seq<(Seq<char>, i32)>,
    TagCacheError,
> {
    match c.index_state() {
        Some(ix) => Ok(ix),
        None => match spec_assoc_find(c.tag_files_view(), TAG_FILENAME as int) {
            None => Err(TagCacheError::Io),
            Some(f) => spec_parse_index(c.endian(), f),
        },
    }
}

/// What resolving one string tag of a row yields: no value for a seek
/// offset that is not positive; a failed read when the tag kind's side
/// file is not loaded; otherwise the side file decoded at that offset.
pub open spec fn spec_row_string(
    endian: Endian,
    files: Seq<(i32, Seq<u8>)>,
    row: Seq<int>,
    tag: int,
) -> Result<Option<Seq<char>>, TagCacheError> {
    if row[tag] <= 0 {
        Ok(None)
    } else {
        match spec_assoc_find(files, tag) {
            None => Err(TagCacheError::Io),
            Some(f) => spec_tag_string(endian, f, row[tag]),
        }
    }
}

/// The metadata a lookup resolves for `path`, over a given reverse index:
/// `None` for an unknown path and for a row whose artist or title ends up
/// empty; otherwise artist, title, an album only if non-empty, and the
/// duration in whole seconds.
#[verifier::opaque]
pub open spec fn spec_track_result(
    endian: Endian,
    master: Seq<u8>,
    files: Seq<(i32, Seq<u8>)>,
    ix: Seq<(Seq<char>, i32)>,
    path: Seq<char>,
) -> Result<Option<(Seq<char>, Seq<char>, Option<Seq<char>>, int)>, TagCacheError> {
    match spec_index_lookup(ix, path) {
        None => Ok(None),
        Some(id) => match spec_read_index_entry(endian, master, id as int) {
            Err(er) => Err(er),
            Ok(row) => match spec_row_string(endian, files, row, TAG_ARTIST as int) {
                Err(er) => Err(er),
                Ok(artist_opt) => match spec_row_string(endian, files, row, TAG_TITLE as int) {
                    Err(er) => Err(er),
                    Ok(title_opt) => match spec_row_string(endian, files, row, TAG_ALBUM as int) {
                        Err(er) => Err(er),
                        Ok(album_opt) => {
                            let artist = artist_opt.unwrap_or(Seq::empty());
                            let title = title_opt.unwrap_or(Seq::empty());
                            if artist.len() == 0 || title.len() == 0 {
                                Ok(None)
                            } else {
                                let album = match album_opt {
                                    Some(al) => if al.len() > 0 {
                                        Some(al)
                                    } else {
                                        None
                                    },
                                    None => None,
                                };
                                let dur_ms = if row[TAG_LENGTH as int] >= 0 {
                                    row[TAG_LENGTH as int]
                                } else {
                                    0
                                };
                                Ok(Some((artist, title, album, dur_ms / 1000)))
                            }
                        },
                    },
                },
            },
        },
    }
}

/// How an executable lookup result matches a specification-level one.
pub open spec fn track_info_matches(
    r: Result<Option<TrackInfo>, TagCacheError>,
    s: Result<Option<(Seq<char>, Seq<char>, Option<Seq<char>>, int)>, TagCacheError>,
) -> bool {
    match (r, s) {
        (Ok(None), Ok(None)) => true,
        (Ok(Some(t)), Ok(Some(v))) => {
            &&& t.artist@ == v.0
            &&& t.title@ == v.1
            &&& match (t.album, v.2) {
                (Some(a), Some(b)) => a@ == b,
                (None, None) => true,
                _ => false,
            }
            &&& t.duration_seconds as int == v.3
        },
        (Err(a), Err(b)) => a == b,
        _ => false,
    }
}

/// Converts a tag-kind number to the signed field type the files use.
pub fn tag_to_i32(tag: usize) -> (r: i32)
    requires
        tag <= 0x7FFF_FFFF,
    ensures
        r as int == tag as int,
{
    tag as i32
}

/// A lookup of any path absent from the reverse index yields no
/// metadata, whatever the master file and side files hold.
pub proof fn lemma_lookup_absent_is_none(
    endian: Endian,
    master: Seq<u8>,
    files: Seq<(i32, Seq<u8>)>,
    ix: Seq<(Seq<char>, i32)>,
    path: Seq<char>,
)
    requires
        spec_index_lookup(ix, path) is None,
    ensures
        spec_track_result(endian, master, files, ix, path) == Ok::<
            Option<(Seq<char>, Seq<char>, Option<Seq<char>>, int)>,
            TagCacheError,
        >(None),
{
    reveal(spec_track_result);
}

/// A lookup whose row resolves an empty artist or an empty title yields
/// no metadata, even when every other field resolves.
pub proof fn lemma_empty_names_give_none(
    endian: Endian,
    master: Seq<u8>,
    files: Seq<(i32, Seq<u8>)>,
    ix: Seq<(Seq<char>, i32)>,
    path: Seq<char>,
)
    requires
        spec_index_lookup(ix, path) is Some,
        spec_read_index_entry(endian, master, spec_index_lookup(ix, path)->Some_0 as int) is Ok,
        ({
            let row = spec_read_index_entry(
                endian,
                master,
                spec_index_lookup(ix, path)->Some_0 as int,
            )->Ok_0;
            &&& spec_row_string(endian, files, row, TAG_ARTIST as int) is Ok
            &&& spec_row_string(endian, files, row, TAG_TITLE as int) is Ok
            &&& spec_row_string(endian, files, row, TAG_ALBUM as int) is Ok
            &&& {
                ||| match spec_row_string(endian, files, row, TAG_ARTIST as int)->Ok_0 {
                    Some(a) => a.len() == 0,
                    None => true,
                }
                ||| match spec_row_string(endian, files, row, TAG_TITLE as int)->Ok_0 {
                    Some(t) => t.len() == 0,
                    None => true,
                }
            }
        }),
    ensures
        spec_track_result(endian, master, files, ix, path) == Ok::<
            Option<(Seq<char>, Seq<char>, Option<Seq<char>>, int)>,
            TagCacheError,
        >(None),
{
    reveal(spec_track_result);
}

// ---------------------------------------------------------------------------
// The mirror laws: decoding is a function of the bytes and the chosen
// order alone.  Two databases that agree word-for-word where the decoder
// reads words, and byte-for-byte where it reads strings — as a
// little-endian file and its big-endian mirror do — decode identically,
// whatever machine reads them.
// ---------------------------------------------------------------------------
/// The two files hold the same number at this position, each under its
/// own byte order.
pub open spec fn words_agree(
    e1: Endian,
    f1: Seq<u8>,
    e2: Endian,
    f2: Seq<u8>,
    pos: int,
) -> bool {
    spec_u32_at(e1, f1, pos) == spec_u32_at(e2, f2, pos)
}

/// A little-endian file and a byte-for-byte swapped big-endian mirror
/// agree on the word at any position whose four bytes are reversed.
pub proof fn lemma_words_agree_of_swapped(f1: Seq<u8>, f2: Seq<u8>, pos: int)
    requires
        0 <= pos,
        pos + 4 <= f1.len(),
        pos + 4 <= f2.len(),
        f2[pos] == f1[pos + 3],
        f2[pos + 1] == f1[pos + 2],
        f2[pos + 2] == f1[pos + 1],
        f2[pos + 3] == f1[pos],
    ensures
        words_agree(Endian::Little, f1, Endian::Big, f2, pos),
{
    crate::bytes::lemma_endian_mirror(f1[pos], f1[pos + 1], f1[pos + 2], f1[pos + 3]);
}

/// The two side files agree on everything resolving this seek offset
/// reads: the length word, and the string bytes behind it.
pub open spec fn mirror_tag_entry(
    e1: Endian,
    f1: Seq<u8>,
    e2: Endian,
    f2: Seq<u8>,
    seek: int,
) -> bool {
    (0 < seek && seek + 8 <= f1.len()) ==> {
        &&& words_agree(e1, f1, e2, f2, seek)
        &&& ({
            let n = spec_u32_at(e1, f1, seek);
            (n > 0 && n <= f1.len() - (seek + 8)) ==> f1.subrange(seek + 8, seek + 8 + n)
                == f2.subrange(seek + 8, seek + 8 + n)
        })
    }
}

/// Side files that agree where a seek reads resolve it identically.
pub proof fn lemma_tag_string_mirror(
    e1: Endian,
    f1: Seq<u8>,
    e2: Endian,
    f2: Seq<u8>,
    seek: int,
)
    requires
        f1.len() == f2.len(),
        mirror_tag_entry(e1, f1, e2, f2, seek),
    ensures
        spec_tag_string(e1, f1, seek) == spec_tag_string(e2, f2, seek),
{
}

/// The two master files agree on every aligned word; a master file is
/// nothing else.
pub open spec fn mirror_master(e1: Endian, m1: Seq<u8>, e2: Endian, m2: Seq<u8>) -> bool {
    &&& m1.len() == m2.len()
    &&& forall|p: int|
        0 <= p && p + 4 <= m1.len() && p % 4 == 0 ==> #[trigger] words_agree(e1, m1, e2, m2, p)
}

/// Mirrored master files hold the same rows.
pub proof fn lemma_row_mirror(e1: Endian, m1: Seq<u8>, e2: Endian, m2: Seq<u8>, id: int)
    requires
        mirror_master(e1, m1, e2, m2),
    ensures
        spec_read_index_entry(e1, m1, id) == spec_read_index_entry(e2, m2, id),
{
    if id >= 0 && 24 + id * 96 + 96 <= m1.len() {
        assert forall|k: int| 0 <= k < ROW_FIELDS implies #[trigger] spec_i32_at(
            e1,
            m1,
            24 + id * 96 + 4 * k,
        ) == spec_i32_at(e2, m2, 24 + id * 96 + 4 * k) by {
            let p = 24 + id * 96 + 4 * k;
            assert(p == 4 * (6 + 24 * id + k));
            assert(p % 4 == 0) by (nonlinear_arith)
                requires
                    p == 4 * (6 + 24 * id + k),
            ;
            assert(words_agree(e1, m1, e2, m2, p));
        }
        assert(spec_row(e1, m1, id) =~= spec_row(e2, m2, id));
    }
}

/// The two reverse-index files agree on everything one scan step reads:
/// the entry header words, and the path bytes behind them.
pub open spec fn mirror_scan(
    e1: Endian,
    f1: Seq<u8>,
    e2: Endian,
    f2: Seq<u8>,
    pos: int,
    remaining: nat,
) -> bool
    decreases remaining,
{
    remaining > 0 && pos + 8 <= f1.len() ==> {
        let n = spec_u32_at(e1, f1, pos);
        &&& words_agree(e1, f1, e2, f2, pos)
        &&& words_agree(e1, f1, e2, f2, pos + 4)
        &&& if n == 0 {
            mirror_scan(e1, f1, e2, f2, pos + 8, (remaining - 1) as nat)
        } else if spec_u32_at(e1, f1, pos + 4) > i32::MAX {
            true
        } else if pos + 8 + n > f1.len() {
            true
        } else {
            &&& f1.subrange(pos + 8, pos + 8 + n) == f2.subrange(pos + 8, pos + 8 + n)
            &&& mirror_scan(e1, f1, e2, f2, pos + 8 + n, (remaining - 1) as nat)
        }
    }
}

/// Reverse-index files that agree where the scan reads yield the same
/// index.
pub proof fn lemma_scan_mirror(
    e1: Endian,
    f1: Seq<u8>,
    e2: Endian,
    f2: Seq<u8>,
    pos: int,
    remaining: nat,
)
    requires
        f1.len() == f2.len(),
        mirror_scan(e1, f1, e2, f2, pos, remaining),
    ensures
        spec_scan_index(e1, f1, pos, remaining) == spec_scan_index(e2, f2, pos, remaining),
    decreases remaining,
{
    if remaining > 0 && pos + 8 <= f1.len() {
        let n = spec_u32_at(e1, f1, pos);
        if n == 0 {
            lemma_scan_mirror(e1, f1, e2, f2, pos + 8, (remaining - 1) as nat);
        } else if spec_u32_at(e1, f1, pos + 4) <= i32::MAX && pos + 8 + n <= f1.len() {
            lemma_scan_mirror(e1, f1, e2, f2, pos + 8 + n, (remaining - 1) as nat);
        }
    }
}

/// The two reverse-index files agree on everything building the index
/// reads: the header words, and every scanned entry.
pub open spec fn mirror_index(e1: Endian, f1: Seq<u8>, e2: Endian, f2: Seq<u8>) -> bool {
    f1.len() >= 12 ==> {
        &&& words_agree(e1, f1, e2, f2, 0)
        &&& words_agree(e1, f1, e2, f2, 8)
        &&& mirror_scan(e1, f1, e2, f2, 12, spec_u32_at(e1, f1, 8) as nat)
    }
}

/// Mirrored reverse-index files build the same index.
pub proof fn lemma_parse_index_mirror(e1: Endian, f1: Seq<u8>, e2: Endian, f2: Seq<u8>)
    requires
        f1.len() == f2.len(),
        mirror_index(e1, f1, e2, f2),
    ensures
        spec_parse_index(e1, f1) == spec_parse_index(e2, f2),
{
    if f1.len() >= 12 && spec_u32_at(e1, f1, 0) == TAGCACHE_MAGIC as int {
        lemma_scan_mirror(e1, f1, e2, f2, 12, spec_u32_at(e1, f1, 8) as nat);
    }
}

/// One string tag of one row reads identically from the two databases.
pub open spec fn mirror_row_tag(
    e1: Endian,
    files1: Seq<(i32, Seq<u8>)>,
    e2: Endian,
    files2: Seq<(i32, Seq<u8>)>,
    row: Seq<int>,
    tag: int,
) -> bool {
    row[tag] > 0 ==> match (spec_assoc_find(files1, tag), spec_assoc_find(files2, tag)) {
        (Some(f1), Some(f2)) => f1.len() == f2.len() && mirror_tag_entry(
            e1,
            f1,
            e2,
            f2,
            row[tag],
        ),
        (None, None) => true,
        _ => false,
    }
}

/// The whole-database mirror law: two databases that agree where the
/// decoder reads — mirrored master words, a mirrored reverse index, and
/// mirrored side-file entries wherever a row points — build the same
/// reverse index and resolve every path to the same metadata, whatever
/// byte order either was written in.
pub proof fn lemma_database_mirror(
    e1: Endian,
    m1: Seq<u8>,
    files1: Seq<(i32, Seq<u8>)>,
    e2: Endian,
    m2: Seq<u8>,
    files2: Seq<(i32, Seq<u8>)>,
    ix: Seq<(Seq<char>, i32)>,
    path: Seq<char>,
)
    requires
        mirror_master(e1, m1, e2, m2),
        forall|id: int|
            #![trigger spec_read_index_entry(e1, m1, id)]
            match spec_read_index_entry(e1, m1, id) {
                Ok(row) => {
                    &&& mirror_row_tag(e1, files1, e2, files2, row, TAG_ARTIST as int)
                    &&& mirror_row_tag(e1, files1, e2, files2, row, TAG_TITLE as int)
                    &&& mirror_row_tag(e1, files1, e2, files2, row, TAG_ALBUM as int)
                },
                Err(_) => true,
            },
    ensures
        spec_track_result(e1, m1, files1, ix, path) == spec_track_result(e2, m2, files2, ix, path),
{
    reveal(spec_track_result);
    match spec_index_lookup(ix, path) {
        None => {},
        Some(id) => {
            lemma_row_mirror(e1, m1, e2, m2, id as int);
            match spec_read_index_entry(e1, m1, id as int) {
                Err(_) => {},
                Ok(row) => {
                    if row[TAG_ARTIST as int] > 0 {
                        match (
                            spec_assoc_find(files1, TAG_ARTIST as int),
                            spec_assoc_find(files2, TAG_ARTIST as int),
                        ) {
                            (Some(f1), Some(f2)) => {
                                lemma_tag_string_mirror(e1, f1, e2, f2, row[TAG_ARTIST as int]);
                            },
                            _ => {},
                        }
                    }
                    if row[TAG_TITLE as int] > 0 {
                        match (
                            spec_assoc_find(files1, TAG_TITLE as int),
                            spec_assoc_find(files2, TAG_TITLE as int),
                        ) {
                            (Some(f1), Some(f2)) => {
                                lemma_tag_string_mirror(e1, f1, e2, f2, row[TAG_TITLE as int]);
                            },
                            _ => {},
                        }
                    }
                    if row[TAG_ALBUM as int] > 0 {
                        match (
                            spec_assoc_find(files1, TAG_ALBUM as int),
                            spec_assoc_find(files2, TAG_ALBUM as int),
                        ) {
                            (Some(f1), Some(f2)) => {
                                lemma_tag_string_mirror(e1, f1, e2, f2, row[TAG_ALBUM as int]);
                            },
                            _ => {},
                        }
                    }
                },
            }
        },
    }
}

impl TagCache {
    /// Builds the reverse index if it has not been built yet; every later
    /// call reuses the memoized mapping.
    pub fn ensure_index(&mut self) -> (r: Result<(), TagCacheError>)
        ensures
            final(self).endian() == old(self).endian(),
            final(self).master() == old(self).master(),
            final(self).tag_files_view() == old(self).tag_files_view(),
            match r {
                Ok(()) => {
                    &&& spec_effective_index(*old(self)) is Ok
                    &&& final(self).index_state() == Some(spec_effective_index(*old(self))->Ok_0)
                },
                Err(e) => {
                    &&& spec_effective_index(*old(self)) == Err::<
                        Seq<(Seq<char>, i32)>,
                        TagCacheError,
                    >(e)
                    &&& final(self).index_state() == old(self).index_state()
                },
            },
    {
        if self.path_index.is_none() {
            let parsed = match find_tag_file(&self.tag_files, TAG_FILENAME) {
                None => {
                    return Err(TagCacheError::Io);
                },
                Some(f) => parse_path_index(self.endian, f.as_slice()),
            };
            match parsed {
                Ok(v) => {
                    self.path_index = Some(v);
                },
                Err(e) => {
                    return Err(e);
                },
            }
        }
        Ok(())
    }

    /// Builds the reverse index on the first call and reuses it after;
    /// returns the row identifier stored for `path`, if any.
    pub fn find_idx_id(&mut self, path: &str) -> (r: Result<Option<i32>, TagCacheError>)
        ensures
            final(self).endian() == old(self).endian(),
            final(self).master() == old(self).master(),
            final(self).tag_files_view() == old(self).tag_files_view(),
            match r {
                Ok(opt) => {
                    &&& spec_effective_index(*old(self)) is Ok
                    &&& opt == spec_index_lookup(spec_effective_index(*old(self))->Ok_0, path@)
                    &&& final(self).index_state() == Some(spec_effective_index(*old(self))->Ok_0)
                },
                Err(e) => {
                    &&& spec_effective_index(*old(self)) == Err::<
                        Seq<(Seq<char>, i32)>,
                        TagCacheError,
                    >(e)
                    &&& final(self).index_state() == old(self).index_state()
                },
            },
    {
        match self.ensure_index() {
            Ok(()) => {},
            Err(e) => {
                return Err(e);
            },
        }
        match self.path_index {
            Some(ref v) => Ok(index_lookup(v, path)),
            None => Err(TagCacheError::Io),
        }
    }

    /// Resolves a path to its track metadata, building the reverse index
    /// on the first call.  `None` for a path absent from the index and
    /// for a row whose artist or title resolves empty.
    pub fn get_track_info(&mut self, path: &str) -> (r: Result<Option<TrackInfo>, TagCacheError>)
        ensures
            final(self).endian() == old(self).endian(),
            final(self).master() == old(self).master(),
            final(self).tag_files_view() == old(self).tag_files_view(),
            match spec_effective_index(*old(self)) {
                Ok(ix) => {
                    &&& track_info_matches(
                        r,
                        spec_track_result(
                            old(self).endian(),
                            old(self).master(),
                            old(self).tag_files_view(),
                            ix,
                            path@,
                        ),
                    )
                    &&& final(self).index_state() == Some(ix)
                },
                Err(e) => {
                    &&& r == Err::<Option<TrackInfo>, TagCacheError>(e)
                    &&& final(self).index_state() == old(self).index_state()
                },
            },
    {
        proof {
            reveal(spec_track_result);
        }
        let idx_opt = match self.find_idx_id(path) {
            Ok(opt) => opt,
            Err(e) => {
                return Err(e);
            },
        };
        let idx_id = match idx_opt {
            Some(id) => id,
            None => {
                return Ok(None);
            },
        };
        let row = match self.read_index_entry(idx_id) {
            Ok(row) => row,
            Err(e) => {
                return Err(e);
            },
        };
        let artist_opt = match self.row_string(&row, TAG_ARTIST) {
            Ok(v) => v,
            Err(e) => {
                return Err(e);
            },
        };
        let title_opt = match self.row_string(&row, TAG_TITLE) {
            Ok(v) => v,
            Err(e) => {
                return Err(e);
            },
        };
        let album_opt = match self.row_string(&row, TAG_ALBUM) {
            Ok(v) => v,
            Err(e) => {
                return Err(e);
            },
        };
        let artist = match artist_opt {
            Some(a) => a,
            None => String::new(),
        };
        let title = match title_opt {
            Some(t) => t,
            None => String::new(),
        };
        let dur_field = row[TAG_LENGTH];
        let dur_ms: i64 = if dur_field >= 0 {
            dur_field as i64
        } else {
            0
        };
        let duration_seconds: i64 = dur_ms / 1000;
        if artist.as_str().is_empty() || title.as_str().is_empty() {
            return Ok(None);
        }
        let album = match album_opt {
            Some(al) => if al.as_str().is_empty() {
                None
            } else {
                Some(al)
            },
            None => None,
        };
        Ok(Some(TrackInfo { artist, title, album, duration_seconds }))
    }

    /// Resolves one string tag of a row against the loaded side files.
    fn row_string(&self, row: &Vec<i32>, tag: usize) -> (r: Result<Option<String>, TagCacheError>)
        requires
            tag < row@.len(),
            tag < ROW_FIELDS,
        ensures
            tag_string_matches(
                r,
                spec_row_string(
                    self.endian(),
                    self.tag_files_view(),
                    row@.map_values(|x: i32| x as int),
                    tag as int,
                ),
            ),
    {
        let seek = row[tag];
        if seek <= 0 {
            return Ok(None);
        }
        match find_tag_file(&self.tag_files, tag_to_i32(tag)) {
            None => Err(TagCacheError::Io),
            Some(f) => parse_tag_string(self.endian, f.as_slice(), seek),
        }
    }
}

/// What one log line contributes: nothing for a blank or `#`-prefixed
/// line or one that does not parse; else the three integers and the path,
/// the path keeping any further colons.
pub open spec fn spec_parse_line(line: Seq<char>) -> Option<(i64, i64, i64, Seq<char>)> {
    let t = spec_trim(line);
    if t.len() == 0 || t[0] == '#' {
        None
    } else {
        let i1 = spec_find(t, ':');
        if i1 >= t.len() {
            None
        } else {
            let r1 = t.skip(i1 + 1);
            let i2 = spec_find(r1, ':');
            if i2 >= r1.len() {
                None
            } else {
                let r2 = r1.skip(i2 + 1);
                let i3 = spec_find(r2, ':');
                if i3 >= r2.len() {
                    None
                } else {
                    match (spec_parse_i64(t.take(i1)), spec_parse_i64(r1.take(i2)), spec_parse_i64(
                        r2.take(i3),
                    )) {
                        (Some(ts), Some(el), Some(tot)) => Some((ts, el, tot, r2.skip(i3 + 1))),
                        _ => None,
                    }
                }
            }
        }
    }
}

/// The samples a sequence of lines yields, in order, bad lines skipped.
pub open spec fn spec_parse_log_lines(lines: Seq<Seq<char>>) -> Seq<(i64, i64, i64, Seq<char>)>
    decreases lines.len(),
{
    if lines.len() == 0 {
        Seq::empty()
    } else {
        match spec_parse_line(lines[0]) {
            Some(e) => seq![e] + spec_parse_log_lines(lines.drop_first()),
            None => spec_parse_log_lines(lines.drop_first()),
        }
    }
}

/// The samples a whole log text yields, line by line.
pub open spec fn spec_parse_log(text: Seq<char>) -> Seq<(i64, i64, i64, Seq<char>)> {
    spec_parse_log_lines(spec_split(text, '\n'))
}

/// The view of parsed entries: timestamp, elapsed, total, path.
pub open spec fn entries_view(v: Seq<PlaybackEntry>) -> Seq<(i64, i64, i64, Seq<char>)> {
    v.map_values(|e: PlaybackEntry| (e.timestamp, e.elapsed_ms, e.total_ms, e.path@))
}

/// Parses the playback log text, keeping each line's raw device clock
/// reading as the timestamp.
#[verifier::rlimit(100)]
pub fn parse_playback_log_raw(text: &str) -> (r: Vec<PlaybackEntry>)
    ensures
        entries_view(r@) == spec_parse_log(text@),
{
    let n = text.unicode_len();
    let mut acc: Vec<PlaybackEntry> = Vec::new();
    let mut ls: usize = 0;
    proof {
        assert(text@.skip(0) =~= text@);
        assert(entries_view(acc@) + spec_parse_log_lines(spec_split(text@, '\n'))
            =~= spec_parse_log_lines(spec_split(text@, '\n')));
    }
    while ls <= n
        invariant
            ls <= n + 1,
            n == text@.len(),
            spec_parse_log(text@) == entries_view(acc@) + (if ls <= n {
                spec_parse_log_lines(spec_split(text@.skip(ls as int), '\n'))
            } else {
                Seq::empty()
            }),
        decreases n + 1 - ls,
    {
        let ghost suffix = text@.skip(ls as int);
        let le = find_in_range(text, ls, n, '\n');
        proof {
            assert(suffix =~= text@.subrange(ls as int, n as int));
        }
        let line: &str = text.substring_char(ls, le);
        proof {
            assert(line@ =~= suffix.take(le - ls));
            if le < n {
                assert(suffix.skip(le - ls + 1) =~= text@.skip(le + 1));
            }
            if le == n {
                assert(line@ =~= suffix);
            }
            assert(spec_split(suffix, '\n') == (if le < n {
                seq![line@] + spec_split(text@.skip(le + 1), '\n')
            } else {
                seq![line@]
            }));
            if le < n {
                assert((seq![line@] + spec_split(text@.skip(le + 1), '\n')).drop_first()
                    =~= spec_split(text@.skip(le + 1), '\n'));
                assert((seq![line@] + spec_split(text@.skip(le + 1), '\n'))[0] == line@);
            } else {
                assert((seq![line@]).drop_first() =~= Seq::<Seq<char>>::empty());
                assert((seq![line@])[0] == line@);
                assert(spec_parse_log_lines(Seq::<Seq<char>>::empty()) == Seq::<
                    (i64, i64, i64, Seq<char>),
                >::empty());
            }
        }
        let ghost rest_entries = if le < n {
            spec_parse_log_lines(spec_split(text@.skip(le + 1), '\n'))
        } else {
            Seq::<(i64, i64, i64, Seq<char>)>::empty()
        };
        proof {
            assert(spec_parse_log_lines(spec_split(suffix, '\n')) == match spec_parse_line(
                line@,
            ) {
                Some(e) => seq![e] + rest_entries,
                None => rest_entries,
            });
        }
        let entry_opt = parse_log_line(line);
        match entry_opt {
            Some(entry) => {
                let ghost entry_v = (entry.timestamp, entry.elapsed_ms, entry.total_ms,
                entry.path@);
                let ghost acc_old = acc@;
                acc.push(entry);
                proof {
                    assert(entries_view(acc@) =~= entries_view(acc_old).push(entry_v));
                    assert(entries_view(acc_old).push(entry_v) + rest_entries =~= entries_view(
                        acc_old,
                    ) + (seq![entry_v] + rest_entries));
                }
            },
            None => {
            },
        }
        if le == n {
            proof {
                assert(entries_view(acc@) + Seq::<(i64, i64, i64, Seq<char>)>::empty()
                    =~= entries_view(acc@));
            }
            return acc;
        }
        ls = le + 1;
    }
    acc
}

/// Parses one log line into a sample, or nothing for a line that is
/// blank, a comment, or malformed.
fn parse_log_line(line: &str) -> (r: Option<PlaybackEntry>)
    ensures
        match r {
            Some(e) => spec_parse_line(line@) == Some(
                (e.timestamp, e.elapsed_ms, e.total_ms, e.path@),
            ),
            None => spec_parse_line(line@) is None,
        },
{
    let ghost t = spec_trim(line@);
    let (lo, hi) = trimmed_range(line);
    if lo == hi {
        return None;
    }
    if line.get_char(lo) == '#' {
        return None;
    }
    let i1 = find_in_range(line, lo, hi, ':');
    if i1 == hi {
        return None;
    }
    proof {
        assert(t.skip(i1 - lo + 1) =~= line@.subrange(i1 + 1, hi as int));
    }
    let ghost r1 = t.skip(i1 - lo + 1);
    let i2 = find_in_range(line, i1 + 1, hi, ':');
    if i2 == hi {
        return None;
    }
    proof {
        assert(r1.skip(i2 - (i1 + 1) + 1) =~= line@.subrange(i2 + 1, hi as int));
    }
    let ghost r2 = r1.skip(i2 - (i1 + 1) + 1);
    let i3 = find_in_range(line, i2 + 1, hi, ':');
    if i3 == hi {
        return None;
    }
    proof {
        assert(t.take(i1 - lo) =~= line@.subrange(lo as int, i1 as int));
        assert(r1.take(i2 - (i1 + 1)) =~= line@.subrange(i1 + 1, i2 as int));
        assert(r2.take(i3 - (i2 + 1)) =~= line@.subrange(i2 + 1, i3 as int));
        assert(r2.skip(i3 - (i2 + 1) + 1) =~= line@.subrange(i3 + 1, hi as int));
    }
    let f0: &str = line.substring_char(lo, i1);
    let timestamp = match parse_i64_str(f0) {
        Some(v) => v,
        None => {
            return None;
        },
    };
    let f1: &str = line.substring_char(i1 + 1, i2);
    let elapsed_ms = match parse_i64_str(f1) {
        Some(v) => v,
        None => {
            return None;
        },
    };
    let f2: &str = line.substring_char(i2 + 1, i3);
    let total_ms = match parse_i64_str(f2) {
        Some(v) => v,
        None => {
            return None;
        },
    };
    let path_str: &str = line.substring_char(i3 + 1, hi);
    let path = String::from_str(path_str);
    Some(PlaybackEntry { timestamp, elapsed_ms, total_ms, path })
}

/// Whether chrono's UTC date-time can represent this many seconds since
/// the epoch.
pub uninterp spec fn chrono_utc_representable(timestamp: int) -> bool;

/// Relies on chrono's DateTime::from_timestamp, Local and Utc: a reading
/// chrono cannot represent comes back unchanged, before any time zone is
/// consulted.  Otherwise the instant's wall-clock fields are
/// reinterpreted against the host's time zone, picking the earliest
/// valid instant and keeping the raw value where none exists; that
/// outcome depends on the host's time zone, so nothing more is promised.
#[verifier::external_body]
fn local_timestamp_to_utc(timestamp: i64) -> (r: i64)
    ensures
        !chrono_utc_representable(timestamp as int) ==> r == timestamp,
{
    let Some(utc_dt) = chrono::DateTime::<Utc>::from_timestamp(timestamp, 0) else {
        return timestamp;
    };
    let local_naive = utc_dt.naive_utc();
    match Local.from_local_datetime(&local_naive) {
        LocalResult::Single(dt) | LocalResult::Ambiguous(dt, _) => {
            dt.with_timezone(&Utc).timestamp()
        },
        LocalResult::None => timestamp,
    }
}

/// Parses the playback log text into samples, converting each device
/// clock reading to a UTC instant through the host's time zone.  Every
/// field but the timestamp is exactly what the raw parse yields.
pub fn parse_playback_log(text: &str) -> (r: Vec<PlaybackEntry>)
    ensures
        r@.len() == spec_parse_log(text@).len(),
        forall|i: int|
            0 <= i < r@.len() ==> {
                &&& (#[trigger] r@[i]).elapsed_ms == spec_parse_log(text@)[i].1
                &&& r@[i].total_ms == spec_parse_log(text@)[i].2
                &&& r@[i].path@ == spec_parse_log(text@)[i].3
            },
{
    let raw = parse_playback_log_raw(text);
    let mut out: Vec<PlaybackEntry> = Vec::new();
    let mut i: usize = 0;
    while i < raw.len()
        invariant
            i <= raw@.len(),
            entries_view(raw@) == spec_parse_log(text@),
            out@.len() == i,
            forall|j: int|
                0 <= j < i ==> {
                    &&& (#[trigger] out@[j]).elapsed_ms == spec_parse_log(text@)[j].1
                    &&& out@[j].total_ms == spec_parse_log(text@)[j].2
                    &&& out@[j].path@ == spec_parse_log(text@)[j].3
                },
        decreases raw@.len() - i,
    {
        let e = &raw[i];
        let converted = PlaybackEntry {
            timestamp: local_timestamp_to_utc(e.timestamp),
            elapsed_ms: e.elapsed_ms,
            total_ms: e.total_ms,
            path: e.path.clone(),
        };
        out.push(converted);
        i = i + 1;
    }
    out
}

} // verus!
