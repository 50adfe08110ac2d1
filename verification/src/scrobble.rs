//! Eligibility filtering and assembly of submittable scrobble records.

use vstd::prelude::*;
use crate::rockbox::{
    PlaybackEntry, TagCache, TagCacheError, spec_effective_index, spec_track_result,
};

verus! {

/// Tracks shorter than this many seconds never qualify as a scrobble.
pub const MIN_TRACK_SECONDS: i64 = 30;

/// The longest play time a track can be required to reach, in milliseconds.
pub const MAX_THRESHOLD_MS: i64 = 240000;

/// A playback sample joined with its track metadata: the unit submitted
/// to the scrobbling service.
#[derive(Debug, Clone)]
pub struct ScrobbleTrack {
    pub artist: String,
    pub title: String,
    pub album: Option<String>,
    pub timestamp: i64,
    pub duration: i64,
}

/// The service's minimum-play-time policy: a sample qualifies when the
/// track is at least 30 seconds long and played for at least half its
/// length, capped at four minutes.
pub open spec fn spec_is_scrobble_eligible(total_ms: int, elapsed_ms: int) -> bool {
    &&& total_ms > 0
    &&& total_ms / 1000 >= MIN_TRACK_SECONDS as int
    &&& elapsed_ms >= spec_min_i64(total_ms / 2, MAX_THRESHOLD_MS as int)
}

pub open spec fn spec_min_i64(a: int, b: int) -> int {
    if a < b {
        a
    } else {
        b
    }
}

/// Decides whether one playback sample qualifies as a scrobble.
pub fn is_scrobble_eligible(entry: &PlaybackEntry) -> (eligible: bool)
    ensures
        eligible == spec_is_scrobble_eligible(entry.total_ms as int, entry.elapsed_ms as int),
{
    if entry.total_ms <= 0 {
        return false;
    }
    let total_seconds: i64 = entry.total_ms / 1000;
    if total_seconds < MIN_TRACK_SECONDS {
        return false;
    }
    let half: i64 = entry.total_ms / 2;
    let min_played_ms: i64 = if half < MAX_THRESHOLD_MS {
        half
    } else {
        MAX_THRESHOLD_MS
    };
    entry.elapsed_ms >= min_played_ms
}

/// The view of a submittable record: artist, title, album, timestamp,
/// duration.
pub open spec fn tracks_view(v: Seq<ScrobbleTrack>) -> Seq<
    (Seq<char>, Seq<char>, Option<Seq<char>>, int, int),
> {
    v.map_values(
        |t: ScrobbleTrack|
            (
                t.artist@,
                t.title@,
                match t.album {
                    Some(a) => Some(a@),
                    None => None,
                },
                t.timestamp as int,
                t.duration as int,
            ),
    )
}

pub open spec fn paths_view(v: Seq<String>) -> Seq<Seq<char>> {
    v.map_values(|s: String| s@)
}

pub open spec fn spec_entry_eligible(e: PlaybackEntry) -> bool {
    spec_is_scrobble_eligible(e.total_ms as int, e.elapsed_ms as int)
}

pub open spec fn spec_has_eligible(entries: Seq<PlaybackEntry>) -> bool {
    exists|j: int| 0 <= j < entries.len() && spec_entry_eligible(#[trigger] entries[j])
}

/// What assembling yields over a fixed reverse index: eligible samples in
/// input order, each either joined into a record or, when the cache has
/// no usable metadata for its path, noted as missing; a cache error on
/// any lookup fails the whole batch.
#[verifier::opaque]
pub open spec fn spec_assemble(
    endian: crate::bytes::Endian,
    master: Seq<u8>,
    files: Seq<(i32, Seq<u8>)>,
    ix: Seq<(Seq<char>, i32)>,
    entries: Seq<PlaybackEntry>,
) -> Result<
    (Seq<(Seq<char>, Seq<char>, Option<Seq<char>>, int, int)>, Seq<Seq<char>>),
    TagCacheError,
>
    decreases entries.len(),
{
    if entries.len() == 0 {
        Ok((Seq::empty(), Seq::empty()))
    } else {
        let e = entries[0];
        let rest = spec_assemble(endian, master, files, ix, entries.drop_first());
        if !spec_entry_eligible(e) {
            rest
        } else {
            match spec_track_result(endian, master, files, ix, e.path@) {
                Err(er) => Err(er),
                Ok(None) => match rest {
                    Ok((t, m)) => Ok((t, seq![e.path@] + m)),
                    Err(er) => Err(er),
                },
                Ok(Some(info)) => match rest {
                    Ok((t, m)) => Ok(
                        (seq![(info.0, info.1, info.2, e.timestamp as int, info.3)] + t, m),
                    ),
                    Err(er) => Err(er),
                },
            }
        }
    }
}

proof fn lemma_push_concat<T>(a: Seq<T>, x: T, r: Seq<T>)
    ensures
        a.push(x) + r == a + (seq![x] + r),
{
    assert(a.push(x) + r =~= a + (seq![x] + r));
}

proof fn lemma_paths_view_push(s: Seq<String>, x: String)
    ensures
        paths_view(s.push(x)) == paths_view(s).push(x@),
{
    assert(paths_view(s.push(x)) =~= paths_view(s).push(x@));
}

proof fn lemma_tracks_view_push(s: Seq<ScrobbleTrack>, t: ScrobbleTrack)
    ensures
        tracks_view(s.push(t)) == tracks_view(s).push(
            (
                t.artist@,
                t.title@,
                if t.album is Some {
                    Some(t.album->0@)
                } else {
                    None
                },
                t.timestamp as int,
                t.duration as int,
            ),
        ),
{
    assert(tracks_view(s.push(t)) =~= tracks_view(s).push(
        (
            t.artist@,
            t.title@,
            if t.album is Some {
                Some(t.album->0@)
            } else {
                None
            },
            t.timestamp as int,
            t.duration as int,
        ),
    ));
}

/// Processing one sample unfolds the assembly of the remaining suffix by
/// one step.
proof fn lemma_assemble_unfold(
    endian: crate::bytes::Endian,
    master: Seq<u8>,
    files: Seq<(i32, Seq<u8>)>,
    ix: Seq<(Seq<char>, i32)>,
    entries: Seq<PlaybackEntry>,
    k: int,
)
    requires
        0 <= k < entries.len(),
    ensures
        spec_assemble(endian, master, files, ix, entries.skip(k)) == {
            let e = entries[k];
            let rest = spec_assemble(endian, master, files, ix, entries.skip(k + 1));
            if !spec_entry_eligible(e) {
                rest
            } else {
                match spec_track_result(endian, master, files, ix, e.path@) {
                    Err(er) => Err(er),
                    Ok(None) => match rest {
                        Ok((t, m)) => Ok((t, seq![e.path@] + m)),
                        Err(er) => Err(er),
                    },
                    Ok(Some(info)) => match rest {
                        Ok((t, m)) => Ok(
                            (seq![(info.0, info.1, info.2, e.timestamp as int, info.3)] + t, m),
                        ),
                        Err(er) => Err(er),
                    },
                }
            }
        },
{
    reveal(spec_assemble);
    assert(entries.skip(k)[0] == entries[k]);
    assert(entries.skip(k).drop_first() =~= entries.skip(k + 1));
}

/// The loop invariant of the assembler: the records and misses gathered
/// so far, prepended to whatever the remaining suffix yields, are the
/// whole input's result.
pub open spec fn assemble_inv(
    endian: crate::bytes::Endian,
    master: Seq<u8>,
    files: Seq<(i32, Seq<u8>)>,
    ix: Seq<(Seq<char>, i32)>,
    entries: Seq<PlaybackEntry>,
    k: int,
    tv: Seq<(Seq<char>, Seq<char>, Option<Seq<char>>, int, int)>,
    mv: Seq<Seq<char>>,
) -> bool {
    spec_assemble(endian, master, files, ix, entries) == match spec_assemble(
        endian,
        master,
        files,
        ix,
        entries.skip(k),
    ) {
        Ok(pair) => Ok::<
            (Seq<(Seq<char>, Seq<char>, Option<Seq<char>>, int, int)>, Seq<Seq<char>>),
            TagCacheError,
        >((tv + pair.0, mv + pair.1)),
        Err(er) => Err::<
            (Seq<(Seq<char>, Seq<char>, Option<Seq<char>>, int, int)>, Seq<Seq<char>>),
            TagCacheError,
        >(er),
    }
}

proof fn lemma_inv_init(
    endian: crate::bytes::Endian,
    master: Seq<u8>,
    files: Seq<(i32, Seq<u8>)>,
    ix: Seq<(Seq<char>, i32)>,
    entries: Seq<PlaybackEntry>,
)
    ensures
        assemble_inv(
            endian,
            master,
            files,
            ix,
            entries,
            0,
            Seq::empty(),
            Seq::empty(),
        ),
{
    assert(entries.skip(0) =~= entries);
    let full = spec_assemble(endian, master, files, ix, entries);
    if full is Ok {
        assert(Seq::<(Seq<char>, Seq<char>, Option<Seq<char>>, int, int)>::empty()
            + full->Ok_0.0 =~= full->Ok_0.0);
        assert(Seq::<Seq<char>>::empty() + full->Ok_0.1 =~= full->Ok_0.1);
    }
}

proof fn lemma_inv_done(
    endian: crate::bytes::Endian,
    master: Seq<u8>,
    files: Seq<(i32, Seq<u8>)>,
    ix: Seq<(Seq<char>, i32)>,
    entries: Seq<PlaybackEntry>,
    tv: Seq<(Seq<char>, Seq<char>, Option<Seq<char>>, int, int)>,
    mv: Seq<Seq<char>>,
)
    requires
        assemble_inv(endian, master, files, ix, entries, entries.len() as int, tv, mv),
    ensures
        spec_assemble(endian, master, files, ix, entries) == Ok::<
            (Seq<(Seq<char>, Seq<char>, Option<Seq<char>>, int, int)>, Seq<Seq<char>>),
            TagCacheError,
        >((tv, mv)),
{
    reveal(spec_assemble);
    assert(entries.skip(entries.len() as int) =~= Seq::<PlaybackEntry>::empty());
    assert(spec_assemble(endian, master, files, ix, entries.skip(entries.len() as int)) == Ok::<
        (Seq<(Seq<char>, Seq<char>, Option<Seq<char>>, int, int)>, Seq<Seq<char>>),
        TagCacheError,
    >((Seq::empty(), Seq::empty())));
    assert(tv + Seq::<(Seq<char>, Seq<char>, Option<Seq<char>>, int, int)>::empty() =~= tv);
    assert(mv + Seq::<Seq<char>>::empty() =~= mv);
}

proof fn lemma_inv_skip(
    endian: crate::bytes::Endian,
    master: Seq<u8>,
    files: Seq<(i32, Seq<u8>)>,
    ix: Seq<(Seq<char>, i32)>,
    entries: Seq<PlaybackEntry>,
    k: int,
    tv: Seq<(Seq<char>, Seq<char>, Option<Seq<char>>, int, int)>,
    mv: Seq<Seq<char>>,
)
    requires
        assemble_inv(endian, master, files, ix, entries, k, tv, mv),
        0 <= k < entries.len(),
        !spec_entry_eligible(entries[k]),
    ensures
        assemble_inv(endian, master, files, ix, entries, k + 1, tv, mv),
{
    lemma_assemble_unfold(endian, master, files, ix, entries, k);
}

proof fn lemma_inv_err(
    endian: crate::bytes::Endian,
    master: Seq<u8>,
    files: Seq<(i32, Seq<u8>)>,
    ix: Seq<(Seq<char>, i32)>,
    entries: Seq<PlaybackEntry>,
    k: int,
    tv: Seq<(Seq<char>, Seq<char>, Option<Seq<char>>, int, int)>,
    mv: Seq<Seq<char>>,
    er: TagCacheError,
)
    requires
        assemble_inv(endian, master, files, ix, entries, k, tv, mv),
        0 <= k < entries.len(),
        spec_entry_eligible(entries[k]),
        spec_track_result(endian, master, files, ix, entries[k].path@) == Err::<
            Option<(Seq<char>, Seq<char>, Option<Seq<char>>, int)>,
            TagCacheError,
        >(er),
    ensures
        spec_assemble(endian, master, files, ix, entries) == Err::<
            (Seq<(Seq<char>, Seq<char>, Option<Seq<char>>, int, int)>, Seq<Seq<char>>),
            TagCacheError,
        >(er),
{
    lemma_assemble_unfold(endian, master, files, ix, entries, k);
}

proof fn lemma_inv_missing(
    endian: crate::bytes::Endian,
    master: Seq<u8>,
    files: Seq<(i32, Seq<u8>)>,
    ix: Seq<(Seq<char>, i32)>,
    entries: Seq<PlaybackEntry>,
    k: int,
    tv: Seq<(Seq<char>, Seq<char>, Option<Seq<char>>, int, int)>,
    mv: Seq<Seq<char>>,
)
    requires
        assemble_inv(endian, master, files, ix, entries, k, tv, mv),
        0 <= k < entries.len(),
        spec_entry_eligible(entries[k]),
        spec_track_result(endian, master, files, ix, entries[k].path@) == Ok::<
            Option<(Seq<char>, Seq<char>, Option<Seq<char>>, int)>,
            TagCacheError,
        >(None),
    ensures
        assemble_inv(endian, master, files, ix, entries, k + 1, tv, mv.push(entries[k].path@)),
{
    lemma_assemble_unfold(endian, master, files, ix, entries, k);
    let rest = spec_assemble(endian, master, files, ix, entries.skip(k + 1));
    if rest is Ok {
        lemma_push_concat(mv, entries[k].path@, rest->Ok_0.1);
    }
}

proof fn lemma_inv_track(
    endian: crate::bytes::Endian,
    master: Seq<u8>,
    files: Seq<(i32, Seq<u8>)>,
    ix: Seq<(Seq<char>, i32)>,
    entries: Seq<PlaybackEntry>,
    k: int,
    tv: Seq<(Seq<char>, Seq<char>, Option<Seq<char>>, int, int)>,
    mv: Seq<Seq<char>>,
    info: (Seq<char>, Seq<char>, Option<Seq<char>>, int),
)
    requires
        assemble_inv(endian, master, files, ix, entries, k, tv, mv),
        0 <= k < entries.len(),
        spec_entry_eligible(entries[k]),
        spec_track_result(endian, master, files, ix, entries[k].path@) == Ok::<
            Option<(Seq<char>, Seq<char>, Option<Seq<char>>, int)>,
            TagCacheError,
        >(Some(info)),
    ensures
        assemble_inv(
            endian,
            master,
            files,
            ix,
            entries,
            k + 1,
            tv.push((info.0, info.1, info.2, entries[k].timestamp as int, info.3)),
            mv,
        ),
{
    lemma_assemble_unfold(endian, master, files, ix, entries, k);
    let rest = spec_assemble(endian, master, files, ix, entries.skip(k + 1));
    if rest is Ok {
        lemma_push_concat(
            tv,
            (info.0, info.1, info.2, entries[k].timestamp as int, info.3),
            rest->Ok_0.0,
        );
    }
}

/// Processes one playback sample: skips it, records its metadata, or
/// notes its path as missing, keeping the assembler's invariant.
#[verifier::rlimit(100)]
fn assemble_step(
    entries: &Vec<PlaybackEntry>,
    k: usize,
    tagcache: &mut TagCache,
    tracks: &mut Vec<ScrobbleTrack>,
    missing: &mut Vec<String>,
    Ghost(ix): Ghost<Seq<(Seq<char>, i32)>>,
) -> (r: Result<(), TagCacheError>)
    requires
        k < entries@.len(),
        old(tagcache).index_state() == Some(ix),
        assemble_inv(
            old(tagcache).endian(),
            old(tagcache).master(),
            old(tagcache).tag_files_view(),
            ix,
            entries@,
            k as int,
            tracks_view(old(tracks)@),
            paths_view(old(missing)@),
        ),
    ensures
        final(tagcache).endian() == old(tagcache).endian(),
        final(tagcache).master() == old(tagcache).master(),
        final(tagcache).tag_files_view() == old(tagcache).tag_files_view(),
        final(tagcache).index_state() == Some(ix),
        match r {
            Ok(()) => assemble_inv(
                old(tagcache).endian(),
                old(tagcache).master(),
                old(tagcache).tag_files_view(),
                ix,
                entries@,
                k + 1,
                tracks_view(final(tracks)@),
                paths_view(final(missing)@),
            ),
            Err(er) => spec_assemble(
                old(tagcache).endian(),
                old(tagcache).master(),
                old(tagcache).tag_files_view(),
                ix,
                entries@,
            ) == Err::<
                (Seq<(Seq<char>, Seq<char>, Option<Seq<char>>, int, int)>, Seq<Seq<char>>),
                TagCacheError,
            >(er),
        },
{
    let ghost endian = old(tagcache).endian();
    let ghost master = old(tagcache).master();
    let ghost files = old(tagcache).tag_files_view();
    let e = &entries[k];
    if !is_scrobble_eligible(e) {
        proof {
            lemma_inv_skip(
                endian,
                master,
                files,
                ix,
                entries@,
                k as int,
                tracks_view(tracks@),
                paths_view(missing@),
            );
        }
        return Ok(());
    }
    let info = match tagcache.get_track_info(e.path.as_str()) {
        Ok(v) => v,
        Err(er) => {
            proof {
                lemma_inv_err(
                    endian,
                    master,
                    files,
                    ix,
                    entries@,
                    k as int,
                    tracks_view(tracks@),
                    paths_view(missing@),
                    er,
                );
            }
            return Err(er);
        },
    };
    match info {
        None => {
            let ghost missing_old = missing@;
            proof {
                lemma_inv_missing(
                    endian,
                    master,
                    files,
                    ix,
                    entries@,
                    k as int,
                    tracks_view(tracks@),
                    paths_view(missing@),
                );
            }
            missing.push(e.path.clone());
            proof {
                lemma_paths_view_push(missing_old, missing@.last());
                assert(missing@ =~= missing_old.push(missing@.last()));
            }
        },
        Some(ti) => {
            let ghost track_v = (
                ti.artist@,
                ti.title@,
                if ti.album is Some {
                    Some(ti.album->0@)
                } else {
                    None
                },
                e.timestamp as int,
                ti.duration_seconds as int,
            );
            let track = ScrobbleTrack {
                artist: ti.artist,
                title: ti.title,
                album: ti.album,
                timestamp: e.timestamp,
                duration: ti.duration_seconds,
            };
            let ghost tracks_old = tracks@;
            proof {
                lemma_inv_track(
                    endian,
                    master,
                    files,
                    ix,
                    entries@,
                    k as int,
                    tracks_view(tracks@),
                    paths_view(missing@),
                    (track_v.0, track_v.1, track_v.2, track_v.4),
                );
            }
            tracks.push(track);
            proof {
                lemma_tracks_view_push(tracks_old, tracks@.last());
                assert(tracks@ =~= tracks_old.push(tracks@.last()));
            }
        },
    }
    Ok(())
}

/// Joins the eligible samples with their tag-cache metadata, in input
/// order; paths the cache has no usable metadata for are collected, not
/// fatal, while a cache read or format error fails the whole batch.
#[verifier::rlimit(100)]
pub fn build_scrobble_tracks(entries: &Vec<PlaybackEntry>, tagcache: &mut TagCache) -> (r: Result<
    (Vec<ScrobbleTrack>, Vec<String>),
    TagCacheError,
>)
    ensures
        final(tagcache).endian() == old(tagcache).endian(),
        final(tagcache).master() == old(tagcache).master(),
        final(tagcache).tag_files_view() == old(tagcache).tag_files_view(),
        !spec_has_eligible(entries@) ==> {
            &&& match r {
                Ok(pair) => pair.0@.len() == 0 && pair.1@.len() == 0,
                Err(_) => false,
            }
            &&& final(tagcache).index_state() == old(tagcache).index_state()
        },
        spec_has_eligible(entries@) ==> match spec_effective_index(*old(tagcache)) {
            Ok(ix) => {
                &&& match r {
                    Ok(pair) => spec_assemble(
                        old(tagcache).endian(),
                        old(tagcache).master(),
                        old(tagcache).tag_files_view(),
                        ix,
                        entries@,
                    ) == Ok::<
                        (Seq<(Seq<char>, Seq<char>, Option<Seq<char>>, int, int)>, Seq<Seq<char>>),
                        TagCacheError,
                    >((tracks_view(pair.0@), paths_view(pair.1@))),
                    Err(er) => spec_assemble(
                        old(tagcache).endian(),
                        old(tagcache).master(),
                        old(tagcache).tag_files_view(),
                        ix,
                        entries@,
                    ) == Err::<
                        (Seq<(Seq<char>, Seq<char>, Option<Seq<char>>, int, int)>, Seq<Seq<char>>),
                        TagCacheError,
                    >(er),
                }
                &&& final(tagcache).index_state() == Some(ix)
            },
            Err(e) => {
                &&& r == Err::<(Vec<ScrobbleTrack>, Vec<String>), TagCacheError>(e)
                &&& final(tagcache).index_state() == old(tagcache).index_state()
            },
        },
{
    let mut any_eligible = false;
    let mut i: usize = 0;
    while i < entries.len()
        invariant
            i <= entries@.len(),
            any_eligible ==> spec_has_eligible(entries@),
            !any_eligible ==> forall|j: int|
                0 <= j < i ==> !spec_entry_eligible(#[trigger] entries@[j]),
        decreases entries@.len() - i,
    {
        if is_scrobble_eligible(&entries[i]) {
            any_eligible = true;
        }
        i = i + 1;
    }
    if !any_eligible {
        return Ok((Vec::new(), Vec::new()));
    }
    match tagcache.ensure_index() {
        Ok(()) => {},
        Err(e) => {
            return Err(e);
        },
    }
    let ghost ix = spec_effective_index(*old(tagcache))->Ok_0;
    let ghost endian = old(tagcache).endian();
    let ghost master = old(tagcache).master();
    let ghost files = old(tagcache).tag_files_view();
    let mut tracks: Vec<ScrobbleTrack> = Vec::new();
    let mut missing: Vec<String> = Vec::new();
    let mut k: usize = 0;
    proof {
        lemma_inv_init(endian, master, files, ix, entries@);
        assert(tracks_view(tracks@) =~= Seq::<
            (Seq<char>, Seq<char>, Option<Seq<char>>, int, int),
        >::empty());
        assert(paths_view(missing@) =~= Seq::<Seq<char>>::empty());
    }
    while k < entries.len()
        invariant
            k <= entries@.len(),
            endian == old(tagcache).endian(),
            master == old(tagcache).master(),
            files == old(tagcache).tag_files_view(),
            spec_effective_index(*old(tagcache)) == Ok::<Seq<(Seq<char>, i32)>, TagCacheError>(
                ix,
            ),
            spec_has_eligible(entries@),
            tagcache.endian() == endian,
            tagcache.master() == master,
            tagcache.tag_files_view() == files,
            tagcache.index_state() == Some(ix),
            assemble_inv(
                endian,
                master,
                files,
                ix,
                entries@,
                k as int,
                tracks_view(tracks@),
                paths_view(missing@),
            ),
        decreases entries@.len() - k,
    {
        match assemble_step(entries, k, tagcache, &mut tracks, &mut missing, Ghost(ix)) {
            Ok(()) => {},
            Err(er) => {
                return Err(er);
            },
        }
        k = k + 1;
    }
    proof {
        lemma_inv_done(
            endian,
            master,
            files,
            ix,
            entries@,
            tracks_view(tracks@),
            paths_view(missing@),
        );
    }
    Ok((tracks, missing))
}

} // verus!
