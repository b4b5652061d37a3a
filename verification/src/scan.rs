//! The scan stage: turning walked audio files into catalog items.
//!
//! The surrounding program walks the music directory (following no
//! symlinks), reads each file's size and modification time, and parses
//! its embedded tags; everything it hands over arrives here as plain
//! values. This module decides which files count as audio and records
//! each one as an item, keyed by file path: a path already in the
//! catalog is updated in place (its identity, creation time, and any
//! fingerprint are kept), a new path is appended as a fresh,
//! unidentified item with no fingerprint.

use vstd::prelude::*;

use crate::error::Error;
use crate::ids::ItemId;
use crate::model::{opt_view, spec_format_of, AudioFormat, Item, ItemVal};
use crate::store::{has_item, CatalogStore, StoreVal};
use crate::text::{chars_eq, chars_of, lower_seq, lower_vec, string_from_chars};

verus! {

/// The index of the last occurrence of a character.
pub open spec fn last_index_of(s: Seq<char>, c: char) -> Option<int>
    decreases s.len(),
{
    if s.len() == 0 {
        None
    } else if s.last() == c {
        Some(s.len() - 1)
    } else {
        last_index_of(s.drop_last(), c)
    }
}

/// The extension of a path: what follows the last dot of the final
/// component, provided the dot is neither the component's first
/// character nor absent.
pub open spec fn spec_extension(p: Seq<char>) -> Option<Seq<char>> {
    let start = match last_index_of(p, '/') {
        Some(k) => k + 1,
        None => 0,
    };
    let comp = p.subrange(start, p.len() as int);
    match last_index_of(comp, '.') {
        Some(d) => if d > 0 {
            Some(comp.subrange(d + 1, comp.len() as int))
        } else {
            None
        },
        None => None,
    }
}

/// The audio extensions the scanner accepts, lowercased.
pub open spec fn audio_extension(e: Seq<char>) -> bool {
    let l = lower_seq(e);
    l == "flac"@ || l == "mp3"@ || l == "ogg"@ || l == "oga"@ || l == "wav"@ || l == "m4a"@ || l
        == "aac"@
}

/// Whether a path names an audio file: its extension, compared without
/// regard to case, is one the scanner accepts.
pub open spec fn spec_is_audio(p: Seq<char>) -> bool {
    match spec_extension(p) {
        Some(e) => audio_extension(e),
        None => false,
    }
}

/// Find the last occurrence of a character.
fn find_last(cs: &Vec<char>, c: char) -> (r: Option<usize>)
    ensures
        match r {
            Some(i) => i < cs@.len() && Some(i as int) == last_index_of(cs@, c),
            None => last_index_of(cs@, c) is None,
        },
{
    let mut best: Option<usize> = None;
    let mut i: usize = 0;
    proof {
        assert(cs@.subrange(0, 0).len() == 0);
    }
    while i < cs.len()
        invariant
            i <= cs@.len(),
            match best {
                Some(b) => b < i && Some(b as int) == last_index_of(cs@.subrange(0, i as int), c),
                None => last_index_of(cs@.subrange(0, i as int), c) is None,
            },
        decreases cs@.len() - i,
    {
        proof {
            let pre = cs@.subrange(0, i + 1);
            assert(pre.drop_last() =~= cs@.subrange(0, i as int));
            assert(pre.last() == cs@[i as int]);
        }
        if cs[i] == c {
            best = Some(i);
        }
        i += 1;
    }
    proof {
        assert(cs@.subrange(0, cs@.len() as int) =~= cs@);
    }
    best
}

/// The extension of a path, as [`spec_extension`] describes it.
pub fn extension_of(path: &str) -> (r: Option<String>)
    ensures
        match r {
            Some(e) => Some(e@) == spec_extension(path@),
            None => spec_extension(path@) is None,
        },
{
    let cs = chars_of(path);
    let n = cs.len();
    let start = match find_last(&cs, '/') {
        Some(k) => k + 1,
        None => 0,
    };
    let mut comp: Vec<char> = Vec::new();
    let mut i: usize = start;
    proof {
        assert(comp@ =~= cs@.subrange(start as int, start as int));
    }
    while i < cs.len()
        invariant
            start <= i <= cs@.len(),
            comp@ == cs@.subrange(start as int, i as int),
        decreases cs@.len() - i,
    {
        comp.push(cs[i]);
        proof {
            assert(comp@ =~= cs@.subrange(start as int, i + 1));
        }
        i += 1;
    }
    match find_last(&comp, '.') {
        Some(d) => {
            if d > 0 {
                let mut ext: Vec<char> = Vec::new();
                let mut j: usize = d + 1;
                proof {
                    assert(ext@ =~= comp@.subrange(d + 1, d + 1));
                }
                while j < comp.len()
                    invariant
                        d + 1 <= j <= comp@.len(),
                        ext@ == comp@.subrange(d + 1, j as int),
                    decreases comp@.len() - j,
                {
                    ext.push(comp[j]);
                    proof {
                        assert(ext@ =~= comp@.subrange(d + 1, j + 1));
                    }
                    j += 1;
                }
                Some(string_from_chars(&ext))
            } else {
                None
            }
        },
        None => None,
    }
}

/// The embedded tags and duration read from an audio file.
#[derive(Debug, PartialEq)]
pub struct TagData {
    /// Track title, if tagged.
    pub title: Option<String>,
    /// Artist, if tagged.
    pub artist: Option<String>,
    /// Album, if tagged.
    pub album: Option<String>,
    /// Album artist, if tagged.
    pub album_artist: Option<String>,
    /// Track number, if tagged.
    pub track_number: Option<u32>,
    /// Disc number, if tagged.
    pub disc_number: Option<u32>,
    /// Year, if tagged.
    pub year: Option<i32>,
    /// Genre, if tagged.
    pub genre: Option<String>,
    /// Duration in whole seconds, if the decoder reported one.
    pub duration_secs: Option<u32>,
}

impl TagData {
    /// Tags with every field absent, as for a file whose tags could not
    /// be read.
    pub fn empty() -> (r: TagData)
        ensures
            r@.title is None,
            r@.artist is None,
            r@.album is None,
            r@.album_artist is None,
            r@.track_number is None,
            r@.disc_number is None,
            r@.year is None,
            r@.genre is None,
            r@.duration_secs is None,
    {
        TagData {
            title: None,
            artist: None,
            album: None,
            album_artist: None,
            track_number: None,
            disc_number: None,
            year: None,
            genre: None,
            duration_secs: None,
        }
    }
}

/// The mathematical value of a [`TagData`].
#[verifier::ext_equal]
pub ghost struct TagVal {
    /// Track title, if tagged.
    pub title: Option<Seq<char>>,
    /// Artist, if tagged.
    pub artist: Option<Seq<char>>,
    /// Album, if tagged.
    pub album: Option<Seq<char>>,
    /// Album artist, if tagged.
    pub album_artist: Option<Seq<char>>,
    /// Track number, if tagged.
    pub track_number: Option<int>,
    /// Disc number, if tagged.
    pub disc_number: Option<int>,
    /// Year, if tagged.
    pub year: Option<int>,
    /// Genre, if tagged.
    pub genre: Option<Seq<char>>,
    /// Duration in whole seconds, if reported.
    pub duration_secs: Option<int>,
}

impl View for TagData {
    type V = TagVal;

    open spec fn view(&self) -> TagVal {
        TagVal {
            title: opt_view(self.title),
            artist: opt_view(self.artist),
            album: opt_view(self.album),
            album_artist: opt_view(self.album_artist),
            track_number: match self.track_number {
                Some(n) => Some(n as int),
                None => None,
            },
            disc_number: match self.disc_number {
                Some(n) => Some(n as int),
                None => None,
            },
            year: match self.year {
                Some(y) => Some(y as int),
                None => None,
            },
            genre: opt_view(self.genre),
            duration_secs: match self.duration_secs {
                Some(d) => Some(d as int),
                None => None,
            },
        }
    }
}

/// The item carries exactly the scanned facts: the path, format, size,
/// modification time, and tag snapshot.
pub open spec fn item_has_scan(
    it: ItemVal,
    path: Seq<char>,
    format: AudioFormat,
    size: int,
    mtime: int,
    tags: TagVal,
) -> bool {
    &&& it.file_path == path
    &&& it.format == format
    &&& it.file_size == size
    &&& it.file_mtime == mtime
    &&& it.tag_title == tags.title
    &&& it.tag_artist == tags.artist
    &&& it.tag_album == tags.album
    &&& it.tag_album_artist == tags.album_artist
    &&& it.tag_track_number == tags.track_number
    &&& it.tag_disc_number == tags.disc_number
    &&& it.tag_year == tags.year
    &&& it.tag_genre == tags.genre
    &&& it.duration_secs == tags.duration_secs
}

/// Record a scanned audio file as an item, keyed by file path.
///
/// A path already in the catalog keeps its item identity, creation
/// time, identification, and fingerprint; size, modification time, tag
/// snapshot, and duration are rewritten. A new path becomes a fresh,
/// unidentified item with no fingerprint. The format comes from the
/// path's extension.
pub fn record_scanned_file(
    store: &mut CatalogStore,
    path: &str,
    size: u64,
    mtime: i64,
    tags: &TagData,
) -> (r: Result<ItemId, Error>)
    requires
        old(store)@.wf(),
    ensures
        final(store)@.wf(),
        match r {
            Ok(id) => ({
                ||| (exists|i: int|
                    0 <= i < old(store)@.items.len() && (#[trigger] old(store)@.items[i]).file_path
                        == path@ && final(store)@ == (StoreVal {
                        items: old(store)@.items.update(i, final(store)@.items[i]),
                        ..old(store)@
                    }) && final(store)@.items[i] == (ItemVal {
                        format: spec_format_of(match spec_extension(path@) {
                            Some(e) => e,
                            None => Seq::empty(),
                        }),
                        file_size: size as int,
                        file_mtime: mtime as int,
                        tag_title: tags@.title,
                        tag_artist: tags@.artist,
                        tag_album: tags@.album,
                        tag_album_artist: tags@.album_artist,
                        tag_track_number: tags@.track_number,
                        tag_disc_number: tags@.disc_number,
                        tag_year: tags@.year,
                        tag_genre: tags@.genre,
                        duration_secs: tags@.duration_secs,
                        updated_at: final(store)@.items[i].updated_at,
                        ..old(store)@.items[i]
                    }) && id == old(store)@.items[i].id)
                ||| ((forall|i: int|
                    0 <= i < old(store)@.items.len() ==> (#[trigger] old(
                        store,
                    )@.items[i]).file_path != path@) && final(store)@.items.len() == old(
                    store,
                )@.items.len() + 1 && final(store)@ == (StoreVal {
                    items: old(store)@.items.push(final(store)@.items.last()),
                    ..old(store)@
                }) && item_has_scan(
                    final(store)@.items.last(),
                    path@,
                    spec_format_of(match spec_extension(path@) {
                        Some(e) => e,
                        None => Seq::empty(),
                    }),
                    size as int,
                    mtime as int,
                    tags@,
                ) && final(store)@.items.last().expression_id is None
                    && final(store)@.items.last().fingerprint is None
                    && id == final(store)@.items.last().id)
            }),
            Err(e) => final(store)@ == old(store)@ && e is Database && (forall|i: int|
                0 <= i < old(store)@.items.len() ==> (#[trigger] old(store)@.items[i]).file_path
                    != path@),
        },
{
    let format = match extension_of(path) {
        Some(e) => AudioFormat::from_extension(e.as_str()),
        None => AudioFormat::from_extension(""),
    };
    proof {
        if spec_extension(path@) is None {
            vstd::string::axiom_str_literal_len("");
            assert(""@.len() == 0) by {
                reveal_strlit("");
            }
            assert(""@ =~= Seq::<char>::empty());
        }
    }
    let existing = store.get_item_by_path(path);
    match existing {
        Some(mut item) => {
            item.format = format;
            item.file_size = size;
            item.file_mtime = mtime;
            item.tag_title = crate::text::clone_opt_string(&tags.title);
            item.tag_artist = crate::text::clone_opt_string(&tags.artist);
            item.tag_album = crate::text::clone_opt_string(&tags.album);
            item.tag_album_artist = crate::text::clone_opt_string(&tags.album_artist);
            item.tag_track_number = tags.track_number;
            item.tag_disc_number = tags.disc_number;
            item.tag_year = tags.year;
            item.tag_genre = crate::text::clone_opt_string(&tags.genre);
            item.duration_secs = tags.duration_secs;
            item.updated_at = crate::clock::now_millis();
            let id = item.id;
            let ghost pre = store@;
            let r = store.update_item(&item);
            match r {
                Ok(()) => {
                    proof {
                        assert(has_item(old(store)@.items, item@.id));
                    }
                    Ok(id)
                },
                Err(e) => {
                    proof {
                        // The stored row keeps its path and references, so
                        // the update cannot be refused: both refusal causes
                        // contradict the store's invariants.
                        let s = choose|i: int|
                            0 <= i < pre.items.len() && (#[trigger] pre.items[i]).file_path
                                == path@ && pre.items[i].id == item@.id;
                        if crate::store::item_path_held_by_other(
                            pre.items,
                            item@.file_path,
                            item@.id,
                        ) {
                            let j = choose|j: int|
                                0 <= j < pre.items.len() && (#[trigger] pre.items[j]).file_path
                                    == item@.file_path && pre.items[j].id != item@.id;
                            assert(j != s);
                            assert(pre.items[j].file_path == pre.items[s].file_path);
                            assert(false);
                        } else {
                            assert(!crate::store::item_refs_ok(
                                item@,
                                pre.expressions,
                                pre.manifestations,
                            ));
                            match pre.items[s].expression_id {
                                Some(eid) => {
                                    assert(crate::store::has_expression(pre.expressions, eid));
                                },
                                None => {},
                            }
                            match pre.items[s].manifestation_id {
                                Some(mid) => {
                                    assert(crate::store::has_manifestation(
                                        pre.manifestations,
                                        mid,
                                    ));
                                },
                                None => {},
                            }
                            assert(false);
                        }
                    }
                    Err(e)
                },
            }
        },
        None => {
            let mut item = Item::new(path, format, size, mtime);
            item.tag_title = crate::text::clone_opt_string(&tags.title);
            item.tag_artist = crate::text::clone_opt_string(&tags.artist);
            item.tag_album = crate::text::clone_opt_string(&tags.album);
            item.tag_album_artist = crate::text::clone_opt_string(&tags.album_artist);
            item.tag_track_number = tags.track_number;
            item.tag_disc_number = tags.disc_number;
            item.tag_year = tags.year;
            item.tag_genre = crate::text::clone_opt_string(&tags.genre);
            item.duration_secs = tags.duration_secs;
            let id = item.id;
            let r = store.insert_item(item);
            match r {
                Ok(()) => Ok(id),
                Err(e) => Err(e),
            }
        },
    }
}

/// The scan stage: holds the directory to walk and where the catalog
/// lives.
#[derive(Debug, PartialEq)]
pub struct ScanStage {
    /// The directory to walk.
    pub music_dir: String,
    /// Where the catalog lives.
    pub db_path: String,
}

impl ScanStage {
    /// A scan stage over the given directory and catalog location.
    pub fn new(music_dir: &str, db_path: &str) -> (r: ScanStage)
        ensures
            r.music_dir@ == music_dir@,
            r.db_path@ == db_path@,
    {
        ScanStage { music_dir: music_dir.to_owned(), db_path: db_path.to_owned() }
    }

    /// Whether a path names an audio file the scanner accepts, by its
    /// extension, without regard to case.
    pub fn is_audio_file(path: &str) -> (r: bool)
        ensures
            r == spec_is_audio(path@),
    {
        match extension_of(path) {
            Some(e) => {
                let l = lower_vec(&chars_of(e.as_str()));
                chars_eq(&l, &chars_of("flac")) || chars_eq(&l, &chars_of("mp3")) || chars_eq(
                    &l,
                    &chars_of("ogg"),
                ) || chars_eq(&l, &chars_of("oga")) || chars_eq(&l, &chars_of("wav")) || chars_eq(
                    &l,
                    &chars_of("m4a"),
                ) || chars_eq(&l, &chars_of("aac"))
            },
            None => false,
        }
    }
}

/// A music file travelling through the pipeline as a work item: its
/// catalog identity and its path.
#[derive(Debug, PartialEq)]
pub struct MusicFile {
    /// The work-item identity; matches the item's identity in the
    /// catalog.
    pub id: String,
    /// The path of the audio file.
    pub path: String,
}

impl MusicFile {
    /// A work item with the given identity and path.
    pub fn new(id: &str, path: &str) -> (r: MusicFile)
        ensures
            r.id@ == id@,
            r.path@ == path@,
    {
        MusicFile { id: id.to_owned(), path: path.to_owned() }
    }

    /// The work-item identity.
    pub fn id(&self) -> (r: &str)
        ensures
            r@ == self.id@,
    {
        self.id.as_str()
    }

    /// The displayed form of this work item: its path.
    pub fn to_text(&self) -> (r: String)
        ensures
            r@ == self.path@,
    {
        self.path.clone()
    }
}

} // verus!
