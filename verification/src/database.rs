//! The local content store: persisted song metadata and binary segment
//! payloads, keyed by content id and by (content id, segment index).
//!
//! The store keeps each song id at most once; inserting an entry whose id is
//! already present replaces it.  A song handed in with id zero is assigned a
//! compact hash of its metadata as id.

use vstd::prelude::*;
use std::collections::HashMap;
use crate::message::{FileHash, SongMetaData, SongMetaDataView};

verus! {

broadcast use vstd::std_specs::hash::group_hash_axioms;

/// Mathematical model of an [`AudioDatabase`].
pub ghost struct DbView {
    pub songs: Seq<SongMetaDataView>,
    pub segments: Map<u64, Seq<u8>>,
}

/// The local catalogue and segment cache.
#[derive(Debug)]
pub struct AudioDatabase {
    songs: Vec<SongMetaData>,
    segments: HashMap<u64, Vec<u8>>,
}

impl View for AudioDatabase {
    type V = DbView;

    closed spec fn view(&self) -> DbView {
        DbView {
            songs: self.songs@.map_values(|s: SongMetaData| s@),
            segments: self.segments@.map_values(|v: Vec<u8>| v@),
        }
    }
}

/// The storage key of one segment payload.
pub open spec fn segment_key(id: FileHash, segment: u32) -> u64 {
    (id * 0x1_0000_0000 + segment) as u64
}

/// Exec computation of [`segment_key`].
pub fn segment_key_exec(id: FileHash, segment: u32) -> (k: u64)
    ensures
        k == segment_key(id, segment),
{
    (id as u64) * 0x1_0000_0000 + (segment as u64)
}

/// Two distinct (content id, segment index) pairs never share a storage key.
pub proof fn lemma_segment_key_injective(id1: FileHash, s1: u32, id2: FileHash, s2: u32)
    ensures
        segment_key(id1, s1) == segment_key(id2, s2) ==> id1 == id2 && s1 == s2,
{
    assert(segment_key(id1, s1) == segment_key(id2, s2) ==> id1 == id2 && s1 == s2)
        by (nonlinear_arith);
}

/// One folding step of the compact metadata hash.
pub open spec fn hash_step(h: u16, b: u8) -> u16 {
    ((h * 31 + b) % 0x1_0000) as u16
}

/// Compact hash of a byte sequence, folded left to right from `h`.
pub open spec fn hash_bytes(h: u16, bytes: Seq<u8>) -> u16
    decreases bytes.len(),
{
    if bytes.len() == 0 {
        h
    } else {
        hash_bytes(hash_step(h, bytes[0]), bytes.drop_first())
    }
}

/// The id assigned to a song handed in with id zero: a compact hash of its
/// title and artist.
pub open spec fn spec_compact_hash(s: SongMetaDataView) -> u16 {
    hash_bytes(hash_bytes(17, s.title), s.artist)
}

#[verifier::loop_isolation(false)]

fn hash_bytes_exec(h: u16, bytes: &Vec<u8>) -> (r: u16)
    ensures
        r == hash_bytes(h, bytes@),
{
    let ghost all = bytes@;
    let mut acc: u16 = h;
    let mut i: usize = 0;
    proof {
        assert(all.skip(0) =~= all);
    }
    while i < bytes.len()
        invariant
            i <= all.len(),
            bytes@ == all,
            hash_bytes(h, all) == hash_bytes(acc, all.skip(i as int)),
        decreases all.len() - i,
    {
        proof {
            assert(all.skip(i as int)[0] == all[i as int]);
            assert(all.skip(i as int).drop_first() =~= all.skip(i as int + 1));
        }
        acc = (((acc as u32) * 31 + (bytes[i] as u32)) % 0x1_0000) as u16;
        i = i + 1;
    }
    proof {
        assert(all.skip(all.len() as int) =~= Seq::<u8>::empty());
    }
    acc
}

/// The catalogue after inserting `m`: the entry with the same id is
/// replaced, or `m` is appended if its id is new.
pub open spec fn spec_insert_song(songs: Seq<SongMetaDataView>, m: SongMetaDataView)
    -> Seq<SongMetaDataView> {
    if exists|i: int| 0 <= i < songs.len() && (#[trigger] songs[i]).id == m.id {
        let i = choose|i: int| 0 <= i < songs.len() && (#[trigger] songs[i]).id == m.id;
        songs.update(i, m)
    } else {
        songs.push(m)
    }
}

/// When the catalogue has no duplicate ids and position `i` holds the id of
/// `m`, inserting `m` replaces exactly that position.
proof fn lemma_insert_song_at(songs: Seq<SongMetaDataView>, m: SongMetaDataView, i: int)
    requires
        0 <= i < songs.len(),
        songs[i].id == m.id,
        forall|a: int, b: int| 0 <= a < b < songs.len()
            ==> (#[trigger] songs[a]).id != (#[trigger] songs[b]).id,
    ensures
        spec_insert_song(songs, m) == songs.update(i, m),
{
    assert(0 <= i < songs.len() && songs[i].id == m.id);
    let w = choose|w: int| 0 <= w < songs.len() && (#[trigger] songs[w]).id == m.id;
    if w < i {
        assert(songs[w].id != songs[i].id);
    }
    if i < w {
        assert(songs[i].id != songs[w].id);
    }
}

/// When no position holds the id of `m`, inserting `m` appends it.
proof fn lemma_insert_song_new(songs: Seq<SongMetaDataView>, m: SongMetaDataView)
    requires
        forall|i: int| 0 <= i < songs.len() ==> (#[trigger] songs[i]).id != m.id,
    ensures
        spec_insert_song(songs, m) == songs.push(m),
{
}

impl AudioDatabase {
    /// No song id occurs twice in the catalogue.
    pub open spec fn wf(&self) -> bool {
        forall|i: int, j: int| 0 <= i < j < self@.songs.len()
            ==> (#[trigger] self@.songs[i]).id != (#[trigger] self@.songs[j]).id
    }

    /// An empty store.
    pub fn new() -> (r: Self)
        ensures
            r.wf(),
            r@.songs == Seq::<SongMetaDataView>::empty(),
            r@.segments == Map::<u64, Seq<u8>>::empty(),
    {
        let r = AudioDatabase { songs: Vec::new(), segments: HashMap::new() };
        proof {
            assert(r@.songs =~= Seq::<SongMetaDataView>::empty());
            assert(r@.segments =~= Map::<u64, Seq<u8>>::empty());
        }
        r
    }

    /// Insert one song's metadata and return the id it is stored under.
    /// A song with id zero is assigned the compact hash of its metadata.
    #[verifier::loop_isolation(false)]
    pub fn insert_song_meta(&mut self, song: SongMetaData) -> (r: Result<u16, String>)
        requires
            old(self).wf(),
        ensures
            final(self).wf(),
            r is Ok,
            final(self)@.segments == old(self)@.segments,
            ({
                let stored = SongMetaDataView {
                    id: if song@.id == 0 {
                        spec_compact_hash(song@)
                    } else {
                        song@.id
                    },
                    ..song@
                };
                r.unwrap() == stored.id && final(self)@.songs == spec_insert_song(
                    old(self)@.songs,
                    stored,
                )
            }),
    {
        let mut song = song;
        if song.id == 0 {
            let h = hash_bytes_exec(17, &song.title);
            song.id = hash_bytes_exec(h, &song.artist);
        }
        let id = song.id;
        let ghost stored = song@;
        let ghost pre = self@.songs;
        let n = self.songs.len();
        let mut i: usize = 0;
        while i < n
            invariant
                i <= n,
                n == self.songs@.len(),
                self.songs@ == old(self).songs@,
                self.segments@ == old(self).segments@,
                pre == self@.songs,
                stored.id == id,
                forall|j: int| 0 <= j < i ==> (#[trigger] pre[j]).id != stored.id,
            decreases n - i,
        {
            if self.songs[i].id == id {
                proof {
                    assert(pre[i as int] == self.songs@[i as int]@);
                }
                self.songs.set(i, song);
                proof {
                    assert(self@.songs =~= pre.update(i as int, stored));
                    lemma_insert_song_at(pre, stored, i as int);
                    assert forall|a: int, b: int| 0 <= a < b < self@.songs.len()
                        implies (#[trigger] self@.songs[a]).id != (#[trigger] self@.songs[b]).id
                    by {
                        assert(self@.songs[a].id == pre[a].id);
                        assert(self@.songs[b].id == pre[b].id);
                    }
                }
                return Ok(id);
            }
            proof {
                assert(pre[i as int] == self.songs@[i as int]@);
            }
            i = i + 1;
        }
        self.songs.push(song);
        proof {
            assert(self@.songs =~= pre.push(stored));
            lemma_insert_song_new(pre, stored);
            assert forall|a: int, b: int| 0 <= a < b < self@.songs.len()
                implies (#[trigger] self@.songs[a]).id != (#[trigger] self@.songs[b]).id
            by {
                if b < pre.len() {
                    assert(self@.songs[a] == pre[a]);
                    assert(self@.songs[b] == pre[b]);
                } else {
                    assert(self@.songs[b] == stored);
                    assert(self@.songs[a] == pre[a]);
                }
            }
        }
        Ok(id)
    }

    /// Insert one segment payload under (id, segment).
    pub fn insert_song_segment(&mut self, id: FileHash, segment: u32, payload: Vec<u8>) -> (r:
        Result<(), String>)
        ensures
            r is Ok,
            final(self)@.songs == old(self)@.songs,
            final(self)@.segments == old(self)@.segments.insert(segment_key(id, segment), payload@),
            old(self).wf() ==> final(self).wf(),
    {
        let key = segment_key_exec(id, segment);
        let ghost pre = self@.segments;
        self.segments.insert(key, payload);
        proof {
            assert(self@.segments =~= pre.insert(segment_key(id, segment), self.segments@[key]@));
        }
        Ok(())
    }

    /// Whether the catalogue holds an entry with this id.
    pub open spec fn spec_has_song(&self, id: FileHash) -> bool {
        exists|i: int| 0 <= i < self@.songs.len() && (#[trigger] self@.songs[i]).id == id
    }

    /// Get the metadata stored under `id`.
    #[verifier::loop_isolation(false)]
    pub fn get_song_meta(&self, id: FileHash) -> (r: Result<SongMetaData, String>)
        ensures
            r is Ok <==> self.spec_has_song(id),
            r matches Ok(m) ==> exists|i: int| 0 <= i < self@.songs.len()
                && (#[trigger] self@.songs[i]).id == id && m@ == self@.songs[i],
    {
        let n = self.songs.len();
        let mut i: usize = 0;
        while i < n
            invariant
                i <= n,
                n == self.songs@.len(),
                forall|j: int| 0 <= j < i ==> (#[trigger] self@.songs[j]).id != id,
            decreases n - i,
        {
            if self.songs[i].id == id {
                let m = self.songs[i].dup();
                proof {
                    assert(self@.songs[i as int] == self.songs@[i as int]@);
                    assert(0 <= i < self@.songs.len() && (#[trigger] self@.songs[i as int]).id
                        == id && m@ == self@.songs[i as int]);
                }
                return Ok(m);
            }
            proof {
                assert(self@.songs[i as int] == self.songs@[i as int]@);
            }
            i = i + 1;
        }
        Err("Song not found".to_owned())
    }

    /// Get the segment payload stored under (id, segment).
    pub fn get_song_segment(&self, id: FileHash, segment: u32) -> (r: Result<Vec<u8>, String>)
        ensures
            r is Ok <==> self@.segments.contains_key(segment_key(id, segment)),
            r matches Ok(v) ==> v@ == self@.segments[segment_key(id, segment)],
    {
        let key = segment_key_exec(id, segment);
        match self.segments.get(&key) {
            Some(v) => Ok(crate::packet::copy_vec(v)),
            None => Err("Song payload not found".to_owned()),
        }
    }

    /// All catalogue entries, in storage order.
    #[verifier::loop_isolation(false)]
    pub fn get_all_songs_meta(&self) -> (r: Result<Vec<SongMetaData>, String>)
        ensures
            r is Ok,
            r.unwrap()@.map_values(|s: SongMetaData| s@) == self@.songs,
    {
        let n = self.songs.len();
        let mut out: Vec<SongMetaData> = Vec::new();
        let mut i: usize = 0;
        while i < n
            invariant
                i <= n,
                n == self.songs@.len(),
                out@.len() == i,
                forall|j: int| 0 <= j < i ==> (#[trigger] out@[j])@ == self@.songs[j],
            decreases n - i,
        {
            out.push(self.songs[i].dup());
            proof {
                assert(self@.songs[i as int] == self.songs@[i as int]@);
            }
            i = i + 1;
        }
        proof {
            assert(out@.map_values(|s: SongMetaData| s@) =~= self@.songs);
        }
        Ok(out)
    }
}

} // verus!
