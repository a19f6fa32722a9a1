use vstd::prelude::*;
use vstd::slice::slice_to_vec;
use crate::collect::{
    first_key, gather, lemma_first_key_absent, lemma_first_key_found, lemma_first_key_present,
    lemma_gather_ends, lemma_gather_missing, lemma_gather_next,
};
use crate::content_description::ContentType;
use crate::error::ReadFault;
use crate::layout::{text_at, uint_at};
use crate::parser::{lemma_views_push, PtSessionParser};
use crate::read_traits::{Endianness, ReadExt};
use crate::reader::ByteReader;
use crate::session::{lemma_block_children, views, Block, BlockView, RegionView, Track, TrackView};

verus! {

/// A track as a block of track names tells it: a name and the numbers of its channels.
pub struct TrackEntry {
    pub name: Vec<u8>,
    pub channels: Vec<u16>,
}

/// The mathematical value of a [`TrackEntry`].
pub struct TrackEntryView {
    pub name: Seq<u8>,
    pub channels: Seq<u16>,
}

impl View for TrackEntry {
    type V = TrackEntryView;

    open spec fn view(&self) -> TrackEntryView {
        TrackEntryView { name: self.name@, channels: self.channels@ }
    }
}

/// The `count` channel numbers of 16 bits each that stand from `pos` on.
pub open spec fn channels_at(buf: Seq<u8>, big: bool, pos: int, count: nat) -> Option<Seq<u16>> {
    if forall|i: int| 0 <= i < count ==> (#[trigger] uint_at(buf, big, pos + 2 * i, 2)) is Some {
        Some(Seq::new(count, |i: int| uint_at(buf, big, pos + 2 * i, 2)->Some_0 as u16))
    } else {
        None
    }
}

/// What a block of track names says: the name at byte 2, one byte behind it the number of
/// channels, then the channel numbers.
pub open spec fn track_entry_at(buf: Seq<u8>, big: bool, block: BlockView) -> Option<
    TrackEntryView,
> {
    match text_at(buf, big, block.at(2)) {
        Some((name, behind)) => match uint_at(buf, big, behind + 1, 4) {
            Some(count) => match channels_at(buf, big, behind + 5, count) {
                Some(channels) => Some(TrackEntryView { name, channels }),
                None => None,
            },
            None => None,
        },
        None => None,
    }
}

/// The track that one child of a block of tracks tells, if the child is a block of track
/// names.
pub open spec fn track_entry_part(buf: Seq<u8>, big: bool, child: BlockView) -> Option<
    Seq<TrackEntryView>,
> {
    if child.content_type == ContentType::AUDIO_Track_Name_Number.tag() {
        match track_entry_at(buf, big, child) {
            Some(entry) => Some(seq![entry]),
            None => None,
        }
    } else {
        Some(Seq::empty())
    }
}

/// The tracks that the children of a block of tracks tell, child by child.
pub open spec fn track_entry_parts(buf: Seq<u8>, big: bool, children: Seq<BlockView>) -> Seq<
    Option<Seq<TrackEntryView>>,
> {
    children.map_values(|child: BlockView| track_entry_part(buf, big, child))
}

/// The tracks that the blocks of tracks tell, block by block.
pub open spec fn track_block_parts(buf: Seq<u8>, big: bool, blocks: Seq<BlockView>) -> Seq<
    Option<Seq<TrackEntryView>>,
> {
    blocks.map_values(|block: BlockView| gather(track_entry_parts(buf, big, block.children)))
}

/// All tracks that the session tells, in the order of the file.
pub open spec fn track_entries(buf: Seq<u8>, big: bool, blocks: Seq<BlockView>) -> Option<
    Seq<TrackEntryView>,
> {
    gather(track_block_parts(buf, big, blocks))
}

/// The numbers of the tracks, in their order.
pub open spec fn track_indices(tracks: Seq<TrackView>) -> Seq<nat> {
    tracks.map_values(|track: TrackView| track.index as nat)
}

/// The tracks with one more for channel `index`, unless a track has that number already.
pub open spec fn add_track(tracks: Seq<TrackView>, name: Seq<u8>, index: u16) -> Seq<TrackView> {
    if first_key(track_indices(tracks), index as nat) is Some {
        tracks
    } else {
        tracks.push(TrackView { name, index, regions: Seq::empty() })
    }
}

/// The tracks with one more for each of `channels` that no track has the number of.
pub open spec fn add_tracks(tracks: Seq<TrackView>, name: Seq<u8>, channels: Seq<u16>) -> Seq<
    TrackView,
>
    decreases channels.len(),
{
    if channels.len() == 0 {
        tracks
    } else {
        add_track(add_tracks(tracks, name, channels.drop_last()), name, channels.last())
    }
}

/// The tracks that the entries make, one for each channel number that is met for the
/// first time, named after the entry that brings it.
pub open spec fn tracks_of(entries: Seq<TrackEntryView>) -> Seq<TrackView>
    decreases entries.len(),
{
    if entries.len() == 0 {
        Seq::empty()
    } else {
        add_tracks(tracks_of(entries.drop_last()), entries.last().name, entries.last().channels)
    }
}

/// The position of the first track with the number `index`.
pub fn find_track(tracks: &[Track], index: usize) -> (found: Option<usize>)
    ensures
        match found {
            Some(i) => first_key(track_indices(views(tracks@)), index as nat) == Some(i as int),
            None => first_key(track_indices(views(tracks@)), index as nat) is None,
        },
        found matches Some(i) ==> i < tracks@.len(),
{
    let ghost keys = track_indices(views(tracks@));
    let mut i: usize = 0;
    while i < tracks.len()
        invariant
            i <= tracks@.len(),
            keys == track_indices(views(tracks@)),
            forall|j: int| 0 <= j < i ==> keys[j] != index as nat,
        decreases tracks@.len() - i,
    {
        if tracks[i].index as usize == index {
            proof {
                lemma_first_key_found(keys, index as nat, i as int);
            }
            return Some(i);
        }
        i = i + 1;
    }
    proof {
        lemma_first_key_absent(keys, index as nat);
    }
    None
}

/// Adds a track for each channel of `entry` that no track has the number of.
pub fn add_entry(tracks: &mut Vec<Track>, entry: &TrackEntry)
    ensures
        views(final(tracks)@) == add_tracks(views(old(tracks)@), entry@.name, entry@.channels),
{
    let ghost before = views(tracks@);
    let ghost channels = entry.channels@;
    let mut i: usize = 0;
    while i < entry.channels.len()
        invariant
            i <= entry.channels@.len(),
            channels == entry.channels@,
            views(tracks@) == add_tracks(before, entry@.name, channels.take(i as int)),
        decreases entry.channels@.len() - i,
    {
        let index = entry.channels[i];
        proof {
            assert(channels.take(i + 1).drop_last() =~= channels.take(i as int));
        }
        if find_track(tracks.as_slice(), index as usize).is_none() {
            let track = Track {
                name: slice_to_vec(entry.name.as_slice()),
                index,
                regions: Vec::new(),
            };
            proof {
                assert(views(track.regions@) =~= Seq::<RegionView>::empty());
                lemma_views_push(tracks@, track);
            }
            tracks.push(track);
        }
        i = i + 1;
    }
    proof {
        assert(channels.take(channels.len() as int) =~= channels);
    }
}

/// The tracks that the entries make.
pub fn build_tracks(entries: &[TrackEntry]) -> (tracks: Vec<Track>)
    ensures
        views(tracks@) == tracks_of(views(entries@)),
{
    let ghost all = views(entries@);
    let mut tracks: Vec<Track> = Vec::new();
    let mut i: usize = 0;
    while i < entries.len()
        invariant
            i <= entries@.len(),
            all == views(entries@),
            views(tracks@) == tracks_of(all.take(i as int)),
        decreases entries@.len() - i,
    {
        proof {
            assert(all.take(i + 1).drop_last() =~= all.take(i as int));
        }
        add_entry(&mut tracks, &entries[i]);
        i = i + 1;
    }
    proof {
        assert(all.take(all.len() as int) =~= all);
    }
    tracks
}

impl PtSessionParser {
    /// Reads what a block of track names says.
    pub fn parse_track_entry(&self, block: &Block) -> (r: Result<TrackEntry, ReadFault>)
        ensures
            match r {
                Ok(entry) => track_entry_at(self.input(), self.big_endian(), block@) == Some(
                    entry@,
                ),
                Err(e) => e == ReadFault::UnexpectedEof && track_entry_at(
                    self.input(),
                    self.big_endian(),
                    block@,
                ) is None,
            },
    {
        let ghost buf = self.input();
        let ghost big = self.big_endian();
        let mut reader = ByteReader::new(self.unxored(), self.is_bigendian());
        reader.set_position(block.offset);
        reader.increment_position(2);
        let name = reader.parse_str()?;
        let ghost behind = reader.cursor() as int;
        reader.increment_position(1);
        let num_channels = reader.read_u32()?;
        let ghost first = behind + 5;
        let mut channels: Vec<u16> = Vec::new();
        let mut i: u32 = 0;
        while i < num_channels
            invariant
                i <= num_channels,
                reader.input() == buf,
                reader.big_endian() == big,
                buf == self.input(),
                big == self.big_endian(),
                text_at(buf, big, block@.at(2)) == Some((name@, behind)),
                uint_at(buf, big, behind + 1, 4) == Some(num_channels as nat),
                first == behind + 5,
                reader.cursor() == first + 2 * i,
                channels@.len() == i,
                forall|k: int|
                    0 <= k < i ==> (#[trigger] uint_at(buf, big, first + 2 * k, 2)) == Some(
                        channels@[k] as nat,
                    ),
            decreases num_channels - i,
        {
            match reader.read_u16() {
                Ok(channel) => {
                    channels.push(channel);
                },
                Err(e) => {
                    return Err(e);
                },
            }
            i = i + 1;
        }
        proof {
            let listed = channels_at(buf, big, first, num_channels as nat);
            assert(listed->Some_0 =~= channels@);
        }
        Ok(TrackEntry { name, channels })
    }

    /// The tracks that one block of tracks tells.
    pub fn parse_track_block(&self, block: &Block) -> (r: Result<Vec<TrackEntry>, ReadFault>)
        ensures
            match r {
                Ok(entries) => gather(
                    track_entry_parts(self.input(), self.big_endian(), block@.children),
                ) == Some(views(entries@)),
                Err(e) => e == ReadFault::UnexpectedEof && gather(
                    track_entry_parts(self.input(), self.big_endian(), block@.children),
                ) is None,
            },
    {
        let ghost parts = track_entry_parts(self.input(), self.big_endian(), block@.children);
        let mut entries: Vec<TrackEntry> = Vec::new();
        proof {
            lemma_block_children(*block);
            lemma_gather_ends(parts);
        }
        let mut j: usize = 0;
        while j < block.children.len()
            invariant
                j <= block.children@.len(),
                block@.children == views(block.children@),
                parts == track_entry_parts(self.input(), self.big_endian(), block@.children),
                gather(parts.take(j as int)) == Some(views(entries@)),
            decreases block.children@.len() - j,
        {
            let child = &block.children[j];
            proof {
                lemma_gather_next(parts, j as int);
            }
            if child.content_type == ContentType::AUDIO_Track_Name_Number.code() {
                match self.parse_track_entry(child) {
                    Ok(entry) => {
                        proof {
                            lemma_views_push(entries@, entry);
                        }
                        entries.push(entry);
                    },
                    Err(e) => {
                        proof {
                            lemma_gather_missing(parts, j + 1);
                        }
                        return Err(e);
                    },
                }
            }
            j = j + 1;
        }
        proof {
            lemma_gather_ends(parts);
        }
        Ok(entries)
    }

    /// All tracks that the session tells, in the order of the file.
    pub fn parse_track_entries(&self) -> (r: Result<Vec<TrackEntry>, ReadFault>)
        ensures
            match r {
                Ok(entries) => track_entries(
                    self.input(),
                    self.big_endian(),
                    self.blocks().track_blocks,
                ) == Some(views(entries@)),
                Err(e) => e == ReadFault::UnexpectedEof && track_entries(
                    self.input(),
                    self.big_endian(),
                    self.blocks().track_blocks,
                ) is None,
            },
    {
        let blocks = &self.block_map().track_blocks;
        let ghost parts = track_block_parts(self.input(), self.big_endian(), views(blocks@));
        let mut entries: Vec<TrackEntry> = Vec::new();
        proof {
            lemma_gather_ends(parts);
        }
        let mut k: usize = 0;
        while k < blocks.len()
            invariant
                k <= blocks@.len(),
                views(blocks@) == self.blocks().track_blocks,
                parts == track_block_parts(self.input(), self.big_endian(), views(blocks@)),
                gather(parts.take(k as int)) == Some(views(entries@)),
            decreases blocks@.len() - k,
        {
            let block = &blocks[k];
            proof {
                lemma_gather_next(parts, k as int);
            }
            match self.parse_track_block(block) {
                Ok(mut part) => {
                    entries.append(&mut part);
                },
                Err(e) => {
                    proof {
                        lemma_gather_missing(parts, k + 1);
                    }
                    return Err(e);
                },
            }
            k = k + 1;
        }
        proof {
            lemma_gather_ends(parts);
        }
        Ok(entries)
    }
}

/// Whether no two of the tracks have the same number.
pub open spec fn distinct_tracks(tracks: Seq<TrackView>) -> bool {
    forall|i: int, j: int|
        0 <= i < j < tracks.len() ==> (#[trigger] tracks[i]).index != (#[trigger] tracks[j]).index
}

/// Adding tracks for the channels of an entry keeps the numbers of the tracks distinct.
proof fn lemma_add_tracks_distinct(tracks: Seq<TrackView>, name: Seq<u8>, channels: Seq<u16>)
    requires
        distinct_tracks(tracks),
    ensures
        distinct_tracks(add_tracks(tracks, name, channels)),
    decreases channels.len(),
{
    if channels.len() > 0 {
        lemma_add_tracks_distinct(tracks, name, channels.drop_last());
        let before = add_tracks(tracks, name, channels.drop_last());
        let index = channels.last();
        let after = add_track(before, name, index);
        if first_key(track_indices(before), index as nat) is None {
            assert forall|i: int, j: int| 0 <= i < j < after.len() implies (#[trigger] after[i]).index
                != (#[trigger] after[j]).index by {
                if j == before.len() {
                    if before[i].index == index {
                        lemma_first_key_present(track_indices(before), index as nat, i);
                    }
                }
            }
        }
    }
}

/// No two tracks of a session have the same number.
pub proof fn lemma_tracks_distinct(entries: Seq<TrackEntryView>)
    ensures
        distinct_tracks(tracks_of(entries)),
    decreases entries.len(),
{
    if entries.len() > 0 {
        lemma_tracks_distinct(entries.drop_last());
        lemma_add_tracks_distinct(
            tracks_of(entries.drop_last()),
            entries.last().name,
            entries.last().channels,
        );
    }
}

/// Tracks that are added carry no regions.
proof fn lemma_add_tracks_empty(tracks: Seq<TrackView>, name: Seq<u8>, channels: Seq<u16>)
    requires
        forall|t: int| 0 <= t < tracks.len() ==> (#[trigger] tracks[t]).regions.len() == 0,
    ensures
        forall|t: int|
            0 <= t < add_tracks(tracks, name, channels).len() ==> (#[trigger] add_tracks(
                tracks,
                name,
                channels,
            )[t]).regions.len() == 0,
    decreases channels.len(),
{
    if channels.len() > 0 {
        lemma_add_tracks_empty(tracks, name, channels.drop_last());
        assert(add_tracks(tracks, name, channels) == add_track(
            add_tracks(tracks, name, channels.drop_last()),
            name,
            channels.last(),
        ));
    }
}

/// Tracks made of entries carry no regions.
pub proof fn lemma_tracks_of_empty(entries: Seq<TrackEntryView>)
    ensures
        forall|t: int|
            0 <= t < tracks_of(entries).len() ==> (#[trigger] tracks_of(entries)[t]).regions.len()
                == 0,
    decreases entries.len(),
{
    if entries.len() > 0 {
        lemma_tracks_of_empty(entries.drop_last());
        lemma_add_tracks_empty(
            tracks_of(entries.drop_last()),
            entries.last().name,
            entries.last().channels,
        );
    }
}

} // verus!
