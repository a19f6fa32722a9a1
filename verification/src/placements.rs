use vstd::prelude::*;
use crate::blocks::{lemma_tagged_ends, lemma_tagged_next, tagged};
use crate::collect::{gather, lemma_gather_ends, lemma_gather_missing, lemma_gather_next};
use crate::content_description::ContentType;
use crate::error::ReadFault;
use crate::layout::{fits, text_at, uint_at};
use crate::parser::{lemma_views_push, PtSessionParser};
use crate::read_traits::{Endianness, ReadExt};
use crate::reader::ByteReader;
use crate::session::{lemma_block_children, views, Block, BlockView};

verus! {

/// Content type of the blocks that hold the placements of one track.
pub const TRACK_PLACEMENTS: u16 = 0x1052;

/// A region put on a track: the place of the track's group in its map, the number of
/// the region, and where the region starts.
pub struct Placement {
    pub track: usize,
    pub region: u16,
    pub start: u32,
}

/// The mathematical value of a [`Placement`].
pub struct PlacementView {
    pub track: nat,
    pub region: nat,
    pub start: nat,
}

impl View for Placement {
    type V = PlacementView;

    open spec fn view(&self) -> PlacementView {
        PlacementView { track: self.track as nat, region: self.region as nat, start: self.start as nat }
    }
}

/// The placement that a block below a track entry holds: the number of the region in
/// the lower 16 bits of the number at byte 4, and the start at byte 13.
pub open spec fn placement_at(buf: Seq<u8>, big: bool, block: BlockView, track: nat) -> Option<
    PlacementView,
> {
    match (uint_at(buf, big, block.at(4), 4), uint_at(buf, big, block.at(13), 4)) {
        (Some(raw), Some(start)) => Some(PlacementView { track, region: raw % 0x1_0000, start }),
        _ => None,
    }
}

/// The placement of one child of a track entry, if the child holds one.
pub open spec fn placement_part(buf: Seq<u8>, big: bool, child: BlockView, track: nat) -> Option<
    Seq<PlacementView>,
> {
    if child.content_type == ContentType::AUDIO_Region_Track_SubEntry_v8.tag() {
        match placement_at(buf, big, child, track) {
            Some(placement) => Some(seq![placement]),
            None => None,
        }
    } else {
        Some(Seq::empty())
    }
}

/// The placements of the children of a track entry, child by child.
pub open spec fn placement_parts(buf: Seq<u8>, big: bool, children: Seq<BlockView>, track: nat) -> Seq<
    Option<Seq<PlacementView>>,
> {
    children.map_values(|child: BlockView| placement_part(buf, big, child, track))
}

/// The placements of one child of a group of placements. A track entry whose byte 46 is
/// 1 is a fade and places nothing.
pub open spec fn entry_part(buf: Seq<u8>, big: bool, entry: BlockView, track: nat) -> Option<
    Seq<PlacementView>,
> {
    if entry.content_type == ContentType::AUDIO_Region_Track_Entry_v8.tag() {
        if !fits(buf, entry.at(46), 1) {
            None
        } else if buf[entry.at(46)] == 0x01 {
            Some(Seq::empty())
        } else {
            gather(placement_parts(buf, big, entry.children, track))
        }
    } else {
        Some(Seq::empty())
    }
}

/// The placements of the children of a group, child by child.
pub open spec fn entry_parts(buf: Seq<u8>, big: bool, children: Seq<BlockView>, track: nat) -> Seq<
    Option<Seq<PlacementView>>,
> {
    children.map_values(|entry: BlockView| entry_part(buf, big, entry, track))
}

/// The placements of one group. The group opens with the name of its track at byte 2,
/// which has to be there though it is not used.
pub open spec fn group_placements(buf: Seq<u8>, big: bool, group: BlockView, track: nat) -> Option<
    Seq<PlacementView>,
> {
    match text_at(buf, big, group.at(2)) {
        Some(_) => gather(entry_parts(buf, big, group.children, track)),
        None => None,
    }
}

/// How many of the first `j` children are groups of placements.
pub open spec fn groups_before(children: Seq<BlockView>, j: int) -> nat {
    tagged(children.take(j), TRACK_PLACEMENTS, TRACK_PLACEMENTS).len()
}

/// The placements of the children of a map of regions to tracks, child by child. The
/// groups stand for the tracks 0, 1, 2 and so on, in their order.
pub open spec fn group_parts(buf: Seq<u8>, big: bool, children: Seq<BlockView>) -> Seq<
    Option<Seq<PlacementView>>,
> {
    Seq::new(
        children.len(),
        |j: int|
            if children[j].content_type == TRACK_PLACEMENTS {
                group_placements(buf, big, children[j], groups_before(children, j))
            } else {
                Some(Seq::empty())
            },
    )
}

/// The placements of one map of regions to tracks. Only the newer kind of map is read.
pub open spec fn map_placements(buf: Seq<u8>, big: bool, map: BlockView) -> Option<
    Seq<PlacementView>,
> {
    if map.content_type == ContentType::AUDIO_Region_Track_Full_Map_v8.tag() {
        gather(group_parts(buf, big, map.children))
    } else {
        Some(Seq::empty())
    }
}

/// The placements of the maps, map by map.
pub open spec fn map_parts(buf: Seq<u8>, big: bool, maps: Seq<BlockView>) -> Seq<
    Option<Seq<PlacementView>>,
> {
    maps.map_values(|map: BlockView| map_placements(buf, big, map))
}

/// All placements of the session, in the order of the file.
pub open spec fn placements(buf: Seq<u8>, big: bool, maps: Seq<BlockView>) -> Option<
    Seq<PlacementView>,
> {
    gather(map_parts(buf, big, maps))
}

impl PtSessionParser {
    /// Reads the placement that a block below a track entry holds.
    pub fn parse_placement(&self, block: &Block, track: usize) -> (r: Result<
        Placement,
        ReadFault,
    >)
        ensures
            match r {
                Ok(placement) => placement_at(
                    self.input(),
                    self.big_endian(),
                    block@,
                    track as nat,
                ) == Some(placement@),
                Err(e) => e == ReadFault::UnexpectedEof && placement_at(
                    self.input(),
                    self.big_endian(),
                    block@,
                    track as nat,
                ) is None,
            },
    {
        let mut reader = ByteReader::new(self.unxored(), self.is_bigendian());
        reader.set_position(block.offset);
        reader.increment_position(4);
        let raw = reader.read_u32()?;
        reader.increment_position(5);
        let start = reader.read_u32()?;
        Ok(Placement { track, region: (raw % 0x1_0000) as u16, start })
    }

    /// The placements of one track entry, none if the entry is a fade.
    pub fn parse_track_placements(&self, entry: &Block, track: usize) -> (r: Result<
        Vec<Placement>,
        ReadFault,
    >)
        ensures
            match r {
                Ok(found) => entry_part(self.input(), self.big_endian(), entry@, track as nat)
                    == Some(views(found@)),
                Err(e) => e == ReadFault::UnexpectedEof && entry_part(
                    self.input(),
                    self.big_endian(),
                    entry@,
                    track as nat,
                ) is None,
            },
    {
        let data = self.unxored();
        let mut found: Vec<Placement> = Vec::new();
        if entry.content_type != ContentType::AUDIO_Region_Track_Entry_v8.code() {
            return Ok(found);
        }
        let len = data.len();
        if entry.offset >= len || len - entry.offset <= 46 {
            return Err(ReadFault::UnexpectedEof);
        }
        if data[entry.offset + 46] == 0x01 {
            return Ok(found);
        }
        let ghost parts = placement_parts(
            self.input(),
            self.big_endian(),
            entry@.children,
            track as nat,
        );
        proof {
            lemma_block_children(*entry);
            lemma_gather_ends(parts);
        }
        let mut j: usize = 0;
        while j < entry.children.len()
            invariant
                j <= entry.children@.len(),
                entry@.children == views(entry.children@),
                entry.content_type == ContentType::AUDIO_Region_Track_Entry_v8.tag(),
                fits(self.input(), entry@.at(46), 1),
                self.input()[entry@.at(46)] != 0x01,
                parts == placement_parts(
                    self.input(),
                    self.big_endian(),
                    entry@.children,
                    track as nat,
                ),
                gather(parts.take(j as int)) == Some(views(found@)),
            decreases entry.children@.len() - j,
        {
            let child = &entry.children[j];
            proof {
                lemma_gather_next(parts, j as int);
            }
            if child.content_type == ContentType::AUDIO_Region_Track_SubEntry_v8.code() {
                match self.parse_placement(child, track) {
                    Ok(placement) => {
                        proof {
                            lemma_views_push(found@, placement);
                        }
                        found.push(placement);
                    },
                    Err(e) => {
                        proof {
                            lemma_gather_missing(parts, j + 1);
                        }
                        return Err(e);
                    },
                }
            }
            j = j + 1;
        }
        proof {
            lemma_gather_ends(parts);
        }
        Ok(found)
    }

    /// The placements of one group, which stands for the track `track`.
    pub fn parse_group_placements(&self, group: &Block, track: usize) -> (r: Result<
        Vec<Placement>,
        ReadFault,
    >)
        ensures
            match r {
                Ok(found) => group_placements(
                    self.input(),
                    self.big_endian(),
                    group@,
                    track as nat,
                ) == Some(views(found@)),
                Err(e) => e == ReadFault::UnexpectedEof && group_placements(
                    self.input(),
                    self.big_endian(),
                    group@,
                    track as nat,
                ) is None,
            },
    {
        let mut reader = ByteReader::new(self.unxored(), self.is_bigendian());
        reader.set_position(group.offset);
        reader.increment_position(2);
        let _ = reader.parse_str()?;
        let ghost parts = entry_parts(self.input(), self.big_endian(), group@.children, track as nat);
        let mut found: Vec<Placement> = Vec::new();
        proof {
            lemma_block_children(*group);
            lemma_gather_ends(parts);
        }
        let mut j: usize = 0;
        while j < group.children.len()
            invariant
                j <= group.children@.len(),
                group@.children == views(group.children@),
                text_at(self.input(), self.big_endian(), group@.at(2)) is Some,
                parts == entry_parts(
                    self.input(),
                    self.big_endian(),
                    group@.children,
                    track as nat,
                ),
                gather(parts.take(j as int)) == Some(views(found@)),
            decreases group.children@.len() - j,
        {
            let entry = &group.children[j];
            proof {
                lemma_gather_next(parts, j as int);
            }
            match self.parse_track_placements(entry, track) {
                Ok(mut part) => {
                    found.append(&mut part);
                },
                Err(e) => {
                    proof {
                        lemma_gather_missing(parts, j + 1);
                    }
                    return Err(e);
                },
            }
            j = j + 1;
        }
        proof {
            lemma_gather_ends(parts);
        }
        Ok(found)
    }

    /// The placements of one map of regions to tracks.
    pub fn parse_map_placements(&self, map: &Block) -> (r: Result<Vec<Placement>, ReadFault>)
        ensures
            match r {
                Ok(found) => map_placements(self.input(), self.big_endian(), map@) == Some(
                    views(found@),
                ),
                Err(e) => e == ReadFault::UnexpectedEof && map_placements(
                    self.input(),
                    self.big_endian(),
                    map@,
                ) is None,
            },
    {
        let mut found: Vec<Placement> = Vec::new();
        if map.content_type != ContentType::AUDIO_Region_Track_Full_Map_v8.code() {
            return Ok(found);
        }
        let ghost parts = group_parts(self.input(), self.big_endian(), map@.children);
        proof {
            lemma_block_children(*map);
            lemma_gather_ends(parts);
            lemma_tagged_ends(map@.children, TRACK_PLACEMENTS, TRACK_PLACEMENTS);
        }
        let mut count: usize = 0;
        let mut j: usize = 0;
        while j < map.children.len()
            invariant
                j <= map.children@.len(),
                map@.children == views(map.children@),
                map.content_type == ContentType::AUDIO_Region_Track_Full_Map_v8.tag(),
                parts == group_parts(self.input(), self.big_endian(), map@.children),
                count == groups_before(map@.children, j as int),
                count <= j,
                gather(parts.take(j as int)) == Some(views(found@)),
            decreases map.children@.len() - j,
        {
            let group = &map.children[j];
            proof {
                lemma_gather_next(parts, j as int);
                lemma_tagged_next(map@.children, TRACK_PLACEMENTS, TRACK_PLACEMENTS, j as int);
            }
            if group.content_type == TRACK_PLACEMENTS {
                match self.parse_group_placements(group, count) {
                    Ok(mut part) => {
                        found.append(&mut part);
                    },
                    Err(e) => {
                        proof {
                            lemma_gather_missing(parts, j + 1);
                        }
                        return Err(e);
                    },
                }
                count = count + 1;
            }
            j = j + 1;
        }
        proof {
            lemma_gather_ends(parts);
        }
        Ok(found)
    }

    /// All placements of the session, in the order of the file.
    pub fn parse_placements(&self) -> (r: Result<Vec<Placement>, ReadFault>)
        ensures
            match r {
                Ok(found) => placements(
                    self.input(),
                    self.big_endian(),
                    self.blocks().region_to_track_blocks,
                ) == Some(views(found@)),
                Err(e) => e == ReadFault::UnexpectedEof && placements(
                    self.input(),
                    self.big_endian(),
                    self.blocks().region_to_track_blocks,
                ) is None,
            },
    {
        let maps = &self.block_map().region_to_track_blocks;
        let ghost parts = map_parts(self.input(), self.big_endian(), views(maps@));
        let mut found: Vec<Placement> = Vec::new();
        proof {
            lemma_gather_ends(parts);
        }
        let mut k: usize = 0;
        while k < maps.len()
            invariant
                k <= maps@.len(),
                views(maps@) == self.blocks().region_to_track_blocks,
                parts == map_parts(self.input(), self.big_endian(), views(maps@)),
                gather(parts.take(k as int)) == Some(views(found@)),
            decreases maps@.len() - k,
        {
            let map = &maps[k];
            proof {
                lemma_gather_next(parts, k as int);
            }
            match self.parse_map_placements(map) {
                Ok(mut part) => {
                    found.append(&mut part);
                },
                Err(e) => {
                    proof {
                        lemma_gather_missing(parts, k + 1);
                    }
                    return Err(e);
                },
            }
            k = k + 1;
        }
        proof {
            lemma_gather_ends(parts);
        }
        Ok(found)
    }
}

} // verus!
