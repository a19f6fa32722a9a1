use vstd::prelude::*;
use crate::collect::{gather, lemma_gather_ends, lemma_gather_missing, lemma_gather_next};
use crate::content_description::ContentType;
use crate::error::ReadFault;
use crate::layout::{text_at, uint_at};
use crate::parser::{lemma_views_push, PtSessionParser};
use crate::read_traits::{Endianness, ReadExt};
use crate::reader::ByteReader;
use crate::session::{lemma_block_children, views, Block, BlockView, Marker, MarkerView};

verus! {

/// Whether `q` is the first position from `from` on that holds the byte 1.
pub open spec fn is_first_one(buf: Seq<u8>, from: int, q: int) -> bool {
    0 <= from <= q < buf.len() && buf[q] == 0x01 && forall|j: int| from <= j < q ==> buf[j] != 0x01
}

/// The first position from `from` on that holds the byte 1.
pub open spec fn first_one(buf: Seq<u8>, from: int) -> Option<int> {
    if exists|q: int| is_first_one(buf, from, q) {
        Some(choose|q: int| is_first_one(buf, from, q))
    } else {
        None
    }
}

/// The marker that a marker entry holds: its number at byte 2, its name at byte 8, behind
/// the name its position in samples, and its comment five bytes behind the first byte 1
/// that follows.
pub open spec fn marker_at(buf: Seq<u8>, big: bool, entry: BlockView) -> Option<MarkerView> {
    match (uint_at(buf, big, entry.at(2), 2), text_at(buf, big, entry.at(8))) {
        (Some(index), Some((name, behind))) => match uint_at(buf, big, behind, 4) {
            Some(sample_offset) => match first_one(buf, behind + 4) {
                Some(one) => match text_at(buf, big, one + 5) {
                    Some((comment, _)) => Some(
                        MarkerView { name, index: index as u16, comment, sample_offset },
                    ),
                    None => None,
                },
                None => None,
            },
            None => None,
        },
        _ => None,
    }
}

/// The marker of one child of a full list of markers, if the child is a marker entry.
pub open spec fn marker_part(buf: Seq<u8>, big: bool, entry: BlockView) -> Option<Seq<MarkerView>> {
    if entry.content_type == ContentType::MARKER_List_Entry.tag() {
        match marker_at(buf, big, entry) {
            Some(marker) => Some(seq![marker]),
            None => None,
        }
    } else {
        Some(Seq::empty())
    }
}

/// The markers of the children of a full list of markers, child by child.
pub open spec fn marker_parts(buf: Seq<u8>, big: bool, children: Seq<BlockView>) -> Seq<
    Option<Seq<MarkerView>>,
> {
    children.map_values(|entry: BlockView| marker_part(buf, big, entry))
}

/// The markers of one child of a list of markers, if the child is a full list.
pub open spec fn full_list_part(buf: Seq<u8>, big: bool, full: BlockView) -> Option<
    Seq<MarkerView>,
> {
    if full.content_type == ContentType::MARKER_List_Full.tag() {
        gather(marker_parts(buf, big, full.children))
    } else {
        Some(Seq::empty())
    }
}

/// The markers of the children of a list of markers, child by child.
pub open spec fn full_list_parts(buf: Seq<u8>, big: bool, children: Seq<BlockView>) -> Seq<
    Option<Seq<MarkerView>>,
> {
    children.map_values(|full: BlockView| full_list_part(buf, big, full))
}

/// The markers of the lists of markers, list by list.
pub open spec fn marker_list_parts(buf: Seq<u8>, big: bool, lists: Seq<BlockView>) -> Seq<
    Option<Seq<MarkerView>>,
> {
    lists.map_values(|list: BlockView| gather(full_list_parts(buf, big, list.children)))
}

/// All markers of the session, in the order of the file.
pub open spec fn markers(buf: Seq<u8>, big: bool, lists: Seq<BlockView>) -> Option<
    Seq<MarkerView>,
> {
    gather(marker_list_parts(buf, big, lists))
}

/// The first position from `from` on that holds the byte 1.
pub fn find_one(data: &[u8], from: usize) -> (found: Option<usize>)
    ensures
        match found {
            Some(q) => first_one(data@, from as int) == Some(q as int),
            None => first_one(data@, from as int) is None,
        },
        found matches Some(q) ==> q < data@.len(),
{
    let len = data.len();
    let mut q: usize = from;
    while q < len
        invariant
            from <= q,
            len == data@.len(),
            forall|j: int| from <= j < q ==> data@[j] != 0x01,
        decreases len - q,
    {
        if data[q] == 0x01 {
            proof {
                assert(is_first_one(data@, from as int, q as int));
                let chosen = choose|c: int| is_first_one(data@, from as int, c);
                if chosen < q {
                } else if q < chosen {
                }
            }
            return Some(q);
        }
        q = q + 1;
    }
    None
}

impl PtSessionParser {
    /// Reads the marker that a marker entry holds.
    pub fn parse_marker(&self, entry: &Block) -> (r: Result<Marker, ReadFault>)
        ensures
            match r {
                Ok(marker) => marker_at(self.input(), self.big_endian(), entry@) == Some(marker@),
                Err(e) => e == ReadFault::UnexpectedEof && marker_at(
                    self.input(),
                    self.big_endian(),
                    entry@,
                ) is None,
            },
    {
        let data = self.unxored();
        let mut reader = ByteReader::new(data, self.is_bigendian());
        reader.set_position(entry.offset);
        reader.increment_position(2);
        let index = reader.read_u16()?;
        reader.increment_position(4);
        let name = reader.parse_str()?;
        let sample_offset = reader.read_u32()? as usize;
        let one = match find_one(data, reader.position()) {
            Some(one) => one,
            None => {
                return Err(ReadFault::UnexpectedEof);
            },
        };
        reader.set_position(one);
        reader.increment_position(5);
        let comment = reader.parse_str()?;
        Ok(Marker { name, index, comment, sample_offset })
    }

    /// The markers of one full list of markers.
    pub fn parse_full_marker_list(&self, full: &Block) -> (r: Result<Vec<Marker>, ReadFault>)
        ensures
            match r {
                Ok(found) => full_list_part(self.input(), self.big_endian(), full@) == Some(
                    views(found@),
                ),
                Err(e) => e == ReadFault::UnexpectedEof && full_list_part(
                    self.input(),
                    self.big_endian(),
                    full@,
                ) is None,
            },
    {
        let mut found: Vec<Marker> = Vec::new();
        if full.content_type != ContentType::MARKER_List_Full.code() {
            return Ok(found);
        }
        let ghost parts = marker_parts(self.input(), self.big_endian(), full@.children);
        proof {
            lemma_block_children(*full);
            lemma_gather_ends(parts);
        }
        let mut j: usize = 0;
        while j < full.children.len()
            invariant
                j <= full.children@.len(),
                full@.children == views(full.children@),
                full.content_type == ContentType::MARKER_List_Full.tag(),
                parts == marker_parts(self.input(), self.big_endian(), full@.children),
                gather(parts.take(j as int)) == Some(views(found@)),
            decreases full.children@.len() - j,
        {
            let entry = &full.children[j];
            proof {
                lemma_gather_next(parts, j as int);
            }
            if entry.content_type == ContentType::MARKER_List_Entry.code() {
                match self.parse_marker(entry) {
                    Ok(marker) => {
                        proof {
                            lemma_views_push(found@, marker);
                        }
                        found.push(marker);
                    },
                    Err(e) => {
                        proof {
                            lemma_gather_missing(parts, j + 1);
                        }
                        return Err(e);
                    },
                }
            }
            j = j + 1;
        }
        proof {
            lemma_gather_ends(parts);
        }
        Ok(found)
    }

    /// The markers of one list of markers.
    pub fn parse_marker_list(&self, list: &Block) -> (r: Result<Vec<Marker>, ReadFault>)
        ensures
            match r {
                Ok(found) => gather(
                    full_list_parts(self.input(), self.big_endian(), list@.children),
                ) == Some(views(found@)),
                Err(e) => e == ReadFault::UnexpectedEof && gather(
                    full_list_parts(self.input(), self.big_endian(), list@.children),
                ) is None,
            },
    {
        let ghost parts = full_list_parts(self.input(), self.big_endian(), list@.children);
        let mut found: Vec<Marker> = Vec::new();
        proof {
            lemma_block_children(*list);
            lemma_gather_ends(parts);
        }
        let mut j: usize = 0;
        while j < list.children.len()
            invariant
                j <= list.children@.len(),
                list@.children == views(list.children@),
                parts == full_list_parts(self.input(), self.big_endian(), list@.children),
                gather(parts.take(j as int)) == Some(views(found@)),
            decreases list.children@.len() - j,
        {
            let full = &list.children[j];
            proof {
                lemma_gather_next(parts, j as int);
            }
            match self.parse_full_marker_list(full) {
                Ok(mut part) => {
                    found.append(&mut part);
                },
                Err(e) => {
                    proof {
                        lemma_gather_missing(parts, j + 1);
                    }
                    return Err(e);
                },
            }
            j = j + 1;
        }
        proof {
            lemma_gather_ends(parts);
        }
        Ok(found)
    }

    /// All markers of the session, in the order of the file.
    pub fn parse_markers(&self) -> (r: Result<Vec<Marker>, ReadFault>)
        ensures
            match r {
                Ok(found) => markers(
                    self.input(),
                    self.big_endian(),
                    self.blocks().marker_blocks,
                ) == Some(views(found@)),
                Err(e) => e == ReadFault::UnexpectedEof && markers(
                    self.input(),
                    self.big_endian(),
                    self.blocks().marker_blocks,
                ) is None,
            },
    {
        let lists = &self.block_map().marker_blocks;
        let ghost parts = marker_list_parts(self.input(), self.big_endian(), views(lists@));
        let mut found: Vec<Marker> = Vec::new();
        proof {
            lemma_gather_ends(parts);
        }
        let mut k: usize = 0;
        while k < lists.len()
            invariant
                k <= lists@.len(),
                views(lists@) == self.blocks().marker_blocks,
                parts == marker_list_parts(self.input(), self.big_endian(), views(lists@)),
                gather(parts.take(k as int)) == Some(views(found@)),
            decreases lists@.len() - k,
        {
            let list = &lists[k];
            proof {
                lemma_gather_next(parts, k as int);
            }
            match self.parse_marker_list(list) {
                Ok(mut part) => {
                    found.append(&mut part);
                },
                Err(e) => {
                    proof {
                        lemma_gather_missing(parts, k + 1);
                    }
                    return Err(e);
                },
            }
            k = k + 1;
        }
        proof {
            lemma_gather_ends(parts);
        }
        Ok(found)
    }
}

} // verus!
