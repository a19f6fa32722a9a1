use vstd::prelude::*;
use vstd::slice::slice_to_vec;
use crate::collect::{
    first_key, gather, lemma_first_key_absent, lemma_first_key_found, lemma_gather_ends,
    lemma_gather_missing, lemma_gather_next,
};
use crate::content_description::ContentType;
use crate::error::ReadFault;
use crate::layout::{text_at, three_point_at, uint_at};
use crate::parser::{lemma_views_push, PtSessionParser};
use crate::read_traits::{Endianness, ReadExt};
use crate::reader::ByteReader;
use crate::session::{lemma_block_children, views, Block, BlockView, Region, RegionView, Wav, WavView};

verus! {

/// What a region block says of its region: the name at byte 11, behind it the descriptor
/// with offset, start and length, and behind the block the number of the audio file.
/// The region is not numbered and its audio file not named yet.
pub open spec fn region_info(buf: Seq<u8>, big: bool, block: BlockView) -> Option<RegionView> {
    match text_at(buf, big, block.at(11)) {
        Some((name, behind)) => match (
            three_point_at(buf, big, behind),
            uint_at(buf, big, block.end(), 4),
        ) {
            (Some(point), Some(raw)) => Some(
                RegionView {
                    name,
                    index: 0,
                    start_pos: point.start,
                    sample_offset: point.offset,
                    len: point.len,
                    wav: Some(
                        WavView {
                            file_name: Seq::empty(),
                            index: raw % 0x1_0000,
                            pos_absolute: point.start,
                            len: point.len,
                        },
                    ),
                },
            ),
            _ => None,
        },
        None => None,
    }
}

/// The numbers of the audio files, in their order.
pub open spec fn wav_indices(files: Seq<WavView>) -> Seq<nat> {
    files.map_values(|wav: WavView| wav.index)
}

/// The region with its audio file named after the first of `files` that has the number
/// the region refers to. Where no file has that number the name stays empty.
pub open spec fn linked(region: RegionView, files: Seq<WavView>) -> RegionView {
    match region.wav {
        Some(wav) => match first_key(wav_indices(files), wav.index) {
            Some(i) => RegionView {
                wav: Some(WavView { file_name: files[i].file_name, ..wav }),
                ..region
            },
            None => region,
        },
        None => region,
    }
}

/// The region that one child of a region list describes, if the child is a region block.
pub open spec fn region_part(buf: Seq<u8>, big: bool, files: Seq<WavView>, child: BlockView) -> Option<
    Seq<RegionView>,
> {
    if child.content_type == ContentType::AUDIO_Region_Name_Number_v5.tag() || child.content_type
        == ContentType::AUDIO_Region_Name_Number_v10.tag() {
        match region_info(buf, big, child) {
            Some(region) => Some(seq![linked(region, files)]),
            None => None,
        }
    } else {
        Some(Seq::empty())
    }
}

/// The regions that the children of a region list describe, child by child.
pub open spec fn region_parts(
    buf: Seq<u8>,
    big: bool,
    files: Seq<WavView>,
    children: Seq<BlockView>,
) -> Seq<Option<Seq<RegionView>>> {
    children.map_values(|child: BlockView| region_part(buf, big, files, child))
}

/// The regions that the region lists describe, list by list.
pub open spec fn region_list_parts(
    buf: Seq<u8>,
    big: bool,
    files: Seq<WavView>,
    lists: Seq<BlockView>,
) -> Seq<Option<Seq<RegionView>>> {
    lists.map_values(|list: BlockView| gather(region_parts(buf, big, files, list.children)))
}

/// The regions, each numbered by its place in the sequence.
pub open spec fn numbered(regions: Seq<RegionView>) -> Seq<RegionView> {
    Seq::new(regions.len(), |i: int| RegionView { index: i as nat, ..regions[i] })
}

/// The regions of the session before any is placed on a track: all regions of all region
/// lists in the order of the file, numbered from 0 on.
pub open spec fn listed_regions(
    buf: Seq<u8>,
    big: bool,
    files: Seq<WavView>,
    lists: Seq<BlockView>,
) -> Option<Seq<RegionView>> {
    match gather(region_list_parts(buf, big, files, lists)) {
        Some(regions) => Some(numbered(regions)),
        None => None,
    }
}

/// A region that refers to an audio file that is not among `files` keeps the number it
/// refers to, and the name of its audio file stays empty.
pub proof fn lemma_unknown_wav_stays_unnamed(
    buf: Seq<u8>,
    big: bool,
    block: BlockView,
    files: Seq<WavView>,
)
    requires
        region_info(buf, big, block) is Some,
        forall|i: int|
            0 <= i < files.len() ==> files[i].index != region_info(
                buf,
                big,
                block,
            )->Some_0.wav->Some_0.index,
    ensures
        linked(region_info(buf, big, block)->Some_0, files) == region_info(buf, big, block)->Some_0,
        region_info(buf, big, block)->Some_0.wav is Some,
        region_info(buf, big, block)->Some_0.wav->Some_0.file_name.len() == 0,
        uint_at(buf, big, block.end(), 4) is Some,
        region_info(buf, big, block)->Some_0.wav->Some_0.index == uint_at(
            buf,
            big,
            block.end(),
            4,
        )->Some_0 % 0x1_0000,
{
    let region = region_info(buf, big, block)->Some_0;
    lemma_first_key_absent(wav_indices(files), region.wav->Some_0.index);
}

/// The position of the first audio file with the number `index`.
pub fn find_wav(files: &[Wav], index: u32) -> (found: Option<usize>)
    ensures
        match found {
            Some(i) => first_key(wav_indices(views(files@)), index as nat) == Some(i as int),
            None => first_key(wav_indices(views(files@)), index as nat) is None,
        },
        found matches Some(i) ==> i < files@.len(),
{
    let ghost keys = wav_indices(views(files@));
    let mut i: usize = 0;
    while i < files.len()
        invariant
            i <= files@.len(),
            keys == wav_indices(views(files@)),
            forall|j: int| 0 <= j < i ==> keys[j] != index as nat,
        decreases files@.len() - i,
    {
        if files[i].index == index {
            proof {
                lemma_first_key_found(keys, index as nat, i as int);
            }
            return Some(i);
        }
        i = i + 1;
    }
    proof {
        lemma_first_key_absent(keys, index as nat);
    }
    None
}

/// Names the audio file of a region after the first of `files` with its number.
pub fn link_region(region: Region, files: &[Wav]) -> (r: Region)
    ensures
        r@ == linked(region@, views(files@)),
{
    let Region { name, index, start_pos, sample_offset, len, wav } = region;
    let wav = match wav {
        Some(wav) => match find_wav(files, wav.index) {
            Some(i) => Some(
                Wav {
                    file_name: slice_to_vec(files[i].file_name.as_slice()),
                    index: wav.index,
                    pos_absolute: wav.pos_absolute,
                    len: wav.len,
                },
            ),
            None => Some(wav),
        },
        None => None,
    };
    Region { name, index, start_pos, sample_offset, len, wav }
}

impl PtSessionParser {
    /// Reads what a region block says of its region.
    pub fn parse_region_info(&self, block: &Block) -> (r: Result<Region, ReadFault>)
        ensures
            match r {
                Ok(region) => region_info(self.input(), self.big_endian(), block@) == Some(
                    region@,
                ),
                Err(e) => e == ReadFault::UnexpectedEof && region_info(
                    self.input(),
                    self.big_endian(),
                    block@,
                ) is None,
            },
    {
        let mut reader = ByteReader::new(self.unxored(), self.is_bigendian());
        reader.set_position(block.offset);
        reader.increment_position(11);
        let name = reader.parse_str()?;
        let (sample_offset, start, length) = reader.parse_three_point()?;
        reader.set_position(block.offset);
        reader.increment_position(block.size);
        let index = reader.read_u32()? % 0x1_0000;
        let wav = Wav { file_name: Vec::new(), index, pos_absolute: start, len: length };
        Ok(Region { name, index: 0, start_pos: start, sample_offset, len: length, wav: Some(wav) })
    }

    /// The regions that one region list describes, not numbered yet.
    pub fn parse_region_list(&self, list: &Block, audio_files: &[Wav]) -> (r: Result<
        Vec<Region>,
        ReadFault,
    >)
        ensures
            match r {
                Ok(regions) => gather(
                    region_parts(
                        self.input(),
                        self.big_endian(),
                        views(audio_files@),
                        list@.children,
                    ),
                ) == Some(views(regions@)),
                Err(e) => e == ReadFault::UnexpectedEof && gather(
                    region_parts(
                        self.input(),
                        self.big_endian(),
                        views(audio_files@),
                        list@.children,
                    ),
                ) is None,
            },
    {
        let ghost parts = region_parts(
            self.input(),
            self.big_endian(),
            views(audio_files@),
            list@.children,
        );
        let mut regions: Vec<Region> = Vec::new();
        proof {
            lemma_block_children(*list);
            lemma_gather_ends(parts);
        }
        let mut j: usize = 0;
        while j < list.children.len()
            invariant
                j <= list.children@.len(),
                list@.children == views(list.children@),
                parts == region_parts(
                    self.input(),
                    self.big_endian(),
                    views(audio_files@),
                    list@.children,
                ),
                gather(parts.take(j as int)) == Some(views(regions@)),
            decreases list.children@.len() - j,
        {
            let child = &list.children[j];
            proof {
                lemma_gather_next(parts, j as int);
            }
            if child.content_type == ContentType::AUDIO_Region_Name_Number_v5.code()
                || child.content_type == ContentType::AUDIO_Region_Name_Number_v10.code() {
                match self.parse_region_info(child) {
                    Ok(region) => {
                        let region = link_region(region, audio_files);
                        proof {
                            lemma_views_push(regions@, region);
                        }
                        regions.push(region);
                    },
                    Err(e) => {
                        proof {
                            lemma_gather_missing(parts, j + 1);
                        }
                        return Err(e);
                    },
                }
            }
            j = j + 1;
        }
        proof {
            lemma_gather_ends(parts);
        }
        Ok(regions)
    }

    /// The regions of the session before any is placed on a track.
    pub fn parse_regions(&self, audio_files: &[Wav]) -> (r: Result<Vec<Region>, ReadFault>)
        ensures
            match r {
                Ok(regions) => listed_regions(
                    self.input(),
                    self.big_endian(),
                    views(audio_files@),
                    self.blocks().region_to_wav_blocks,
                ) == Some(views(regions@)),
                Err(e) => e == ReadFault::UnexpectedEof && listed_regions(
                    self.input(),
                    self.big_endian(),
                    views(audio_files@),
                    self.blocks().region_to_wav_blocks,
                ) is None,
            },
    {
        let lists = &self.block_map().region_to_wav_blocks;
        let ghost parts = region_list_parts(
            self.input(),
            self.big_endian(),
            views(audio_files@),
            views(lists@),
        );
        let mut regions: Vec<Region> = Vec::new();
        proof {
            lemma_gather_ends(parts);
        }
        let mut k: usize = 0;
        while k < lists.len()
            invariant
                k <= lists@.len(),
                views(lists@) == self.blocks().region_to_wav_blocks,
                parts == region_list_parts(
                    self.input(),
                    self.big_endian(),
                    views(audio_files@),
                    views(lists@),
                ),
                gather(parts.take(k as int)) == Some(views(regions@)),
            decreases lists@.len() - k,
        {
            let list = &lists[k];
            proof {
                lemma_gather_next(parts, k as int);
            }
            match self.parse_region_list(list, audio_files) {
                Ok(mut part) => {
                    regions.append(&mut part);
                },
                Err(e) => {
                    proof {
                        lemma_gather_missing(parts, k + 1);
                    }
                    return Err(e);
                },
            }
            k = k + 1;
        }
        proof {
            lemma_gather_ends(parts);
        }
        let ghost listed = views(regions@);
        let mut i: usize = 0;
        while i < regions.len()
            invariant
                i <= regions@.len(),
                regions@.len() == listed.len(),
                forall|m: int|
                    0 <= m < i ==> (#[trigger] regions@[m])@ == (RegionView {
                        index: m as nat,
                        ..listed[m]
                    }),
                forall|m: int| i <= m < regions@.len() ==> (#[trigger] regions@[m])@ == listed[m],
            decreases regions@.len() - i,
        {
            regions[i].index = i;
            i = i + 1;
        }
        Ok(regions)
    }
}

} // verus!
