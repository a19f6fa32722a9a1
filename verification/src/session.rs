use vstd::prelude::*;
use vstd::slice::slice_to_vec;

verus! {

/// A node of the block tree of a session file.
#[derive(Debug, PartialEq, Eq)]
pub struct Block {
    /// The sentinel byte that every block begins with.
    pub z_mark: u8,
    /// The block's type; its upper byte is zero.
    pub block_type: u16,
    /// Length of the payload in bytes, the header not counted.
    pub size: usize,
    /// What the block means.
    pub content_type: u16,
    /// Where the payload begins in the decrypted buffer.
    pub offset: usize,
    /// The blocks found inside the payload, in the order of their positions.
    pub children: Vec<Block>,
}

/// An audio file that the session refers to.
#[derive(Default, Debug, Clone, PartialEq, Eq)]
pub struct Wav {
    pub file_name: Vec<u8>,
    pub index: u32,
    pub pos_absolute: u64,
    pub len: u64,
}

/// A named excerpt of an audio file.
#[derive(Default, Debug, Clone, PartialEq, Eq)]
pub struct Region {
    pub name: Vec<u8>,
    pub index: usize,
    pub start_pos: u64,
    pub sample_offset: u64,
    pub len: u64,
    pub wav: Option<Wav>,
}

/// A timeline lane with the regions placed on it.
#[derive(Default, Debug, Clone, PartialEq, Eq)]
pub struct Track {
    pub name: Vec<u8>,
    pub index: u16,
    pub regions: Vec<Region>,
}

/// A labelled point in time.
#[derive(Default, Debug, Clone, PartialEq, Eq)]
pub struct Marker {
    pub name: Vec<u8>,
    pub index: u16,
    pub comment: Vec<u8>,
    pub sample_offset: usize,
}

/// What a session file holds.
#[derive(Default, Debug, Clone, PartialEq, Eq)]
pub struct PtSession {
    pub session_sample_rate: u64,
    pub version: u8,
    pub audio_files: Vec<Wav>,
    pub audio_regions: Vec<Region>,
    pub audio_tracks: Vec<Track>,
    pub markers: Vec<Marker>,
}

/// The mathematical value of a [`Block`].
pub struct BlockView {
    pub z_mark: u8,
    pub block_type: u16,
    pub size: nat,
    pub content_type: u16,
    pub offset: nat,
    pub children: Seq<BlockView>,
}

impl BlockView {
    /// The position of byte `delta` of the payload.
    pub open spec fn at(self, delta: int) -> int {
        self.offset + delta
    }

    /// The position just behind the payload.
    pub open spec fn end(self) -> int {
        (self.offset + self.size) as int
    }
}

/// The mathematical value of a [`Wav`].
pub struct WavView {
    pub file_name: Seq<u8>,
    pub index: nat,
    pub pos_absolute: nat,
    pub len: nat,
}

/// The mathematical value of a [`Region`].
pub struct RegionView {
    pub name: Seq<u8>,
    pub index: nat,
    pub start_pos: nat,
    pub sample_offset: nat,
    pub len: nat,
    pub wav: Option<WavView>,
}

/// The mathematical value of a [`Track`].
pub struct TrackView {
    pub name: Seq<u8>,
    pub index: u16,
    pub regions: Seq<RegionView>,
}

/// The mathematical value of a [`Marker`].
pub struct MarkerView {
    pub name: Seq<u8>,
    pub index: u16,
    pub comment: Seq<u8>,
    pub sample_offset: nat,
}

/// The mathematical value of a [`PtSession`].
pub struct SessionView {
    pub session_sample_rate: nat,
    pub version: u8,
    pub audio_files: Seq<WavView>,
    pub audio_regions: Seq<RegionView>,
    pub audio_tracks: Seq<TrackView>,
    pub markers: Seq<MarkerView>,
}

/// The values of the items of a sequence, in order.
pub open spec fn views<T: View>(items: Seq<T>) -> Seq<T::V> {
    items.map_values(|item: T| item@)
}

/// The value of a block: its fields, and the values of its children.
pub open spec fn block_view(block: Block) -> BlockView
    decreases block,
{
    BlockView {
        z_mark: block.z_mark,
        block_type: block.block_type,
        size: block.size as nat,
        content_type: block.content_type,
        offset: block.offset as nat,
        children: Seq::new(
            block.children.len() as nat,
            |i: int|
                if 0 <= i < block.children.len() {
                    block_view(block.children[i])
                } else {
                    arbitrary()
                },
        ),
    }
}

impl View for Block {
    type V = BlockView;

    open spec fn view(&self) -> BlockView {
        block_view(*self)
    }
}

impl View for Wav {
    type V = WavView;

    open spec fn view(&self) -> WavView {
        WavView {
            file_name: self.file_name@,
            index: self.index as nat,
            pos_absolute: self.pos_absolute as nat,
            len: self.len as nat,
        }
    }
}

impl View for Region {
    type V = RegionView;

    open spec fn view(&self) -> RegionView {
        RegionView {
            name: self.name@,
            index: self.index as nat,
            start_pos: self.start_pos as nat,
            sample_offset: self.sample_offset as nat,
            len: self.len as nat,
            wav: match self.wav {
                Some(wav) => Some(wav@),
                None => None,
            },
        }
    }
}

impl View for Track {
    type V = TrackView;

    open spec fn view(&self) -> TrackView {
        TrackView { name: self.name@, index: self.index, regions: views(self.regions@) }
    }
}

impl View for Marker {
    type V = MarkerView;

    open spec fn view(&self) -> MarkerView {
        MarkerView {
            name: self.name@,
            index: self.index,
            comment: self.comment@,
            sample_offset: self.sample_offset as nat,
        }
    }
}

impl View for PtSession {
    type V = SessionView;

    open spec fn view(&self) -> SessionView {
        SessionView {
            session_sample_rate: self.session_sample_rate as nat,
            version: self.version,
            audio_files: views(self.audio_files@),
            audio_regions: views(self.audio_regions@),
            audio_tracks: views(self.audio_tracks@),
            markers: views(self.markers@),
        }
    }
}

/// The children of a block, as values.
pub proof fn lemma_block_children(block: Block)
    ensures
        block@.children == views(block.children@),
{
}

impl Wav {
    /// A copy of this audio file.
    pub fn copy(&self) -> (c: Wav)
        ensures
            c@ == self@,
    {
        Wav {
            file_name: slice_to_vec(self.file_name.as_slice()),
            index: self.index,
            pos_absolute: self.pos_absolute,
            len: self.len,
        }
    }
}

impl Region {
    /// A copy of this region.
    pub fn copy(&self) -> (c: Region)
        ensures
            c@ == self@,
    {
        Region {
            name: slice_to_vec(self.name.as_slice()),
            index: self.index,
            start_pos: self.start_pos,
            sample_offset: self.sample_offset,
            len: self.len,
            wav: match &self.wav {
                Some(wav) => Some(wav.copy()),
                None => None,
            },
        }
    }
}

} // verus!
