use vstd::prelude::*;
use crate::blocks::{
    block_at, block_sound, block_within, blocks_sound, lemma_tagged_sound,
    lemma_top_blocks_sound, tagged, top_blocks, top_blocks_from, FIRST_BLOCK,
};
use crate::content_description::ContentType;
use crate::decrypt::{find_bitcode, has_bitcode, unxor, unxored, HEADER_LEN};
use crate::error::{DecryptFault, PtError, ReadFault, VersionFault};
use crate::layout::{text_at, uint_at};
use crate::read_traits::{Endianness, ReadExt};
use crate::reader::ByteReader;
use crate::session::{views, Block, BlockView};

verus! {

/// Where the block stands that tells the version.
pub const VERSION_BLOCK: usize = 0x1f;

/// The top-level blocks that the extraction works on, sorted by what they hold.
#[derive(Debug, Default, PartialEq, Eq)]
pub struct BlockMap {
    pub wav_blocks: Vec<Block>,
    pub header_blocks: Vec<Block>,
    pub marker_blocks: Vec<Block>,
    pub region_to_wav_blocks: Vec<Block>,
    pub region_to_track_blocks: Vec<Block>,
    pub track_blocks: Vec<Block>,
}

/// The mathematical value of a [`BlockMap`].
pub struct BlockMapView {
    pub wav_blocks: Seq<BlockView>,
    pub header_blocks: Seq<BlockView>,
    pub marker_blocks: Seq<BlockView>,
    pub region_to_wav_blocks: Seq<BlockView>,
    pub region_to_track_blocks: Seq<BlockView>,
    pub track_blocks: Seq<BlockView>,
}

impl View for BlockMap {
    type V = BlockMapView;

    open spec fn view(&self) -> BlockMapView {
        BlockMapView {
            wav_blocks: views(self.wav_blocks@),
            header_blocks: views(self.header_blocks@),
            marker_blocks: views(self.marker_blocks@),
            region_to_wav_blocks: views(self.region_to_wav_blocks@),
            region_to_track_blocks: views(self.region_to_track_blocks@),
            track_blocks: views(self.track_blocks@),
        }
    }
}

/// The top-level blocks sorted into the six groups that the extraction reads.
pub open spec fn classify(blocks: Seq<BlockView>) -> BlockMapView {
    BlockMapView {
        wav_blocks: tagged(
            blocks,
            ContentType::WAV_List_Full.tag(),
            ContentType::WAV_List_Full.tag(),
        ),
        header_blocks: tagged(
            blocks,
            ContentType::INFO_SampleRate.tag(),
            ContentType::INFO_SampleRate.tag(),
        ),
        marker_blocks: tagged(
            blocks,
            ContentType::MARKER_List.tag(),
            ContentType::MARKER_List.tag(),
        ),
        region_to_wav_blocks: tagged(
            blocks,
            ContentType::AUDIO_Region_List_v5.tag(),
            ContentType::AUDIO_Region_List_v10.tag(),
        ),
        region_to_track_blocks: tagged(
            blocks,
            ContentType::AUDIO_Region_Track_Full_Map.tag(),
            ContentType::AUDIO_Region_Track_Full_Map_v8.tag(),
        ),
        track_blocks: tagged(
            blocks,
            ContentType::AUDIO_Tracks.tag(),
            ContentType::AUDIO_Tracks.tag(),
        ),
    }
}

/// Whether every block of the map, with all blocks below it, is sound within `bound`.
pub open spec fn map_sound(map: BlockMapView, bound: int) -> bool {
    &&& blocks_sound(map.wav_blocks, bound)
    &&& blocks_sound(map.header_blocks, bound)
    &&& blocks_sound(map.marker_blocks, bound)
    &&& blocks_sound(map.region_to_wav_blocks, bound)
    &&& blocks_sound(map.region_to_track_blocks, bound)
    &&& blocks_sound(map.track_blocks, bound)
}

/// Every block in the map of a session lies inside the buffer, begins with the sentinel
/// and has a type whose upper byte is zero, and so has every block below it, within
/// its parent.
pub proof fn lemma_classified_blocks_sound(buf: Seq<u8>, big: bool)
    ensures
        map_sound(classify(top_blocks(buf, big)), buf.len() as int),
{
    let blocks = top_blocks(buf, big);
    let bound = buf.len() as int;
    lemma_top_blocks_sound(buf, big, FIRST_BLOCK as int);
    lemma_tagged_sound(
        blocks,
        ContentType::WAV_List_Full.tag(),
        ContentType::WAV_List_Full.tag(),
        bound,
    );
    lemma_tagged_sound(
        blocks,
        ContentType::INFO_SampleRate.tag(),
        ContentType::INFO_SampleRate.tag(),
        bound,
    );
    lemma_tagged_sound(blocks, ContentType::MARKER_List.tag(), ContentType::MARKER_List.tag(), bound);
    lemma_tagged_sound(
        blocks,
        ContentType::AUDIO_Region_List_v5.tag(),
        ContentType::AUDIO_Region_List_v10.tag(),
        bound,
    );
    lemma_tagged_sound(
        blocks,
        ContentType::AUDIO_Region_Track_Full_Map.tag(),
        ContentType::AUDIO_Region_Track_Full_Map_v8.tag(),
        bound,
    );
    lemma_tagged_sound(
        blocks,
        ContentType::AUDIO_Tracks.tag(),
        ContentType::AUDIO_Tracks.tag(),
        bound,
    );
}

/// The map without any block.
pub open spec fn empty_map() -> BlockMapView {
    BlockMapView {
        wav_blocks: Seq::empty(),
        header_blocks: Seq::empty(),
        marker_blocks: Seq::empty(),
        region_to_wav_blocks: Seq::empty(),
        region_to_track_blocks: Seq::empty(),
        track_blocks: Seq::empty(),
    }
}

/// Why the row of top-level blocks from `i` on ends before the end of the buffer, if it does.
pub open spec fn top_fault_from(buf: Seq<u8>, big: bool, i: int) -> Option<ReadFault>
    decreases buf.len() - i,
{
    if 0 <= i < buf.len() {
        match block_at(buf, big, i, buf.len() as int) {
            Ok(block) => top_fault_from(
                buf,
                big,
                i + if block.size > 0 {
                    block.size + 7
                } else {
                    1
                },
            ),
            Err(fault) => Some(fault),
        }
    } else {
        None
    }
}

/// The version that the fixed positions of the buffer give where no version block is
/// found: byte `0x40` if it is set, else byte `0x3d` if it is set, else byte `0x3a` plus
/// two if that byte is set. A byte that is zero gives no version, and neither does a sum
/// that does not fit a byte.
pub open spec fn fallback_version(buf: Seq<u8>) -> Option<u8> {
    if buf.len() <= 0x40 {
        None
    } else if buf[0x40] != 0 {
        Some(buf[0x40])
    } else if buf[0x3d] != 0 {
        Some(buf[0x3d])
    } else if buf[0x3a] != 0 && buf[0x3a] + 2 <= 0xff {
        Some((buf[0x3a] + 2) as u8)
    } else {
        None
    }
}

/// Where no block stands in the place of the version block and the three fallback bytes
/// are all zero, no version is made out.
pub proof fn lemma_no_version_without_bytes(buf: Seq<u8>, big: bool)
    requires
        block_at(buf, big, VERSION_BLOCK as int, buf.len() as int) is Err,
        buf.len() > 0x40 ==> buf[0x40] == 0 && buf[0x3d] == 0 && buf[0x3a] == 0,
    ensures
        fallback_version(buf) is None,
        version_of(buf, big) == Err::<u8, PtError>(PtError::Version(VersionFault::Missing)),
{
}

/// The Pro Tools version of a decrypted session file.
///
/// A version block holds a string and, eight bytes behind the string's own bytes, the
/// version; a block with the session's path holds the version less two at byte 20.
pub open spec fn version_of(buf: Seq<u8>, big: bool) -> Result<u8, PtError> {
    match block_at(buf, big, VERSION_BLOCK as int, buf.len() as int) {
        Ok(block) => {
            if block.content_type == ContentType::INFO_Version.tag() {
                match text_at(buf, big, block.at(3)) {
                    Some((text, end)) => match uint_at(
                        buf,
                        big,
                        block.at(3) + text.len() + 8,
                        4,
                    ) {
                        Some(v) => Ok((v % 256) as u8),
                        None => Err(PtError::Io(ReadFault::UnexpectedEof)),
                    },
                    None => Err(PtError::Io(ReadFault::UnexpectedEof)),
                }
            } else if block.content_type == ContentType::INFO_Path_of_Session.tag() {
                match uint_at(buf, big, block.at(20), 4) {
                    Some(v) => Ok(((v % 256 + 2) % 256) as u8),
                    None => Err(PtError::Io(ReadFault::UnexpectedEof)),
                }
            } else {
                Err(PtError::Version(VersionFault::UnknownBlock(block.content_type)))
            }
        },
        Err(_) => match fallback_version(buf) {
            Some(v) => Ok(v),
            None => Err(PtError::Version(VersionFault::Missing)),
        },
    }
}

/// Whether a decrypted buffer shows itself to be a session file: it begins with `03` or
/// holds the two bytes `2F 2B` somewhere.
pub open spec fn has_sentinel(buf: Seq<u8>) -> bool {
    buf[0] == 0x03 || has_bitcode(buf)
}

/// What is known of a session file once it is decrypted: its plain bytes, its byte order
/// and its version.
pub struct Opened {
    pub input: Seq<u8>,
    pub big_endian: bool,
    pub version: u8,
}

/// Decrypts a session file and reads what its header says.
///
/// The decrypted buffer has to begin with `03` or hold the sentinel `2F 2B`; byte `0x11`
/// has to be 0 for little-endian or 1 for big-endian.
pub open spec fn opened(raw: Seq<u8>) -> Result<Opened, PtError> {
    match unxored(raw) {
        Err(fault) => Err(PtError::Decrypt(fault)),
        Ok(buf) => {
            if !has_sentinel(buf) {
                Err(PtError::BitCode)
            } else if buf[0x11] != 0 && buf[0x11] != 1 {
                Err(PtError::Endianness)
            } else {
                match version_of(buf, buf[0x11] == 1) {
                    Ok(version) => Ok(Opened { input: buf, big_endian: buf[0x11] == 1, version }),
                    Err(e) => Err(e),
                }
            }
        },
    }
}

/// The sample rate of the session: a 32-bit number four bytes into the first header block.
pub open spec fn sample_rate(buf: Seq<u8>, big: bool, header_blocks: Seq<BlockView>) -> Result<
    nat,
    PtError,
> {
    if header_blocks.len() == 0 {
        Err(PtError::Parse)
    } else {
        match uint_at(buf, big, header_blocks[0].at(4), 4) {
            Some(rate) => Ok(rate),
            None => Err(PtError::Io(ReadFault::UnexpectedEof)),
        }
    }
}

/// A decrypted session file with what was found in it so far.
pub struct PtSessionParser {
    data: Vec<u8>,
    is_bigendian: bool,
    block_map: BlockMap,
    version: u8,
}

impl Endianness for PtSessionParser {
    closed spec fn big_endian(&self) -> bool {
        self.is_bigendian
    }

    fn is_bigendian(&self) -> (b: bool) {
        self.is_bigendian
    }
}

impl PtSessionParser {
    /// The decrypted bytes of the session file.
    pub closed spec fn input(&self) -> Seq<u8> {
        self.data@
    }

    /// The Pro Tools version that wrote the session.
    pub closed spec fn version(&self) -> u8 {
        self.version
    }

    /// The top-level blocks found so far, by group.
    pub closed spec fn blocks(&self) -> BlockMapView {
        self.block_map@
    }

    /// The decrypted bytes of the session file.
    pub fn unxored(&self) -> (bytes: &[u8])
        ensures
            bytes@ == self.input(),
    {
        self.data.as_slice()
    }

    /// The Pro Tools version that wrote the session.
    pub fn session_version(&self) -> (version: u8)
        ensures
            version == self.version(),
    {
        self.version
    }

    /// The top-level blocks found so far, by group.
    pub fn block_map(&self) -> (map: &BlockMap)
        ensures
            map@ == self.blocks(),
    {
        &self.block_map
    }

    /// Decrypts the bytes of a session file, makes sure that they are a session file, and
    /// reads byte order and version.
    pub fn decrypt(raw: &[u8]) -> (r: Result<Self, PtError>)
        ensures
            match r {
                Ok(parser) => opened(raw@) == Ok::<Opened, PtError>(
                    Opened {
                        input: parser.input(),
                        big_endian: parser.big_endian(),
                        version: parser.version(),
                    },
                ) && parser.blocks() == empty_map(),
                Err(e) => opened(raw@) == Err::<Opened, PtError>(e),
            },
            r matches Ok(parser) ==> parser.input().len() == raw@.len() && parser.input().subrange(
                0,
                HEADER_LEN as int,
            ) == raw@.subrange(0, HEADER_LEN as int),
            raw@.len() < HEADER_LEN ==> r == Err::<Self, PtError>(
                PtError::Decrypt(DecryptFault::TooSmall),
            ),
            raw@.len() >= HEADER_LEN && raw@[0x12] != 0x01 && raw@[0x12] != 0x05 ==> r == Err::<
                Self,
                PtError,
            >(PtError::Decrypt(DecryptFault::UnknownXorType)),
            unxored(raw@) is Ok && !has_sentinel(unxored(raw@)->Ok_0) ==> r == Err::<Self, PtError>(
                PtError::BitCode,
            ),
            unxored(raw@) is Ok && has_sentinel(unxored(raw@)->Ok_0) && raw@[0x11] != 0
                && raw@[0x11] != 1 ==> r == Err::<Self, PtError>(PtError::Endianness),
            unxored(raw@) is Ok && has_sentinel(unxored(raw@)->Ok_0) && (raw@[0x11] == 0
                || raw@[0x11] == 1) && block_at(
                unxored(raw@)->Ok_0,
                raw@[0x11] == 1,
                VERSION_BLOCK as int,
                raw@.len() as int,
            ) is Err && fallback_version(unxored(raw@)->Ok_0) is None ==> r == Err::<Self, PtError>(
                PtError::Version(VersionFault::Missing),
            ),
            unxored(raw@) is Ok && has_sentinel(unxored(raw@)->Ok_0) && (raw@[0x11] == 0
                || raw@[0x11] == 1) && block_at(
                unxored(raw@)->Ok_0,
                raw@[0x11] == 1,
                VERSION_BLOCK as int,
                raw@.len() as int,
            ) is Err && raw@.len() > 0x40 && unxored(raw@)->Ok_0[0x40] == 0 && unxored(
                raw@,
            )->Ok_0[0x3d] == 0 && unxored(raw@)->Ok_0[0x3a] == 0 ==> r == Err::<Self, PtError>(
                PtError::Version(VersionFault::Missing),
            ),
    {
        let ptf_unxored = match unxor(raw) {
            Ok(plain) => plain,
            Err(fault) => {
                return Err(PtError::Decrypt(fault));
            },
        };
        if ptf_unxored[0] != 0x03 && find_bitcode(ptf_unxored.as_slice()).is_none() {
            return Err(PtError::BitCode);
        }
        let is_bigendian = match ptf_unxored[0x11] {
            1 => true,
            0 => false,
            _ => {
                return Err(PtError::Endianness);
            },
        };
        let mut session_parser = PtSessionParser {
            data: ptf_unxored,
            is_bigendian,
            block_map: BlockMap {
                wav_blocks: Vec::new(),
                header_blocks: Vec::new(),
                marker_blocks: Vec::new(),
                region_to_wav_blocks: Vec::new(),
                region_to_track_blocks: Vec::new(),
                track_blocks: Vec::new(),
            },
            version: 0,
        };
        proof {
            lemma_empty_map(session_parser.block_map);
        }
        match session_parser.parse_version() {
            Ok(()) => Ok(session_parser),
            Err(e) => Err(e),
        }
    }

    /// Finds the block at `pos`, which has to end where the payload of `parent` ends, or
    /// inside the buffer if it has no parent.
    pub fn parse_block_at(&self, pos: usize, parent: Option<&Block>) -> (r: Result<
        Block,
        ReadFault,
    >)
        ensures
            match r {
                Ok(block) => block_at(
                    self.input(),
                    self.big_endian(),
                    pos as int,
                    block_bound(self.input(), parent),
                ) == Ok::<BlockView, ReadFault>(block@),
                Err(e) => block_at(
                    self.input(),
                    self.big_endian(),
                    pos as int,
                    block_bound(self.input(), parent),
                ) == Err::<BlockView, ReadFault>(e),
            },
            r matches Ok(block) ==> block_sound(block@, block_bound(self.input(), parent)),
    {
        let max: u128 = match parent {
            Some(p) => p.size as u128 + p.offset as u128,
            None => self.data.len() as u128,
        };
        block_within(self.data.as_slice(), self.is_bigendian, pos, max)
    }

    /// Reads the version from the block at `0x1f`, or from fixed bytes where no block
    /// stands there.
    pub fn parse_version(&mut self) -> (r: Result<(), PtError>)
        ensures
            final(self).input() == old(self).input(),
            final(self).big_endian() == old(self).big_endian(),
            final(self).blocks() == old(self).blocks(),
            match r {
                Ok(()) => version_of(old(self).input(), old(self).big_endian()) == Ok::<
                    u8,
                    PtError,
                >(final(self).version()),
                Err(e) => version_of(old(self).input(), old(self).big_endian()) == Err::<
                    u8,
                    PtError,
                >(e) && final(self).version() == old(self).version(),
            },
    {
        let len = self.data.len();
        match block_within(self.data.as_slice(), self.is_bigendian, VERSION_BLOCK, len as u128) {
            Ok(block) => {
                let mut reader = ByteReader::new(self.data.as_slice(), self.is_bigendian);
                if block.content_type == ContentType::INFO_Version.code() {
                    match reader.parse_str_at(block.offset + 3) {
                        Ok(_) => {},
                        Err(e) => {
                            return Err(PtError::Io(e));
                        },
                    }
                    reader.increment_position(4);
                    match reader.read_u32() {
                        Ok(v) => {
                            self.version = (v % 256) as u8;
                        },
                        Err(e) => {
                            return Err(PtError::Io(e));
                        },
                    }
                } else if block.content_type == ContentType::INFO_Path_of_Session.code() {
                    reader.set_position(block.offset + 20);
                    match reader.read_u32() {
                        Ok(v) => {
                            self.version = ((v % 256 + 2) % 256) as u8;
                        },
                        Err(e) => {
                            return Err(PtError::Io(e));
                        },
                    }
                } else {
                    return Err(PtError::Version(VersionFault::UnknownBlock(block.content_type)));
                }
            },
            Err(_) => {
                if len <= 0x40 {
                    return Err(PtError::Version(VersionFault::Missing));
                }
                let mut version = self.data[0x40];
                if version == 0 {
                    version = self.data[0x3d];
                }
                if version == 0 {
                    let third = self.data[0x3a];
                    if third != 0 && third <= 0xfd {
                        version = third + 2;
                    }
                }
                if version != 0 {
                    self.version = version;
                } else {
                    return Err(PtError::Version(VersionFault::Missing));
                }
            },
        }
        Ok(())
    }

    /// Finds the top-level blocks and sorts them into the block map. The row of blocks
    /// ends at the first position where none is found; the fault met there is returned.
    pub fn parse_blocks(&mut self) -> (r: Result<(), PtError>)
        ensures
            final(self).input() == old(self).input(),
            final(self).big_endian() == old(self).big_endian(),
            final(self).version() == old(self).version(),
            final(self).blocks() == classify(top_blocks(old(self).input(), old(self).big_endian())),
            map_sound(final(self).blocks(), old(self).input().len() as int),
            match r {
                Ok(()) => top_fault_from(
                    old(self).input(),
                    old(self).big_endian(),
                    FIRST_BLOCK as int,
                ) is None,
                Err(e) => top_fault_from(
                    old(self).input(),
                    old(self).big_endian(),
                    FIRST_BLOCK as int,
                ) matches Some(fault) && e == PtError::Io(fault),
            },
    {
        let mut block_map = BlockMap {
            wav_blocks: Vec::new(),
            header_blocks: Vec::new(),
            marker_blocks: Vec::new(),
            region_to_wav_blocks: Vec::new(),
            region_to_track_blocks: Vec::new(),
            track_blocks: Vec::new(),
        };
        let len = self.data.len();
        let mut i: usize = FIRST_BLOCK;
        let mut outcome: Result<(), PtError> = Ok(());
        let ghost buf = self.data@;
        let ghost big = self.is_bigendian;
        let ghost mut done: Seq<BlockView> = Seq::empty();
        proof {
            lemma_empty_map(block_map);
            lemma_classify_empty();
        }
        while i < len && outcome.is_ok()
            invariant
                FIRST_BLOCK <= i,
                len == buf.len(),
                buf == self.data@,
                big == self.is_bigendian,
                block_map@ == classify(done),
                match outcome {
                    Ok(()) => done + top_blocks_from(buf, big, i as int) == top_blocks(buf, big)
                        && top_fault_from(buf, big, i as int) == top_fault_from(
                        buf,
                        big,
                        FIRST_BLOCK as int,
                    ),
                    Err(e) => done == top_blocks(buf, big) && top_fault_from(
                        buf,
                        big,
                        FIRST_BLOCK as int,
                    ) is Some && e == PtError::Io(
                        top_fault_from(buf, big, FIRST_BLOCK as int)->Some_0,
                    ),
                },
            decreases len - i + if outcome is Ok { 1int } else { 0int },
        {
            match block_within(self.data.as_slice(), self.is_bigendian, i, len as u128) {
                Ok(block) => {
                    proof {
                        lemma_classify_push(done, block@);
                        done = done.push(block@);
                    }
                    i = i + if block.size > 0 {
                        block.size + 7
                    } else {
                        1
                    };
                    let kind = block.content_type;
                    if kind == ContentType::INFO_SampleRate.code() {
                        proof {
                            lemma_views_push(block_map.header_blocks@, block);
                        }
                        block_map.header_blocks.push(block);
                    } else if kind == ContentType::WAV_List_Full.code() {
                        proof {
                            lemma_views_push(block_map.wav_blocks@, block);
                        }
                        block_map.wav_blocks.push(block);
                    } else if kind == ContentType::AUDIO_Region_List_v5.code() || kind
                        == ContentType::AUDIO_Region_List_v10.code() {
                        proof {
                            lemma_views_push(block_map.region_to_wav_blocks@, block);
                        }
                        block_map.region_to_wav_blocks.push(block);
                    } else if kind == ContentType::AUDIO_Tracks.code() {
                        proof {
                            lemma_views_push(block_map.track_blocks@, block);
                        }
                        block_map.track_blocks.push(block);
                    } else if kind == ContentType::AUDIO_Region_Track_Full_Map.code() || kind
                        == ContentType::AUDIO_Region_Track_Full_Map_v8.code() {
                        proof {
                            lemma_views_push(block_map.region_to_track_blocks@, block);
                        }
                        block_map.region_to_track_blocks.push(block);
                    } else if kind == ContentType::MARKER_List.code() {
                        proof {
                            lemma_views_push(block_map.marker_blocks@, block);
                        }
                        block_map.marker_blocks.push(block);
                    }
                },
                Err(e) => {
                    outcome = Err(PtError::Io(e));
                },
            }
        }
        proof {
            lemma_classified_blocks_sound(buf, big);
        }
        self.block_map = block_map;
        outcome
    }

    /// Reads the sample rate of the session from the first header block.
    pub fn parse_header(&self) -> (r: Result<u64, PtError>)
        ensures
            match r {
                Ok(rate) => sample_rate(self.input(), self.big_endian(), self.blocks().header_blocks)
                    == Ok::<nat, PtError>(rate as nat),
                Err(e) => sample_rate(self.input(), self.big_endian(), self.blocks().header_blocks)
                    == Err::<nat, PtError>(e),
            },
    {
        if self.block_map.header_blocks.len() == 0 {
            return Err(PtError::Parse);
        }
        let offset = self.block_map.header_blocks[0].offset;
        let mut reader = ByteReader::new(self.data.as_slice(), self.is_bigendian);
        reader.set_position(offset);
        reader.increment_position(4);
        match reader.read_u32() {
            Ok(rate) => Ok(rate as u64),
            Err(e) => Err(PtError::Io(e)),
        }
    }
}

/// The bound that a block has to stay within: the end of its parent's payload, or the end
/// of the buffer.
pub open spec fn block_bound(buf: Seq<u8>, parent: Option<&Block>) -> int {
    match parent {
        Some(p) => p.size + p.offset,
        None => buf.len() as int,
    }
}

/// A map whose groups are all empty is the empty map.
proof fn lemma_empty_map(map: BlockMap)
    requires
        map.wav_blocks@.len() == 0,
        map.header_blocks@.len() == 0,
        map.marker_blocks@.len() == 0,
        map.region_to_wav_blocks@.len() == 0,
        map.region_to_track_blocks@.len() == 0,
        map.track_blocks@.len() == 0,
    ensures
        map@ == empty_map(),
{
    assert(map@.wav_blocks =~= Seq::<BlockView>::empty());
    assert(map@.header_blocks =~= Seq::<BlockView>::empty());
    assert(map@.marker_blocks =~= Seq::<BlockView>::empty());
    assert(map@.region_to_wav_blocks =~= Seq::<BlockView>::empty());
    assert(map@.region_to_track_blocks =~= Seq::<BlockView>::empty());
    assert(map@.track_blocks =~= Seq::<BlockView>::empty());
}

/// Without blocks every group is empty.
proof fn lemma_classify_empty()
    ensures
        classify(Seq::<BlockView>::empty()) == empty_map(),
{
    reveal(Seq::filter);
}

/// The values of a vector that gained an item are the values it had, and the item's.
pub proof fn lemma_views_push<T: View>(items: Seq<T>, item: T)
    ensures
        views(items.push(item)) == views(items).push(item@),
{
}

/// A block that joins the row joins the group of its content type and no other.
proof fn lemma_classify_push(done: Seq<BlockView>, block: BlockView)
    ensures
        classify(done.push(block)) == (BlockMapView {
            wav_blocks: if block.content_type == ContentType::WAV_List_Full.tag() {
                classify(done).wav_blocks.push(block)
            } else {
                classify(done).wav_blocks
            },
            header_blocks: if block.content_type == ContentType::INFO_SampleRate.tag() {
                classify(done).header_blocks.push(block)
            } else {
                classify(done).header_blocks
            },
            marker_blocks: if block.content_type == ContentType::MARKER_List.tag() {
                classify(done).marker_blocks.push(block)
            } else {
                classify(done).marker_blocks
            },
            region_to_wav_blocks: if block.content_type == ContentType::AUDIO_Region_List_v5.tag()
                || block.content_type == ContentType::AUDIO_Region_List_v10.tag() {
                classify(done).region_to_wav_blocks.push(block)
            } else {
                classify(done).region_to_wav_blocks
            },
            region_to_track_blocks: if block.content_type
                == ContentType::AUDIO_Region_Track_Full_Map.tag() || block.content_type
                == ContentType::AUDIO_Region_Track_Full_Map_v8.tag() {
                classify(done).region_to_track_blocks.push(block)
            } else {
                classify(done).region_to_track_blocks
            },
            track_blocks: if block.content_type == ContentType::AUDIO_Tracks.tag() {
                classify(done).track_blocks.push(block)
            } else {
                classify(done).track_blocks
            },
        }),
{
    reveal(Seq::filter);
    assert(done.push(block).drop_last() =~= done);
}

} // verus!
