use vstd::prelude::*;
use vstd::slice::slice_subrange;
use crate::blocks::{lemma_tagged_ends, lemma_tagged_next, tagged};
use crate::collect::{
    chain, gap, gather, lemma_chain_ends, lemma_chain_next, lemma_gather_ends,
    lemma_gather_missing, lemma_gather_next, prepend,
};
use crate::content_description::ContentType;
use crate::error::ReadFault;
use crate::layout::{fits, text_at, uint_at};
use crate::parser::{lemma_views_push, PtSessionParser};
use crate::read_traits::{Endianness, ReadExt};
use crate::reader::ByteReader;
use crate::session::{lemma_block_children, views, Block, BlockView, Wav, WavView};

verus! {

/// Whether `needle` stands in `hay` at position `i`.
pub open spec fn occurs_at(hay: Seq<u8>, needle: Seq<u8>, i: int) -> bool {
    0 <= i && i + needle.len() <= hay.len() && hay.subrange(i, i + needle.len()) == needle
}

/// Whether `needle` stands anywhere in `hay`.
pub open spec fn contains_bytes(hay: Seq<u8>, needle: Seq<u8>) -> bool {
    exists|i: int| occurs_at(hay, needle, i)
}

/// The bytes of `.grp`.
pub open spec fn text_grp() -> Seq<u8> {
    seq![0x2e, 0x67, 0x72, 0x70]
}

/// The bytes of `Audio Files`.
pub open spec fn text_audio_files() -> Seq<u8> {
    seq![0x41, 0x75, 0x64, 0x69, 0x6f, 0x20, 0x46, 0x69, 0x6c, 0x65, 0x73]
}

/// The bytes of `Fade Files`.
pub open spec fn text_fade_files() -> Seq<u8> {
    seq![0x46, 0x61, 0x64, 0x65, 0x20, 0x46, 0x69, 0x6c, 0x65, 0x73]
}

/// The bytes of `WAVE`.
pub open spec fn text_wave() -> Seq<u8> {
    seq![0x57, 0x41, 0x56, 0x45]
}

/// The bytes of `EVAW`.
pub open spec fn text_evaw() -> Seq<u8> {
    seq![0x45, 0x56, 0x41, 0x57]
}

/// The bytes of `AIFF`.
pub open spec fn text_aiff() -> Seq<u8> {
    seq![0x41, 0x49, 0x46, 0x46]
}

/// The bytes of `FFIA`.
pub open spec fn text_ffia() -> Seq<u8> {
    seq![0x46, 0x46, 0x49, 0x41]
}

/// The bytes of `.wav`.
pub open spec fn text_dot_wav() -> Seq<u8> {
    seq![0x2e, 0x77, 0x61, 0x76]
}

/// The bytes of `.aif`.
pub open spec fn text_dot_aif() -> Seq<u8> {
    seq![0x2e, 0x61, 0x69, 0x66]
}

/// Whether a name stands for a group or a folder instead of an audio file.
pub open spec fn is_container_name(name: Seq<u8>) -> bool {
    contains_bytes(name, text_grp()) || contains_bytes(name, text_audio_files()) || contains_bytes(
        name,
        text_fade_files(),
    )
}

/// Whether a type tag is one of the audio file types, in either byte order.
pub open spec fn is_audio_type(wav_type: Seq<u8>) -> bool {
    contains_bytes(wav_type, text_wave()) || contains_bytes(wav_type, text_evaw())
        || contains_bytes(wav_type, text_aiff()) || contains_bytes(wav_type, text_ffia())
}

/// Whether an entry of a list of names is taken for an audio file.
///
/// Groups and folders are never taken. Up to version 9 the type tag decides; from version
/// 10 on it decides where there is one, and the name's ending where there is none.
pub open spec fn wav_accepted(version: u8, name: Seq<u8>, wav_type: Seq<u8>) -> bool {
    !is_container_name(name) && if version < 10 {
        is_audio_type(wav_type)
    } else if wav_type.len() != 0 {
        is_audio_type(wav_type)
    } else {
        contains_bytes(name, text_dot_wav()) || contains_bytes(name, text_dot_aif())
    }
}

/// An audio file of which only name and number are known.
pub open spec fn named_wav(name: Seq<u8>, index: nat) -> WavView {
    WavView { file_name: name, index, pos_absolute: 0, len: 0 }
}

/// The audio files named from `pos` on in a list of names that ends at `end`, numbered
/// from `n` on, `limit` files at most.
///
/// An entry is a length-prefixed name, a type tag of four bytes, and five bytes more.
pub open spec fn wav_run(
    buf: Seq<u8>,
    big: bool,
    version: u8,
    end: int,
    limit: nat,
    pos: int,
    n: nat,
) -> Option<Seq<WavView>>
    decreases gap(end, pos),
{
    if pos < end && n < limit {
        match text_at(buf, big, pos) {
            Some((name, behind)) => {
                if fits(buf, behind, 4) {
                    if wav_accepted(version, name, buf.subrange(behind, behind + 4)) {
                        prepend(
                            seq![named_wav(name, n)],
                            wav_run(buf, big, version, end, limit, behind + 9, n + 1),
                        )
                    } else {
                        wav_run(buf, big, version, end, limit, behind + 9, n)
                    }
                } else {
                    None
                }
            },
            None => None,
        }
    } else {
        Some(Seq::empty())
    }
}

/// The audio files that one child of a list of audio files names, numbered from `n` on.
/// Only a list of names names any.
pub open spec fn wav_names_part(
    buf: Seq<u8>,
    big: bool,
    version: u8,
    num_waves: nat,
    child: BlockView,
    n: nat,
) -> Option<Seq<WavView>> {
    if child.content_type == ContentType::WAV_Names.tag() {
        wav_run(buf, big, version, child.end(), num_waves, child.at(11), n)
    } else {
        Some(Seq::empty())
    }
}

/// The audio files that the children of a list of audio files name. One count runs
/// through all children: each child numbers its files from the number of files that the
/// children before it gave, and all children together give `num_waves` files at most.
pub open spec fn wav_names_all(
    buf: Seq<u8>,
    big: bool,
    version: u8,
    num_waves: nat,
    children: Seq<BlockView>,
) -> Option<Seq<WavView>>
    decreases children.len(),
{
    if children.len() == 0 {
        Some(Seq::empty())
    } else {
        match wav_names_all(buf, big, version, num_waves, children.drop_last()) {
            Some(head) => prepend(
                head,
                wav_names_part(buf, big, version, num_waves, children.last(), head.len()),
            ),
            None => None,
        }
    }
}

/// The audio files that one list names. The list tells at byte 2 how many files it holds.
pub open spec fn wav_list_files(buf: Seq<u8>, big: bool, version: u8, list: BlockView) -> Option<
    Seq<WavView>,
> {
    match uint_at(buf, big, list.at(2), 4) {
        Some(num_waves) => wav_names_all(buf, big, version, num_waves, list.children),
        None => None,
    }
}

/// The audio files that the lists name, list by list.
pub open spec fn wav_list_parts(
    buf: Seq<u8>,
    big: bool,
    version: u8,
    wav_blocks: Seq<BlockView>,
) -> Seq<Option<Seq<WavView>>> {
    wav_blocks.map_values(|list: BlockView| wav_list_files(buf, big, version, list))
}

/// All audio files that the session names, in the order of the file.
pub open spec fn named_files(buf: Seq<u8>, big: bool, version: u8, wav_blocks: Seq<BlockView>) -> Option<
    Seq<WavView>,
> {
    gather(wav_list_parts(buf, big, version, wav_blocks))
}

/// The blocks below a metadata block that hold the length of an audio file.
pub open spec fn size_blocks_of_meta(meta: BlockView) -> Seq<BlockView> {
    if meta.content_type == ContentType::WAV_Metadata.tag() {
        tagged(
            meta.children,
            ContentType::WAV_SampleRate_Size.tag(),
            ContentType::WAV_SampleRate_Size.tag(),
        )
    } else {
        Seq::empty()
    }
}

/// The length blocks of the children of a list, child by child.
pub open spec fn size_block_parts(children: Seq<BlockView>) -> Seq<Seq<BlockView>> {
    children.map_values(|meta: BlockView| size_blocks_of_meta(meta))
}

/// The length blocks of the lists, list by list.
pub open spec fn size_list_parts(wav_blocks: Seq<BlockView>) -> Seq<Seq<BlockView>> {
    wav_blocks.map_values(|list: BlockView| chain(size_block_parts(list.children)))
}

/// All blocks that hold the length of an audio file, in the order of the file.
pub open spec fn size_blocks(wav_blocks: Seq<BlockView>) -> Seq<BlockView> {
    chain(size_list_parts(wav_blocks))
}

/// The length that a length block holds: a 64-bit number at byte 8.
pub open spec fn wav_len_at(buf: Seq<u8>, big: bool, block: BlockView) -> Option<nat> {
    uint_at(buf, big, block.at(8), 8)
}

/// The audio files with their lengths: the first file gets the length of the first length
/// block, the second that of the second, as far as files and length blocks go.
pub open spec fn with_lengths(
    buf: Seq<u8>,
    big: bool,
    files: Seq<WavView>,
    sizes: Seq<BlockView>,
) -> Option<Seq<WavView>> {
    if forall|i: int|
        0 <= i < files.len() && i < sizes.len() ==> (#[trigger] wav_len_at(buf, big, sizes[i]))
            is Some {
        Some(
            Seq::new(
                files.len(),
                |i: int|
                    if i < sizes.len() {
                        WavView { len: wav_len_at(buf, big, sizes[i])->Some_0, ..files[i] }
                    } else {
                        files[i]
                    },
            ),
        )
    } else {
        None
    }
}

/// The audio files of the session.
pub open spec fn audio_files(buf: Seq<u8>, big: bool, version: u8, wav_blocks: Seq<BlockView>) -> Option<
    Seq<WavView>,
> {
    match named_files(buf, big, version, wav_blocks) {
        Some(files) => with_lengths(buf, big, files, size_blocks(wav_blocks)),
        None => None,
    }
}

/// The audio files of one list of names are numbered one after the other, from the
/// number that the first of them gets, and are no more than the list may yield.
pub proof fn lemma_wav_run_numbered(
    buf: Seq<u8>,
    big: bool,
    version: u8,
    end: int,
    limit: nat,
    pos: int,
    n: nat,
)
    requires
        wav_run(buf, big, version, end, limit, pos, n) is Some,
        n <= limit,
    ensures
        n + wav_run(buf, big, version, end, limit, pos, n)->Some_0.len() <= limit,
        forall|k: int|
            0 <= k < wav_run(buf, big, version, end, limit, pos, n)->Some_0.len() ==> (
            #[trigger] wav_run(buf, big, version, end, limit, pos, n)->Some_0[k]).index == n + k,
    decreases gap(end, pos),
{
    if pos < end && n < limit {
        let (name, behind) = text_at(buf, big, pos)->Some_0;
        if wav_accepted(version, name, buf.subrange(behind, behind + 4)) {
            lemma_wav_run_numbered(buf, big, version, end, limit, behind + 9, n + 1);
        } else {
            lemma_wav_run_numbered(buf, big, version, end, limit, behind + 9, n);
        }
    }
}

/// The audio files that the children of a list name are no more than the list may hold,
/// and the first of them carries the number 0, the second the number 1, and so on.
pub proof fn lemma_wav_names_all_numbered(
    buf: Seq<u8>,
    big: bool,
    version: u8,
    num_waves: nat,
    children: Seq<BlockView>,
)
    requires
        wav_names_all(buf, big, version, num_waves, children) is Some,
    ensures
        wav_names_all(buf, big, version, num_waves, children)->Some_0.len() <= num_waves,
        forall|k: int|
            0 <= k < wav_names_all(buf, big, version, num_waves, children)->Some_0.len() ==> (
            #[trigger] wav_names_all(buf, big, version, num_waves, children)->Some_0[k]).index
                == k,
    decreases children.len(),
{
    if children.len() > 0 {
        lemma_wav_names_all_numbered(buf, big, version, num_waves, children.drop_last());
        let head = wav_names_all(buf, big, version, num_waves, children.drop_last())->Some_0;
        let child = children.last();
        if child.content_type == ContentType::WAV_Names.tag() {
            lemma_wav_run_numbered(
                buf,
                big,
                version,
                child.end(),
                num_waves,
                child.at(11),
                head.len(),
            );
        }
        let tail = wav_names_part(buf, big, version, num_waves, child, head.len())->Some_0;
        let all = wav_names_all(buf, big, version, num_waves, children)->Some_0;
        assert(all == head + tail);
        assert forall|k: int| 0 <= k < all.len() implies (#[trigger] all[k]).index == k by {
            if k >= head.len() {
                assert(all[k] == tail[k - head.len()]);
            }
        }
    }
}

/// The audio files of one list of audio files carry the numbers 0, 1, 2 and so on, in
/// the order in which the list names them, and are no more than the list says it holds.
pub proof fn lemma_wav_list_contiguous(buf: Seq<u8>, big: bool, version: u8, list: BlockView)
    requires
        wav_list_files(buf, big, version, list) is Some,
    ensures
        wav_list_files(buf, big, version, list)->Some_0.len() <= uint_at(
            buf,
            big,
            list.at(2),
            4,
        )->Some_0,
        forall|k: int|
            0 <= k < wav_list_files(buf, big, version, list)->Some_0.len() ==> (
            #[trigger] wav_list_files(buf, big, version, list)->Some_0[k]).index == k,
{
    let num_waves = uint_at(buf, big, list.at(2), 4)->Some_0;
    lemma_wav_names_all_numbered(buf, big, version, num_waves, list.children);
}

/// Where the first `j` children of a list fail to name their files, the list fails.
proof fn lemma_wav_names_all_missing(
    buf: Seq<u8>,
    big: bool,
    version: u8,
    num_waves: nat,
    children: Seq<BlockView>,
    j: int,
)
    requires
        0 <= j <= children.len(),
        wav_names_all(buf, big, version, num_waves, children.take(j)) is None,
    ensures
        wav_names_all(buf, big, version, num_waves, children) is None,
    decreases children.len() - j,
{
    if j < children.len() {
        assert(children.take(j + 1).drop_last() =~= children.take(j));
        lemma_wav_names_all_missing(buf, big, version, num_waves, children, j + 1);
    } else {
        assert(children.take(j) =~= children);
    }
}

/// Lengths change nothing but lengths: the audio files keep their names and numbers.
pub proof fn lemma_lengths_keep_numbers(
    buf: Seq<u8>,
    big: bool,
    files: Seq<WavView>,
    sizes: Seq<BlockView>,
)
    requires
        with_lengths(buf, big, files, sizes) is Some,
    ensures
        with_lengths(buf, big, files, sizes)->Some_0.len() == files.len(),
        forall|i: int|
            0 <= i < files.len() ==> (#[trigger] with_lengths(
                buf,
                big,
                files,
                sizes,
            )->Some_0[i]).index == files[i].index && with_lengths(
                buf,
                big,
                files,
                sizes,
            )->Some_0[i].file_name == files[i].file_name,
{
}

/// Whether `needle` stands anywhere in `hay`.
pub fn contains(hay: &[u8], needle: &[u8]) -> (found: bool)
    ensures
        found == contains_bytes(hay@, needle@),
{
    let h = hay.len();
    let n = needle.len();
    if n > h {
        return false;
    }
    let mut i: usize = 0;
    while i <= h - n
        invariant
            n <= h,
            h == hay@.len(),
            n == needle@.len(),
            i <= h - n + 1,
            forall|k: int| 0 <= k < i ==> !occurs_at(hay@, needle@, k),
        decreases h - n + 1 - i,
    {
        let mut j: usize = 0;
        while j < n && hay[i + j] == needle[j]
            invariant
                n <= h,
                h == hay@.len(),
                n == needle@.len(),
                i <= h - n,
                j <= n,
                forall|m: int| 0 <= m < j ==> hay@[i + m] == needle@[m],
            decreases n - j,
        {
            j = j + 1;
        }
        if j == n {
            assert(hay@.subrange(i as int, i + n) =~= needle@);
            assert(occurs_at(hay@, needle@, i as int));
            return true;
        }
        i = i + 1;
    }
    false
}

/// Whether a name stands for a group or a folder instead of an audio file.
pub fn is_container(name: &[u8]) -> (b: bool)
    ensures
        b == is_container_name(name@),
{
    let grp: [u8; 4] = [0x2e, 0x67, 0x72, 0x70];
    let audio_files: [u8; 11] = [0x41, 0x75, 0x64, 0x69, 0x6f, 0x20, 0x46, 0x69, 0x6c, 0x65, 0x73];
    let fade_files: [u8; 10] = [0x46, 0x61, 0x64, 0x65, 0x20, 0x46, 0x69, 0x6c, 0x65, 0x73];
    contains(name, grp.as_slice()) || contains(name, audio_files.as_slice()) || contains(
        name,
        fade_files.as_slice(),
    )
}

/// Whether a type tag is one of the audio file types, in either byte order.
pub fn is_audio(wav_type: &[u8]) -> (b: bool)
    ensures
        b == is_audio_type(wav_type@),
{
    let wave: [u8; 4] = [0x57, 0x41, 0x56, 0x45];
    let evaw: [u8; 4] = [0x45, 0x56, 0x41, 0x57];
    let aiff: [u8; 4] = [0x41, 0x49, 0x46, 0x46];
    let ffia: [u8; 4] = [0x46, 0x46, 0x49, 0x41];
    contains(wav_type, wave.as_slice()) || contains(wav_type, evaw.as_slice()) || contains(
        wav_type,
        aiff.as_slice(),
    ) || contains(wav_type, ffia.as_slice())
}

/// Whether an entry of a list of names is taken for an audio file.
pub fn accepts_wav(version: u8, name: &[u8], wav_type: &[u8]) -> (b: bool)
    ensures
        b == wav_accepted(version, name@, wav_type@),
{
    if is_container(name) {
        return false;
    }
    if version < 10 {
        is_audio(wav_type)
    } else if wav_type.len() != 0 {
        is_audio(wav_type)
    } else {
        let dot_wav: [u8; 4] = [0x2e, 0x77, 0x61, 0x76];
        let dot_aif: [u8; 4] = [0x2e, 0x61, 0x69, 0x66];
        contains(name, dot_wav.as_slice()) || contains(name, dot_aif.as_slice())
    }
}

/// The audio files that one list of names holds, numbered from `start` on, as long as
/// the number stays below `num_waves`.
pub fn wav_names(
    data: &[u8],
    big: bool,
    version: u8,
    child: &Block,
    num_waves: u32,
    start: u32,
) -> (r: Result<Vec<Wav>, ReadFault>)
    ensures
        match r {
            Ok(files) => wav_run(
                data@,
                big,
                version,
                child@.end(),
                num_waves as nat,
                child@.at(11),
                start as nat,
            ) == Some(views(files@)),
            Err(e) => e == ReadFault::UnexpectedEof && wav_run(
                data@,
                big,
                version,
                child@.end(),
                num_waves as nat,
                child@.at(11),
                start as nat,
            ) is None,
        },
{
    let len = data.len();
    let end: u128 = child.offset as u128 + child.size as u128;
    let mut pos: u128 = child.offset as u128 + 11;
    let mut n: u32 = start;
    let mut files: Vec<Wav> = Vec::new();
    let mut reader = ByteReader::new(data, big);
    let ghost buf = data@;
    let ghost whole = wav_run(
        buf,
        big,
        version,
        end as int,
        num_waves as nat,
        pos as int,
        start as nat,
    );
    while pos < end && n < num_waves
        invariant
            buf == data@,
            len == buf.len(),
            reader.input() == buf,
            reader.big_endian() == big,
            whole == wav_run(
                buf,
                big,
                version,
                child@.end(),
                num_waves as nat,
                child@.at(11),
                start as nat,
            ),
            prepend(
                views(files@),
                wav_run(buf, big, version, end as int, num_waves as nat, pos as int, n as nat),
            ) == whole,
        decreases gap(end as int, pos as int),
    {
        if pos > len as u128 {
            return Err(ReadFault::UnexpectedEof);
        }
        reader.set_position(pos as usize);
        let name = match reader.parse_str() {
            Ok(name) => name,
            Err(e) => {
                return Err(e);
            },
        };
        let behind = reader.position();
        if len - behind < 4 {
            return Err(ReadFault::UnexpectedEof);
        }
        let wav_type = slice_subrange(data, behind, behind + 4);
        pos = behind as u128 + 9;
        if accepts_wav(version, name.as_slice(), wav_type) {
            let wav = Wav { file_name: name, index: n, pos_absolute: 0, len: 0 };
            proof {
                lemma_views_push(files@, wav);
            }
            files.push(wav);
            n = n + 1;
        }
    }
    Ok(files)
}

/// The audio files that one list names, numbered from 0 on through all its lists of
/// names.
pub fn wav_list(data: &[u8], big: bool, version: u8, list: &Block) -> (r: Result<
    Vec<Wav>,
    ReadFault,
>)
    ensures
        match r {
            Ok(files) => wav_list_files(data@, big, version, list@) == Some(views(files@)),
            Err(e) => e == ReadFault::UnexpectedEof && wav_list_files(data@, big, version, list@)
                is None,
        },
        r matches Ok(files) ==> forall|k: int|
            0 <= k < files@.len() ==> (#[trigger] files@[k]).index == k,
{
    let mut reader = ByteReader::new(data, big);
    reader.set_position(list.offset);
    reader.increment_position(2);
    let num_waves = reader.read_u32()?;
    let mut files: Vec<Wav> = Vec::new();
    let mut n: u32 = 0;
    let ghost children = list@.children;
    proof {
        lemma_block_children(*list);
        assert(children.take(0) =~= Seq::<BlockView>::empty());
        assert(views(files@) =~= Seq::<WavView>::empty());
    }
    let mut j: usize = 0;
    while j < list.children.len()
        invariant
            j <= list.children@.len(),
            children == list@.children,
            children == views(list.children@),
            uint_at(data@, big, list@.at(2), 4) == Some(num_waves as nat),
            wav_names_all(data@, big, version, num_waves as nat, children.take(j as int)) == Some(
                views(files@),
            ),
            n == files@.len(),
            n <= num_waves,
        decreases list.children@.len() - j,
    {
        let child = &list.children[j];
        proof {
            assert(children.take(j + 1).drop_last() =~= children.take(j as int));
            assert(children.take(j + 1).last() == child@);
        }
        if child.content_type == ContentType::WAV_Names.code() {
            match wav_names(data, big, version, child, num_waves, n) {
                Ok(mut part) => {
                    proof {
                        lemma_wav_run_numbered(
                            data@,
                            big,
                            version,
                            child@.end(),
                            num_waves as nat,
                            child@.at(11),
                            n as nat,
                        );
                        assert(views(files@ + part@) =~= views(files@) + views(part@));
                    }
                    n = n + part.len() as u32;
                    files.append(&mut part);
                },
                Err(e) => {
                    proof {
                        lemma_wav_names_all_missing(
                            data@,
                            big,
                            version,
                            num_waves as nat,
                            children,
                            j + 1,
                        );
                    }
                    return Err(e);
                },
            }
        } else {
            proof {
                assert(views(files@) + Seq::<WavView>::empty() =~= views(files@));
            }
        }
        j = j + 1;
    }
    proof {
        assert(children.take(children.len() as int) =~= children);
        lemma_wav_names_all_numbered(data@, big, version, num_waves as nat, children);
        assert forall|k: int| 0 <= k < files@.len() implies (#[trigger] files@[k]).index == k by {
            assert(views(files@)[k].index == k);
        }
    }
    Ok(files)
}

/// Appends to `sizes` the length blocks of the children of one list.
pub fn size_blocks_of_list<'a>(list: &'a Block, sizes: &mut Vec<&'a Block>)
    ensures
        views(final(sizes)@) == views(old(sizes)@) + chain(size_block_parts(list@.children)),
{
    let ghost parts = size_block_parts(list@.children);
    let ghost before = views(sizes@);
    proof {
        lemma_block_children(*list);
        lemma_chain_ends(parts);
    }
    let mut j: usize = 0;
    while j < list.children.len()
        invariant
            j <= list.children@.len(),
            list@.children == views(list.children@),
            parts == size_block_parts(list@.children),
            views(sizes@) == before + chain(parts.take(j as int)),
        decreases list.children@.len() - j,
    {
        let meta = &list.children[j];
        let ghost so_far = chain(parts.take(j as int));
        proof {
            lemma_chain_next(parts, j as int);
            lemma_block_children(*meta);
        }
        if meta.content_type == ContentType::WAV_Metadata.code() {
            let ghost tag = ContentType::WAV_SampleRate_Size.tag();
            proof {
                lemma_tagged_ends(meta@.children, tag, tag);
            }
            let mut k: usize = 0;
            while k < meta.children.len()
                invariant
                    k <= meta.children@.len(),
                    meta@.children == views(meta.children@),
                    tag == ContentType::WAV_SampleRate_Size.tag(),
                    views(sizes@) == before + so_far + tagged(
                        meta@.children.take(k as int),
                        tag,
                        tag,
                    ),
                decreases meta.children@.len() - k,
            {
                let block = &meta.children[k];
                proof {
                    lemma_tagged_next(meta@.children, tag, tag, k as int);
                }
                if block.content_type == ContentType::WAV_SampleRate_Size.code() {
                    proof {
                        lemma_views_push(sizes@, block);
                    }
                    sizes.push(block);
                }
                k = k + 1;
            }
            proof {
                lemma_tagged_ends(meta@.children, tag, tag);
            }
        }
        j = j + 1;
    }
    proof {
        lemma_chain_ends(parts);
    }
}

impl PtSessionParser {
    /// The audio files of the session: their names and numbers from the lists of names,
    /// their lengths from the length blocks.
    pub fn parse_audio_files(&self) -> (r: Result<Vec<Wav>, ReadFault>)
        ensures
            match r {
                Ok(files) => audio_files(
                    self.input(),
                    self.big_endian(),
                    self.version(),
                    self.blocks().wav_blocks,
                ) == Some(views(files@)),
                Err(e) => e == ReadFault::UnexpectedEof && audio_files(
                    self.input(),
                    self.big_endian(),
                    self.version(),
                    self.blocks().wav_blocks,
                ) is None,
            },
    {
        let data = self.unxored();
        let big = self.is_bigendian();
        let version = self.session_version();
        let wav_blocks = &self.block_map().wav_blocks;
        let ghost lists = views(wav_blocks@);
        let ghost parts = wav_list_parts(data@, big, version, lists);
        let mut files: Vec<Wav> = Vec::new();
        let mut sizes: Vec<&Block> = Vec::new();
        proof {
            lemma_gather_ends(parts);
            lemma_chain_ends(size_list_parts(lists));
        }
        let mut k: usize = 0;
        while k < wav_blocks.len()
            invariant
                k <= wav_blocks@.len(),
                lists == views(wav_blocks@),
                lists == self.blocks().wav_blocks,
                data@ == self.input(),
                big == self.big_endian(),
                version == self.version(),
                parts == wav_list_parts(data@, big, version, lists),
                gather(parts.take(k as int)) == Some(views(files@)),
                views(sizes@) == chain(size_list_parts(lists).take(k as int)),
            decreases wav_blocks@.len() - k,
        {
            let list = &wav_blocks[k];
            proof {
                lemma_gather_next(parts, k as int);
                lemma_chain_next(size_list_parts(lists), k as int);
            }
            match wav_list(data, big, version, list) {
                Ok(mut part) => {
                    files.append(&mut part);
                },
                Err(e) => {
                    proof {
                        lemma_gather_missing(parts, k + 1);
                    }
                    return Err(e);
                },
            }
            size_blocks_of_list(list, &mut sizes);
            k = k + 1;
        }
        proof {
            lemma_gather_ends(parts);
            lemma_chain_ends(size_list_parts(lists));
        }
        let ghost named = views(files@);
        let ghost blocks = views(sizes@);
        let mut reader = ByteReader::new(data, big);
        let mut i: usize = 0;
        while i < files.len() && i < sizes.len()
            invariant
                i <= files@.len(),
                i <= sizes@.len(),
                files@.len() == named.len(),
                blocks == views(sizes@),
                data@ == self.input(),
                big == self.big_endian(),
                version == self.version(),
                named_files(data@, big, version, self.blocks().wav_blocks) == Some(named),
                blocks == size_blocks(self.blocks().wav_blocks),
                reader.input() == data@,
                reader.big_endian() == big,
                forall|m: int| 0 <= m < i ==> wav_len_at(data@, big, #[trigger] blocks[m]) is Some,
                forall|m: int|
                    0 <= m < i ==> (#[trigger] files@[m])@ == (WavView {
                        len: wav_len_at(data@, big, blocks[m])->Some_0,
                        ..named[m]
                    }),
                forall|m: int| i <= m < files@.len() ==> (#[trigger] files@[m])@ == named[m],
            decreases files@.len() - i,
        {
            reader.set_position(sizes[i].offset);
            reader.increment_position(8);
            match reader.read_u64() {
                Ok(length) => {
                    files[i].len = length;
                },
                Err(e) => {
                    proof {
                        assert(blocks[i as int] == sizes@[i as int]@);
                    }
                    return Err(e);
                },
            }
            i = i + 1;
        }
        Ok(files)
    }
}

} // verus!
