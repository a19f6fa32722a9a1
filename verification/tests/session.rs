use ptsession::error::{DecryptFault, PtError, ReadFault, VersionFault};
use ptsession::parser::PtSessionParser;
use ptsession::read_traits::Endianness;
use ptsession::session::{Block, Marker, PtSession, Region, Track, Wav};

fn le16(v: u16) -> Vec<u8> {
    v.to_le_bytes().to_vec()
}

fn le32(v: u32) -> Vec<u8> {
    v.to_le_bytes().to_vec()
}

fn le64(v: u64) -> Vec<u8> {
    v.to_le_bytes().to_vec()
}

fn text(s: &str) -> Vec<u8> {
    let mut out = le32(s.len() as u32);
    out.extend_from_slice(s.as_bytes());
    out
}

fn join(parts: &[Vec<u8>]) -> Vec<u8> {
    let mut out = Vec::new();
    for part in parts {
        out.extend_from_slice(part);
    }
    out
}

/// A little-endian block: sentinel, type, size, content type, and what follows it.
fn block(content_type: u16, body: &[u8]) -> Vec<u8> {
    let mut out = vec![0x5a];
    out.extend(le16(0x0002));
    out.extend(le32(2 + body.len() as u32));
    out.extend(le16(content_type));
    out.extend_from_slice(body);
    out
}

/// The clear header of a little-endian file whose key stream is all zero.
fn header() -> Vec<u8> {
    let mut out = vec![0u8; 0x14];
    out[0] = 0x03;
    out[0x11] = 0x00;
    out[0x12] = 0x01;
    out[0x13] = 0x00;
    out
}

/// Header, a filler block up to `0x1f`, and a block that tells version 12.
fn preamble() -> Vec<u8> {
    let mut out = header();
    out.extend(block(0x0000, &[0, 0]));
    assert_eq!(out.len(), 0x1f);
    out.extend(block(0x2067, &join(&[vec![0u8; 18], le32(10)])));
    out
}

fn sample_rate_block(rate: u32) -> Vec<u8> {
    block(0x1028, &join(&[vec![0, 0], le32(rate)]))
}

fn wav_entry(name: &str, kind: &[u8; 4]) -> Vec<u8> {
    join(&[text(name), kind.to_vec(), vec![0u8; 5]])
}

fn wav_list() -> Vec<u8> {
    let names = block(
        0x103a,
        &join(&[
            vec![0u8; 9],
            wav_entry("Audio Files", b"WAVE"),
            wav_entry("region_name_WAV.wav", b"WAVE"),
            wav_entry("drums.grp", b"WAVE"),
            wav_entry("notes.txt", b"TEXT"),
            wav_entry("second.aif", b"FFIA"),
            wav_entry("third.wav", b"WAVE"),
        ]),
    );
    let size_one = block(0x1001, &join(&[vec![0u8; 6], le64(1000)]));
    let size_two = block(0x1001, &join(&[vec![0u8; 6], le64(0x1_0000_0001)]));
    let metadata = block(0x1003, &join(&[size_one, block(0x1007, &[]), size_two]));
    block(0x1004, &join(&[le32(2), names, metadata]))
}

/// A region block and, behind it, the number of the audio file it refers to.
fn region(name: &str, offset: u8, length: u16, start: u32, wav: u32) -> Vec<u8> {
    let descriptor = join(&[
        vec![0x00, 0x10, 0x20, 0x40, 0x00],
        vec![offset],
        le16(length),
        le32(start),
    ]);
    join(&[block(0x2629, &join(&[vec![0u8; 9], text(name), descriptor])), le32(wav)])
}

fn region_list() -> Vec<u8> {
    block(
        0x262a,
        &join(&[
            region("intro", 7, 300, 70000, 0),
            region("verse", 0, 12, 5, 0x0003_0001),
            region("lost", 1, 2, 3, 9),
        ]),
    )
}

fn track_names() -> Vec<u8> {
    let one = block(0x1014, &join(&[text("Lead"), vec![0], le32(2), le16(0), le16(1)]));
    let two = block(0x1014, &join(&[text("Bass"), vec![0], le32(2), le16(1), le16(2)]));
    block(0x1015, &join(&[one, two]))
}

fn placement(region: u32, start: u32) -> Vec<u8> {
    block(0x104f, &join(&[vec![0, 0], le32(region), vec![0u8; 5], le32(start)]))
}

fn track_entry(fade: u8, placements: &[Vec<u8>]) -> Vec<u8> {
    let mut body = vec![0u8; 45];
    body[44] = fade;
    body.extend(join(placements));
    block(0x1050, &body)
}

fn group(name: &str, entries: &[Vec<u8>]) -> Vec<u8> {
    block(0x1052, &join(&[text(name), join(entries)]))
}

fn region_track_map() -> Vec<u8> {
    block(
        0x1054,
        &join(&[
            group("Lead", &[track_entry(0, &[placement(1, 111), placement(0, 222)])]),
            group("Bass", &[track_entry(1, &[placement(2, 333)]), track_entry(2, &[placement(1, 444)])]),
            group("Ghost", &[]),
            group("Nobody", &[track_entry(0, &[placement(0, 555)])]),
        ]),
    )
}

fn marker(index: u16, name: &str, sample_offset: u32, comment: &str) -> Vec<u8> {
    block(
        0x2077,
        &join(&[
            le16(index),
            vec![0u8; 4],
            text(name),
            le32(sample_offset),
            vec![0, 2, 0],
            vec![1],
            vec![0u8; 4],
            text(comment),
        ]),
    )
}

fn marker_list() -> Vec<u8> {
    let full = block(
        0x2030,
        &join(&[marker(1, "Marker 1", 48000, "first"), marker(2, "Marker 2", 96000, "")]),
    );
    block(0x271a, &join(&[full]))
}

fn whole_session() -> Vec<u8> {
    join(&[
        preamble(),
        sample_rate_block(44100),
        wav_list(),
        region_list(),
        track_names(),
        region_track_map(),
        marker_list(),
    ])
}

fn wav(name: &str, index: u32, len: u64) -> Wav {
    Wav { file_name: name.as_bytes().to_vec(), index, pos_absolute: 0, len }
}

fn expected_region(
    name: &str,
    index: usize,
    start_pos: u64,
    sample_offset: u64,
    len: u64,
    wav_name: &str,
    wav_index: u32,
    pos_absolute: u64,
) -> Region {
    Region {
        name: name.as_bytes().to_vec(),
        index,
        start_pos,
        sample_offset,
        len,
        wav: Some(Wav {
            file_name: wav_name.as_bytes().to_vec(),
            index: wav_index,
            pos_absolute,
            len,
        }),
    }
}

#[test]
fn whole_session_is_read() {
    let session = PtSession::from_bytes(&whole_session()).unwrap();
    assert_eq!(session.version, 12);
    assert_eq!(session.session_sample_rate, 44100);
    assert_eq!(
        session.audio_files,
        vec![wav("region_name_WAV.wav", 0, 1000), wav("second.aif", 1, 0x1_0000_0001)]
    );
    assert_eq!(session.audio_files[0].file_name, b"region_name_WAV.wav");
    let intro = expected_region("intro", 0, 222, 7, 300, "region_name_WAV.wav", 0, 70000);
    let verse = expected_region("verse", 1, 444, 0, 12, "second.aif", 1, 5);
    let lost = expected_region("lost", 2, 3, 1, 2, "", 9, 3);
    assert_eq!(session.audio_regions, vec![intro.clone(), verse, lost]);
    let verse_first = expected_region("verse", 1, 111, 0, 12, "second.aif", 1, 5);
    let verse_second = expected_region("verse", 1, 444, 0, 12, "second.aif", 1, 5);
    assert_eq!(
        session.audio_tracks,
        vec![
            Track { name: b"Lead".to_vec(), index: 0, regions: vec![verse_first, intro] },
            Track { name: b"Lead".to_vec(), index: 1, regions: vec![verse_second] },
            Track { name: b"Bass".to_vec(), index: 2, regions: vec![] },
        ]
    );
    assert_eq!(
        session.markers,
        vec![
            Marker {
                name: b"Marker 1".to_vec(),
                index: 1,
                comment: b"first".to_vec(),
                sample_offset: 48000,
            },
            Marker {
                name: b"Marker 2".to_vec(),
                index: 2,
                comment: Vec::new(),
                sample_offset: 96000,
            },
        ]
    );
}

#[test]
fn regions_on_tracks_are_regions_of_the_session() {
    let session = PtSession::from_bytes(&whole_session()).unwrap();
    let mut placed = 0;
    for track in &session.audio_tracks {
        for region in &track.regions {
            let same = session.audio_regions.iter().filter(|r| r.index == region.index).count();
            assert_eq!(same, 1);
            placed += 1;
        }
    }
    assert_eq!(placed, 3);
    for (place, region) in session.audio_regions.iter().enumerate() {
        assert_eq!(region.index, place);
    }
}

#[test]
fn audio_files_are_numbered_from_zero() {
    let session = PtSession::from_bytes(&whole_session()).unwrap();
    let indices: Vec<u32> = session.audio_files.iter().map(|wav| wav.index).collect();
    assert_eq!(indices, vec![0, 1]);
}

#[test]
fn one_count_runs_through_all_lists_of_names_of_a_list() {
    let first = block(0x103a, &join(&[vec![0u8; 9], wav_entry("a.wav", b"WAVE"), wav_entry("b.wav", b"WAVE")]));
    let second = block(0x103a, &join(&[vec![0u8; 9], wav_entry("c.wav", b"WAVE")]));
    let list = block(0x1004, &join(&[le32(5), first, block(0x1003, &[]), second]));
    let file = join(&[preamble(), sample_rate_block(48000), list.clone(), list]);
    let session = PtSession::from_bytes(&file).unwrap();
    let found: Vec<(Vec<u8>, u32)> =
        session.audio_files.iter().map(|wav| (wav.file_name.clone(), wav.index)).collect();
    assert_eq!(
        found,
        vec![
            (b"a.wav".to_vec(), 0),
            (b"b.wav".to_vec(), 1),
            (b"c.wav".to_vec(), 2),
            (b"a.wav".to_vec(), 0),
            (b"b.wav".to_vec(), 1),
            (b"c.wav".to_vec(), 2),
        ]
    );
}

#[test]
fn two_lists_of_names_of_one_file_each_give_the_numbers_zero_and_one() {
    let first = block(0x103a, &join(&[vec![0u8; 9], wav_entry("a.wav", b"WAVE")]));
    let second = block(0x103a, &join(&[vec![0u8; 9], wav_entry("b.wav", b"WAVE")]));
    let list = block(0x1004, &join(&[le32(2), first, second]));
    let file = join(&[preamble(), sample_rate_block(48000), list]);
    let session = PtSession::from_bytes(&file).unwrap();
    assert_eq!(session.audio_files, vec![wav("a.wav", 0, 0), wav("b.wav", 1, 0)]);
}

#[test]
fn a_list_gives_no_more_files_than_it_says_it_holds() {
    let first = block(0x103a, &join(&[vec![0u8; 9], wav_entry("a.wav", b"WAVE"), wav_entry("b.wav", b"WAVE")]));
    let second = block(0x103a, &join(&[vec![0u8; 9], wav_entry("c.wav", b"WAVE"), wav_entry("d.wav", b"WAVE")]));
    let third = block(0x103a, &join(&[vec![0u8; 9], wav_entry("e.wav", b"WAVE")]));
    let list = block(0x1004, &join(&[le32(3), first.clone(), second.clone(), third.clone()]));
    let file = join(&[preamble(), sample_rate_block(48000), list]);
    let session = PtSession::from_bytes(&file).unwrap();
    assert_eq!(
        session.audio_files,
        vec![wav("a.wav", 0, 0), wav("b.wav", 1, 0), wav("c.wav", 2, 0)]
    );
    let none = block(0x1004, &join(&[le32(0), first, second, third]));
    let file = join(&[preamble(), sample_rate_block(48000), none]);
    assert_eq!(PtSession::from_bytes(&file).unwrap().audio_files, vec![]);
}

#[test]
fn a_list_of_names_that_is_not_reached_is_not_read() {
    // the second list of names ends in the middle of an entry, but the count is full before it
    let first = block(0x103a, &join(&[vec![0u8; 9], wav_entry("a.wav", b"WAVE")]));
    let broken = block(0x103a, &join(&[vec![0u8; 9], le32(0x7fff_ffff)]));
    let list = block(0x1004, &join(&[le32(1), first.clone(), broken.clone()]));
    let file = join(&[preamble(), sample_rate_block(48000), list]);
    assert_eq!(PtSession::from_bytes(&file).unwrap().audio_files, vec![wav("a.wav", 0, 0)]);
    let list = block(0x1004, &join(&[le32(2), first, broken]));
    let file = join(&[preamble(), sample_rate_block(48000), list]);
    assert_eq!(PtSession::from_bytes(&file), Err(PtError::Io(ReadFault::UnexpectedEof)));
}

#[test]
fn reading_twice_gives_equal_sessions() {
    let file = whole_session();
    assert_eq!(PtSession::from_bytes(&file), PtSession::from_bytes(&file));
    let mut parser = PtSessionParser::decrypt(&file).unwrap();
    let first = parser.parse_session();
    let second = parser.parse_session();
    assert!(first.is_ok());
    assert_eq!(first, second);
}

#[test]
fn region_without_its_audio_file_keeps_the_number() {
    let session = PtSession::from_bytes(&whole_session()).unwrap();
    let lost = &session.audio_regions[2];
    let wav = lost.wav.as_ref().unwrap();
    assert_eq!(wav.index, 9);
    assert_eq!(wav.file_name, b"");
    assert_eq!(lost.name, b"lost");
}

#[test]
fn number_of_the_audio_file_is_the_lower_half_of_what_is_read() {
    let session = PtSession::from_bytes(&whole_session()).unwrap();
    assert_eq!(session.audio_regions[1].wav.as_ref().unwrap().index, 1);
}

#[test]
fn fade_places_nothing() {
    let map = block(
        0x1054,
        &join(&[group("Lead", &[track_entry(1, &[placement(0, 111), placement(1, 222)])])]),
    );
    let file = join(&[preamble(), sample_rate_block(44100), region_list(), track_names(), map]);
    let session = PtSession::from_bytes(&file).unwrap();
    assert_eq!(session.audio_tracks.len(), 3);
    for track in &session.audio_tracks {
        assert_eq!(track.regions, vec![]);
    }
    assert_eq!(session.audio_regions[0].start_pos, 70000);
    assert_eq!(session.audio_regions[1].start_pos, 5);
}

#[test]
fn same_entry_without_fade_places_its_regions() {
    let map = block(
        0x1054,
        &join(&[group("Lead", &[track_entry(0, &[placement(0, 111), placement(1, 222)])])]),
    );
    let file = join(&[preamble(), sample_rate_block(44100), region_list(), track_names(), map]);
    let session = PtSession::from_bytes(&file).unwrap();
    assert_eq!(session.audio_tracks[0].regions.len(), 2);
    assert_eq!(session.audio_regions[0].start_pos, 111);
    assert_eq!(session.audio_regions[1].start_pos, 222);
}

#[test]
fn older_map_of_regions_to_tracks_is_not_read() {
    let map = block(
        0x1012,
        &join(&[group("Lead", &[track_entry(0, &[placement(0, 111)])])]),
    );
    let file = join(&[preamble(), sample_rate_block(44100), region_list(), track_names(), map]);
    let session = PtSession::from_bytes(&file).unwrap();
    for track in &session.audio_tracks {
        assert_eq!(track.regions, vec![]);
    }
}

#[test]
fn placement_of_an_unknown_region_is_dropped() {
    let map = block(
        0x1054,
        &join(&[group("Lead", &[track_entry(0, &[placement(3, 111), placement(0x0001_0000, 9)])])]),
    );
    let file = join(&[preamble(), sample_rate_block(44100), region_list(), track_names(), map]);
    let session = PtSession::from_bytes(&file).unwrap();
    assert_eq!(session.audio_tracks[0].regions.len(), 1);
    assert_eq!(session.audio_tracks[0].regions[0].index, 0);
    assert_eq!(session.audio_regions[0].start_pos, 9);
}

#[test]
fn session_without_sample_rate_is_refused() {
    let file = join(&[preamble(), wav_list(), region_list(), marker_list()]);
    assert_eq!(PtSession::from_bytes(&file), Err(PtError::Parse));
    assert_eq!(PtSession::from_bytes(&preamble()), Err(PtError::Parse));
}

#[test]
fn sample_rate_that_leaves_the_buffer_is_a_fault() {
    let mut file = join(&[preamble(), sample_rate_block(44100)]);
    let len = file.len();
    // the block says it is shorter, and the file ends in the middle of the number
    file[len - 9 - 3] = 5;
    file.truncate(len - 1);
    assert_eq!(PtSession::from_bytes(&file), Err(PtError::Io(ReadFault::UnexpectedEof)));
}

#[test]
fn blocks_behind_the_first_gap_are_not_seen() {
    let file = join(&[preamble(), vec![0x00], sample_rate_block(44100)]);
    assert_eq!(PtSession::from_bytes(&file), Err(PtError::Parse));
    let file = join(&[preamble(), sample_rate_block(48000), vec![0x00], wav_list()]);
    let session = PtSession::from_bytes(&file).unwrap();
    assert_eq!(session.session_sample_rate, 48000);
    assert_eq!(session.audio_files, vec![]);
}

#[test]
fn parse_blocks_tells_where_the_row_ends() {
    let file = join(&[preamble(), sample_rate_block(48000), vec![0x00], wav_list()]);
    let mut parser = PtSessionParser::decrypt(&file).unwrap();
    assert_eq!(parser.parse_blocks(), Err(PtError::Io(ReadFault::InvalidMark)));
    assert_eq!(parser.block_map().header_blocks.len(), 1);
    assert_eq!(parser.block_map().wav_blocks.len(), 0);
    let mut parser = PtSessionParser::decrypt(&whole_session()).unwrap();
    assert_eq!(parser.block_map().header_blocks.len(), 0);
    assert_eq!(parser.parse_blocks(), Ok(()));
    let map = parser.block_map();
    assert_eq!(map.header_blocks.len(), 1);
    assert_eq!(map.wav_blocks.len(), 1);
    assert_eq!(map.region_to_wav_blocks.len(), 1);
    assert_eq!(map.track_blocks.len(), 1);
    assert_eq!(map.region_to_track_blocks.len(), 1);
    assert_eq!(map.marker_blocks.len(), 1);
    assert_eq!(map.header_blocks[0].offset, preamble().len() + 7);
}

#[test]
fn first_of_several_sample_rates_counts() {
    let file = join(&[preamble(), sample_rate_block(96000), sample_rate_block(44100)]);
    assert_eq!(PtSession::from_bytes(&file).unwrap().session_sample_rate, 96000);
}

#[test]
fn empty_session_has_only_version_and_sample_rate() {
    let file = join(&[preamble(), sample_rate_block(48000)]);
    assert_eq!(
        PtSession::from_bytes(&file),
        Ok(PtSession {
            session_sample_rate: 48000,
            version: 12,
            audio_files: vec![],
            audio_regions: vec![],
            audio_tracks: vec![],
            markers: vec![],
        })
    );
}

#[test]
fn list_of_names_that_leaves_the_buffer_is_a_fault() {
    let names = block(0x103a, &join(&[vec![0u8; 9], text("a.wav"), b"WA".to_vec()]));
    let file = join(&[preamble(), sample_rate_block(48000), block(0x1004, &join(&[le32(1), names]))]);
    assert_eq!(PtSession::from_bytes(&file), Err(PtError::Io(ReadFault::UnexpectedEof)));
}

#[test]
fn marker_without_the_byte_before_its_comment_is_a_fault() {
    let entry = block(0x2077, &join(&[le16(1), vec![0u8; 4], text("M"), le32(5), vec![0, 0]]));
    let list = block(0x271a, &block(0x2030, &entry));
    let file = join(&[preamble(), sample_rate_block(48000), list]);
    assert_eq!(PtSession::from_bytes(&file), Err(PtError::Io(ReadFault::UnexpectedEof)));
}

#[test]
fn length_blocks_beyond_the_files_are_left_alone() {
    let names = block(0x103a, &join(&[vec![0u8; 9], wav_entry("a.wav", b"WAVE"), wav_entry("b.wav", b"WAVE")]));
    let size = block(0x1001, &join(&[vec![0u8; 6], le64(77)]));
    let cut = block(0x1001, &[0, 0]);
    let list = block(0x1004, &join(&[le32(1), names, block(0x1003, &join(&[size, cut]))]));
    let file = join(&[preamble(), sample_rate_block(48000), list]);
    let session = PtSession::from_bytes(&file).unwrap();
    assert_eq!(session.audio_files, vec![wav("a.wav", 0, 77)]);
}

#[test]
fn files_beyond_the_length_blocks_have_length_zero() {
    let names = block(0x103a, &join(&[vec![0u8; 9], wav_entry("a.wav", b"WAVE"), wav_entry("b.wav", b"WAVE")]));
    let size = block(0x1001, &join(&[vec![0u8; 6], le64(77)]));
    let list = block(0x1004, &join(&[le32(2), names, block(0x1003, &size)]));
    let file = join(&[preamble(), sample_rate_block(48000), list]);
    let session = PtSession::from_bytes(&file).unwrap();
    assert_eq!(session.audio_files, vec![wav("a.wav", 0, 77), wav("b.wav", 1, 0)]);
}

#[test]
fn file_of_sixteen_bytes_is_too_small() {
    assert_eq!(
        PtSession::from_bytes(&[0u8; 16]),
        Err(PtError::Decrypt(DecryptFault::TooSmall))
    );
    assert!(matches!(
        PtSessionParser::decrypt(&[0u8; 16]),
        Err(PtError::Decrypt(DecryptFault::TooSmall))
    ));
}

#[test]
fn unknown_scheme_is_refused() {
    let mut file = whole_session();
    file[0x12] = 0x03;
    assert_eq!(
        PtSession::from_bytes(&file),
        Err(PtError::Decrypt(DecryptFault::UnknownXorType))
    );
}

#[test]
fn endianness_flag_of_two_is_refused() {
    let mut file = whole_session();
    file[0x11] = 0x02;
    assert_eq!(PtSession::from_bytes(&file), Err(PtError::Endianness));
}

#[test]
fn file_without_sentinel_is_refused() {
    let mut file = whole_session();
    file[0] = 0x04;
    assert_eq!(PtSession::from_bytes(&file), Err(PtError::BitCode));
    // the sentinel is looked for before the byte order
    file[0x11] = 0x02;
    assert_eq!(PtSession::from_bytes(&file), Err(PtError::BitCode));
}

#[test]
fn sentinel_anywhere_makes_a_session_file() {
    let mut file = whole_session();
    file[0] = 0x04;
    file.extend([0x2f, 0x2b]);
    assert_eq!(PtSession::from_bytes(&file).unwrap().version, 12);
}

#[test]
fn version_from_the_version_block() {
    let mut file = header();
    file.extend(block(0x0000, &[0, 0]));
    file.extend(block(
        0x0003,
        &join(&[vec![0], text("Pro Tools"), vec![0u8; 4], le32(0x0000_0907)]),
    ));
    let parser = PtSessionParser::decrypt(&file).unwrap();
    assert_eq!(parser.session_version(), 7);
    assert!(!parser.is_bigendian());
    assert_eq!(parser.unxored(), &file[..]);
}

#[test]
fn version_from_the_path_block_is_two_more_than_its_low_byte() {
    let mut file = header();
    file.extend(block(0x0000, &[0, 0]));
    file.extend(block(0x2067, &join(&[vec![0u8; 18], le32(0x0000_0306)])));
    assert_eq!(PtSessionParser::decrypt(&file).unwrap().session_version(), 8);
}

#[test]
fn other_block_in_place_of_the_version_is_refused() {
    let mut file = header();
    file.extend(block(0x0000, &[0, 0]));
    file.extend(block(0x1028, &join(&[vec![0u8; 18], le32(10)])));
    assert!(matches!(
        PtSessionParser::decrypt(&file),
        Err(PtError::Version(VersionFault::UnknownBlock(0x1028)))
    ));
}

#[test]
fn version_block_that_leaves_the_buffer_is_a_fault() {
    let mut file = header();
    file.extend(block(0x0000, &[0, 0]));
    file.extend(block(0x2067, &vec![0u8; 19]));
    assert!(matches!(
        PtSessionParser::decrypt(&file),
        Err(PtError::Io(ReadFault::UnexpectedEof))
    ));
}

fn without_version_block() -> Vec<u8> {
    let mut file = header();
    file.resize(0x50, 0);
    file
}

#[test]
fn fallback_takes_the_first_byte_that_is_set() {
    let mut file = without_version_block();
    file[0x40] = 9;
    file[0x3d] = 8;
    file[0x3a] = 7;
    assert_eq!(PtSessionParser::decrypt(&file).unwrap().session_version(), 9);
    file[0x40] = 0;
    assert_eq!(PtSessionParser::decrypt(&file).unwrap().session_version(), 8);
    file[0x3d] = 0;
    assert_eq!(PtSessionParser::decrypt(&file).unwrap().session_version(), 9);
    file[0x3a] = 0xfd;
    assert_eq!(PtSessionParser::decrypt(&file).unwrap().session_version(), 255);
    file[0x3a] = 1;
    assert_eq!(PtSessionParser::decrypt(&file).unwrap().session_version(), 3);
}

#[test]
fn fallback_with_all_three_bytes_zero_is_refused() {
    let file = without_version_block();
    assert_eq!((file[0x40], file[0x3d], file[0x3a]), (0, 0, 0));
    assert!(matches!(
        PtSessionParser::decrypt(&file),
        Err(PtError::Version(VersionFault::Missing))
    ));
    assert_eq!(PtSession::from_bytes(&file), Err(PtError::Version(VersionFault::Missing)));
    // the smallest file that has all three bytes
    let mut file = vec![0u8; 0x41];
    file[0] = 0x03;
    file[0x12] = 0x01;
    assert!(matches!(
        PtSessionParser::decrypt(&file),
        Err(PtError::Version(VersionFault::Missing))
    ));
    file[0x11] = 0x01;
    assert!(matches!(
        PtSessionParser::decrypt(&file),
        Err(PtError::Version(VersionFault::Missing))
    ));
}

#[test]
fn fallback_byte_whose_sum_leaves_a_byte_is_refused() {
    let mut file = without_version_block();
    file[0x3a] = 0xfe;
    assert!(matches!(
        PtSessionParser::decrypt(&file),
        Err(PtError::Version(VersionFault::Missing))
    ));
    assert_eq!(PtSession::from_bytes(&file), Err(PtError::Version(VersionFault::Missing)));
    file[0x3a] = 0xff;
    assert_eq!(PtSession::from_bytes(&file), Err(PtError::Version(VersionFault::Missing)));
}

#[test]
fn fallback_in_a_short_file_is_refused() {
    let mut file = header();
    file.resize(0x40, 0x09);
    assert!(matches!(
        PtSessionParser::decrypt(&file),
        Err(PtError::Version(VersionFault::Missing))
    ));
    assert!(matches!(
        PtSessionParser::decrypt(&header()),
        Err(PtError::Version(VersionFault::Missing))
    ));
}

#[test]
fn parse_block_at_with_and_without_parent() {
    let file = whole_session();
    let parser = PtSessionParser::decrypt(&file).unwrap();
    let version_block = parser.parse_block_at(0x1f, None).unwrap();
    assert_eq!(version_block.content_type, 0x2067);
    assert_eq!(version_block.offset, 0x26);
    assert_eq!(version_block.size, 24);
    let narrow = Block {
        z_mark: 0x5a,
        block_type: 0,
        size: 23,
        content_type: 0,
        offset: 0x26,
        children: vec![],
    };
    assert_eq!(parser.parse_block_at(0x1f, Some(&narrow)), Err(ReadFault::BlockTooLarge));
    let wide = Block { size: 24, ..narrow };
    assert_eq!(parser.parse_block_at(0x1f, Some(&wide)), Ok(version_block));
    let endless = Block { size: usize::MAX, offset: usize::MAX, ..wide };
    assert!(parser.parse_block_at(0x1f, Some(&endless)).is_ok());
    assert_eq!(parser.parse_block_at(0x20, None), Err(ReadFault::InvalidMark));
}

/// The big-endian form of [`block`].
fn big_block(content_type: u16, body: &[u8]) -> Vec<u8> {
    let mut out = vec![0x5a, 0x00, 0x02];
    out.extend((2 + body.len() as u32).to_be_bytes());
    out.extend(content_type.to_be_bytes());
    out.extend_from_slice(body);
    out
}

fn big_text(s: &str) -> Vec<u8> {
    let mut out = (s.len() as u32).to_be_bytes().to_vec();
    out.extend_from_slice(s.as_bytes());
    out
}

#[test]
fn big_endian_session() {
    let mut file = header();
    file[0x11] = 0x01;
    file.extend(big_block(0x0000, &[0, 0]));
    file.extend(big_block(0x2067, &join(&[vec![0u8; 18], 3u32.to_be_bytes().to_vec()])));
    file.extend(big_block(0x1028, &join(&[vec![0, 0], 44100u32.to_be_bytes().to_vec()])));
    let descriptor = join(&[
        vec![0x00, 0x00, 0x30, 0x20, 0x10, 0x05],
        300u16.to_be_bytes().to_vec(),
        vec![0x01, 0x11, 0x70],
    ]);
    let region = join(&[
        big_block(0x1008, &join(&[vec![0u8; 9], big_text("old"), descriptor])),
        2u32.to_be_bytes().to_vec(),
    ]);
    file.extend(big_block(0x100b, &region));
    let parser = PtSessionParser::decrypt(&file).unwrap();
    assert!(parser.is_bigendian());
    let session = PtSession::from_bytes(&file).unwrap();
    assert_eq!(session.version, 5);
    assert_eq!(session.session_sample_rate, 44100);
    assert_eq!(
        session.audio_regions,
        vec![expected_region("old", 0, 70000, 5, 300, "", 2, 70000)]
    );
}

fn encrypt_old(plain: &[u8], xor_value: u8, step: usize) -> Vec<u8> {
    let mut raw = plain.to_vec();
    raw[0x12] = 0x01;
    raw[0x13] = xor_value;
    for i in 0x14..raw.len() {
        raw[i] ^= ((i & 0xff) * step) as u8;
    }
    raw
}

#[test]
fn encrypted_session_is_read() {
    // 5 * 53 = 265 = 256 + 9
    let raw = encrypt_old(&whole_session(), 9, 5);
    assert_ne!(raw[0x40..], whole_session()[0x40..]);
    let mut expected = PtSession::from_bytes(&whole_session()).unwrap();
    let session = PtSession::from_bytes(&raw).unwrap();
    expected.version = session.version;
    assert_eq!(session, expected);
    assert_eq!(session.version, 12);
    let parser = PtSessionParser::decrypt(&raw).unwrap();
    let mut plain = whole_session();
    plain[0x13] = 9;
    assert_eq!(parser.unxored(), &plain[..]);
}

#[test]
fn session_is_rendered_as_text() {
    let session = PtSession::from_bytes(&whole_session()).unwrap();
    let expected = "Pro Tools 12 Session: Samplerate = 44100
2 wavs, 3 regions

Audio file (WAV#) @ offset, length:
`region_name_WAV.wav`, w(0) @ 0, 1000
`second.aif`, w(1) @ 0, 4294967297

Region (Region#) (WAV#) @ into-sample, length:
`intro`, r(0), w(0), @ 7, 300
`verse`, r(1), w(1), @ 0, 12
`lost`, r(2), w(9), @ 1, 2

Track name (Track#) (Region#) @ Absolute:
`Lead` t(0) r(1) @ 0 r(0) @ 7
`Lead` t(1) r(1) @ 0

";
    assert_eq!(String::from_utf8(session.render()).unwrap(), expected);
}

#[test]
fn empty_session_is_rendered_as_its_heading() {
    let session = PtSession {
        session_sample_rate: 0,
        version: 0,
        audio_files: vec![],
        audio_regions: vec![],
        audio_tracks: vec![],
        markers: vec![],
    };
    assert_eq!(
        String::from_utf8(session.render()).unwrap(),
        "Pro Tools 0 Session: Samplerate = 0\n0 wavs, 0 regions\n\n"
    );
}

#[test]
fn tracks_without_regions_leave_only_the_title() {
    let session = PtSession {
        session_sample_rate: u64::MAX,
        version: 255,
        audio_files: vec![],
        audio_regions: vec![Region { name: vec![0xff], wav: None, ..Region::default() }],
        audio_tracks: vec![Track::default()],
        markers: vec![],
    };
    let mut expected = b"Pro Tools 255 Session: Samplerate = 18446744073709551615\n".to_vec();
    expected.extend(b"0 wavs, 1 regions\n\n");
    expected.extend(b"Region (Region#) (WAV#) @ into-sample, length:\n`\xff`, r(0), w(), @ 0, 0\n\n");
    expected.extend(b"Track name (Track#) (Region#) @ Absolute:\n\n");
    assert_eq!(session.render(), expected);
}

#[test]
fn errors_say_what_went_wrong() {
    assert_eq!(
        PtError::Decrypt(DecryptFault::TooSmall).message(),
        "Could not decrypt file: File is too small"
    );
    assert_eq!(
        PtError::Decrypt(DecryptFault::UnknownXorType).message(),
        "Could not decrypt file: PT xor type not recognized"
    );
    assert_eq!(PtError::BitCode.message(), "Could not verify BitCode. Not a Pro Tools file.");
    assert_eq!(
        PtError::Endianness.message(),
        "Could not parse the endianness. Expected 0 or 1"
    );
    assert_eq!(PtError::Parse.message(), "Error parsing blocks");
    assert_eq!(
        PtError::Version(VersionFault::Missing).message(),
        "Pro Tools version not supported. Only support 5 - 12. Failed to parse version block"
    );
    assert_eq!(
        PtError::Io(ReadFault::UnexpectedEof).message(),
        "IO Error: failed to fill whole buffer"
    );
    assert_eq!(
        PtError::Io(ReadFault::InvalidMark).message(),
        "IO Error: First byte of block must be ZMARK"
    );
    assert_eq!(PtError::Io(ReadFault::BlockTooLarge).message(), "IO Error: Block is too large");
    assert_eq!(PtError::Io(ReadFault::InvalidBlockType).message(), "IO Error: Invalid Block Type");
}

#[test]
fn unknown_version_block_is_named_in_hexadecimal() {
    for (tag, text) in [
        (0x1028u16, "0x1028"),
        (0x0000, "0x00"),
        (0x000f, "0x0f"),
        (0x0010, "0x10"),
        (0x0abc, "0xabc"),
        (0xffff, "0xffff"),
    ] {
        assert_eq!(
            VersionFault::UnknownBlock(tag).message(),
            format!("Could not parse version block type: {}", text)
        );
        assert_eq!(text, format!("{:#04x}", tag));
    }
}

fn assert_sound(block: &Block, bound: usize, seen: &mut usize) {
    assert_eq!(block.z_mark, 0x5a);
    assert_eq!(block.block_type & 0xff00, 0);
    assert!(block.offset + block.size <= bound);
    *seen += 1;
    let mut behind = block.offset - 7;
    for child in &block.children {
        assert!(child.offset - 7 > behind);
        behind = child.offset + child.size - 1;
        assert_sound(child, block.offset + block.size, seen);
    }
}

#[test]
fn every_block_lies_inside_its_parent() {
    let file = whole_session();
    let mut parser = PtSessionParser::decrypt(&file).unwrap();
    parser.parse_session().unwrap();
    let map = parser.block_map();
    let mut seen = 0;
    for group in [
        &map.header_blocks,
        &map.wav_blocks,
        &map.region_to_wav_blocks,
        &map.track_blocks,
        &map.region_to_track_blocks,
        &map.marker_blocks,
    ] {
        for block in group {
            assert_sound(block, file.len(), &mut seen);
        }
    }
    assert_eq!(seen, 1 + 6 + 4 + 3 + 14 + 4);
}

#[test]
fn steps_of_the_parser_one_by_one() {
    let mut parser = PtSessionParser::decrypt(&whole_session()).unwrap();
    assert_eq!(parser.parse_header(), Err(PtError::Parse));
    assert_eq!(parser.parse_audio_files(), Ok(vec![]));
    assert_eq!(parser.parse_markers(), Ok(vec![]));
    assert_eq!(parser.parse_blocks(), Ok(()));
    assert_eq!(parser.parse_header(), Ok(44100));
    let files = parser.parse_audio_files().unwrap();
    assert_eq!(files.len(), 2);
    let regions = parser.parse_regions(&files).unwrap();
    assert_eq!(regions.len(), 3);
    assert_eq!(regions[1].start_pos, 5);
    let unnamed = parser.parse_regions(&[]).unwrap();
    assert_eq!(unnamed[0].wav.as_ref().unwrap().file_name, b"");
    assert_eq!(unnamed[0].wav.as_ref().unwrap().index, 0);
    let entries = parser.parse_track_entries().unwrap();
    assert_eq!(entries.len(), 2);
    assert_eq!(entries[1].name, b"Bass");
    assert_eq!(entries[1].channels, vec![1, 2]);
    let placements = parser.parse_placements().unwrap();
    let found: Vec<(usize, u16, u32)> =
        placements.iter().map(|p| (p.track, p.region, p.start)).collect();
    assert_eq!(found, vec![(0, 1, 111), (0, 0, 222), (1, 1, 444), (3, 0, 555)]);
    let (tracks, placed) = parser.parse_audio_tracks(&files).unwrap();
    assert_eq!(tracks.len(), 3);
    assert_eq!(placed[0].start_pos, 222);
    assert_eq!(parser.parse_markers().unwrap().len(), 2);
}

#[test]
fn region_block_is_read_by_itself() {
    let mut parser = PtSessionParser::decrypt(&whole_session()).unwrap();
    parser.parse_blocks().unwrap();
    let list = &parser.block_map().region_to_wav_blocks[0];
    assert_eq!(list.children.len(), 3);
    let region = parser.parse_region_info(&list.children[1]).unwrap();
    assert_eq!(
        region,
        Region {
            name: b"verse".to_vec(),
            index: 0,
            start_pos: 5,
            sample_offset: 0,
            len: 12,
            wav: Some(Wav { file_name: vec![], index: 1, pos_absolute: 5, len: 12 }),
        }
    );
    // a block that is no region block and ends where the file ends
    let last = &parser.block_map().marker_blocks[0];
    assert_eq!(parser.parse_region_info(last), Err(ReadFault::UnexpectedEof));
}

#[test]
fn marker_entry_is_read_by_itself() {
    let mut parser = PtSessionParser::decrypt(&whole_session()).unwrap();
    parser.parse_blocks().unwrap();
    let full = &parser.block_map().marker_blocks[0].children[0];
    assert_eq!(
        parser.parse_marker(&full.children[1]),
        Ok(Marker {
            name: b"Marker 2".to_vec(),
            index: 2,
            comment: vec![],
            sample_offset: 96000,
        })
    );
}

#[test]
fn track_entry_with_missing_channels_is_a_fault() {
    let entry = block(0x1014, &join(&[text("Lead"), vec![0], le32(3), le16(0), le16(1)]));
    let file = join(&[preamble(), sample_rate_block(44100), block(0x1015, &entry)]);
    assert_eq!(PtSession::from_bytes(&file), Err(PtError::Io(ReadFault::UnexpectedEof)));
    let entry = block(0x1014, &join(&[text("Lead"), vec![0], le32(3), le16(0), le16(1), le16(0)]));
    let file = join(&[preamble(), sample_rate_block(44100), block(0x1015, &entry)]);
    let session = PtSession::from_bytes(&file).unwrap();
    assert_eq!(
        session.audio_tracks,
        vec![
            Track { name: b"Lead".to_vec(), index: 0, regions: vec![] },
            Track { name: b"Lead".to_vec(), index: 1, regions: vec![] },
        ]
    );
}

#[test]
fn track_entry_without_fade_byte_is_a_fault() {
    let short = block(0x1050, &vec![0u8; 44]);
    let map = block(0x1054, &group("Lead", &[short]));
    let file = join(&[preamble(), sample_rate_block(44100), map]);
    assert_eq!(PtSession::from_bytes(&file), Err(PtError::Io(ReadFault::UnexpectedEof)));
    let map = block(0x1054, &join(&[group("Lead", &[block(0x1050, &vec![0u8; 44])]), vec![0]]));
    let file = join(&[preamble(), sample_rate_block(44100), map]);
    assert!(PtSession::from_bytes(&file).is_ok());
}

#[test]
fn group_without_name_is_a_fault() {
    let map = block(0x1054, &block(0x1052, &[0x09, 0, 0, 0]));
    let file = join(&[preamble(), sample_rate_block(44100), map]);
    assert_eq!(PtSession::from_bytes(&file), Err(PtError::Io(ReadFault::UnexpectedEof)));
}

fn as_json(session: &PtSession) -> serde_json::Value {
    let name = |bytes: &Vec<u8>| serde_json::Value::from(String::from_utf8(bytes.clone()).unwrap());
    let mut out = serde_json::Map::new();
    out.insert("session_sample_rate".to_string(), session.session_sample_rate.into());
    out.insert("version".to_string(), session.version.into());
    let markers: Vec<serde_json::Value> = session
        .markers
        .iter()
        .map(|marker| {
            let mut entry = serde_json::Map::new();
            entry.insert("name".to_string(), name(&marker.name));
            entry.insert("index".to_string(), marker.index.into());
            entry.insert("comment".to_string(), name(&marker.comment));
            entry.insert("sample_offset".to_string(), marker.sample_offset.into());
            serde_json::Value::Object(entry)
        })
        .collect();
    out.insert("markers".to_string(), markers.into());
    let files: Vec<serde_json::Value> = session
        .audio_files
        .iter()
        .map(|wav| {
            let mut entry = serde_json::Map::new();
            entry.insert("file_name".to_string(), name(&wav.file_name));
            entry.insert("index".to_string(), wav.index.into());
            entry.insert("pos_absolute".to_string(), wav.pos_absolute.into());
            entry.insert("len".to_string(), wav.len.into());
            serde_json::Value::Object(entry)
        })
        .collect();
    out.insert("audio_files".to_string(), files.into());
    serde_json::Value::Object(out)
}

fn from_json(value: &serde_json::Value) -> PtSession {
    let bytes = |v: &serde_json::Value| v.as_str().unwrap().as_bytes().to_vec();
    PtSession {
        session_sample_rate: value["session_sample_rate"].as_u64().unwrap(),
        version: value["version"].as_u64().unwrap() as u8,
        audio_files: value["audio_files"]
            .as_array()
            .unwrap()
            .iter()
            .map(|v| Wav {
                file_name: bytes(&v["file_name"]),
                index: v["index"].as_u64().unwrap() as u32,
                pos_absolute: v["pos_absolute"].as_u64().unwrap(),
                len: v["len"].as_u64().unwrap(),
            })
            .collect(),
        audio_regions: vec![],
        audio_tracks: vec![],
        markers: value["markers"]
            .as_array()
            .unwrap()
            .iter()
            .map(|v| Marker {
                name: bytes(&v["name"]),
                index: v["index"].as_u64().unwrap() as u16,
                comment: bytes(&v["comment"]),
                sample_offset: v["sample_offset"].as_u64().unwrap() as usize,
            })
            .collect(),
    }
}

#[test]
fn session_written_as_json_is_read_back() {
    let mut session = PtSession::from_bytes(&whole_session()).unwrap();
    session.audio_regions.clear();
    session.audio_tracks.clear();
    let written = serde_json::to_string(&as_json(&session)).unwrap();
    let read: serde_json::Value = serde_json::from_str(&written).unwrap();
    assert_eq!(from_json(&read), session);
    assert!(written.contains("\"Marker 1\""));
    assert!(written.contains("4294967297"));
}

#[test]
fn block_without_payload_is_passed_by_one_byte() {
    // a block of size 0 whose type begins with the sentinel: one byte on, the next block begins
    let mut file = preamble();
    let at = file.len();
    file.extend([0x5a, 0x5a, 0x00, 0x00, 0x00, 0x00, 0x00, 0x00, 0x28, 0x10, 0x00, 0x00]);
    file.extend(le32(22050));
    let mut parser = PtSessionParser::decrypt(&file).unwrap();
    assert_eq!(parser.parse_blocks(), Err(PtError::Io(ReadFault::InvalidMark)));
    let outer = parser.parse_block_at(at, None).unwrap();
    assert_eq!((outer.block_type, outer.size, outer.content_type), (0x5a, 0, 0x2800));
    let inner = parser.parse_block_at(at + 1, None).unwrap();
    assert_eq!((inner.block_type, inner.size, inner.content_type), (0, 0, 0x1028));
    assert_eq!(parser.block_map().header_blocks.len(), 1);
    assert_eq!(parser.block_map().header_blocks[0].offset, at + 8);
    assert_eq!(parser.parse_header(), Ok(22050));
    assert_eq!(PtSession::from_bytes(&file).unwrap().session_sample_rate, 22050);
}

#[test]
fn block_with_payload_is_passed_whole() {
    // the payload of the first block holds what reads as a header block; it is not top-level
    let hidden = sample_rate_block(96000);
    let file = join(&[preamble(), block(0x0030, &hidden), sample_rate_block(44100)]);
    let session = PtSession::from_bytes(&file).unwrap();
    assert_eq!(session.session_sample_rate, 44100);
}

#[test]
fn top_level_block_that_leaves_the_file_ends_the_row() {
    let mut file = join(&[preamble(), sample_rate_block(44100), sample_rate_block(48000)]);
    file.pop();
    let mut parser = PtSessionParser::decrypt(&file).unwrap();
    assert_eq!(parser.parse_blocks(), Err(PtError::Io(ReadFault::BlockTooLarge)));
    assert_eq!(parser.block_map().header_blocks.len(), 1);
    assert_eq!(PtSession::from_bytes(&file).unwrap().session_sample_rate, 44100);
}
