use vstd::prelude::*;
use crate::audio::audio_files;
use crate::blocks::top_blocks;
use crate::error::{PtError, ReadFault};
use crate::markers::markers;
use crate::parser::{classify, map_sound, opened, sample_rate, PtSessionParser};
use crate::read_traits::Endianness;
use crate::session::{PtSession, SessionView};
use crate::timeline::{
    lemma_timeline_regions_listed, lemma_timeline_tracks_distinct, names_one_region, timeline,
};
use crate::tracks::distinct_tracks;

verus! {

/// What a decrypted session file of the given byte order and version holds.
///
/// The top-level blocks are found and sorted; then follow, each from its group of blocks,
/// the sample rate, the audio files, regions and tracks, and the markers. A session
/// without a block for the sample rate is refused; a read that leaves the buffer anywhere
/// on the way is a fault.
pub open spec fn session_of(buf: Seq<u8>, big: bool, version: u8) -> Result<SessionView, PtError> {
    let map = classify(top_blocks(buf, big));
    match sample_rate(buf, big, map.header_blocks) {
        Ok(rate) => match audio_files(buf, big, version, map.wav_blocks) {
            Some(files) => match (
                timeline(buf, big, map, files),
                markers(buf, big, map.marker_blocks),
            ) {
                (Some(timeline), Some(markers)) => Ok(
                    SessionView {
                        session_sample_rate: rate,
                        version,
                        audio_files: files,
                        audio_regions: timeline.regions,
                        audio_tracks: timeline.tracks,
                        markers,
                    },
                ),
                _ => Err(PtError::Io(ReadFault::UnexpectedEof)),
            },
            None => Err(PtError::Io(ReadFault::UnexpectedEof)),
        },
        Err(e) => Err(e),
    }
}

/// What a session file holds.
pub open spec fn session_of_file(raw: Seq<u8>) -> Result<SessionView, PtError> {
    match opened(raw) {
        Ok(file) => session_of(file.input, file.big_endian, file.version),
        Err(e) => Err(e),
    }
}

/// Whether `out` is what reading the session file `raw` may give.
pub open spec fn is_session_of(raw: Seq<u8>, out: Result<PtSession, PtError>) -> bool {
    match out {
        Ok(session) => session_of_file(raw) == Ok::<SessionView, PtError>(session@),
        Err(e) => session_of_file(raw) == Err::<SessionView, PtError>(e),
    }
}

/// Whether every region on a track of the session carries the number of exactly one of
/// the session's regions.
pub open spec fn tracks_refer_to_regions(session: SessionView) -> bool {
    forall|t: int, k: int|
        0 <= t < session.audio_tracks.len() && 0 <= k < session.audio_tracks[t].regions.len()
            ==> names_one_region(
            session.audio_regions,
            (#[trigger] session.audio_tracks[t].regions[k]).index,
        )
}

impl PtSessionParser {
    /// Reads the session out of the decrypted file.
    pub fn parse_session(&mut self) -> (r: Result<PtSession, PtError>)
        ensures
            final(self).input() == old(self).input(),
            final(self).big_endian() == old(self).big_endian(),
            final(self).version() == old(self).version(),
            final(self).blocks() == classify(top_blocks(old(self).input(), old(self).big_endian())),
            map_sound(final(self).blocks(), old(self).input().len() as int),
            match r {
                Ok(session) => session_of(
                    old(self).input(),
                    old(self).big_endian(),
                    old(self).version(),
                ) == Ok::<SessionView, PtError>(session@),
                Err(e) => session_of(old(self).input(), old(self).big_endian(), old(self).version())
                    == Err::<SessionView, PtError>(e),
            },
            final(self).blocks().header_blocks.len() == 0 ==> r == Err::<PtSession, PtError>(
                PtError::Parse,
            ),
            r matches Ok(session) ==> tracks_refer_to_regions(session@) && distinct_tracks(
                session@.audio_tracks,
            ),
    {
        let _ = self.parse_blocks();
        let session_sample_rate = self.parse_header()?;
        let audio_files = match self.parse_audio_files() {
            Ok(files) => files,
            Err(e) => {
                return Err(PtError::Io(e));
            },
        };
        let (audio_tracks, audio_regions) = match self.parse_audio_tracks(audio_files.as_slice()) {
            Ok(found) => found,
            Err(e) => {
                return Err(PtError::Io(e));
            },
        };
        let markers = match self.parse_markers() {
            Ok(found) => found,
            Err(e) => {
                return Err(PtError::Io(e));
            },
        };
        let session = PtSession {
            version: self.session_version(),
            session_sample_rate,
            audio_files,
            audio_tracks,
            audio_regions,
            markers,
        };
        proof {
            lemma_session_tracks_refer_to_regions(
                self.input(),
                self.big_endian(),
                self.version(),
            );
            lemma_session_tracks_distinct(self.input(), self.big_endian(), self.version());
        }
        Ok(session)
    }
}

impl PtSession {
    /// Reads a session out of the bytes of a session file.
    pub fn from_bytes(raw: &[u8]) -> (r: Result<PtSession, PtError>)
        ensures
            is_session_of(raw@, r),
            r matches Ok(session) ==> tracks_refer_to_regions(session@) && distinct_tracks(
                session@.audio_tracks,
            ),
    {
        let mut parser = PtSessionParser::decrypt(raw)?;
        parser.parse_session()
    }
}

/// Every region on a track of a session carries the number of exactly one region of
/// the session.
pub proof fn lemma_session_tracks_refer_to_regions(buf: Seq<u8>, big: bool, version: u8)
    requires
        session_of(buf, big, version) is Ok,
    ensures
        tracks_refer_to_regions(session_of(buf, big, version)->Ok_0),
{
    let map = classify(top_blocks(buf, big));
    let files = audio_files(buf, big, version, map.wav_blocks)->Some_0;
    lemma_timeline_regions_listed(buf, big, map, files);
}

/// No two tracks of a session have the same number.
pub proof fn lemma_session_tracks_distinct(buf: Seq<u8>, big: bool, version: u8)
    requires
        session_of(buf, big, version) is Ok,
    ensures
        distinct_tracks(session_of(buf, big, version)->Ok_0.audio_tracks),
{
    let map = classify(top_blocks(buf, big));
    let files = audio_files(buf, big, version, map.wav_blocks)->Some_0;
    lemma_timeline_tracks_distinct(buf, big, map, files);
}

/// Reading a session file is a function of its bytes: two results for the same bytes are
/// equal sessions, or the same error.
pub proof fn lemma_parse_deterministic(
    raw: Seq<u8>,
    first: Result<PtSession, PtError>,
    second: Result<PtSession, PtError>,
)
    requires
        is_session_of(raw, first),
        is_session_of(raw, second),
    ensures
        match (first, second) {
            (Ok(a), Ok(b)) => a@ == b@,
            (Err(e), Err(f)) => e == f,
            _ => false,
        },
{
}

} // verus!
