use vstd::prelude::*;
use vstd::string::StringSliceAdditionalSpecFns;
use crate::collect::{chain, lemma_chain_ends, lemma_chain_next};
use crate::session::{
    views, PtSession, Region, RegionView, SessionView, Track, TrackView, Wav, WavView,
};

verus! {

/// The bytes of a text.
pub open spec fn text(s: &str) -> Seq<u8> {
    s.spec_bytes()
}

/// The decimal digits of a number, as bytes.
pub open spec fn decimal(n: nat) -> Seq<u8>
    decreases n,
{
    if n < 10 {
        seq![(0x30 + n) as u8]
    } else {
        decimal(n / 10).push((0x30 + n % 10) as u8)
    }
}

/// The line of an audio file: name, number, position and length.
pub open spec fn wav_line(wav: WavView) -> Seq<u8> {
    text("`") + wav.file_name + text("`, w(") + decimal(wav.index) + text(") @ ") + decimal(
        wav.pos_absolute,
    ) + text(", ") + decimal(wav.len) + text("\n")
}

/// The lines of the audio files.
pub open spec fn wav_lines(files: Seq<WavView>) -> Seq<u8> {
    chain(files.map_values(|wav: WavView| wav_line(wav)))
}

/// The number of the audio file of a region, if the region has one.
pub open spec fn wav_number(region: RegionView) -> Seq<u8> {
    match region.wav {
        Some(wav) => decimal(wav.index),
        None => Seq::empty(),
    }
}

/// The line of a region: name, number, number of its audio file, offset into the audio
/// file and length.
pub open spec fn region_line(region: RegionView) -> Seq<u8> {
    text("`") + region.name + text("`, r(") + decimal(region.index) + text("), w(") + wav_number(
        region,
    ) + text("), @ ") + decimal(region.sample_offset) + text(", ") + decimal(region.len) + text(
        "\n",
    )
}

/// The lines of the regions.
pub open spec fn region_lines(regions: Seq<RegionView>) -> Seq<u8> {
    chain(regions.map_values(|region: RegionView| region_line(region)))
}

/// A region as it stands in the line of its track.
pub open spec fn placed_region(region: RegionView) -> Seq<u8> {
    text(" r(") + decimal(region.index) + text(") @ ") + decimal(region.sample_offset)
}

/// The regions of a track as they stand in its line.
pub open spec fn placed_regions(regions: Seq<RegionView>) -> Seq<u8> {
    chain(regions.map_values(|region: RegionView| placed_region(region)))
}

/// The line of a track: name, number and regions. A track without regions has no line.
pub open spec fn track_line(track: TrackView) -> Seq<u8> {
    if track.regions.len() == 0 {
        Seq::empty()
    } else {
        text("`") + track.name + text("` t(") + decimal(track.index as nat) + text(")")
            + placed_regions(track.regions) + text("\n")
    }
}

/// The lines of the tracks.
pub open spec fn track_lines(tracks: Seq<TrackView>) -> Seq<u8> {
    chain(tracks.map_values(|track: TrackView| track_line(track)))
}

/// The first two lines of the text: version and sample rate, and how many audio files
/// and regions there are; an empty line follows.
pub open spec fn heading(session: SessionView) -> Seq<u8> {
    text("Pro Tools ") + decimal(session.version as nat) + text(" Session: Samplerate = ")
        + decimal(session.session_sample_rate) + text("\n") + decimal(session.audio_files.len())
        + text(" wavs, ") + decimal(session.audio_regions.len()) + text(" regions\n\n")
}

/// The part of the text on the audio files: a title, a line each, an empty line.
pub open spec fn wav_section(files: Seq<WavView>) -> Seq<u8> {
    if files.len() == 0 {
        Seq::empty()
    } else {
        text("Audio file (WAV#) @ offset, length:\n") + wav_lines(files) + text("\n")
    }
}

/// The part of the text on the regions: a title, a line each, an empty line.
pub open spec fn region_section(regions: Seq<RegionView>) -> Seq<u8> {
    if regions.len() == 0 {
        Seq::empty()
    } else {
        text("Region (Region#) (WAV#) @ into-sample, length:\n") + region_lines(regions) + text(
            "\n",
        )
    }
}

/// The part of the text on the tracks: a title, a line for each track with regions, an
/// empty line.
pub open spec fn track_section(tracks: Seq<TrackView>) -> Seq<u8> {
    if tracks.len() == 0 {
        Seq::empty()
    } else {
        text("Track name (Track#) (Region#) @ Absolute:\n") + track_lines(tracks) + text("\n")
    }
}

/// The session as a text for people to read.
pub open spec fn rendering(session: SessionView) -> Seq<u8> {
    heading(session) + wav_section(session.audio_files) + region_section(session.audio_regions)
        + track_section(session.audio_tracks)
}

/// Appends bytes.
pub fn push_bytes(out: &mut Vec<u8>, bytes: &[u8])
    ensures
        final(out)@ == old(out)@ + bytes@,
{
    let mut i: usize = 0;
    while i < bytes.len()
        invariant
            i <= bytes@.len(),
            out@ == old(out)@ + bytes@.take(i as int),
        decreases bytes@.len() - i,
    {
        out.push(bytes[i]);
        i = i + 1;
    }
    proof {
        assert(bytes@.take(bytes@.len() as int) =~= bytes@);
    }
}

/// Appends the bytes of a text.
pub fn push_text(out: &mut Vec<u8>, s: &str)
    ensures
        final(out)@ == old(out)@ + text(s),
{
    push_bytes(out, s.as_bytes());
}

/// Appends the decimal digits of a number.
pub fn push_decimal(out: &mut Vec<u8>, n: u64)
    ensures
        final(out)@ == old(out)@ + decimal(n as nat),
    decreases n,
{
    if n >= 10 {
        push_decimal(out, n / 10);
    }
    out.push(0x30 + (n % 10) as u8);
}

/// Appends the line of an audio file.
pub fn push_wav_line(out: &mut Vec<u8>, wav: &Wav)
    ensures
        final(out)@ == old(out)@ + wav_line(wav@),
{
    push_text(out, "`");
    push_bytes(out, wav.file_name.as_slice());
    push_text(out, "`, w(");
    push_decimal(out, wav.index as u64);
    push_text(out, ") @ ");
    push_decimal(out, wav.pos_absolute);
    push_text(out, ", ");
    push_decimal(out, wav.len);
    push_text(out, "\n");
}

/// Appends the line of a region.
pub fn push_region_line(out: &mut Vec<u8>, region: &Region)
    ensures
        final(out)@ == old(out)@ + region_line(region@),
{
    push_text(out, "`");
    push_bytes(out, region.name.as_slice());
    push_text(out, "`, r(");
    push_decimal(out, region.index as u64);
    push_text(out, "), w(");
    match &region.wav {
        Some(wav) => {
            push_decimal(out, wav.index as u64);
        },
        None => {
        },
    }
    push_text(out, "), @ ");
    push_decimal(out, region.sample_offset);
    push_text(out, ", ");
    push_decimal(out, region.len);
    push_text(out, "\n");
}

/// Appends the line of a track, if the track has regions.
pub fn push_track_line(out: &mut Vec<u8>, track: &Track)
    ensures
        final(out)@ == old(out)@ + track_line(track@),
{
    if track.regions.len() == 0 {
        return ;
    }
    push_text(out, "`");
    push_bytes(out, track.name.as_slice());
    push_text(out, "` t(");
    push_decimal(out, track.index as u64);
    push_text(out, ")");
    let ghost head = out@;
    let ghost parts = track@.regions.map_values(|region: RegionView| placed_region(region));
    proof {
        lemma_chain_ends(parts);
    }
    let mut i: usize = 0;
    while i < track.regions.len()
        invariant
            i <= track.regions@.len(),
            track@.regions == views(track.regions@),
            parts == track@.regions.map_values(|region: RegionView| placed_region(region)),
            out@ == head + chain(parts.take(i as int)),
        decreases track.regions@.len() - i,
    {
        let region = &track.regions[i];
        proof {
            lemma_chain_next(parts, i as int);
        }
        push_text(out, " r(");
        push_decimal(out, region.index as u64);
        push_text(out, ") @ ");
        push_decimal(out, region.sample_offset);
        i = i + 1;
    }
    proof {
        lemma_chain_ends(parts);
    }
    push_text(out, "\n");
}

/// Appends the first two lines of the text and the empty line behind them.
pub fn push_heading(out: &mut Vec<u8>, session: &PtSession)
    ensures
        final(out)@ == old(out)@ + heading(session@),
{
    push_text(out, "Pro Tools ");
    push_decimal(out, session.version as u64);
    push_text(out, " Session: Samplerate = ");
    push_decimal(out, session.session_sample_rate);
    push_text(out, "\n");
    push_decimal(out, session.audio_files.len() as u64);
    push_text(out, " wavs, ");
    push_decimal(out, session.audio_regions.len() as u64);
    push_text(out, " regions\n\n");
}

/// Appends the part of the text on the audio files.
pub fn push_wav_section(out: &mut Vec<u8>, files: &[Wav])
    ensures
        final(out)@ == old(out)@ + wav_section(views(files@)),
{
    if files.len() == 0 {
        return ;
    }
    push_text(out, "Audio file (WAV#) @ offset, length:\n");
    let ghost title = out@;
    let ghost parts = views(files@).map_values(|wav: WavView| wav_line(wav));
    proof {
        lemma_chain_ends(parts);
    }
    let mut i: usize = 0;
    while i < files.len()
        invariant
            i <= files@.len(),
            parts == views(files@).map_values(|wav: WavView| wav_line(wav)),
            out@ == title + chain(parts.take(i as int)),
        decreases files@.len() - i,
    {
        proof {
            lemma_chain_next(parts, i as int);
        }
        push_wav_line(out, &files[i]);
        i = i + 1;
    }
    proof {
        lemma_chain_ends(parts);
    }
    push_text(out, "\n");
}

/// Appends the part of the text on the regions.
pub fn push_region_section(out: &mut Vec<u8>, regions: &[Region])
    ensures
        final(out)@ == old(out)@ + region_section(views(regions@)),
{
    if regions.len() == 0 {
        return ;
    }
    push_text(out, "Region (Region#) (WAV#) @ into-sample, length:\n");
    let ghost title = out@;
    let ghost parts = views(regions@).map_values(|region: RegionView| region_line(region));
    proof {
        lemma_chain_ends(parts);
    }
    let mut i: usize = 0;
    while i < regions.len()
        invariant
            i <= regions@.len(),
            parts == views(regions@).map_values(|region: RegionView| region_line(region)),
            out@ == title + chain(parts.take(i as int)),
        decreases regions@.len() - i,
    {
        proof {
            lemma_chain_next(parts, i as int);
        }
        push_region_line(out, &regions[i]);
        i = i + 1;
    }
    proof {
        lemma_chain_ends(parts);
    }
    push_text(out, "\n");
}

/// Appends the part of the text on the tracks.
pub fn push_track_section(out: &mut Vec<u8>, tracks: &[Track])
    ensures
        final(out)@ == old(out)@ + track_section(views(tracks@)),
{
    if tracks.len() == 0 {
        return ;
    }
    push_text(out, "Track name (Track#) (Region#) @ Absolute:\n");
    let ghost title = out@;
    let ghost parts = views(tracks@).map_values(|track: TrackView| track_line(track));
    proof {
        lemma_chain_ends(parts);
    }
    let mut i: usize = 0;
    while i < tracks.len()
        invariant
            i <= tracks@.len(),
            parts == views(tracks@).map_values(|track: TrackView| track_line(track)),
            out@ == title + chain(parts.take(i as int)),
        decreases tracks@.len() - i,
    {
        proof {
            lemma_chain_next(parts, i as int);
        }
        push_track_line(out, &tracks[i]);
        i = i + 1;
    }
    proof {
        lemma_chain_ends(parts);
    }
    push_text(out, "\n");
}

impl PtSession {
    /// The session as a text for people to read: version and sample rate, then the
    /// audio files, the regions, and the tracks with the regions on them.
    pub fn render(&self) -> (out: Vec<u8>)
        ensures
            out@ == rendering(self@),
    {
        let mut out: Vec<u8> = Vec::new();
        push_heading(&mut out, self);
        push_wav_section(&mut out, self.audio_files.as_slice());
        push_region_section(&mut out, self.audio_regions.as_slice());
        push_track_section(&mut out, self.audio_tracks.as_slice());
        out
    }
}

} // verus!
