use vstd::prelude::*;
use crate::collect::{first_key, lemma_first_key_absent, lemma_first_key_found};
use crate::error::ReadFault;
use crate::parser::{BlockMapView, PtSessionParser};
use crate::placements::{placements, Placement, PlacementView};
use crate::read_traits::Endianness;
use crate::regions::listed_regions;
use crate::session::{views, Region, RegionView, Track, TrackView, Wav, WavView};
use crate::tracks::{
    build_tracks, distinct_tracks, find_track, lemma_tracks_distinct, lemma_tracks_of_empty,
    track_entries, track_indices, tracks_of,
};

verus! {

/// The numbers of the regions, in their order.
pub open spec fn region_indices(regions: Seq<RegionView>) -> Seq<nat> {
    regions.map_values(|region: RegionView| region.index)
}

/// Tracks and regions of a session.
pub struct Timeline {
    pub tracks: Seq<TrackView>,
    pub regions: Seq<RegionView>,
}

/// A placement carried out: the first region with the placement's number gets its start,
/// and a copy of it joins the first track with the placement's track number. Where the
/// track or the region is missing nothing changes.
pub open spec fn place(timeline: Timeline, placement: PlacementView) -> Timeline {
    match (
        first_key(track_indices(timeline.tracks), placement.track),
        first_key(region_indices(timeline.regions), placement.region),
    ) {
        (Some(t), Some(r)) => {
            let region = RegionView { start_pos: placement.start, ..timeline.regions[r] };
            let track = TrackView {
                regions: timeline.tracks[t].regions.push(region),
                ..timeline.tracks[t]
            };
            Timeline {
                tracks: timeline.tracks.update(t, track),
                regions: timeline.regions.update(r, region),
            }
        },
        _ => timeline,
    }
}

/// The placements carried out one after the other.
pub open spec fn place_all(timeline: Timeline, placements: Seq<PlacementView>) -> Timeline
    decreases placements.len(),
{
    if placements.len() == 0 {
        timeline
    } else {
        place(place_all(timeline, placements.drop_last()), placements.last())
    }
}

/// Tracks and regions of the session: the regions of the region lists, the tracks of the
/// blocks of tracks, and every placement carried out on them.
pub open spec fn timeline(buf: Seq<u8>, big: bool, map: BlockMapView, files: Seq<WavView>) -> Option<
    Timeline,
> {
    match (
        listed_regions(buf, big, files, map.region_to_wav_blocks),
        track_entries(buf, big, map.track_blocks),
        placements(buf, big, map.region_to_track_blocks),
    ) {
        (Some(regions), Some(entries), Some(placements)) => Some(
            place_all(Timeline { tracks: tracks_of(entries), regions }, placements),
        ),
        _ => None,
    }
}

/// Whether exactly one of the regions carries the number `index`.
pub open spec fn names_one_region(regions: Seq<RegionView>, index: nat) -> bool {
    exists|i: int|
        0 <= i < regions.len() && #[trigger] regions[i].index == index && forall|j: int|
            0 <= j < regions.len() && #[trigger] regions[j].index == index ==> j == i
}

/// Whether every region is numbered by its place, and every region on a track carries
/// the number of a place.
pub open spec fn well_numbered(timeline: Timeline) -> bool {
    &&& forall|i: int|
        0 <= i < timeline.regions.len() ==> (#[trigger] timeline.regions[i]).index == i
    &&& forall|t: int, k: int|
        0 <= t < timeline.tracks.len() && 0 <= k < timeline.tracks[t].regions.len() ==> (
        #[trigger] timeline.tracks[t].regions[k]).index < timeline.regions.len()
}

/// The position of the first region with the number `index`.
pub fn find_region(regions: &[Region], index: usize) -> (found: Option<usize>)
    ensures
        match found {
            Some(i) => first_key(region_indices(views(regions@)), index as nat) == Some(i as int),
            None => first_key(region_indices(views(regions@)), index as nat) is None,
        },
        found matches Some(i) ==> i < regions@.len(),
{
    let ghost keys = region_indices(views(regions@));
    let mut i: usize = 0;
    while i < regions.len()
        invariant
            i <= regions@.len(),
            keys == region_indices(views(regions@)),
            forall|j: int| 0 <= j < i ==> keys[j] != index as nat,
        decreases regions@.len() - i,
    {
        if regions[i].index == index {
            proof {
                lemma_first_key_found(keys, index as nat, i as int);
            }
            return Some(i);
        }
        i = i + 1;
    }
    proof {
        lemma_first_key_absent(keys, index as nat);
    }
    None
}

/// Carries out one placement.
pub fn place_region(tracks: &mut Vec<Track>, regions: &mut Vec<Region>, placement: &Placement)
    ensures
        (Timeline { tracks: views(final(tracks)@), regions: views(final(regions)@) }) == place(
            Timeline { tracks: views(old(tracks)@), regions: views(old(regions)@) },
            placement@,
        ),
{
    let ghost tracks_before = views(tracks@);
    let ghost regions_before = views(regions@);
    match find_track(tracks.as_slice(), placement.track) {
        Some(t) => match find_region(regions.as_slice(), placement.region as usize) {
            Some(r) => {
                regions[r].start_pos = placement.start as u64;
                let copy = regions[r].copy();
                tracks[t].regions.push(copy);
                proof {
                    let region = RegionView {
                        start_pos: placement@.start,
                        ..regions_before[r as int]
                    };
                    assert(views(tracks@[t as int].regions@) =~= tracks_before[t as int].regions.push(
                        region,
                    ));
                    assert(views(regions@) =~= regions_before.update(r as int, region));
                    assert(views(tracks@) =~= tracks_before.update(
                        t as int,
                        TrackView {
                            regions: tracks_before[t as int].regions.push(region),
                            ..tracks_before[t as int]
                        },
                    ));
                }
            },
            None => {},
        },
        None => {},
    }
}

/// Carries out the placements one after the other.
pub fn place_regions(tracks: &mut Vec<Track>, regions: &mut Vec<Region>, placements: &[Placement])
    ensures
        (Timeline { tracks: views(final(tracks)@), regions: views(final(regions)@) }) == place_all(
            Timeline { tracks: views(old(tracks)@), regions: views(old(regions)@) },
            views(placements@),
        ),
{
    let ghost start = Timeline { tracks: views(tracks@), regions: views(regions@) };
    let ghost all = views(placements@);
    let mut i: usize = 0;
    while i < placements.len()
        invariant
            i <= placements@.len(),
            all == views(placements@),
            (Timeline { tracks: views(tracks@), regions: views(regions@) }) == place_all(
                start,
                all.take(i as int),
            ),
        decreases placements@.len() - i,
    {
        proof {
            assert(all.take(i + 1).drop_last() =~= all.take(i as int));
        }
        place_region(tracks, regions, &placements[i]);
        i = i + 1;
    }
    proof {
        assert(all.take(all.len() as int) =~= all);
    }
}

impl PtSessionParser {
    /// Tracks and regions of the session: the regions of the region lists, the tracks of
    /// the blocks of tracks, and the regions put on the tracks as the maps of regions to
    /// tracks say.
    pub fn parse_audio_tracks(&self, audio_files: &[Wav]) -> (r: Result<
        (Vec<Track>, Vec<Region>),
        ReadFault,
    >)
        ensures
            match r {
                Ok((tracks, regions)) => timeline(
                    self.input(),
                    self.big_endian(),
                    self.blocks(),
                    views(audio_files@),
                ) == Some(Timeline { tracks: views(tracks@), regions: views(regions@) }),
                Err(e) => e == ReadFault::UnexpectedEof && timeline(
                    self.input(),
                    self.big_endian(),
                    self.blocks(),
                    views(audio_files@),
                ) is None,
            },
    {
        let mut regions = self.parse_regions(audio_files)?;
        let entries = self.parse_track_entries()?;
        let mut audio_tracks = build_tracks(entries.as_slice());
        let found = self.parse_placements()?;
        place_regions(&mut audio_tracks, &mut regions, found.as_slice());
        Ok((audio_tracks, regions))
    }
}

/// Placements leave the tracks their names and numbers.
pub proof fn lemma_place_all_keeps_tracks(timeline: Timeline, placements: Seq<PlacementView>)
    ensures
        place_all(timeline, placements).tracks.len() == timeline.tracks.len(),
        forall|t: int|
            0 <= t < timeline.tracks.len() ==> (#[trigger] place_all(
                timeline,
                placements,
            ).tracks[t]).index == timeline.tracks[t].index && place_all(
                timeline,
                placements,
            ).tracks[t].name == timeline.tracks[t].name,
    decreases placements.len(),
{
    if placements.len() > 0 {
        lemma_place_all_keeps_tracks(timeline, placements.drop_last());
    }
}

/// No two tracks of a session have the same number.
pub proof fn lemma_timeline_tracks_distinct(
    buf: Seq<u8>,
    big: bool,
    map: BlockMapView,
    files: Seq<WavView>,
)
    requires
        timeline(buf, big, map, files) is Some,
    ensures
        distinct_tracks(timeline(buf, big, map, files)->Some_0.tracks),
{
    let regions = listed_regions(buf, big, files, map.region_to_wav_blocks)->Some_0;
    let entries = track_entries(buf, big, map.track_blocks)->Some_0;
    let found = placements(buf, big, map.region_to_track_blocks)->Some_0;
    let start = Timeline { tracks: tracks_of(entries), regions };
    lemma_tracks_distinct(entries);
    lemma_place_all_keeps_tracks(start, found);
}

/// A placement keeps the numbering.
proof fn lemma_place_numbered(timeline: Timeline, placement: PlacementView)
    requires
        well_numbered(timeline),
    ensures
        well_numbered(place(timeline, placement)),
{
}

/// Placements keep the numbering.
proof fn lemma_place_all_numbered(timeline: Timeline, placements: Seq<PlacementView>)
    requires
        well_numbered(timeline),
    ensures
        well_numbered(place_all(timeline, placements)),
    decreases placements.len(),
{
    if placements.len() > 0 {
        lemma_place_all_numbered(timeline, placements.drop_last());
        lemma_place_numbered(place_all(timeline, placements.drop_last()), placements.last());
    }
}

/// Every region on a track carries the number of exactly one region of the session.
pub proof fn lemma_timeline_regions_listed(
    buf: Seq<u8>,
    big: bool,
    map: BlockMapView,
    files: Seq<WavView>,
)
    requires
        timeline(buf, big, map, files) is Some,
    ensures
        forall|t: int, k: int|
            0 <= t < timeline(buf, big, map, files)->Some_0.tracks.len() && 0 <= k < timeline(
                buf,
                big,
                map,
                files,
            )->Some_0.tracks[t].regions.len() ==> names_one_region(
                timeline(buf, big, map, files)->Some_0.regions,
                (#[trigger] timeline(buf, big, map, files)->Some_0.tracks[t].regions[k]).index,
            ),
{
    let regions = listed_regions(buf, big, files, map.region_to_wav_blocks)->Some_0;
    let entries = track_entries(buf, big, map.track_blocks)->Some_0;
    let found = placements(buf, big, map.region_to_track_blocks)->Some_0;
    let start = Timeline { tracks: tracks_of(entries), regions };
    lemma_tracks_of_empty(entries);
    lemma_place_all_numbered(start, found);
    let end = place_all(start, found);
    assert forall|t: int, k: int|
        0 <= t < end.tracks.len() && 0 <= k < end.tracks[t].regions.len() implies names_one_region(
        end.regions,
        (#[trigger] end.tracks[t].regions[k]).index,
    ) by {
        let index = end.tracks[t].regions[k].index;
        assert(end.regions[index as int].index == index);
    }
}

} // verus!
