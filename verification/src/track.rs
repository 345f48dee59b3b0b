//! A track: regions placed in time, and the graph their sound runs through.

use vstd::prelude::*;
use crate::graph::{Graph, GraphCommand, GraphError, GraphOp, GraphView};
use crate::node::NodeId;
use crate::region::{
    lemma_region_after_wf, BufferSource, Region, RegionData, RegionError, RegionOp,
    RegionOperation, RegionType, RegionView,
};
use crate::time::Beats;

verus! {

/// What a track holds: audio clips or notes.
#[derive(Clone, Copy, Debug, PartialEq, Eq, Structural)]
pub enum TrackType {
    BufferTrack,
    NoteTrack,
}

/// What a command says of the track it asks for.
#[derive(Clone, Debug)]
pub struct TrackData {
    pub name: String,
    pub channels: usize,
    pub track_type: TrackType,
}

/// Why a track refused a change.
#[derive(Clone, Copy, Debug, PartialEq, Eq, Structural)]
pub enum TrackError {
    /// A track has at least one channel.
    NoChannels,
    /// The ids given for the entry and exit node are equal.
    SameEnds,
    /// An audio track takes only audio clips, a note track only note regions.
    WrongRegionType,
    /// The track has no region of that id.
    UnknownRegion,
    /// The track has given out every region id.
    RegionIdsExhausted,
    /// The region refused the operation.
    Region(RegionError),
}

/// A track of the mixer.
pub struct Track {
    id: u32,
    name: String,
    channels: usize,
    track_type: TrackType,
    graph: Graph,
    regions: Vec<Region>,
    next_region_id: u32,
}

/// What a `Track` stands for in contracts.
pub struct TrackView {
    pub id: u32,
    pub name: Seq<char>,
    pub channels: usize,
    pub track_type: TrackType,
    pub graph: GraphView,
    pub regions: Seq<RegionView>,
    pub next_region_id: u32,
}

/// The ids of the regions of `regions` that cover the time `b`, in order.
pub open spec fn covering(regions: Seq<RegionView>, b: Beats) -> Seq<u32>
    decreases regions.len(),
{
    if regions.len() == 0 {
        Seq::empty()
    } else if regions.last().covers(b) {
        covering(regions.drop_last(), b).push(regions.last().id)
    } else {
        covering(regions.drop_last(), b)
    }
}

/// The latest end of the regions of `regions`; none where there is no region.
pub open spec fn latest_end(regions: Seq<RegionView>) -> Option<int>
    decreases regions.len(),
{
    if regions.len() == 0 {
        None
    } else {
        match latest_end(regions.drop_last()) {
            Some(rest) if rest > regions.last().end()@ => Some(rest),
            _ => Some(regions.last().end()@),
        }
    }
}

impl TrackView {
    /// A region of the track has the id `id`.
    pub open spec fn has_region(self, id: u32) -> bool {
        exists|i: int| 0 <= i < self.regions.len() && #[trigger] self.regions[i].id == id
    }

    /// The position of the region with id `id`.
    pub open spec fn region_index(self, id: u32) -> int {
        choose|i: int| 0 <= i < self.regions.len() && #[trigger] self.regions[i].id == id
    }

    /// The region with id `id`.
    pub open spec fn region(self, id: u32) -> RegionView {
        self.regions[self.region_index(id)]
    }

    /// Regions are in ascending order of id, below the next id; each is
    /// well-formed and of the kind the track holds.
    pub open spec fn regions_wf(self) -> bool {
        &&& forall|i: int, j: int|
            0 <= i < j < self.regions.len() ==> (#[trigger] self.regions[i]).id < (
            #[trigger] self.regions[j]).id
        &&& forall|i: int|
            0 <= i < self.regions.len() ==> (#[trigger] self.regions[i]).id < self.next_region_id
                && self.regions[i].wf() && self.regions[i].is_notes() == (self.track_type
                == TrackType::NoteTrack)
    }

    /// The invariant of a track.
    pub open spec fn wf(self) -> bool {
        &&& self.channels >= 1
        &&& self.graph.wf()
        &&& self.regions_wf()
    }

    /// A track as it is created: no region, and a graph of entry and exit
    /// joined by the default connector.
    pub open spec fn fresh(
        id: u32,
        name: Seq<char>,
        channels: usize,
        track_type: TrackType,
        input: NodeId,
        output: NodeId,
    ) -> TrackView {
        TrackView {
            id,
            name,
            channels,
            track_type,
            graph: GraphView::initial(input, output),
            regions: Seq::empty(),
            next_region_id: 0,
        }
    }

    /// Why the track refuses a new region, of notes where `is_notes`, or
    /// `None` where it accepts it.
    pub open spec fn add_region_error(self, is_notes: bool) -> Option<TrackError> {
        if is_notes != (self.track_type == TrackType::NoteTrack) {
            Some(TrackError::WrongRegionType)
        } else if self.next_region_id == u32::MAX {
            Some(TrackError::RegionIdsExhausted)
        } else {
            None
        }
    }

    /// The track with `region` added at the end.
    pub open spec fn with_region(self, region: RegionView) -> TrackView {
        TrackView {
            regions: self.regions.push(region),
            next_region_id: (self.next_region_id + 1) as u32,
            ..self
        }
    }

    /// The track without the region `id`; the track itself where it has no
    /// such region.
    pub open spec fn without_region(self, id: u32) -> TrackView {
        if self.has_region(id) {
            TrackView { regions: self.regions.remove(self.region_index(id)), ..self }
        } else {
            self
        }
    }

    /// The track with the region `id` replaced by `region`.
    pub open spec fn with_region_updated(self, id: u32, region: RegionView) -> TrackView {
        TrackView { regions: self.regions.update(self.region_index(id), region), ..self }
    }

    /// Why the track refuses the operation `op` on the region `id`, or `None`
    /// where it is carried out.
    pub open spec fn region_op_error(self, id: u32, op: RegionOp) -> Option<TrackError> {
        if !self.has_region(id) {
            Some(TrackError::UnknownRegion)
        } else {
            match self.region(id).op_error(op) {
                Some(e) => Some(TrackError::Region(e)),
                None => None,
            }
        }
    }

    /// The track after the operation `op` on the region `id`.
    pub open spec fn after_region_op(self, id: u32, op: RegionOp) -> TrackView {
        if self.has_region(id) {
            self.with_region_updated(id, self.region(id).after(op))
        } else {
            self
        }
    }

    /// The track after the change `op` to its graph.
    pub open spec fn after_graph_op(self, op: GraphOp) -> TrackView {
        TrackView { graph: self.graph.after(op), ..self }
    }

    /// The time at which the last region of the track ends; none for a track
    /// without regions.
    pub open spec fn end(self) -> Option<int> {
        latest_end(self.regions)
    }
}

impl View for Track {
    type V = TrackView;

    closed spec fn view(&self) -> TrackView {
        TrackView {
            id: self.id,
            name: self.name@,
            channels: self.channels,
            track_type: self.track_type,
            graph: self.graph@,
            regions: Seq::new(self.regions@.len(), |i: int| self.regions@[i]@),
            next_region_id: self.next_region_id,
        }
    }
}

impl Track {
    /// The invariant of a track.
    pub open spec fn wf(&self) -> bool {
        self@.wf()
    }

    /// A new track with no region, whose graph has the entry node `input`,
    /// the exit node `output` and the default connector between them. A track
    /// without channels, and equal node ids, are refused.
    pub fn new(
        id: u32,
        name: String,
        channels: usize,
        track_type: TrackType,
        input: NodeId,
        output: NodeId,
    ) -> (res: Result<Track, TrackError>)
        ensures
            channels == 0 ==> res == Err::<Track, TrackError>(TrackError::NoChannels),
            channels != 0 && input == output ==> res == Err::<Track, TrackError>(
                TrackError::SameEnds,
            ),
            channels != 0 && input != output ==> res.is_ok() && res.unwrap().wf() && res.unwrap()@
                == TrackView::fresh(id, name@, channels, track_type, input, output),
    {
        if channels == 0 {
            return Err(TrackError::NoChannels);
        }
        let graph = match Graph::wired(input, output) {
            Ok(g) => g,
            Err(_) => {
                return Err(TrackError::SameEnds);
            },
        };
        let track = Track {
            id,
            name,
            channels,
            track_type,
            graph,
            regions: Vec::new(),
            next_region_id: 0,
        };
        assert(track@.regions =~= Seq::empty());
        Ok(track)
    }

    /// The track's id.
    pub fn get_id(&self) -> (id: u32)
        ensures
            id == self@.id,
    {
        self.id
    }

    /// The track's name.
    pub fn get_name(&self) -> (name: &String)
        ensures
            name@ == self@.name,
    {
        &self.name
    }

    /// The number of channels.
    pub fn channels(&self) -> (n: usize)
        ensures
            n == self@.channels,
    {
        self.channels
    }

    /// What the track holds.
    pub fn track_type(&self) -> (t: TrackType)
        ensures
            t == self@.track_type,
    {
        self.track_type
    }

    /// The track's graph.
    pub fn graph(&self) -> (g: &Graph)
        ensures
            g@ == self@.graph,
    {
        &self.graph
    }

    /// The regions, in ascending order of id.
    pub fn regions(&self) -> (regions: &Vec<Region>)
        ensures
            regions@.len() == self@.regions.len(),
            forall|i: int| 0 <= i < regions@.len() ==> (#[trigger] regions@[i])@ == self@.regions[i],
    {
        &self.regions
    }

    /// The position of the region with id `id`, if the track has one.
    fn find_region(&self, id: u32) -> (found: Option<usize>)
        ensures
            match found {
                Some(i) => i < self@.regions.len() && self@.regions[i as int].id == id,
                None => !self@.has_region(id),
            },
    {
        let mut i: usize = 0;
        while i < self.regions.len()
            invariant
                i <= self.regions@.len(),
                self@.regions.len() == self.regions@.len(),
                forall|j: int| 0 <= j < i ==> (#[trigger] self@.regions[j]).id != id,
            decreases self.regions@.len() - i,
        {
            if self.regions[i].get_id() == id {
                return Some(i);
            }
            i += 1;
        }
        None
    }

    /// The region with id `id`, if the track has one.
    pub fn get_region(&self, id: u32) -> (region: Option<&Region>)
        requires
            self.wf(),
        ensures
            region.is_some() == self@.has_region(id),
            region matches Some(r) ==> r@ == self@.region(id),
    {
        match self.find_region(id) {
            Some(i) => {
                proof {
                    lemma_region_index(self@, id, i as int);
                }
                Some(&self.regions[i])
            },
            None => None,
        }
    }

    /// Adds a region described by `data` under the next region id and returns
    /// that id. An audio clip starts with no buffer bound. A region of the
    /// kind the track does not hold is refused and changes nothing.
    pub fn add_region(&mut self, data: RegionData) -> (res: Result<u32, TrackError>)
        requires
            old(self).wf(),
        ensures
            final(self).wf(),
            match old(self)@.add_region_error(data.region_type is NoteRegion) {
                Some(e) => res == Err::<u32, TrackError>(e) && final(self)@ == old(self)@,
                None => res == Ok::<u32, TrackError>(old(self)@.next_region_id) && final(self)@
                    == old(self)@.with_region(
                    RegionView::fresh(
                        old(self)@.next_region_id,
                        data.name@,
                        data.start_time,
                        data.duration,
                        data.samples_per_beat,
                        data.region_type is NoteRegion,
                    ),
                ),
            },
    {
        let is_notes = match &data.region_type {
            RegionType::NoteRegion() => true,
            RegionType::BufferRegion(_, _) => false,
        };
        let holds_notes = match self.track_type {
            TrackType::NoteTrack => true,
            TrackType::BufferTrack => false,
        };
        if is_notes != holds_notes {
            return Err(TrackError::WrongRegionType);
        }
        if self.next_region_id == u32::MAX {
            return Err(TrackError::RegionIdsExhausted);
        }
        let id = self.next_region_id;
        let region = Region::new(
            id,
            data.name,
            data.start_time,
            data.duration,
            data.samples_per_beat,
            is_notes,
        );
        let ghost before = self@;
        proof {
            lemma_with_region_wf(before, region@);
        }
        self.regions.push(region);
        self.next_region_id = id + 1;
        assert(self@.regions =~= before.with_region(region@).regions);
        Ok(id)
    }

    /// Removes the region `id` and says whether there was one. Removing a
    /// region that is not there changes nothing.
    pub fn remove_region(&mut self, id: u32) -> (removed: bool)
        requires
            old(self).wf(),
        ensures
            final(self).wf(),
            removed == old(self)@.has_region(id),
            final(self)@ == old(self)@.without_region(id),
    {
        let ghost before = self@;
        proof {
            lemma_without_region_wf(before, id);
        }
        match self.find_region(id) {
            Some(i) => {
                proof {
                    lemma_region_index(before, id, i as int);
                }
                let _ = self.regions.remove(i);
                assert(self@.regions =~= before.without_region(id).regions);
                true
            },
            None => false,
        }
    }

    /// Carries out `op` on the region `id`. An unknown region, and an
    /// operation that the region refuses, change nothing.
    pub fn apply_region_op(&mut self, id: u32, op: &RegionOperation) -> (res: Result<
        (),
        TrackError,
    >)
        requires
            old(self).wf(),
        ensures
            final(self).wf(),
            final(self)@ == old(self)@.after_region_op(id, op@),
            match old(self)@.region_op_error(id, op@) {
                Some(e) => res == Err::<(), TrackError>(e),
                None => res.is_ok(),
            },
    {
        let ghost before = self@;
        let i = match self.find_region(id) {
            Some(i) => i,
            None => {
                return Err(TrackError::UnknownRegion);
            },
        };
        proof {
            lemma_region_index(before, id, i as int);
            lemma_after_region_op_wf(before, id, op@);
        }
        let mut region = self.regions.remove(i);
        let r = region.apply(op);
        self.regions.insert(i, region);
        assert(self@.regions =~= before.after_region_op(id, op@).regions);
        match r {
            Ok(()) => Ok(()),
            Err(e) => Err(TrackError::Region(e)),
        }
    }

    /// Binds `source` to the audio clip `id`, or unbinds with `None`, and
    /// records the tempo at which it was bound. An unknown region and a
    /// region of notes are refused and change nothing.
    pub fn set_audio_source(
        &mut self,
        id: u32,
        source: Option<BufferSource>,
        tempo_milli: u32,
    ) -> (res: Result<(), TrackError>)
        requires
            old(self).wf(),
        ensures
            final(self).wf(),
            !old(self)@.has_region(id) ==> res == Err::<(), TrackError>(TrackError::UnknownRegion)
                && final(self)@ == old(self)@,
            old(self)@.has_region(id) && old(self)@.region(id).is_notes() ==> res == Err::<
                (),
                TrackError,
            >(TrackError::Region(RegionError::NotABufferRegion)) && final(self)@ == old(self)@,
            old(self)@.has_region(id) && !old(self)@.region(id).is_notes() ==> res.is_ok()
                && final(self)@ == old(self)@.with_region_updated(
                id,
                old(self)@.region(id).bound(source, tempo_milli),
            ),
    {
        let ghost before = self@;
        let i = match self.find_region(id) {
            Some(i) => i,
            None => {
                return Err(TrackError::UnknownRegion);
            },
        };
        proof {
            lemma_region_index(before, id, i as int);
        }
        let mut region = self.regions.remove(i);
        let r = region.set_audio_source(source, tempo_milli);
        self.regions.insert(i, region);
        proof {
            let u = self@;
            assert(u.regions =~= before.regions.update(i as int, region@));
            assert forall|a: int, b: int| 0 <= a < b < u.regions.len() implies (
            #[trigger] u.regions[a]).id < (#[trigger] u.regions[b]).id by {
                assert(u.regions[a].id == before.regions[a].id);
                assert(u.regions[b].id == before.regions[b].id);
            }
            assert forall|a: int| 0 <= a < u.regions.len() implies (#[trigger] u.regions[a]).id
                < u.next_region_id && u.regions[a].wf() && u.regions[a].is_notes() == (u.track_type
                == TrackType::NoteTrack) by {
                if a != i {
                    assert(u.regions[a] == before.regions[a]);
                } else {
                    assert(before.regions[a].wf());
                }
            }
        }
        match r {
            Ok(()) => Ok(()),
            Err(e) => {
                assert(self@.regions =~= before.regions);
                Err(TrackError::Region(e))
            },
        }
    }

    /// Carries out `command` on the track's graph. A change that the graph
    /// refuses changes nothing.
    pub fn apply_graph(&mut self, command: GraphCommand) -> (res: Result<(), GraphError>)
        requires
            old(self).wf(),
        ensures
            final(self).wf(),
            final(self)@ == old(self)@.after_graph_op(command@),
            match old(self)@.graph.op_error(command@) {
                Some(e) => res == Err::<(), GraphError>(e),
                None => res.is_ok(),
            },
    {
        self.graph.apply(command)
    }

    /// The ids of the regions that cover the time `b`, in ascending order.
    pub fn regions_at(&self, b: Beats) -> (ids: Vec<u32>)
        ensures
            ids@ == covering(self@.regions, b),
    {
        let ghost all = self@.regions;
        let mut ids: Vec<u32> = Vec::new();
        let mut i: usize = 0;
        assert(all.subrange(0, 0) =~= Seq::empty());
        while i < self.regions.len()
            invariant
                i <= self.regions@.len(),
                all == self@.regions,
                all.len() == self.regions@.len(),
                ids@ == covering(all.subrange(0, i as int), b),
            decreases self.regions@.len() - i,
        {
            assert(all.subrange(0, i + 1).drop_last() =~= all.subrange(0, i as int));
            assert(all.subrange(0, i + 1).last() == self.regions@[i as int]@);
            if self.regions[i].covers(b) {
                ids.push(self.regions[i].get_id());
            }
            i += 1;
        }
        assert(all.subrange(0, i as int) =~= all);
        ids
    }

    /// The time at which the last region ends; none for a track without
    /// regions.
    pub fn end(&self) -> (b: Option<Beats>)
        ensures
            b.is_some() == self@.end().is_some(),
            b matches Some(t) ==> self@.end() == Some(t@),
    {
        let ghost all = self@.regions;
        let mut latest: Option<Beats> = None;
        let mut i: usize = 0;
        assert(all.subrange(0, 0) =~= Seq::empty());
        while i < self.regions.len()
            invariant
                i <= self.regions@.len(),
                all == self@.regions,
                all.len() == self.regions@.len(),
                latest.is_some() == latest_end(all.subrange(0, i as int)).is_some(),
                latest matches Some(t) ==> latest_end(all.subrange(0, i as int)) == Some(t@),
            decreases self.regions@.len() - i,
        {
            assert(all.subrange(0, i + 1).drop_last() =~= all.subrange(0, i as int));
            assert(all.subrange(0, i + 1).last() == self.regions@[i as int]@);
            let end = self.regions[i].end();
            latest = match latest {
                Some(rest) => if end.lt(rest) {
                    Some(rest)
                } else {
                    Some(end)
                },
                None => Some(end),
            };
            i += 1;
        }
        assert(all.subrange(0, i as int) =~= all);
        latest
    }
}

/// In a well-formed track the region with a given id has one position.
pub proof fn lemma_region_index(t: TrackView, id: u32, i: int)
    requires
        t.regions_wf(),
        0 <= i < t.regions.len(),
        t.regions[i].id == id,
    ensures
        t.has_region(id),
        t.region_index(id) == i,
{
    let k = t.region_index(id);
    if k < i {
        assert(t.regions[k].id < t.regions[i].id);
    } else if i < k {
        assert(t.regions[i].id < t.regions[k].id);
    }
}

/// Region ids stay distinct, and the track well-formed, when a region is
/// added under the next id.
pub proof fn lemma_with_region_wf(t: TrackView, region: RegionView)
    requires
        t.wf(),
        t.add_region_error(region.is_notes()).is_none(),
        region.id == t.next_region_id,
        region.wf(),
    ensures
        t.with_region(region).wf(),
{
    let u = t.with_region(region);
    let n = t.regions.len() as int;
    assert forall|i: int, j: int| 0 <= i < j < u.regions.len() implies (#[trigger] u.regions[i]).id
        < (#[trigger] u.regions[j]).id by {
        assert(u.regions[i] == t.regions[i]);
        if j < n {
            assert(u.regions[j] == t.regions[j]);
        }
    }
    assert forall|i: int| 0 <= i < u.regions.len() implies (#[trigger] u.regions[i]).id
        < u.next_region_id && u.regions[i].wf() && u.regions[i].is_notes() == (u.track_type
        == TrackType::NoteTrack) by {
        if i < n {
            assert(u.regions[i] == t.regions[i]);
        }
    }
}

/// A track stays well-formed when a region is removed.
pub proof fn lemma_without_region_wf(t: TrackView, id: u32)
    requires
        t.wf(),
    ensures
        t.without_region(id).wf(),
        !t.without_region(id).has_region(id),
        t.without_region(id).without_region(id) == t.without_region(id),
{
    let u = t.without_region(id);
    if t.has_region(id) {
        let k = t.region_index(id);
        assert forall|i: int| 0 <= i < u.regions.len() implies #[trigger] u.regions[i]
            == t.regions[if i < k {
            i
        } else {
            i + 1
        }] by {}
        assert forall|i: int, j: int| 0 <= i < j < u.regions.len() implies (
        #[trigger] u.regions[i]).id < (#[trigger] u.regions[j]).id by {
            let i0 = if i < k { i } else { i + 1 };
            let j0 = if j < k { j } else { j + 1 };
            assert(u.regions[i] == t.regions[i0] && u.regions[j] == t.regions[j0]);
        }
        assert forall|i: int| 0 <= i < u.regions.len() implies (#[trigger] u.regions[i]).id
            < u.next_region_id && u.regions[i].wf() && u.regions[i].is_notes() == (u.track_type
            == TrackType::NoteTrack) by {
            let i0 = if i < k { i } else { i + 1 };
            assert(u.regions[i] == t.regions[i0]);
        }
        if u.has_region(id) {
            let m = u.region_index(id);
            let m0 = if m < k { m } else { m + 1 };
            assert(u.regions[m] == t.regions[m0]);
            lemma_region_index(t, id, m0);
        }
    }
}

/// A track stays well-formed when an operation is carried out on a region.
pub proof fn lemma_after_region_op_wf(t: TrackView, id: u32, op: RegionOp)
    requires
        t.wf(),
    ensures
        t.after_region_op(id, op).wf(),
{
    if t.has_region(id) {
        let k = t.region_index(id);
        let u = t.after_region_op(id, op);
        lemma_region_after_wf(t.regions[k], op);
        assert forall|i: int, j: int| 0 <= i < j < u.regions.len() implies (
        #[trigger] u.regions[i]).id < (#[trigger] u.regions[j]).id by {
            assert(u.regions[i].id == t.regions[i].id && u.regions[j].id == t.regions[j].id);
        }
        assert forall|i: int| 0 <= i < u.regions.len() implies (#[trigger] u.regions[i]).id
            < u.next_region_id && u.regions[i].wf() && u.regions[i].is_notes() == (u.track_type
            == TrackType::NoteTrack) by {
            if i != k {
                assert(u.regions[i] == t.regions[i]);
            }
        }
    }
}

impl Clone for Track {
    fn clone(&self) -> (track: Track)
        ensures
            track@ == self@,
    {
        let mut regions: Vec<Region> = Vec::new();
        let mut i: usize = 0;
        while i < self.regions.len()
            invariant
                i <= self.regions@.len(),
                regions@.len() == i,
                forall|j: int| 0 <= j < i ==> (#[trigger] regions@[j])@ == self.regions@[j]@,
            decreases self.regions@.len() - i,
        {
            regions.push(self.regions[i].clone());
            i += 1;
        }
        let track = Track {
            id: self.id,
            name: self.name.clone(),
            channels: self.channels,
            track_type: self.track_type,
            graph: self.graph.clone(),
            regions,
            next_region_id: self.next_region_id,
        };
        assert(track@.regions =~= self@.regions);
        track
    }
}

} // verus!
