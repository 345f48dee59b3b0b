//! What the actor keeps beside the mixer for the sake of observers: where
//! each node is drawn, and the colour of each track.

use vstd::prelude::*;
use crate::node::NodeId;
use crate::seqs::{keep, lemma_keep_member, lemma_keep_order, lemma_keep_push};

verus! {

/// A point of the canvas on which graphs are drawn.
#[derive(Clone, Copy, Debug, PartialEq, Eq, Structural)]
pub struct Position {
    pub x: i32,
    pub y: i32,
}

/// Where a node of a track is drawn.
#[derive(Clone, Copy, Debug, PartialEq, Eq, Structural)]
pub struct NodePosition {
    pub track_id: u32,
    pub node_id: NodeId,
    pub x: i32,
    pub y: i32,
}

/// The colour of a track.
#[derive(Clone, Debug)]
pub struct TrackColor {
    pub track_id: u32,
    pub color: String,
}

/// What a `TrackColor` stands for in contracts.
pub struct TrackColorView {
    pub track_id: u32,
    pub color: Seq<char>,
}

impl View for TrackColor {
    type V = TrackColorView;

    open spec fn view(&self) -> TrackColorView {
        TrackColorView { track_id: self.track_id, color: self.color@ }
    }
}

/// Some entry of `s` places node `node` of track `track`.
pub open spec fn placed(s: Seq<NodePosition>, track: u32, node: NodeId) -> bool {
    exists|i: int| 0 <= i < s.len() && #[trigger] s[i].track_id == track && s[i].node_id == node
}

/// The position in `s` of the entry for node `node` of track `track`.
pub open spec fn place_index(s: Seq<NodePosition>, track: u32, node: NodeId) -> int {
    choose|i: int| 0 <= i < s.len() && #[trigger] s[i].track_id == track && s[i].node_id == node
}

/// No node is placed twice.
pub open spec fn places_distinct(s: Seq<NodePosition>) -> bool {
    forall|i: int, j: int|
        0 <= i < j < s.len() ==> !((#[trigger] s[i]).track_id == (#[trigger] s[j]).track_id
            && s[i].node_id == s[j].node_id)
}

/// Where node `node` of track `track` is drawn: at its entry, or at the
/// origin where it has none.
pub open spec fn position_of(s: Seq<NodePosition>, track: u32, node: NodeId) -> Position {
    if placed(s, track, node) {
        Position { x: s[place_index(s, track, node)].x, y: s[place_index(s, track, node)].y }
    } else {
        Position { x: 0, y: 0 }
    }
}

/// `s` with the node of `e` placed where `e` says: in place of its earlier
/// entry, or at the end where it had none.
pub open spec fn with_position(s: Seq<NodePosition>, e: NodePosition) -> Seq<NodePosition> {
    if placed(s, e.track_id, e.node_id) {
        s.update(place_index(s, e.track_id, e.node_id), e)
    } else {
        s.push(e)
    }
}

/// `s` without the entry for node `node` of track `track`.
pub open spec fn without_position(s: Seq<NodePosition>, track: u32, node: NodeId) -> Seq<
    NodePosition,
> {
    if placed(s, track, node) {
        s.remove(place_index(s, track, node))
    } else {
        s
    }
}

/// True of the entries of tracks other than `track`.
pub open spec fn off_track(track: u32) -> spec_fn(NodePosition) -> bool {
    |e: NodePosition| e.track_id != track
}

/// `s` without the entries of track `track`.
pub open spec fn without_track_positions(s: Seq<NodePosition>, track: u32) -> Seq<NodePosition> {
    keep(s, off_track(track))
}

/// Some entry of `s` colours track `track`.
pub open spec fn colored(s: Seq<TrackColorView>, track: u32) -> bool {
    exists|i: int| 0 <= i < s.len() && #[trigger] s[i].track_id == track
}

/// The position in `s` of the entry for track `track`.
pub open spec fn color_index(s: Seq<TrackColorView>, track: u32) -> int {
    choose|i: int| 0 <= i < s.len() && #[trigger] s[i].track_id == track
}

/// No track is coloured twice.
pub open spec fn colors_distinct(s: Seq<TrackColorView>) -> bool {
    forall|i: int, j: int|
        0 <= i < j < s.len() ==> (#[trigger] s[i]).track_id != (#[trigger] s[j]).track_id
}

/// The colour of track `track`: that of its entry, or the empty string where
/// it has none.
pub open spec fn color_of(s: Seq<TrackColorView>, track: u32) -> Seq<char> {
    if colored(s, track) {
        s[color_index(s, track)].color
    } else {
        Seq::empty()
    }
}

/// `s` with the track of `e` coloured as `e` says: in place of its earlier
/// entry, or at the end where it had none.
pub open spec fn with_color(s: Seq<TrackColorView>, e: TrackColorView) -> Seq<TrackColorView> {
    if colored(s, e.track_id) {
        s.update(color_index(s, e.track_id), e)
    } else {
        s.push(e)
    }
}

/// `s` without the entry for track `track`.
pub open spec fn without_color(s: Seq<TrackColorView>, track: u32) -> Seq<TrackColorView> {
    if colored(s, track) {
        s.remove(color_index(s, track))
    } else {
        s
    }
}

/// Among distinct places the entry of a node has one position.
pub proof fn lemma_place_index(s: Seq<NodePosition>, track: u32, node: NodeId, i: int)
    requires
        places_distinct(s),
        0 <= i < s.len(),
        s[i].track_id == track,
        s[i].node_id == node,
    ensures
        placed(s, track, node),
        place_index(s, track, node) == i,
{
    let k = place_index(s, track, node);
    if k < i {
        assert(!(s[k].track_id == s[i].track_id && s[k].node_id == s[i].node_id));
    } else if i < k {
        assert(!(s[i].track_id == s[k].track_id && s[i].node_id == s[k].node_id));
    }
}

/// Among distinct colours the entry of a track has one position.
pub proof fn lemma_color_index(s: Seq<TrackColorView>, track: u32, i: int)
    requires
        colors_distinct(s),
        0 <= i < s.len(),
        s[i].track_id == track,
    ensures
        colored(s, track),
        color_index(s, track) == i,
{
    let k = color_index(s, track);
    if k < i {
        assert(s[k].track_id != s[i].track_id);
    } else if i < k {
        assert(s[i].track_id != s[k].track_id);
    }
}

/// Placing a node keeps places distinct, and the node is then where it was
/// put.
pub proof fn lemma_with_position(s: Seq<NodePosition>, e: NodePosition)
    requires
        places_distinct(s),
    ensures
        places_distinct(with_position(s, e)),
        placed(with_position(s, e), e.track_id, e.node_id),
        position_of(with_position(s, e), e.track_id, e.node_id) == (Position { x: e.x, y: e.y }),
{
    let t = with_position(s, e);
    if placed(s, e.track_id, e.node_id) {
        let k = place_index(s, e.track_id, e.node_id);
        assert forall|i: int, j: int| 0 <= i < j < t.len() implies !((#[trigger] t[i]).track_id == (
        #[trigger] t[j]).track_id && t[i].node_id == t[j].node_id) by {
            assert(t[i].track_id == s[i].track_id && t[i].node_id == s[i].node_id);
            assert(t[j].track_id == s[j].track_id && t[j].node_id == s[j].node_id);
        }
        assert(t[k] == e);
        lemma_place_index(t, e.track_id, e.node_id, k);
    } else {
        let n = s.len() as int;
        assert forall|i: int, j: int| 0 <= i < j < t.len() implies !((#[trigger] t[i]).track_id == (
        #[trigger] t[j]).track_id && t[i].node_id == t[j].node_id) by {
            assert(t[i] == s[i]);
            if j < n {
                assert(t[j] == s[j]);
            }
        }
        assert(t[n] == e);
        lemma_place_index(t, e.track_id, e.node_id, n);
    }
}

/// Placing a node twice at one position is placing it once.
pub proof fn lemma_with_position_twice(s: Seq<NodePosition>, e: NodePosition)
    requires
        places_distinct(s),
    ensures
        with_position(with_position(s, e), e) == with_position(s, e),
{
    let t = with_position(s, e);
    lemma_with_position(s, e);
    let k = place_index(t, e.track_id, e.node_id);
    if placed(s, e.track_id, e.node_id) {
        let k0 = place_index(s, e.track_id, e.node_id);
        assert(t[k0] == e);
        lemma_place_index(t, e.track_id, e.node_id, k0);
    } else {
        assert(t[s.len() as int] == e);
        lemma_place_index(t, e.track_id, e.node_id, s.len() as int);
    }
    assert(t.update(k, e) =~= t);
}

/// Taking a node's entry away keeps places distinct, and the node is then
/// placed nowhere.
pub proof fn lemma_without_position(s: Seq<NodePosition>, track: u32, node: NodeId)
    requires
        places_distinct(s),
    ensures
        places_distinct(without_position(s, track, node)),
        !placed(without_position(s, track, node), track, node),
{
    let t = without_position(s, track, node);
    if placed(s, track, node) {
        let k = place_index(s, track, node);
        assert forall|i: int| 0 <= i < t.len() implies #[trigger] t[i] == s[if i < k {
            i
        } else {
            i + 1
        }] by {}
        assert forall|i: int, j: int| 0 <= i < j < t.len() implies !((#[trigger] t[i]).track_id == (
        #[trigger] t[j]).track_id && t[i].node_id == t[j].node_id) by {
            let i0 = if i < k { i } else { i + 1 };
            let j0 = if j < k { j } else { j + 1 };
            assert(t[i] == s[i0] && t[j] == s[j0]);
        }
        if placed(t, track, node) {
            let m = place_index(t, track, node);
            let m0 = if m < k { m } else { m + 1 };
            assert(t[m] == s[m0]);
            lemma_place_index(s, track, node, m0);
        }
    }
}

/// Taking a track's entries away keeps places distinct, and no node of the
/// track is then placed.
pub proof fn lemma_without_track_positions(s: Seq<NodePosition>, track: u32)
    requires
        places_distinct(s),
    ensures
        places_distinct(without_track_positions(s, track)),
        forall|node: NodeId| !placed(without_track_positions(s, track), track, node),
{
    let t = without_track_positions(s, track);
    assert forall|i: int, j: int| 0 <= i < j < t.len() implies !((#[trigger] t[i]).track_id == (
    #[trigger] t[j]).track_id && t[i].node_id == t[j].node_id) by {
        lemma_keep_order(s, off_track(track), i, j);
    }
    assert forall|node: NodeId| !placed(t, track, node) by {
        if placed(t, track, node) {
            let m = place_index(t, track, node);
            lemma_keep_member(s, off_track(track), m);
        }
    }
}

/// Colouring a track keeps colours distinct, and the track then has the
/// colour it was given.
pub proof fn lemma_with_color(s: Seq<TrackColorView>, e: TrackColorView)
    requires
        colors_distinct(s),
    ensures
        colors_distinct(with_color(s, e)),
        colored(with_color(s, e), e.track_id),
        color_of(with_color(s, e), e.track_id) == e.color,
{
    let t = with_color(s, e);
    if colored(s, e.track_id) {
        let k = color_index(s, e.track_id);
        assert forall|i: int, j: int| 0 <= i < j < t.len() implies (#[trigger] t[i]).track_id != (
        #[trigger] t[j]).track_id by {
            assert(t[i].track_id == s[i].track_id);
            assert(t[j].track_id == s[j].track_id);
        }
        assert(t[k] == e);
        lemma_color_index(t, e.track_id, k);
    } else {
        let n = s.len() as int;
        assert forall|i: int, j: int| 0 <= i < j < t.len() implies (#[trigger] t[i]).track_id != (
        #[trigger] t[j]).track_id by {
            assert(t[i] == s[i]);
            if j < n {
                assert(t[j] == s[j]);
            }
        }
        assert(t[n] == e);
        lemma_color_index(t, e.track_id, n);
    }
}

/// Taking a track's colour away keeps colours distinct, and the track then
/// has none.
pub proof fn lemma_without_color(s: Seq<TrackColorView>, track: u32)
    requires
        colors_distinct(s),
    ensures
        colors_distinct(without_color(s, track)),
        !colored(without_color(s, track), track),
{
    let t = without_color(s, track);
    if colored(s, track) {
        let k = color_index(s, track);
        assert forall|i: int| 0 <= i < t.len() implies #[trigger] t[i] == s[if i < k {
            i
        } else {
            i + 1
        }] by {}
        assert forall|i: int, j: int| 0 <= i < j < t.len() implies (#[trigger] t[i]).track_id != (
        #[trigger] t[j]).track_id by {
            let i0 = if i < k { i } else { i + 1 };
            let j0 = if j < k { j } else { j + 1 };
            assert(t[i] == s[i0] && t[j] == s[j0]);
        }
        if colored(t, track) {
            let m = color_index(t, track);
            let m0 = if m < k { m } else { m + 1 };
            assert(t[m] == s[m0]);
            lemma_color_index(s, track, m0);
        }
    }
}

/// The places of the nodes that are drawn somewhere, in the order in which
/// they were first placed.
pub struct NodePositions {
    entries: Vec<NodePosition>,
}

impl View for NodePositions {
    type V = Seq<NodePosition>;

    closed spec fn view(&self) -> Seq<NodePosition> {
        self.entries@
    }
}

impl NodePositions {
    /// No node is placed twice.
    pub open spec fn wf(&self) -> bool {
        places_distinct(self@)
    }

    /// No node placed.
    pub fn new() -> (p: NodePositions)
        ensures
            p.wf(),
            p@ == Seq::<NodePosition>::empty(),
    {
        NodePositions { entries: Vec::new() }
    }

    /// The entries, in the order in which the nodes were first placed.
    pub fn entries(&self) -> (entries: &Vec<NodePosition>)
        ensures
            entries@ == self@,
    {
        &self.entries
    }

    /// The position of the entry for node `node` of track `track`, if there
    /// is one.
    fn find(&self, track: u32, node: NodeId) -> (found: Option<usize>)
        ensures
            match found {
                Some(i) => i < self@.len() && self@[i as int].track_id == track && self@[i as int].node_id
                    == node,
                None => !placed(self@, track, node),
            },
    {
        let mut i: usize = 0;
        while i < self.entries.len()
            invariant
                i <= self.entries@.len(),
                forall|j: int|
                    0 <= j < i ==> !(#[trigger] self.entries@[j].track_id == track
                        && self.entries@[j].node_id == node),
            decreases self.entries@.len() - i,
        {
            if self.entries[i].track_id == track && self.entries[i].node_id == node {
                return Some(i);
            }
            i += 1;
        }
        None
    }

    /// Where node `node` of track `track` is drawn: the origin where it was
    /// never placed.
    pub fn get(&self, track: u32, node: NodeId) -> (pos: Position)
        requires
            self.wf(),
        ensures
            pos == position_of(self@, track, node),
    {
        match self.find(track, node) {
            Some(i) => {
                proof {
                    lemma_place_index(self@, track, node, i as int);
                }
                Position { x: self.entries[i].x, y: self.entries[i].y }
            },
            None => Position { x: 0, y: 0 },
        }
    }

    /// Places node `node` of track `track` at `pos`, wherever it was before.
    pub fn insert(&mut self, track: u32, node: NodeId, pos: Position)
        requires
            old(self).wf(),
        ensures
            final(self).wf(),
            final(self)@ == with_position(
                old(self)@,
                NodePosition { track_id: track, node_id: node, x: pos.x, y: pos.y },
            ),
    {
        let e = NodePosition { track_id: track, node_id: node, x: pos.x, y: pos.y };
        proof {
            lemma_with_position(self@, e);
        }
        match self.find(track, node) {
            Some(i) => {
                proof {
                    lemma_place_index(self@, track, node, i as int);
                }
                self.entries.set(i, e);
            },
            None => {
                self.entries.push(e);
            },
        }
    }

    /// Forgets where node `node` of track `track` is drawn.
    pub fn remove(&mut self, track: u32, node: NodeId)
        requires
            old(self).wf(),
        ensures
            final(self).wf(),
            final(self)@ == without_position(old(self)@, track, node),
    {
        proof {
            lemma_without_position(self@, track, node);
        }
        match self.find(track, node) {
            Some(i) => {
                proof {
                    lemma_place_index(self@, track, node, i as int);
                }
                let _ = self.entries.remove(i);
            },
            None => {},
        }
    }

    /// Forgets where the nodes of track `track` are drawn.
    pub fn remove_track(&mut self, track: u32)
        requires
            old(self).wf(),
        ensures
            final(self).wf(),
            final(self)@ == without_track_positions(old(self)@, track),
    {
        let ghost before = self@;
        let ghost pred = off_track(track);
        proof {
            lemma_without_track_positions(before, track);
        }
        let mut out: Vec<NodePosition> = Vec::new();
        let mut i: usize = 0;
        assert(before.subrange(0, 0) =~= Seq::empty());
        while i < self.entries.len()
            invariant
                i <= self.entries@.len(),
                before == self.entries@,
                pred == off_track(track),
                out@ == keep(before.subrange(0, i as int), pred),
            decreases self.entries@.len() - i,
        {
            proof {
                assert(before.subrange(0, i + 1) =~= before.subrange(0, i as int).push(
                    before[i as int],
                ));
                lemma_keep_push(before.subrange(0, i as int), pred, before[i as int]);
            }
            if self.entries[i].track_id != track {
                out.push(self.entries[i]);
            }
            i += 1;
        }
        assert(before.subrange(0, i as int) =~= before);
        self.entries = out;
    }
}

/// The colours of the tracks that were given one, in the order in which they
/// were first coloured.
pub struct TrackColors {
    entries: Vec<TrackColor>,
}

impl View for TrackColors {
    type V = Seq<TrackColorView>;

    closed spec fn view(&self) -> Seq<TrackColorView> {
        Seq::new(self.entries@.len(), |i: int| self.entries@[i]@)
    }
}

impl TrackColors {
    /// No track is coloured twice.
    pub open spec fn wf(&self) -> bool {
        colors_distinct(self@)
    }

    /// No track coloured.
    pub fn new() -> (c: TrackColors)
        ensures
            c.wf(),
            c@ == Seq::<TrackColorView>::empty(),
    {
        let c = TrackColors { entries: Vec::new() };
        assert(c@ =~= Seq::empty());
        c
    }

    /// The position of the entry for track `track`, if there is one.
    fn find(&self, track: u32) -> (found: Option<usize>)
        ensures
            match found {
                Some(i) => i < self@.len() && self@[i as int].track_id == track,
                None => !colored(self@, track),
            },
    {
        let mut i: usize = 0;
        while i < self.entries.len()
            invariant
                i <= self.entries@.len(),
                self@.len() == self.entries@.len(),
                forall|j: int| 0 <= j < i ==> (#[trigger] self@[j]).track_id != track,
            decreases self.entries@.len() - i,
        {
            if self.entries[i].track_id == track {
                return Some(i);
            }
            i += 1;
        }
        None
    }

    /// The colour of track `track`: the empty string where it was never
    /// given one.
    pub fn get(&self, track: u32) -> (color: String)
        requires
            self.wf(),
        ensures
            color@ == color_of(self@, track),
    {
        match self.find(track) {
            Some(i) => {
                proof {
                    lemma_color_index(self@, track, i as int);
                }
                self.entries[i].color.clone()
            },
            None => String::new(),
        }
    }

    /// Gives track `track` the colour `color`, whatever it had before.
    pub fn insert(&mut self, track: u32, color: String)
        requires
            old(self).wf(),
        ensures
            final(self).wf(),
            final(self)@ == with_color(
                old(self)@,
                TrackColorView { track_id: track, color: color@ },
            ),
    {
        let ghost before = self@;
        let ghost e = TrackColorView { track_id: track, color: color@ };
        proof {
            lemma_with_color(before, e);
        }
        match self.find(track) {
            Some(i) => {
                proof {
                    lemma_color_index(before, track, i as int);
                }
                self.entries.set(i, TrackColor { track_id: track, color });
                assert(self@ =~= before.update(i as int, e));
            },
            None => {
                self.entries.push(TrackColor { track_id: track, color });
                assert(self@ =~= before.push(e));
            },
        }
    }

    /// Forgets the colour of track `track`.
    pub fn remove(&mut self, track: u32)
        requires
            old(self).wf(),
        ensures
            final(self).wf(),
            final(self)@ == without_color(old(self)@, track),
    {
        let ghost before = self@;
        proof {
            lemma_without_color(before, track);
        }
        match self.find(track) {
            Some(i) => {
                proof {
                    lemma_color_index(before, track, i as int);
                }
                let _ = self.entries.remove(i);
                assert(self@ =~= before.remove(i as int));
            },
            None => {},
        }
    }
}

} // verus!
