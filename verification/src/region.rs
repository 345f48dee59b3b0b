//! Time-positioned content on a track: an audio clip or a sequence of notes,
//! and the operations that edit one.

use vstd::prelude::*;
use crate::time::{
    clamp_ticks, lemma_scale_by_one, scale_ticks, ticks_of_frames, Beats, Ratio, MAX_TICKS,
    MIN_TICKS,
};

verus! {

/// The highest pitch and the highest velocity a note can have.
pub const MAX_NOTE_VALUE: u8 = 127;

/// A note of a note region.
#[derive(Clone, Copy, Debug, PartialEq, Eq, Structural)]
pub struct Note {
    pub id: u32,
    pub pitch: u8,
    pub velocity: u8,
    pub start_beat: Beats,
    pub duration: Beats,
}

/// An audio buffer kept by the caller, as far as the timeline needs to know it.
#[derive(Clone, Copy, Debug, PartialEq, Eq, Structural)]
pub struct BufferSource {
    /// The caller's handle to the decoded samples.
    pub handle: u64,
    pub channels: usize,
    pub sample_rate: u32,
    /// Samples in each channel.
    pub frames: u64,
}

/// What kind of region a command asks for. A buffer region names the audio
/// file and the track inside it that it is to play.
#[derive(Clone, Debug)]
pub enum RegionType {
    BufferRegion(String, usize),
    NoteRegion(),
}

/// What a command says of the region it asks for.
#[derive(Clone, Debug)]
pub struct RegionData {
    pub name: String,
    pub start_time: Beats,
    pub duration: Beats,
    pub samples_per_beat: u32,
    pub region_type: RegionType,
}

/// Why a region refused an operation.
#[derive(Clone, Copy, Debug, PartialEq, Eq, Structural)]
pub enum RegionError {
    /// The operation edits notes, and the region holds audio.
    NotANoteRegion,
    /// The operation binds audio, and the region holds notes.
    NotABufferRegion,
    /// The region has no note of that id.
    UnknownNote,
    /// Pitch or velocity is above 127.
    InvalidNote,
    /// The scale factor has denominator zero.
    InvalidScale,
    /// The region has given out every note id.
    NoteIdsExhausted,
}

/// The payload of a region.
pub enum RegionContent {
    /// An audio clip: the buffer it plays, if one is bound; the tempo, in
    /// thousandths of a beat per minute, at which it was bound; and the time
    /// over which the whole buffer plays. A buffer is bound to play at its
    /// own speed, and stretching the region stretches that time with it.
    Buffer { source: Option<BufferSource>, tempo_milli: u32, span: Beats },
    /// Notes in ascending order of id, and the id the next note gets.
    Notes { notes: Vec<Note>, next_note_id: u32 },
}

/// What a `RegionContent` stands for in contracts.
pub enum ContentView {
    Buffer { source: Option<BufferSource>, tempo_milli: u32, span: Beats },
    Notes { notes: Seq<Note>, next_note_id: u32 },
}

impl View for RegionContent {
    type V = ContentView;

    open spec fn view(&self) -> ContentView {
        match self {
            RegionContent::Buffer { source, tempo_milli, span } => ContentView::Buffer {
                source: *source,
                tempo_milli: *tempo_milli,
                span: *span,
            },
            RegionContent::Notes { notes, next_note_id } => ContentView::Notes {
                notes: notes@,
                next_note_id: *next_note_id,
            },
        }
    }
}

/// A region of a track.
pub struct Region {
    id: u32,
    name: String,
    start_time: Beats,
    duration: Beats,
    samples_per_beat: u32,
    content: RegionContent,
}

/// What a `Region` stands for in contracts.
pub struct RegionView {
    pub id: u32,
    pub name: Seq<char>,
    pub start_time: Beats,
    pub duration: Beats,
    pub samples_per_beat: u32,
    pub content: ContentView,
}

/// An edit of a region.
#[derive(Clone, Debug)]
pub enum RegionOperation {
    /// Set the start time of the region.
    SetStartTime(Beats),
    /// Set the duration of the region.
    SetDuration(Beats),
    /// Set the name of the region.
    SetName(String),
    /// Stretch the region, and the notes in it, by a factor.
    Scale(Ratio),
    /// Add a note to a note region.
    AddNote { pitch: u8, velocity: u8, start_beat: Beats, duration: Beats },
    /// Remove a note from a note region.
    RemoveNote { id: u32 },
    /// Replace what a note of a note region holds.
    ModifyNote { id: u32, pitch: u8, velocity: u8, start_beat: Beats, duration: Beats },
}

/// What a `RegionOperation` stands for in contracts.
pub enum RegionOp {
    SetStartTime(Beats),
    SetDuration(Beats),
    SetName(Seq<char>),
    Scale(Ratio),
    AddNote { pitch: u8, velocity: u8, start_beat: Beats, duration: Beats },
    RemoveNote { id: u32 },
    ModifyNote { id: u32, pitch: u8, velocity: u8, start_beat: Beats, duration: Beats },
}

impl View for RegionOperation {
    type V = RegionOp;

    open spec fn view(&self) -> RegionOp {
        match self {
            RegionOperation::SetStartTime(b) => RegionOp::SetStartTime(*b),
            RegionOperation::SetDuration(b) => RegionOp::SetDuration(*b),
            RegionOperation::SetName(s) => RegionOp::SetName(s@),
            RegionOperation::Scale(r) => RegionOp::Scale(*r),
            RegionOperation::AddNote { pitch, velocity, start_beat, duration } => RegionOp::AddNote {
                pitch: *pitch,
                velocity: *velocity,
                start_beat: *start_beat,
                duration: *duration,
            },
            RegionOperation::RemoveNote { id } => RegionOp::RemoveNote { id: *id },
            RegionOperation::ModifyNote {
                id,
                pitch,
                velocity,
                start_beat,
                duration,
            } => RegionOp::ModifyNote {
                id: *id,
                pitch: *pitch,
                velocity: *velocity,
                start_beat: *start_beat,
                duration: *duration,
            },
        }
    }
}

/// `b` stretched by `factor`.
pub open spec fn scaled_beats(b: Beats, factor: Ratio) -> Beats {
    Beats { ticks: clamp_ticks(scale_ticks(b@, factor.num as int, factor.den as int)) as i64 }
}

/// `n` with its start and its duration stretched by `factor`.
pub open spec fn scaled_note(n: Note, factor: Ratio) -> Note {
    Note {
        start_beat: scaled_beats(n.start_beat, factor),
        duration: scaled_beats(n.duration, factor),
        ..n
    }
}

/// The ids of the notes of `notes` that begin at or after `from` and before
/// `until` in the region `r`, in order.
pub open spec fn beginning(r: RegionView, notes: Seq<Note>, from: Beats, until: Beats) -> Seq<u32>
    decreases notes.len(),
{
    if notes.len() == 0 {
        Seq::empty()
    } else if r.begins_in(notes.last(), from, until) {
        beginning(r, notes.drop_last(), from, until).push(notes.last().id)
    } else {
        beginning(r, notes.drop_last(), from, until)
    }
}

/// Some note of `notes` has the id `id`.
pub open spec fn has_note(notes: Seq<Note>, id: u32) -> bool {
    exists|i: int| 0 <= i < notes.len() && #[trigger] notes[i].id == id
}

/// The position of the note with id `id`.
pub open spec fn note_index(notes: Seq<Note>, id: u32) -> int {
    choose|i: int| 0 <= i < notes.len() && #[trigger] notes[i].id == id
}

/// The notes of a region are in ascending order of id, below the next id, with
/// pitch and velocity in range.
pub open spec fn notes_wf(notes: Seq<Note>, next_note_id: u32) -> bool {
    &&& forall|i: int, j: int|
        0 <= i < j < notes.len() ==> (#[trigger] notes[i]).id < (#[trigger] notes[j]).id
    &&& forall|i: int|
        0 <= i < notes.len() ==> (#[trigger] notes[i]).id < next_note_id && notes[i].pitch
            <= MAX_NOTE_VALUE && notes[i].velocity <= MAX_NOTE_VALUE
}

impl RegionView {
    /// The invariant of a region.
    pub open spec fn wf(self) -> bool {
        match self.content {
            ContentView::Buffer { .. } => true,
            ContentView::Notes { notes, next_note_id } => notes_wf(notes, next_note_id),
        }
    }

    /// True for a region of notes.
    pub open spec fn is_notes(self) -> bool {
        self.content is Notes
    }

    /// The notes of the region; none for an audio clip.
    pub open spec fn notes(self) -> Seq<Note> {
        match self.content {
            ContentView::Buffer { .. } => Seq::empty(),
            ContentView::Notes { notes, .. } => notes,
        }
    }

    /// The region covers the time `b`: it has started and has not ended.
    pub open spec fn covers(self, b: Beats) -> bool {
        self.start_time@ <= b@ < self.start_time@ + self.duration@
    }

    /// The time over which a buffer of `source` plays at its own speed at the
    /// tempo `tempo_milli`; zero for no buffer.
    pub open spec fn natural_span(source: Option<BufferSource>, tempo_milli: u32) -> Beats {
        match source {
            Some(s) => Beats {
                ticks: clamp_ticks(
                    ticks_of_frames(s.frames as int, s.sample_rate as int, tempo_milli as int),
                ) as i64,
            },
            None => Beats { ticks: 0 },
        }
    }

    /// This audio clip with `source` bound at the tempo `tempo_milli`.
    pub open spec fn bound(self, source: Option<BufferSource>, tempo_milli: u32) -> RegionView {
        RegionView {
            content: ContentView::Buffer {
                source,
                tempo_milli,
                span: RegionView::natural_span(source, tempo_milli),
            },
            ..self
        }
    }

    /// The time over which the whole buffer of an audio clip plays; none for
    /// a region of notes.
    pub open spec fn span(self) -> Option<Beats> {
        match self.content {
            ContentView::Buffer { span, .. } => Some(span),
            ContentView::Notes { .. } => None,
        }
    }

    /// How far into the region the time `b` lies, held at the ends of the
    /// range.
    pub open spec fn local(self, b: Beats) -> Beats {
        Beats { ticks: clamp_ticks(b@ - self.start_time@) as i64 }
    }

    /// The note `n` begins at or after `from` and before `until`, its start
    /// counted from the start of the region.
    pub open spec fn begins_in(self, n: Note, from: Beats, until: Beats) -> bool {
        from@ <= self.start_time@ + n.start_beat@ < until@
    }

    /// The time at which the region ends, held at the end of the range.
    pub open spec fn end(self) -> Beats {
        Beats { ticks: clamp_ticks(self.start_time@ + self.duration@) as i64 }
    }

    /// Why the region refuses `op`, or `None` where it accepts it.
    pub open spec fn op_error(self, op: RegionOp) -> Option<RegionError> {
        match op {
            RegionOp::SetStartTime(_) => None,
            RegionOp::SetDuration(_) => None,
            RegionOp::SetName(_) => None,
            RegionOp::Scale(factor) => if factor.den == 0 {
                Some(RegionError::InvalidScale)
            } else {
                None
            },
            RegionOp::AddNote { pitch, velocity, .. } => match self.content {
                ContentView::Buffer { .. } => Some(RegionError::NotANoteRegion),
                ContentView::Notes { next_note_id, .. } => if pitch > MAX_NOTE_VALUE || velocity
                    > MAX_NOTE_VALUE {
                    Some(RegionError::InvalidNote)
                } else if next_note_id == u32::MAX {
                    Some(RegionError::NoteIdsExhausted)
                } else {
                    None
                },
            },
            RegionOp::RemoveNote { id } => match self.content {
                ContentView::Buffer { .. } => Some(RegionError::NotANoteRegion),
                ContentView::Notes { notes, .. } => if has_note(notes, id) {
                    None
                } else {
                    Some(RegionError::UnknownNote)
                },
            },
            RegionOp::ModifyNote { id, pitch, velocity, .. } => match self.content {
                ContentView::Buffer { .. } => Some(RegionError::NotANoteRegion),
                ContentView::Notes { notes, .. } => if !has_note(notes, id) {
                    Some(RegionError::UnknownNote)
                } else if pitch > MAX_NOTE_VALUE || velocity > MAX_NOTE_VALUE {
                    Some(RegionError::InvalidNote)
                } else {
                    None
                },
            },
        }
    }

    /// The region after `op`: edited where the region accepts the operation,
    /// as before where it refuses.
    pub open spec fn after(self, op: RegionOp) -> RegionView {
        if self.op_error(op).is_some() {
            self
        } else {
            match op {
                RegionOp::SetStartTime(b) => RegionView { start_time: b, ..self },
                RegionOp::SetDuration(b) => RegionView { duration: b, ..self },
                RegionOp::SetName(s) => RegionView { name: s, ..self },
                RegionOp::Scale(factor) => RegionView {
                    duration: scaled_beats(self.duration, factor),
                    content: match self.content {
                        ContentView::Buffer { source, tempo_milli, span } => ContentView::Buffer {
                            source,
                            tempo_milli,
                            span: scaled_beats(span, factor),
                        },
                        ContentView::Notes { notes, next_note_id } => ContentView::Notes {
                            notes: Seq::new(notes.len(), |i: int| scaled_note(notes[i], factor)),
                            next_note_id,
                        },
                    },
                    ..self
                },
                RegionOp::AddNote { pitch, velocity, start_beat, duration } => match self.content {
                    ContentView::Buffer { .. } => self,
                    ContentView::Notes { notes, next_note_id } => RegionView {
                        content: ContentView::Notes {
                            notes: notes.push(
                                Note { id: next_note_id, pitch, velocity, start_beat, duration },
                            ),
                            next_note_id: (next_note_id + 1) as u32,
                        },
                        ..self
                    },
                },
                RegionOp::RemoveNote { id } => match self.content {
                    ContentView::Buffer { .. } => self,
                    ContentView::Notes { notes, next_note_id } => RegionView {
                        content: ContentView::Notes {
                            notes: notes.remove(note_index(notes, id)),
                            next_note_id,
                        },
                        ..self
                    },
                },
                RegionOp::ModifyNote {
                    id,
                    pitch,
                    velocity,
                    start_beat,
                    duration,
                } => match self.content {
                    ContentView::Buffer { .. } => self,
                    ContentView::Notes { notes, next_note_id } => RegionView {
                        content: ContentView::Notes {
                            notes: notes.update(
                                note_index(notes, id),
                                Note { id, pitch, velocity, start_beat, duration },
                            ),
                            next_note_id,
                        },
                        ..self
                    },
                },
            }
        }
    }
}

impl View for Region {
    type V = RegionView;

    closed spec fn view(&self) -> RegionView {
        RegionView {
            id: self.id,
            name: self.name@,
            start_time: self.start_time,
            duration: self.duration,
            samples_per_beat: self.samples_per_beat,
            content: self.content@,
        }
    }
}

impl RegionView {
    /// A region as it is created: an audio clip with no buffer bound, or a
    /// region with no notes whose first note gets id 0.
    pub open spec fn fresh(
        id: u32,
        name: Seq<char>,
        start_time: Beats,
        duration: Beats,
        samples_per_beat: u32,
        is_notes: bool,
    ) -> RegionView {
        RegionView {
            id,
            name,
            start_time,
            duration,
            samples_per_beat,
            content: if is_notes {
                ContentView::Notes { notes: Seq::empty(), next_note_id: 0 }
            } else {
                ContentView::Buffer { source: None, tempo_milli: 0, span: Beats { ticks: 0 } }
            },
        }
    }
}

impl Region {
    /// The invariant of a region.
    pub open spec fn wf(&self) -> bool {
        self@.wf()
    }

    /// A new region: of notes where `is_notes`, an audio clip otherwise.
    pub fn new(
        id: u32,
        name: String,
        start_time: Beats,
        duration: Beats,
        samples_per_beat: u32,
        is_notes: bool,
    ) -> (region: Region)
        ensures
            region.wf(),
            region@ == RegionView::fresh(id, name@, start_time, duration, samples_per_beat, is_notes),
    {
        let content = if is_notes {
            RegionContent::Notes { notes: Vec::new(), next_note_id: 0 }
        } else {
            RegionContent::Buffer { source: None, tempo_milli: 0, span: Beats::zero() }
        };
        Region { id, name, start_time, duration, samples_per_beat, content }
    }

    /// The region's id.
    pub fn get_id(&self) -> (id: u32)
        ensures
            id == self@.id,
    {
        self.id
    }

    /// The region's name.
    pub fn get_name(&self) -> (name: &String)
        ensures
            name@ == self@.name,
    {
        &self.name
    }

    /// The time at which the region starts.
    pub fn start_time(&self) -> (b: Beats)
        ensures
            b == self@.start_time,
    {
        self.start_time
    }

    /// How long the region lasts.
    pub fn duration(&self) -> (b: Beats)
        ensures
            b == self@.duration,
    {
        self.duration
    }

    /// The samples-per-beat hint the region was created with.
    pub fn samples_per_beat(&self) -> (n: u32)
        ensures
            n == self@.samples_per_beat,
    {
        self.samples_per_beat
    }

    /// True for a region of notes.
    pub fn is_notes(&self) -> (r: bool)
        ensures
            r == self@.is_notes(),
    {
        match &self.content {
            RegionContent::Notes { .. } => true,
            RegionContent::Buffer { .. } => false,
        }
    }

    /// The notes of the region, in ascending order of id; none for an audio
    /// clip.
    pub fn notes(&self) -> (notes: Vec<Note>)
        ensures
            notes@ == self@.notes(),
    {
        let mut out: Vec<Note> = Vec::new();
        match &self.content {
            RegionContent::Notes { notes, .. } => {
                let mut i: usize = 0;
                while i < notes.len()
                    invariant
                        i <= notes@.len(),
                        out@ == notes@.subrange(0, i as int),
                    decreases notes@.len() - i,
                {
                    out.push(notes[i]);
                    assert(out@ =~= notes@.subrange(0, i + 1));
                    i += 1;
                }
                assert(out@ =~= notes@);
            },
            RegionContent::Buffer { .. } => {},
        }
        out
    }

    /// The buffer the region plays, if it is an audio clip with one bound.
    pub fn source(&self) -> (source: Option<BufferSource>)
        ensures
            source == match self@.content {
                ContentView::Buffer { source, .. } => source,
                ContentView::Notes { .. } => None,
            },
    {
        match &self.content {
            RegionContent::Buffer { source, .. } => *source,
            RegionContent::Notes { .. } => None,
        }
    }

    /// The time over which the whole buffer of an audio clip plays: the
    /// length of the buffer at the tempo at which it was bound, stretched as
    /// the region was since. None for a region of notes.
    pub fn span(&self) -> (span: Option<Beats>)
        ensures
            span == self@.span(),
    {
        match &self.content {
            RegionContent::Buffer { span, .. } => Some(*span),
            RegionContent::Notes { .. } => None,
        }
    }

    /// The time at which the region ends, held at the end of the range.
    pub fn end(&self) -> (b: Beats)
        ensures
            b == self@.end(),
    {
        self.start_time.saturating_add(self.duration)
    }

    /// True when the region covers the time `b`.
    pub fn covers(&self, b: Beats) -> (r: bool)
        ensures
            r == self@.covers(b),
    {
        let start: i128 = self.start_time.ticks as i128;
        let end: i128 = start + self.duration.ticks as i128;
        let at: i128 = b.ticks as i128;
        start <= at && at < end
    }

    /// How far into the region the time `b` lies: negative before its start.
    pub fn local_beats(&self, b: Beats) -> (offset: Beats)
        ensures
            offset == self@.local(b),
    {
        let d: i128 = b.ticks as i128 - self.start_time.ticks as i128;
        if d > MAX_TICKS as i128 {
            Beats::from_ticks(MAX_TICKS)
        } else if d < MIN_TICKS as i128 {
            Beats::from_ticks(MIN_TICKS)
        } else {
            Beats::from_ticks(d as i64)
        }
    }

    /// The note with id `id`, if the region has one.
    pub fn get_note(&self, id: u32) -> (note: Option<Note>)
        requires
            self.wf(),
        ensures
            note.is_some() == has_note(self@.notes(), id),
            note matches Some(n) ==> n == self@.notes()[note_index(self@.notes(), id)],
    {
        match &self.content {
            RegionContent::Buffer { .. } => None,
            RegionContent::Notes { notes, next_note_id } => match Self::find_note(notes, id) {
                Some(i) => {
                    proof {
                        lemma_note_index(notes@, *next_note_id, id, i as int);
                    }
                    Some(notes[i])
                },
                None => None,
            },
        }
    }

    /// The ids of the notes that begin at or after `from` and before `until`,
    /// in ascending order: the notes that a tick which spans that time sets
    /// off. The start of a note counts from the start of the region.
    pub fn notes_beginning(&self, from: Beats, until: Beats) -> (ids: Vec<u32>)
        ensures
            ids@ == beginning(self@, self@.notes(), from, until),
    {
        let mut ids: Vec<u32> = Vec::new();
        match &self.content {
            RegionContent::Buffer { .. } => {},
            RegionContent::Notes { notes, .. } => {
                let ghost all = notes@;
                let mut i: usize = 0;
                assert(all.subrange(0, 0) =~= Seq::empty());
                while i < notes.len()
                    invariant
                        i <= notes@.len(),
                        all == notes@,
                        ids@ == beginning(self@, all.subrange(0, i as int), from, until),
                    decreases notes@.len() - i,
                {
                    assert(all.subrange(0, i + 1).drop_last() =~= all.subrange(0, i as int));
                    assert(all.subrange(0, i + 1).last() == all[i as int]);
                    let at: i128 = self.start_time.ticks as i128 + notes[i].start_beat.ticks as i128;
                    if from.ticks as i128 <= at && at < until.ticks as i128 {
                        ids.push(notes[i].id);
                    }
                    i += 1;
                }
                assert(all.subrange(0, i as int) =~= all);
            },
        }
        ids
    }

    /// Binds `source` to an audio clip, or unbinds with `None`, and records
    /// the tempo at which it was bound and the time over which the buffer
    /// plays at its own speed at that tempo. A region of notes refuses.
    pub fn set_audio_source(&mut self, source: Option<BufferSource>, tempo_milli: u32) -> (res:
        Result<(), RegionError>)
        ensures
            old(self)@.is_notes() ==> res == Err::<(), RegionError>(RegionError::NotABufferRegion)
                && final(self)@ == old(self)@,
            !old(self)@.is_notes() ==> res.is_ok() && final(self)@ == old(self)@.bound(
                source,
                tempo_milli,
            ),
            old(self).wf() ==> final(self).wf(),
    {
        match &self.content {
            RegionContent::Notes { .. } => Err(RegionError::NotABufferRegion),
            RegionContent::Buffer { .. } => {
                let span = match source {
                    Some(s) => Beats::of_frames(s.frames, s.sample_rate, tempo_milli),
                    None => Beats::zero(),
                };
                self.content = RegionContent::Buffer { source, tempo_milli, span };
                Ok(())
            },
        }
    }

    /// The position of the note with id `id`, if the region has one.
    fn find_note(notes: &Vec<Note>, id: u32) -> (found: Option<usize>)
        ensures
            match found {
                Some(i) => i < notes@.len() && notes@[i as int].id == id,
                None => !has_note(notes@, id),
            },
    {
        let mut i: usize = 0;
        while i < notes.len()
            invariant
                i <= notes@.len(),
                forall|j: int| 0 <= j < i ==> (#[trigger] notes@[j]).id != id,
            decreases notes@.len() - i,
        {
            if notes[i].id == id {
                return Some(i);
            }
            i += 1;
        }
        None
    }

    /// Carries out `op`. An operation that the region refuses leaves it as it
    /// was and is answered with the reason.
    pub fn apply(&mut self, op: &RegionOperation) -> (res: Result<(), RegionError>)
        requires
            old(self).wf(),
        ensures
            final(self).wf(),
            final(self)@ == old(self)@.after(op@),
            match old(self)@.op_error(op@) {
                Some(e) => res == Err::<(), RegionError>(e),
                None => res.is_ok(),
            },
    {
        proof {
            lemma_region_after_wf(self@, op@);
        }
        match op {
            RegionOperation::SetStartTime(b) => {
                self.start_time = *b;
                Ok(())
            },
            RegionOperation::SetDuration(b) => {
                self.duration = *b;
                Ok(())
            },
            RegionOperation::SetName(name) => {
                self.name = name.clone();
                Ok(())
            },
            RegionOperation::Scale(factor) => {
                if factor.den == 0 {
                    return Err(RegionError::InvalidScale);
                }
                let ghost before = self@;
                self.duration = self.duration.scaled(*factor);
                match &mut self.content {
                    RegionContent::Buffer { span, .. } => {
                        *span = span.scaled(*factor);
                    },
                    RegionContent::Notes { notes, .. } => {
                        let ghost old_notes = notes@;
                        let mut i: usize = 0;
                        while i < notes.len()
                            invariant
                                factor.den > 0,
                                i <= notes@.len(),
                                notes@.len() == old_notes.len(),
                                forall|j: int|
                                    0 <= j < i ==> notes@[j] == scaled_note(old_notes[j], *factor),
                                forall|j: int| i <= j < notes@.len() ==> notes@[j] == old_notes[j],
                            decreases notes@.len() - i,
                        {
                            let n = notes[i];
                            notes.set(
                                i,
                                Note {
                                    id: n.id,
                                    pitch: n.pitch,
                                    velocity: n.velocity,
                                    start_beat: n.start_beat.scaled(*factor),
                                    duration: n.duration.scaled(*factor),
                                },
                            );
                            i += 1;
                        }
                        assert(notes@ =~= Seq::new(
                            old_notes.len(),
                            |i: int| scaled_note(old_notes[i], *factor),
                        ));
                    },
                }
                Ok(())
            },
            RegionOperation::AddNote { pitch, velocity, start_beat, duration } => {
                match &mut self.content {
                    RegionContent::Buffer { .. } => Err(RegionError::NotANoteRegion),
                    RegionContent::Notes { notes, next_note_id } => {
                        if *pitch > MAX_NOTE_VALUE || *velocity > MAX_NOTE_VALUE {
                            return Err(RegionError::InvalidNote);
                        }
                        if *next_note_id == u32::MAX {
                            return Err(RegionError::NoteIdsExhausted);
                        }
                        notes.push(
                            Note {
                                id: *next_note_id,
                                pitch: *pitch,
                                velocity: *velocity,
                                start_beat: *start_beat,
                                duration: *duration,
                            },
                        );
                        *next_note_id = *next_note_id + 1;
                        Ok(())
                    },
                }
            },
            RegionOperation::RemoveNote { id } => {
                match &mut self.content {
                    RegionContent::Buffer { .. } => Err(RegionError::NotANoteRegion),
                    RegionContent::Notes { notes, next_note_id } => {
                        match Self::find_note(notes, *id) {
                            Some(i) => {
                                proof {
                                    lemma_note_index(notes@, *next_note_id, *id, i as int);
                                }
                                let _ = notes.remove(i);
                                Ok(())
                            },
                            None => Err(RegionError::UnknownNote),
                        }
                    },
                }
            },
            RegionOperation::ModifyNote { id, pitch, velocity, start_beat, duration } => {
                match &mut self.content {
                    RegionContent::Buffer { .. } => Err(RegionError::NotANoteRegion),
                    RegionContent::Notes { notes, next_note_id } => {
                        match Self::find_note(notes, *id) {
                            Some(i) => {
                                if *pitch > MAX_NOTE_VALUE || *velocity > MAX_NOTE_VALUE {
                                    return Err(RegionError::InvalidNote);
                                }
                                proof {
                                    lemma_note_index(notes@, *next_note_id, *id, i as int);
                                }
                                notes.set(
                                    i,
                                    Note {
                                        id: *id,
                                        pitch: *pitch,
                                        velocity: *velocity,
                                        start_beat: *start_beat,
                                        duration: *duration,
                                    },
                                );
                                Ok(())
                            },
                            None => Err(RegionError::UnknownNote),
                        }
                    },
                }
            },
        }
    }
}

impl RegionOperation {
    /// Carries out this operation on `region`. An operation that the region
    /// refuses leaves it as it was and is answered with the reason.
    pub fn apply(&self, region: &mut Region) -> (res: Result<(), RegionError>)
        requires
            old(region).wf(),
        ensures
            final(region).wf(),
            final(region)@ == old(region)@.after(self@),
            match old(region)@.op_error(self@) {
                Some(e) => res == Err::<(), RegionError>(e),
                None => res.is_ok(),
            },
    {
        region.apply(self)
    }
}

/// In notes of ascending id the note with a given id has one position.
pub proof fn lemma_note_index(notes: Seq<Note>, next_note_id: u32, id: u32, i: int)
    requires
        notes_wf(notes, next_note_id),
        0 <= i < notes.len(),
        notes[i].id == id,
    ensures
        has_note(notes, id),
        note_index(notes, id) == i,
{
    let k = note_index(notes, id);
    if k < i {
        assert(notes[k].id < notes[i].id);
    } else if i < k {
        assert(notes[i].id < notes[k].id);
    }
}

/// A well-formed region is well-formed after any operation.
pub proof fn lemma_region_after_wf(r: RegionView, op: RegionOp)
    requires
        r.wf(),
    ensures
        r.after(op).wf(),
        r.after(op).id == r.id,
        r.after(op).is_notes() == r.is_notes(),
{
    if r.op_error(op).is_none() {
        match r.content {
            ContentView::Buffer { .. } => {},
            ContentView::Notes { notes, next_note_id } => {
                match op {
                    RegionOp::RemoveNote { id } => {
                        let k = note_index(notes, id);
                        let after = notes.remove(k);
                        assert forall|i: int, j: int| 0 <= i < j < after.len() implies (
                        #[trigger] after[i]).id < (#[trigger] after[j]).id by {
                            let i0 = if i < k { i } else { i + 1 };
                            let j0 = if j < k { j } else { j + 1 };
                            assert(after[i] == notes[i0] && after[j] == notes[j0]);
                        }
                        assert forall|i: int| 0 <= i < after.len() implies (#[trigger] after[i]).id
                            < next_note_id && after[i].pitch <= MAX_NOTE_VALUE && after[i].velocity
                            <= MAX_NOTE_VALUE by {
                            let i0 = if i < k { i } else { i + 1 };
                            assert(after[i] == notes[i0]);
                        }
                    },
                    RegionOp::ModifyNote { id, .. } => {
                        let k = note_index(notes, id);
                        let after = r.after(op).notes();
                        assert forall|i: int, j: int| 0 <= i < j < after.len() implies (
                        #[trigger] after[i]).id < (#[trigger] after[j]).id by {
                            assert(after[i].id == notes[i].id && after[j].id == notes[j].id);
                        }
                        assert forall|i: int| 0 <= i < after.len() implies (#[trigger] after[i]).id
                            < next_note_id && after[i].pitch <= MAX_NOTE_VALUE && after[i].velocity
                            <= MAX_NOTE_VALUE by {
                            if i != k {
                                assert(after[i] == notes[i]);
                            }
                        }
                    },
                    RegionOp::Scale(factor) => {
                        let after = r.after(op).notes();
                        assert forall|i: int, j: int| 0 <= i < j < after.len() implies (
                        #[trigger] after[i]).id < (#[trigger] after[j]).id by {
                            assert(after[i].id == notes[i].id && after[j].id == notes[j].id);
                        }
                        assert forall|i: int| 0 <= i < after.len() implies (#[trigger] after[i]).id
                            < next_note_id && after[i].pitch <= MAX_NOTE_VALUE && after[i].velocity
                            <= MAX_NOTE_VALUE by {
                            assert(after[i] == scaled_note(notes[i], factor));
                        }
                    },
                    RegionOp::AddNote { .. } => {
                        let after = r.after(op).notes();
                        assert forall|i: int, j: int| 0 <= i < j < after.len() implies (
                        #[trigger] after[i]).id < (#[trigger] after[j]).id by {
                            assert(after[i] == notes[i]);
                            if j < notes.len() {
                                assert(after[j] == notes[j]);
                            }
                        }
                        assert forall|i: int| 0 <= i < after.len() implies (#[trigger] after[i]).id
                            < next_note_id + 1 && after[i].pitch <= MAX_NOTE_VALUE
                            && after[i].velocity <= MAX_NOTE_VALUE by {
                            if i < notes.len() {
                                assert(after[i] == notes[i]);
                            }
                        }
                    },
                    _ => {},
                }
            },
        }
    }
}

/// Stretching a region by a factor of one changes nothing.
pub proof fn lemma_scale_by_one_is_identity(r: RegionView, factor: Ratio)
    requires
        factor.is_one(),
    ensures
        r.after(RegionOp::Scale(factor)) == r,
{
    let n = factor.num as int;
    lemma_scale_by_one(r.duration@, n);
    assert(scaled_beats(r.duration, factor) == r.duration);
    match r.content {
        ContentView::Buffer { span, .. } => {
            lemma_scale_by_one(span@, n);
        },
        ContentView::Notes { notes, next_note_id } => {
            let after = Seq::new(notes.len(), |i: int| scaled_note(notes[i], factor));
            assert forall|i: int| 0 <= i < notes.len() implies after[i] == notes[i] by {
                lemma_scale_by_one(notes[i].start_beat@, n);
                lemma_scale_by_one(notes[i].duration@, n);
            }
            assert(after =~= notes);
        },
    }
}

impl Clone for Region {
    fn clone(&self) -> (region: Region)
        ensures
            region@ == self@,
    {
        let content = match &self.content {
            RegionContent::Buffer { source, tempo_milli, span } => RegionContent::Buffer {
                source: *source,
                tempo_milli: *tempo_milli,
                span: *span,
            },
            RegionContent::Notes { next_note_id, .. } => RegionContent::Notes {
                notes: self.notes(),
                next_note_id: *next_note_id,
            },
        };
        Region {
            id: self.id,
            name: self.name.clone(),
            start_time: self.start_time,
            duration: self.duration,
            samples_per_beat: self.samples_per_beat,
            content,
        }
    }
}

} // verus!
