use vstd::prelude::*;

use crate::common::NonEmptyString;
use crate::frame::{
    frames_view, has_project, overlaps, seen_project, store_inv, upsert, CompletedFrame,
    FrameStore, FrameV,
};
use crate::state::{OngoingFrame, OngoingV, StateStoreBackend};
use crate::watson::FrameEdit;

verus! {

/// What can go wrong while executing a command, over the backend's own error
/// type `E`.
#[derive(Debug, Clone)]
pub enum CliError<E> {
    /// A start was attempted while the named project is already running.
    OngoingProject(NonEmptyString),
    /// The project name handed to start was empty.
    InvalidProjectName,
    /// The backend failed; its error is carried along.
    FrameStoreError(E),
    /// Stop, cancel or status was attempted while nothing is tracked.
    NoOngoingRecording,
    /// No editor is configured.
    EditorNotSet,
    /// The editor could not be run or exited unsuccessfully.
    EditorError(String),
    /// The edit transfer file could not be written or read back.
    TempFileError(String),
    /// The edit payload was malformed.
    SerializationError(String),
    /// No frame carries the requested id (or there is nothing to edit).
    InvalidFrame(Option<String>),
    /// A stop was attempted at a time that lies in the future.
    FutureTimestamp,
}

/// The tag texts that survive start's filtering: the non-empty ones, in order.
pub open spec fn nonempty_tags(tags: Seq<String>) -> Seq<Seq<char>> {
    tags.map_values(|s: String| s@).filter(|t: Seq<char>| t.len() > 0)
}

/// What an edit applies to: a completed frame from the store, or the frame
/// currently being tracked.
pub enum EditTarget {
    Completed(CompletedFrame),
    Ongoing(OngoingFrame),
}

/// The class responsible for executing commands against a frame store and a
/// state backend that agree on an error type.
#[verifier::reject_recursive_types(E)]
pub struct CommandExecutor<E, F: FrameStore<FrameStoreError = E>, B: StateStoreBackend<
    StateStoreBackendError = E,
>> {
    /// The place where completed frames are stored.
    frame_store: F,
    /// The single-slot store of the ongoing frame.
    state_backend: B,
}

impl<E, F: FrameStore<FrameStoreError = E>, B: StateStoreBackend<StateStoreBackendError = E>> CommandExecutor<
    E,
    F,
    B,
> {
    /// The completed-frame store.
    pub closed spec fn store(&self) -> F {
        self.frame_store
    }

    /// The state backend.
    pub closed spec fn backend(&self) -> B {
        self.state_backend
    }

    /// The stored completed frames.
    pub open spec fn frames(&self) -> Seq<FrameV> {
        self.store().frames()
    }

    /// The ongoing frame, if one is tracked.
    pub open spec fn ongoing(&self) -> Option<OngoingV> {
        self.backend().ongoing()
    }

    /// The executor's stores are well formed.
    pub open spec fn inv(&self) -> bool {
        store_inv(self.frames())
    }

    pub fn new(frame_store: F, state_backend: B) -> (r: Self)
        ensures
            r.store() == frame_store,
            r.backend() == state_backend,
    {
        CommandExecutor { frame_store, state_backend }
    }

    pub fn frame_store(&self) -> (r: &F)
        ensures
            *r == self.store(),
    {
        &self.frame_store
    }

    pub fn state_backend(&self) -> (r: &B)
        ensures
            *r == self.backend(),
    {
        &self.state_backend
    }

    /// Start tracking a project: reject a start while a frame is ongoing or
    /// an empty project name, drop empty tags, and begin at `now` - or, with
    /// `no_gap`, at the end of the last completed frame.
    pub fn start(&mut self, project: &str, tags: &Vec<String>, no_gap: bool, now: i64) -> (r:
        Result<OngoingFrame, CliError<E>>)
        requires
            old(self).inv(),
        ensures
            final(self).inv(),
            final(self).frames() == old(self).frames(),
            r matches Ok(of) ==> {
                &&& old(self).ongoing() is None
                &&& project@.len() > 0
                &&& final(self).ongoing() == Some(of@)
                &&& of@.project == project@
                &&& of@.tags == nonempty_tags(tags@)
                &&& (!no_gap || old(self).frames().len() == 0) ==> of@.start == now as int
                &&& (no_gap && old(self).frames().len() > 0) ==> (exists|k: int|
                    0 <= k < old(self).frames().len() && (#[trigger] old(self).frames()[k]).end
                        == Some(of@.start)) && (forall|k: int|
                    0 <= k < old(self).frames().len() ==> (#[trigger] old(self).frames()[k]).end->Some_0
                        <= of@.start)
            },
            old(self).ongoing() is Some ==> (r is Err && final(self).ongoing() == old(
                self,
            ).ongoing()),
            r matches Err(e) ==> (e matches CliError::OngoingProject(p) ==> (old(
                self,
            ).ongoing() matches Some(o) && p@ == o.project && final(self).ongoing() == old(
                self,
            ).ongoing())),
            (old(self).ongoing() is None && project@.len() == 0) ==> r is Err,
            (r matches Err(e) && e matches CliError::InvalidProjectName) ==> (old(
                self,
            ).ongoing() is None && project@.len() == 0 && final(self).ongoing() == old(
                self,
            ).ongoing()),
            r matches Err(e) ==> (e is OngoingProject || e is InvalidProjectName
                || e is FrameStoreError),
            r is Err ==> final(self).ongoing() == old(self).ongoing(),
    {
        match self.state_backend.get() {
            Err(e) => Err(CliError::FrameStoreError(e)),
            Ok(Some(f)) => Err(CliError::OngoingProject(f.project().clone())),
            Ok(None) => {
                let project = match NonEmptyString::new(project) {
                    Some(p) => p,
                    None => {
                        return Err(CliError::InvalidProjectName);
                    },
                };
                let ghost ms = tags@.map_values(|s: String| s@);
                let ghost pred = |t: Seq<char>| t.len() > 0;
                let mut kept: Vec<NonEmptyString> = Vec::new();
                let mut i: usize = 0;
                proof {
                    assert(ms.subrange(0, 0).filter(pred) =~= Seq::<Seq<char>>::empty());
                }
                while i < tags.len()
                    invariant
                        0 <= i <= tags@.len(),
                        ms == tags@.map_values(|s: String| s@),
                        pred == (|t: Seq<char>| t.len() > 0),
                        crate::frame::tags_view(kept@) == ms.subrange(0, i as int).filter(pred),
                    decreases tags@.len() - i,
                {
                    proof {
                        reveal(Seq::filter);
                        assert(ms.subrange(0, i as int + 1).drop_last() =~= ms.subrange(
                            0,
                            i as int,
                        ));
                        assert(ms.subrange(0, i as int + 1).last() == ms[i as int]);
                    }
                    let ghost kept_view = crate::frame::tags_view(kept@);
                    match NonEmptyString::new(tags[i].as_str()) {
                        Some(t) => {
                            kept.push(t);
                            proof {
                                assert(crate::frame::tags_view(kept@) =~= kept_view.push(
                                    ms[i as int],
                                ));
                                assert(crate::frame::tags_view(kept@) =~= ms.subrange(
                                    0,
                                    i as int + 1,
                                ).filter(pred));
                            }
                        },
                        None => {
                            proof {
                                assert(crate::frame::tags_view(kept@) =~= ms.subrange(
                                    0,
                                    i as int + 1,
                                ).filter(pred));
                            }
                        },
                    }
                    i = i + 1;
                }
                proof {
                    assert(ms.subrange(0, ms.len() as int) =~= ms);
                }
                let start = if no_gap {
                    match self.frame_store.get_last_frame() {
                        Some(f) => f.end(),
                        None => now,
                    }
                } else {
                    now
                };
                let of = OngoingFrame::new(project, start, kept);
                match self.state_backend.store(&of) {
                    Ok(()) => Ok(of),
                    Err(e) => Err(CliError::FrameStoreError(e)),
                }
            },
        }
    }

    /// Stop the current frame at `at`: reject a future time before reaching
    /// the backend, complete the ongoing frame, save it and clear the slot.
    pub fn stop(&mut self, at: i64, now: i64) -> (r: Result<CompletedFrame, CliError<E>>)
        requires
            old(self).inv(),
        ensures
            final(self).inv(),
            at > now ==> (r matches Err(e) && e matches CliError::FutureTimestamp && *final(self)
                == *old(self)),
            (at <= now && old(self).ongoing() is None) ==> r is Err,
            (r matches Err(e) && e matches CliError::NoOngoingRecording) ==> (at <= now && old(
                self,
            ).ongoing() is None && *final(self) == *old(self)),
            (r matches Err(e) && e is FutureTimestamp) ==> at > now,
            r matches Err(e) ==> (e is FutureTimestamp || e is NoOngoingRecording
                || e is FrameStoreError),
            r is Err ==> final(self).ongoing() == old(self).ongoing(),
            r matches Ok(cf) ==> {
                &&& at <= now
                &&& old(self).ongoing() matches Some(o) && cf@.project == o.project && cf@.start
                    == o.start && cf@.tags == o.tags
                &&& cf@.end == Some(at as int)
                &&& final(self).ongoing() is None
                &&& final(self).frames() == upsert(old(self).frames(), cf@)
            },
    {
        if at > now {
            return Err(CliError::FutureTimestamp);
        }
        match self.state_backend.get() {
            Err(e) => Err(CliError::FrameStoreError(e)),
            Ok(None) => Err(CliError::NoOngoingRecording),
            Ok(Some(of)) => {
                let mut frame = of.into_frame();
                let completed = frame.set_end(at);
                match self.frame_store.save_frame(&completed) {
                    Err(e) => Err(CliError::FrameStoreError(e)),
                    Ok(()) => match self.state_backend.clear() {
                        Ok(_) => Ok(completed),
                        Err(e) => Err(CliError::FrameStoreError(e)),
                    },
                }
            },
        }
    }

    /// Cancel the current frame: clear the slot, discarding the interval, and
    /// report which project was cancelled. No completed frame is produced.
    pub fn cancel(&mut self) -> (r: Result<NonEmptyString, CliError<E>>)
        requires
            old(self).inv(),
        ensures
            final(self).inv(),
            final(self).frames() == old(self).frames(),
            r matches Ok(p) ==> {
                &&& old(self).ongoing() matches Some(o) && p@ == o.project
                &&& final(self).ongoing() is None
            },
            old(self).ongoing() is None ==> r is Err,
            (r matches Err(e) && e is NoOngoingRecording) ==> old(self).ongoing() is None,
            r matches Err(e) ==> (e is NoOngoingRecording || e is FrameStoreError),
            r is Err ==> final(self).ongoing() == old(self).ongoing(),
    {
        match self.state_backend.get() {
            Err(e) => Err(CliError::FrameStoreError(e)),
            Ok(None) => Err(CliError::NoOngoingRecording),
            Ok(Some(of)) => {
                match self.state_backend.clear() {
                    Ok(_) => Ok(of.project().clone()),
                    Err(e) => Err(CliError::FrameStoreError(e)),
                }
            },
        }
    }

    /// List every project that appears among the stored frames, each once,
    /// sorted for determinism.
    pub fn list_projects(&self) -> (r: Result<Vec<NonEmptyString>, CliError<E>>)
        ensures
            r matches Ok(v) ==> {
                &&& forall|i: int, j: int|
                    0 <= i < v@.len() && 0 <= j < v@.len() && i != j ==> (#[trigger] v@[i])@ != (
                    #[trigger] v@[j])@
                &&& forall|i: int, j: int|
                    0 <= i < j < v@.len() ==> crate::common::lex_lt(
                        (#[trigger] v@[i])@,
                        (#[trigger] v@[j])@,
                    )
                &&& forall|i: int|
                    0 <= i < v@.len() ==> has_project(self.frames(), (#[trigger] v@[i])@)
                &&& forall|k: int|
                    0 <= k < self.frames().len() ==> seen_project(
                        v@,
                        (#[trigger] self.frames()[k]).project,
                    )
            },
            r matches Err(e) ==> e is FrameStoreError,
    {
        match self.frame_store.get_projects() {
            Ok(v) => Ok(v),
            Err(e) => Err(CliError::FrameStoreError(e)),
        }
    }

    /// The status of the tracker: the ongoing frame, or an error while
    /// nothing is tracked.
    pub fn status(&self) -> (r: Result<OngoingFrame, CliError<E>>)
        ensures
            r matches Ok(of) ==> self.ongoing() == Some(of@),
            self.ongoing() is None ==> r is Err,
            (r matches Err(e) && e is NoOngoingRecording) ==> self.ongoing() is None,
            r matches Err(e) ==> (e is NoOngoingRecording || e is FrameStoreError),
    {
        match self.state_backend.get() {
            Err(e) => Err(CliError::FrameStoreError(e)),
            Ok(None) => Err(CliError::NoOngoingRecording),
            Ok(Some(of)) => Ok(of),
        }
    }

    /// The completed frames overlapping `[from, to)`, sorted by start time;
    /// with `include_current`, the ongoing frame is appended, completed at
    /// `now`.
    pub fn show_log(&self, from: i64, to: i64, include_current: bool, now: i64) -> (r: Result<
        Vec<CompletedFrame>,
        CliError<E>,
    >)
        requires
            self.inv(),
        ensures
            r matches Ok(v) ==> ({
                let rv = frames_view(v@);
                let base = if include_current && self.ongoing() is Some {
                    rv.drop_last()
                } else {
                    rv
                };
                &&& forall|x: FrameV|
                    #[trigger] base.contains(x) <==> (self.frames().contains(x) && overlaps(
                        x,
                        from as int,
                        to as int,
                    ))
                &&& (include_current && self.ongoing() is Some) ==> ({
                    let o = self.ongoing()->Some_0;
                    &&& rv.len() >= 1
                    &&& rv.last().project == o.project
                    &&& rv.last().start == o.start
                    &&& rv.last().tags == o.tags
                    &&& rv.last().end == Some(now as int)
                })
            }),
            r matches Err(e) ==> e is FrameStoreError,
    {
        let mut frames = match self.frame_store.get_frames(from, to) {
            Ok(v) => v,
            Err(e) => {
                return Err(CliError::FrameStoreError(e));
            },
        };
        if include_current {
            match self.state_backend.get() {
                Err(e) => {
                    return Err(CliError::FrameStoreError(e));
                },
                Ok(Some(of)) => {
                    let ghost before = frames_view(frames@);
                    let mut frame = of.into_frame();
                    let completed = frame.set_end(now);
                    frames.push(completed);
                    proof {
                        assert(frames_view(frames@).drop_last() =~= before);
                    }
                    return Ok(frames);
                },
                Ok(None) => {},
            }
        }
        Ok(frames)
    }

    /// What an edit applies to: the frame with the given id; with no id, the
    /// ongoing frame if one exists, else the last completed frame.
    pub fn resolve_edit_target(&self, id: Option<&str>) -> (r: Result<EditTarget, CliError<E>>)
        requires
            self.inv(),
        ensures
            r matches Ok(t) ==> match t {
                EditTarget::Completed(f) => self.frames().contains(f@) && (id matches Some(s)
                    ==> f@.id == s@) && (id is None ==> self.ongoing() is None && forall|k: int|
                    0 <= k < self.frames().len() ==> (#[trigger] self.frames()[k]).end->Some_0
                        <= f@.end->Some_0),
                EditTarget::Ongoing(o) => id is None && self.ongoing() == Some(o@),
            },
            r matches Err(e) ==> (e matches CliError::InvalidFrame(o) ==> match o {
                Some(s) => id matches Some(s2) && s@ == s2@ && forall|k: int|
                    0 <= k < self.frames().len() ==> (#[trigger] self.frames()[k]).id != s@,
                None => id is None && self.ongoing() is None && self.frames().len() == 0,
            }),
            r matches Err(e) ==> (e is InvalidFrame || e is FrameStoreError),
    {
        match id {
            Some(frame_id) => {
                match self.frame_store.get_frame(frame_id) {
                    Err(e) => Err(CliError::FrameStoreError(e)),
                    Ok(Some(f)) => Ok(EditTarget::Completed(f)),
                    Ok(None) => Err(CliError::InvalidFrame(Some(frame_id.to_owned()))),
                }
            },
            None => {
                match self.state_backend.get() {
                    Err(e) => Err(CliError::FrameStoreError(e)),
                    Ok(Some(of)) => Ok(EditTarget::Ongoing(of)),
                    Ok(None) => match self.frame_store.get_last_frame() {
                        Some(f) => Ok(EditTarget::Completed(f)),
                        None => Err(CliError::InvalidFrame(None)),
                    },
                }
            },
        }
    }

    /// Apply an external edit to the stored frame with the given id: its
    /// project, times and tags are overwritten, its id kept, its last-edit
    /// time refreshed to `now`. The edit must keep a stop time and its times
    /// must parse.
    pub fn apply_edit(&mut self, frame_id: &str, edit: &FrameEdit, now: i64) -> (r: Result<
        (),
        CliError<E>,
    >)
        requires
            old(self).inv(),
        ensures
            final(self).inv(),
            final(self).ongoing() == old(self).ongoing(),
            r matches Err(e) ==> (e is InvalidFrame || e is SerializationError
                || e is FrameStoreError),
            r matches Err(e) ==> (e matches CliError::InvalidFrame(o) ==> (o matches Some(s)
                && s@ == frame_id@ && ((forall|k: int|
                0 <= k < old(self).frames().len() ==> (#[trigger] old(self).frames()[k]).id
                    != frame_id@) || edit@.stop is None))),
            r is Err ==> final(self).frames() == old(self).frames(),
            r is Ok ==> edit@.stop is Some && (exists|f2: FrameV|
                {
                    &&& final(self).frames() == upsert(old(self).frames(), f2)
                    &&& f2.id == frame_id@
                    &&& f2.project == edit@.project
                    &&& f2.tags == edit@.tags
                    &&& f2.end is Some
                    &&& f2.last_edit == now as int
                }),
    {
        let cf = match self.frame_store.get_frame(frame_id) {
            Err(e) => {
                return Err(CliError::FrameStoreError(e));
            },
            Ok(Some(f)) => f,
            Ok(None) => {
                return Err(CliError::InvalidFrame(Some(frame_id.to_owned())));
            },
        };
        let (start, end) = match edit.parse_times() {
            Some(p) => p,
            None => {
                return Err(CliError::SerializationError("invalid date-time in edit".to_owned()));
            },
        };
        let mut frame = cf.frame().clone();
        frame.update_from(edit, start, end, now);
        let updated = match CompletedFrame::from_frame(frame) {
            Some(c) => c,
            None => {
                return Err(CliError::InvalidFrame(Some(frame_id.to_owned())));
            },
        };
        match self.frame_store.save_frame(&updated) {
            Ok(()) => {
                proof {
                    assert(updated@.id == frame_id@);
                }
                Ok(())
            },
            Err(e) => Err(CliError::FrameStoreError(e)),
        }
    }

    /// Apply an external edit to the ongoing frame: its project, start and
    /// tags are overwritten in place; the state stays ongoing.
    pub fn apply_edit_ongoing(&mut self, edit: &FrameEdit) -> (r: Result<(), CliError<E>>)
        requires
            old(self).inv(),
        ensures
            final(self).inv(),
            final(self).frames() == old(self).frames(),
            r is Ok ==> (final(self).ongoing() matches Some(o) && o.project == edit@.project
                && o.tags == edit@.tags),
            r matches Err(e) ==> (e is InvalidFrame || e is SerializationError
                || e is FrameStoreError),
            (r matches Err(e) && e is InvalidFrame) ==> old(self).ongoing() is None,
            r is Err ==> final(self).ongoing() == old(self).ongoing(),
    {
        let mut of = match self.state_backend.get() {
            Err(e) => {
                return Err(CliError::FrameStoreError(e));
            },
            Ok(Some(f)) => f,
            Ok(None) => {
                return Err(CliError::InvalidFrame(None));
            },
        };
        let (start, _end) = match edit.parse_times() {
            Some(p) => p,
            None => {
                return Err(CliError::SerializationError("invalid date-time in edit".to_owned()));
            },
        };
        of.update_from(edit, start);
        match self.state_backend.store(&of) {
            Ok(()) => Ok(()),
            Err(e) => Err(CliError::FrameStoreError(e)),
        }
    }
}

} // verus!
