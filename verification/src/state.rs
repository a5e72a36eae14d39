use vstd::prelude::*;

use crate::common::NonEmptyString;
use crate::frame::{tags_view, CompletedFrame, Frame};

verus! {

/// The mathematical model of an ongoing frame: the fields observable while a
/// frame is unfinished.
#[verifier::ext_equal]
pub struct OngoingV {
    pub project: Seq<char>,
    pub start: int,
    pub tags: Seq<Seq<char>>,
}

/// Representation of a currently ongoing frame.
/// The frame is not completed; storing it is delegated to the backend.
#[derive(Debug)]
pub struct OngoingFrame {
    project: NonEmptyString,
    start: i64,
    tags: Vec<NonEmptyString>,
}

impl View for OngoingFrame {
    type V = OngoingV;

    closed spec fn view(&self) -> OngoingV {
        OngoingV {
            project: self.project@,
            start: self.start as int,
            tags: tags_view(self.tags@),
        }
    }
}

impl OngoingFrame {
    pub fn new(project: NonEmptyString, start: i64, tags: Vec<NonEmptyString>) -> (r: Self)
        ensures
            r@ == (OngoingV { project: project@, start: start as int, tags: tags_view(tags@) }),
    {
        OngoingFrame { project, start, tags }
    }

    pub fn project(&self) -> (r: &NonEmptyString)
        ensures
            r@ == self@.project,
    {
        &self.project
    }

    pub fn start(&self) -> (r: i64)
        ensures
            r as int == self@.start,
    {
        self.start
    }

    pub fn tags(&self) -> (r: &[NonEmptyString])
        ensures
            tags_view(r@) == self@.tags,
    {
        self.tags.as_slice()
    }

    /// Overwrite project, start and tags from an edit, with its start already
    /// parsed.
    pub fn update_from(&mut self, edit: &crate::watson::FrameEdit, start: i64)
        ensures
            final(self)@ == (OngoingV {
                project: edit@.project,
                start: start as int,
                tags: edit@.tags,
            }),
    {
        self.project = edit.project().clone();
        self.start = start;
        self.tags = crate::frame::clone_tags(edit.tags());
    }

    /// Promote to a full frame: a fresh id, no end, last edit set to now.
    pub fn into_frame(self) -> (r: Frame)
        ensures
            r@.project == self@.project,
            r@.start == self@.start,
            r@.tags == self@.tags,
            r@.end is None,
    {
        Frame::new(self.project, None, Some(self.start), None, self.tags, None)
    }
}

impl Clone for OngoingFrame {
    fn clone(&self) -> (r: Self)
        ensures
            r@ == self@,
    {
        let r = OngoingFrame {
            project: self.project.clone(),
            start: self.start,
            tags: self.tags.clone(),
        };
        proof {
            assert(tags_view(r.tags@) =~= tags_view(self.tags@));
            assert(r@ =~= self@);
        }
        r
    }
}

/// The view of an optional ongoing frame.
pub open spec fn opt_ongoing_view(o: Option<OngoingFrame>) -> Option<OngoingV> {
    match o {
        Some(f) => Some(f@),
        None => None,
    }
}

/// The backend that stores the state, that is, the ongoing frame. A dumb
/// single-slot store: the state machine around it is what prevents misuse.
pub trait StateStoreBackend: Sized {
    type StateStoreBackendError;

    /// The model: what the single slot currently holds.
    spec fn ongoing(&self) -> Option<OngoingV>;

    /// Get the currently ongoing frame, if there is one.
    fn get(&self) -> (r: Result<Option<OngoingFrame>, Self::StateStoreBackendError>)
        ensures
            r matches Ok(o) ==> opt_ongoing_view(o) == self.ongoing(),
    ;

    /// Store an ongoing frame. Overwrites an existing ongoing frame.
    fn store(&mut self, state: &OngoingFrame) -> (r: Result<(), Self::StateStoreBackendError>)
        ensures
            r is Ok ==> final(self).ongoing() == Some(state@),
            r is Err ==> final(self).ongoing() == old(self).ongoing(),
    ;

    /// Clear an ongoing frame. The returned boolean indicates whether there
    /// was an ongoing frame: true if there was, false if there was not.
    fn clear(&mut self) -> (r: Result<bool, Self::StateStoreBackendError>)
        ensures
            r matches Ok(b) ==> final(self).ongoing() is None
                && b == (old(self).ongoing() is Some),
            r is Err ==> final(self).ongoing() == old(self).ongoing(),
    ;
}

pub trait TrackingState {}

pub struct Ongoing {}

pub struct Stopped {}

impl TrackingState for Ongoing {}

impl TrackingState for Stopped {}

/// The state store wraps a `StateStoreBackend` to protect it from invalid
/// access: the type parameter enables exactly the methods that are legal for
/// the backend's current state, so a double start or a stop while stopped is
/// not representable at the call site.
pub struct StateStore<S: StateStoreBackend, T: TrackingState> {
    backend: S,
    marker: core::marker::PhantomData<T>,
}

impl<S: StateStoreBackend, T: TrackingState> StateStore<S, T> {
    /// The wrapped backend.
    pub closed spec fn inner(&self) -> S {
        self.backend
    }

    /// The model of the slot behind this handle.
    pub open spec fn ongoing(&self) -> Option<OngoingV> {
        self.inner().ongoing()
    }

    fn new(backend: S) -> (r: Self)
        ensures
            r.inner() == backend,
    {
        StateStore { backend, marker: core::marker::PhantomData }
    }

    /// Give the backend back, discarding the handle.
    pub fn into_backend(self) -> (r: S)
        ensures
            r == self.inner(),
    {
        self.backend
    }
}

/// The result of a successful start: the new ongoing frame and the handle to
/// the now-ongoing store.
pub struct FrameStarted<S: StateStoreBackend> {
    pub frame: OngoingFrame,
    pub store: StateStore<S, Ongoing>,
}

/// The result of a successful stop: the completed frame and the handle to the
/// now-stopped store. The caller is responsible for persisting the frame.
pub struct FrameStopped<S: StateStoreBackend> {
    pub frame: CompletedFrame,
    pub store: StateStore<S, Stopped>,
}

impl<S: StateStoreBackend> StateStore<S, Stopped> {
    /// A stopped handle stands for an empty slot.
    pub open spec fn wf(&self) -> bool {
        self.ongoing() is None
    }

    /// Write a new ongoing frame to the backend; fails only if the backend
    /// write fails.
    pub fn start(self, project: NonEmptyString, start: i64, tags: Vec<NonEmptyString>) -> (r:
        Result<FrameStarted<S>, S::StateStoreBackendError>)
        ensures
            r matches Ok(fs) ==> {
                &&& fs.frame@ == (OngoingV {
                    project: project@,
                    start: start as int,
                    tags: tags_view(tags@),
                })
                &&& fs.store.ongoing() == Some(fs.frame@)
                &&& fs.store.wf()
            },
    {
        let ongoing_frame = OngoingFrame::new(project, start, tags);
        let mut backend = self.backend;
        match backend.store(&ongoing_frame) {
            Ok(()) => Ok(FrameStarted { frame: ongoing_frame, store: StateStore::new(backend) }),
            Err(e) => Err(e),
        }
    }
}

impl<S: StateStoreBackend> StateStore<S, Ongoing> {
    /// An ongoing handle stands for a filled slot.
    pub open spec fn wf(&self) -> bool {
        self.ongoing() is Some
    }

    /// The current ongoing frame; it always exists behind an ongoing handle.
    pub fn get_ongoing(&self) -> (r: Result<OngoingFrame, S::StateStoreBackendError>)
        requires
            self.wf(),
        ensures
            r matches Ok(f) ==> Some(f@) == self.ongoing(),
    {
        match self.backend.get() {
            Ok(Some(f)) => Ok(f),
            Ok(None) => unreached(),
            Err(e) => Err(e),
        }
    }

    /// Read the ongoing frame, complete it at `at`, and clear the backend
    /// slot. The state machine's job ends at producing the completed frame:
    /// persisting it is the caller's responsibility.
    pub fn stop(self, at: i64) -> (r: Result<FrameStopped<S>, S::StateStoreBackendError>)
        requires
            self.wf(),
        ensures
            r matches Ok(fs) ==> {
                &&& fs.frame@.project == self.ongoing()->Some_0.project
                &&& fs.frame@.start == self.ongoing()->Some_0.start
                &&& fs.frame@.tags == self.ongoing()->Some_0.tags
                &&& fs.frame@.end == Some(at as int)
                &&& fs.store.ongoing() is None
                &&& fs.store.wf()
            },
    {
        let ongoing = match self.get_ongoing() {
            Ok(f) => f,
            Err(e) => {
                return Err(e);
            },
        };
        let mut frame = ongoing.into_frame();
        let completed = frame.set_end(at);
        let mut backend = self.backend;
        match backend.clear() {
            Ok(_) => Ok(FrameStopped { frame: completed, store: StateStore::new(backend) }),
            Err(e) => Err(e),
        }
    }

    /// Clear the backend slot, discarding the ongoing frame; no completed
    /// frame is produced. The backend is handed back stopped.
    pub fn cancel(self) -> (r: Result<S, S::StateStoreBackendError>)
        ensures
            r matches Ok(b) ==> b.ongoing() is None,
    {
        let mut backend = self.backend;
        match backend.clear() {
            Ok(_) => Ok(backend),
            Err(e) => Err(e),
        }
    }

    /// Overwrite the backend slot with a revised ongoing frame; used by
    /// mid-flight edits. Does not transition state.
    pub fn update_ongoing(&mut self, ongoing_frame: OngoingFrame) -> (r: Result<
        (),
        S::StateStoreBackendError,
    >)
        requires
            old(self).wf(),
        ensures
            r is Ok ==> final(self).ongoing() == Some(ongoing_frame@),
            r is Err ==> final(self).ongoing() == old(self).ongoing(),
            final(self).wf(),
    {
        self.backend.store(&ongoing_frame)
    }
}

/// The store in its currently active state: an ongoing handle when the
/// backend holds an ongoing frame, a stopped handle otherwise.
pub enum StateStoreVariant<S: StateStoreBackend> {
    Ongoing(StateStore<S, Ongoing>),
    Stopped(StateStore<S, Stopped>),
}

/// Getter for a state store, based on a backend. The variant is decided by
/// whether the backend currently holds an ongoing frame; the handle's
/// validity is scoped to that single check.
pub fn get_state_store<S: StateStoreBackend>(backend: S) -> (r: Result<
    StateStoreVariant<S>,
    S::StateStoreBackendError,
>)
    ensures
        r matches Ok(v) ==> match v {
            StateStoreVariant::Ongoing(st) => st.wf() && st.ongoing() == backend.ongoing(),
            StateStoreVariant::Stopped(st) => st.wf() && st.ongoing() == backend.ongoing(),
        },
{
    match backend.get() {
        Ok(Some(_)) => Ok(StateStoreVariant::Ongoing(StateStore::new(backend))),
        Ok(None) => Ok(StateStoreVariant::Stopped(StateStore::new(backend))),
        Err(e) => Err(e),
    }
}

} // verus!
