use vstd::prelude::*;

use crate::common::{lemma_lex_total, lemma_lex_trans, lex_lt, str_eq, str_lt, NonEmptyString};
use crate::frame::{
    frames_view, has_project, lemma_upsert_inv, overlaps, seen_project, store_inv, upsert,
    CompletedFrame, FrameStore, FrameV,
};
use crate::state::{opt_ongoing_view, OngoingFrame, OngoingV, StateStoreBackend};

verus! {

/// An in-memory store implementation for testing purposes only.
/// Stores all data in instance variables without any persistence.
pub struct InMemoryStore {
    frames: Vec<CompletedFrame>,
    ongoing_frame: Option<OngoingFrame>,
}

impl InMemoryStore {
    /// The model behind the completed-frame contract.
    pub closed spec fn frames_model(&self) -> Seq<FrameV> {
        frames_view(self.frames@)
    }

    /// The model behind the single-slot contract.
    pub closed spec fn ongoing_model(&self) -> Option<OngoingV> {
        opt_ongoing_view(self.ongoing_frame)
    }
}

impl InMemoryStore {
    pub fn new() -> (r: Self)
        ensures
            r.frames() == Seq::<FrameV>::empty(),
            r.ongoing() is None,
            store_inv(r.frames()),
    {
        let r = InMemoryStore { frames: Vec::new(), ongoing_frame: None };
        proof {
            assert(frames_view(r.frames@) =~= Seq::<FrameV>::empty());
        }
        r
    }
}

impl InMemoryStore {
    /// All stored frames, in storage order; the persistence boundary reads
    /// the store out through this.
    pub fn all_frames(&self) -> (r: &Vec<CompletedFrame>)
        ensures
            frames_view(r@) == self.frames(),
    {
        &self.frames
    }
}

impl Default for InMemoryStore {
    fn default() -> (r: Self)
        ensures
            r.frames() == Seq::<FrameV>::empty(),
            r.ongoing() is None,
    {
        InMemoryStore::new()
    }
}

#[derive(Debug, Clone)]
pub enum InMemoryStoreError {
    Generic(String),
}

impl FrameStore for InMemoryStore {
    type FrameStoreError = InMemoryStoreError;

    open spec fn frames(&self) -> Seq<FrameV> {
        self.frames_model()
    }

    fn save_frame(&mut self, frame: &CompletedFrame) -> (r: Result<(), InMemoryStoreError>)
        ensures
            r is Ok,
            final(self).ongoing_model() == old(self).ongoing_model(),
    {
        let ghost s = frames_view(old(self).frames@);
        let ghost pred = |g: FrameV| g.id != frame@.id;
        let mut kept: Vec<CompletedFrame> = Vec::new();
        let mut i: usize = 0;
        proof {
            assert(s.subrange(0, 0).filter(pred) =~= Seq::<FrameV>::empty());
        }
        while i < self.frames.len()
            invariant
                0 <= i <= self.frames@.len(),
                frames_view(self.frames@) == s,
                store_inv(s),
                pred == (|g: FrameV| g.id != frame@.id),
                frames_view(kept@) == s.subrange(0, i as int).filter(pred),
            decreases self.frames@.len() - i,
        {
            let keep = !str_eq(self.frames[i].frame().id(), frame.frame().id());
            proof {
                reveal(Seq::filter);
                assert(s.subrange(0, i as int + 1).drop_last() =~= s.subrange(0, i as int));
                assert(s.subrange(0, i as int + 1).last() == s[i as int]);
            }
            if keep {
                let ghost kept_view = frames_view(kept@);
                kept.push(self.frames[i].clone());
                proof {
                    assert(frames_view(kept@) =~= kept_view.push(s[i as int]));
                    assert(frames_view(kept@) =~= s.subrange(0, i as int + 1).filter(pred));
                }
            } else {
                proof {
                    assert(frames_view(kept@) =~= s.subrange(0, i as int + 1).filter(pred));
                }
            }
            i = i + 1;
        }
        kept.push(frame.clone());
        self.frames = kept;
        proof {
            assert(s.subrange(0, s.len() as int) =~= s);
            use_type_invariant(frame);
            lemma_upsert_inv(s, frame@);
            assert(frames_view(self.frames@) =~= upsert(s, frame@));
        }
        Ok(())
    }

    fn get_projects(&self) -> (r: Result<Vec<NonEmptyString>, InMemoryStoreError>)
        ensures
            r is Ok,
    {
        let ghost s = frames_view(self.frames@);
        let mut projects: Vec<NonEmptyString> = Vec::new();
        let mut k: usize = 0;
        while k < self.frames.len()
            invariant
                0 <= k <= self.frames@.len(),
                frames_view(self.frames@) == s,
                forall|i: int, j: int|
                    0 <= i < projects@.len() && 0 <= j < projects@.len() && i != j ==> (
                    #[trigger] projects@[i])@ != (#[trigger] projects@[j])@,
                forall|i: int, j: int|
                    0 <= i < j < projects@.len() ==> lex_lt(
                        (#[trigger] projects@[i])@,
                        (#[trigger] projects@[j])@,
                    ),
                forall|i: int|
                    0 <= i < projects@.len() ==> has_project(
                        s.subrange(0, k as int),
                        (#[trigger] projects@[i])@,
                    ),
                forall|kk: int|
                    0 <= kk < k ==> seen_project(projects@, (#[trigger] s[kk]).project),
            decreases self.frames@.len() - k,
        {
            let ghost prefix = s.subrange(0, k as int);
            let ghost prefix1 = s.subrange(0, k as int + 1);
            let p = self.frames[k].frame().project();
            let mut found = false;
            let mut i: usize = 0;
            while i < projects.len()
                invariant
                    0 <= i <= projects@.len(),
                    found <==> exists|j: int| 0 <= j < i && (#[trigger] projects@[j])@ == p@,
                decreases projects@.len() - i,
            {
                if projects[i].eq(p) {
                    found = true;
                }
                i = i + 1;
            }
            proof {
                assert(s[k as int] == self.frames@[k as int]@);
                assert(p@ == s[k as int].project);
                assert(forall|m: int| 0 <= m < k + 1 ==> prefix1[m] == s[m]);
                assert(forall|m: int| 0 <= m < k ==> prefix[m] == s[m]);
            }
            if !found {
                // insert at the position that keeps the listing sorted
                let mut pos: usize = 0;
                while pos < projects.len() && str_lt(projects[pos].as_str(), p.as_str())
                    invariant
                        0 <= pos <= projects@.len(),
                        forall|i: int| 0 <= i < pos ==> lex_lt((#[trigger] projects@[i])@, p@),
                    decreases projects@.len() - pos,
                {
                    pos = pos + 1;
                }
                let ghost old_projects = projects@;
                proof {
                    if (pos as int) < old_projects.len() {
                        lemma_lex_total(p@, old_projects[pos as int]@);
                        assert(lex_lt(p@, old_projects[pos as int]@));
                    }
                }
                projects.insert(pos, p.clone());
                proof {
                    old_projects.insert_ensures(pos as int, *p);
                    let np = projects@;
                    assert(np =~= old_projects.insert(pos as int, *p));
                    assert(np[pos as int]@ == p@);
                    assert(forall|m: int| 0 <= m < pos ==> np[m] == old_projects[m]);
                    assert(forall|m: int|
                        pos < m < np.len() ==> np[m] == old_projects[m - 1]);
                    // the listing stays duplicate-free
                    assert forall|i2: int, j2: int|
                        0 <= i2 < np.len() && 0 <= j2 < np.len() && i2 != j2 implies (
                    #[trigger] np[i2])@ != (#[trigger] np[j2])@ by {
                        let oi: int = if i2 < pos { i2 } else { i2 - 1 };
                        let oj: int = if j2 < pos { j2 } else { j2 - 1 };
                        if i2 == pos {
                            assert(np[j2] == old_projects[oj]);
                        } else if j2 == pos {
                            assert(np[i2] == old_projects[oi]);
                        } else {
                            assert(np[i2] == old_projects[oi]);
                            assert(np[j2] == old_projects[oj]);
                        }
                    }
                    // the listing stays sorted
                    assert forall|i2: int, j2: int| 0 <= i2 < j2 < np.len() implies lex_lt(
                        (#[trigger] np[i2])@,
                        (#[trigger] np[j2])@,
                    ) by {
                        if j2 < pos {
                        } else if i2 < pos && j2 == pos {
                            assert(lex_lt(old_projects[i2]@, p@));
                        } else if i2 == pos {
                            let oj = j2 - 1;
                            assert(np[j2] == old_projects[oj]);
                            assert(lex_lt(p@, old_projects[pos as int]@));
                            if oj > pos {
                                assert(lex_lt(
                                    old_projects[pos as int]@,
                                    old_projects[oj]@,
                                ));
                                lemma_lex_trans(
                                    p@,
                                    old_projects[pos as int]@,
                                    old_projects[oj]@,
                                );
                            }
                        } else if i2 < pos && j2 > pos {
                            assert(np[i2] == old_projects[i2]);
                            assert(np[j2] == old_projects[j2 - 1]);
                        } else {
                            assert(np[i2] == old_projects[i2 - 1]);
                            assert(np[j2] == old_projects[j2 - 1]);
                        }
                    }
                    // every listed name is a stored project
                    assert forall|i2: int| 0 <= i2 < np.len() implies has_project(
                        prefix1,
                        (#[trigger] np[i2])@,
                    ) by {
                        if i2 == pos {
                            assert(prefix1[k as int].project == np[i2]@);
                        } else {
                            let oi: int = if i2 < pos { i2 } else { i2 - 1 };
                            assert(np[i2] == old_projects[oi]);
                            let kk = choose|kk: int|
                                0 <= kk < prefix.len() && (#[trigger] prefix[kk]).project
                                    == old_projects[oi]@;
                            assert(prefix1[kk].project == np[i2]@);
                        }
                    }
                    // every stored project is listed
                    assert forall|kk: int| 0 <= kk < k + 1 implies seen_project(
                        np,
                        (#[trigger] s[kk]).project,
                    ) by {
                        if kk < k {
                            let j = choose|j: int|
                                0 <= j < old_projects.len() && (#[trigger] old_projects[j])@
                                    == s[kk].project;
                            if j < pos {
                                assert(np[j]@ == s[kk].project);
                            } else {
                                assert(np[j + 1]@ == s[kk].project);
                            }
                        } else {
                            assert(np[pos as int]@ == s[kk].project);
                        }
                    }
                }
            } else {
                proof {
                    assert forall|i2: int| 0 <= i2 < projects@.len() implies has_project(
                        prefix1,
                        (#[trigger] projects@[i2])@,
                    ) by {
                        let kk = choose|kk: int|
                            0 <= kk < prefix.len() && (#[trigger] prefix[kk]).project
                                == projects@[i2]@;
                        assert(prefix1[kk].project == projects@[i2]@);
                    }
                    assert forall|kk: int| 0 <= kk < k + 1 implies seen_project(
                        projects@,
                        (#[trigger] s[kk]).project,
                    ) by {
                        if kk == k {
                            let j = choose|j: int|
                                0 <= j < projects@.len() && (#[trigger] projects@[j])@ == p@;
                            assert(projects@[j]@ == s[kk].project);
                        }
                    }
                }
            }
            k = k + 1;
        }
        proof {
            assert(s.subrange(0, k as int) =~= s);
        }
        Ok(projects)
    }

    fn get_last_frame(&self) -> (r: Option<CompletedFrame>) {
        let ghost s = frames_view(self.frames@);
        if self.frames.len() == 0 {
            return None;
        }
        let mut best: usize = 0;
        let mut k: usize = 1;
        while k < self.frames.len()
            invariant
                0 <= best < k <= self.frames@.len(),
                frames_view(self.frames@) == s,
                forall|j: int| 0 <= j < k ==> (#[trigger] s[j]).end->Some_0 <= s[best as int].end->Some_0,
            decreases self.frames@.len() - k,
        {
            if self.frames[k].end() > self.frames[best].end() {
                best = k;
            }
            k = k + 1;
        }
        let f = self.frames[best].clone();
        proof {
            assert(s.contains(f@)) by {
                assert(s[best as int] == f@);
            }
        }
        Some(f)
    }

    fn get_frame(&self, frame_id: &str) -> (r: Result<Option<CompletedFrame>, InMemoryStoreError>)
        ensures
            r is Ok,
    {
        let ghost s = frames_view(self.frames@);
        let mut k: usize = 0;
        while k < self.frames.len()
            invariant
                0 <= k <= self.frames@.len(),
                frames_view(self.frames@) == s,
                forall|j: int| 0 <= j < k ==> (#[trigger] s[j]).id != frame_id@,
            decreases self.frames@.len() - k,
        {
            if str_eq(self.frames[k].frame().id(), frame_id) {
                let f = self.frames[k].clone();
                proof {
                    assert(s.contains(f@)) by {
                        assert(s[k as int] == f@);
                    }
                }
                return Ok(Some(f));
            }
            k = k + 1;
        }
        Ok(None)
    }

    #[verifier::rlimit(60)]
    fn get_frames(&self, start: i64, end: i64) -> (r: Result<
        Vec<CompletedFrame>,
        InMemoryStoreError,
    >)
        ensures
            r is Ok,
    {
        let ghost s = frames_view(self.frames@);
        let mut result: Vec<CompletedFrame> = Vec::new();
        let mut k: usize = 0;
        while k < self.frames.len()
            invariant
                0 <= k <= self.frames@.len(),
                frames_view(self.frames@) == s,
                store_inv(s),
                forall|i: int, j: int|
                    0 <= i < j < result@.len() ==> frames_view(result@)[i].start <= frames_view(
                        result@,
                    )[j].start,
                forall|i: int|
                    0 <= i < result@.len() ==> s.subrange(0, k as int).contains(
                        #[trigger] frames_view(result@)[i],
                    ) && overlaps(frames_view(result@)[i], start as int, end as int),
                forall|kk: int|
                    0 <= kk < k && overlaps(#[trigger] s[kk], start as int, end as int)
                        ==> frames_view(result@).contains(s[kk]),
                forall|i: int, j: int|
                    0 <= i < result@.len() && 0 <= j < result@.len() && i != j ==> frames_view(
                        result@,
                    )[i].id != frames_view(result@)[j].id,
            decreases self.frames@.len() - k,
        {
            let f = &self.frames[k];
            let f_start = f.frame().start();
            let f_end = f.end();
            let ghost old_result = frames_view(result@);
            if f_start < end && f_end > start {
                // find the insertion point that keeps the result sorted
                let mut pos: usize = 0;
                while pos < result.len() && result[pos].frame().start() <= f_start
                    invariant
                        0 <= pos <= result@.len(),
                        frames_view(result@) == old_result,
                        forall|i: int|
                            0 <= i < pos ==> frames_view(result@)[i].start <= f_start as int,
                    decreases result@.len() - pos,
                {
                    pos = pos + 1;
                }
                proof {
                    if pos < result@.len() {
                        assert(old_result[pos as int].start > f_start as int);
                    }
                }
                result.insert(pos, f.clone());
                proof {
                    old_result.insert_ensures(pos as int, s[k as int]);
                    assert(frames_view(result@) =~= old_result.insert(pos as int, s[k as int]));
                    let new_result = frames_view(result@);
                    // sortedness
                    assert forall|i: int, j: int| 0 <= i < j < new_result.len() implies
                        new_result[i].start <= new_result[j].start by {
                        if i < pos && j < pos {
                        } else if i == pos || j == pos {
                        } else if i > pos && j > pos {
                            assert(new_result[i] == old_result[i - 1]);
                            assert(new_result[j] == old_result[j - 1]);
                        } else if i < pos && j > pos {
                            assert(new_result[i] == old_result[i]);
                            assert(new_result[j] == old_result[j - 1]);
                        }
                    }
                    // soundness
                    assert forall|i: int| 0 <= i < new_result.len() implies s.subrange(
                        0,
                        k as int + 1,
                    ).contains(#[trigger] new_result[i]) && overlaps(
                        new_result[i],
                        start as int,
                        end as int,
                    ) by {
                        assert(forall|x: FrameV|
                            s.subrange(0, k as int).contains(x) ==> s.subrange(
                                0,
                                k as int + 1,
                            ).contains(x)) by {
                            assert(forall|m: int|
                                0 <= m < k ==> s.subrange(0, k as int)[m] == s.subrange(
                                    0,
                                    k as int + 1,
                                )[m]);
                        }
                        if i < pos {
                            assert(new_result[i] == old_result[i]);
                        } else if i == pos {
                            assert(new_result[i] == s[k as int]);
                            assert(s.subrange(0, k as int + 1)[k as int] == s[k as int]);
                            assert(s.subrange(0, k as int + 1).contains(s[k as int]));
                        } else {
                            assert(new_result[i] == old_result[i - 1]);
                        }
                    }
                    // distinct ids: the inserted frame is a stored frame the
                    // kept entries do not repeat
                    assert forall|i: int, j: int|
                        0 <= i < new_result.len() && 0 <= j < new_result.len() && i != j implies
                        new_result[i].id != new_result[j].id by {
                        assert forall|m: int|
                            0 <= m < old_result.len() implies old_result[m].id != s[k as int].id by {
                            assert(s.subrange(0, k as int).contains(old_result[m]));
                            let km = choose|km: int|
                                0 <= km < k && s.subrange(0, k as int)[km] == old_result[m];
                            assert(s[km] == old_result[m]);
                        }
                        let oi: int = if i < pos { i } else { i - 1 };
                        let oj: int = if j < pos { j } else { j - 1 };
                        if i == pos {
                            assert(new_result[j] == old_result[oj]);
                        } else if j == pos {
                            assert(new_result[i] == old_result[oi]);
                        } else {
                            assert(new_result[i] == old_result[oi]);
                            assert(new_result[j] == old_result[oj]);
                        }
                    }
                    // completeness
                    assert forall|kk: int|
                        0 <= kk < k + 1 && overlaps(#[trigger] s[kk], start as int, end as int)
                        implies frames_view(result@).contains(s[kk]) by {
                        if kk < k {
                            assert(old_result.contains(s[kk]));
                            let m = choose|m: int|
                                0 <= m < old_result.len() && old_result[m] == s[kk];
                            if m < pos {
                                assert(new_result[m] == s[kk]);
                            } else {
                                assert(new_result[m + 1] == s[kk]);
                            }
                        } else {
                            assert(new_result[pos as int] == s[kk]);
                        }
                    }
                }
            } else {
                proof {
                    assert forall|kk: int|
                        0 <= kk < k + 1 && overlaps(#[trigger] s[kk], start as int, end as int)
                        implies frames_view(result@).contains(s[kk]) by {}
                }
            }
            k = k + 1;
        }
        proof {
            assert(s.subrange(0, s.len() as int) =~= s);
            let rv = frames_view(result@);
            // membership both ways
            assert forall|x: FrameV| #[trigger] rv.contains(x) implies (s.contains(x) && overlaps(
                x,
                start as int,
                end as int,
            )) by {
                let i = choose|i: int| 0 <= i < rv.len() && rv[i] == x;
            }
            assert forall|x: FrameV|
                s.contains(x) && overlaps(x, start as int, end as int) implies #[trigger] rv.contains(
                x,
            ) by {
                let kk = choose|kk: int| 0 <= kk < s.len() && s[kk] == x;
                assert(overlaps(s[kk], start as int, end as int));
                assert(rv.contains(s[kk]));
            }
            assert(forall|i: int| 0 <= i < result@.len() ==> rv[i] == (#[trigger] result@[i])@);
            assert(forall|i: int, j: int|
                0 <= i < result@.len() && 0 <= j < result@.len() && i != j ==> (
                #[trigger] result@[i])@.id != (#[trigger] result@[j])@.id);
            assert(forall|i: int, j: int|
                0 <= i < j < result@.len() ==> (#[trigger] result@[i])@.start <= (
                #[trigger] result@[j])@.start);
        }
        Ok(result)
    }
}

impl StateStoreBackend for InMemoryStore {
    type StateStoreBackendError = InMemoryStoreError;

    open spec fn ongoing(&self) -> Option<OngoingV> {
        self.ongoing_model()
    }

    fn get(&self) -> (r: Result<Option<OngoingFrame>, InMemoryStoreError>)
        ensures
            r is Ok,
    {
        match &self.ongoing_frame {
            Some(f) => Ok(Some(f.clone())),
            None => Ok(None),
        }
    }

    fn store(&mut self, state: &OngoingFrame) -> (r: Result<(), InMemoryStoreError>)
        ensures
            r is Ok,
            final(self).frames_model() == old(self).frames_model(),
    {
        self.ongoing_frame = Some(state.clone());
        Ok(())
    }

    fn clear(&mut self) -> (r: Result<bool, InMemoryStoreError>)
        ensures
            r is Ok,
            final(self).frames_model() == old(self).frames_model(),
    {
        let had_frame = self.ongoing_frame.is_some();
        self.ongoing_frame = None;
        Ok(had_frame)
    }
}

} // verus!
