// The compatibility layer to the Watson time tracker's file formats.

use vstd::prelude::*;

use crate::clock;
use crate::common::NonEmptyString;
use crate::config::Config;
use crate::frame::{self, clone_tags, tags_view, CompletedFrame, FrameV};
use crate::json::{rep_arr, rep_int, rep_lookup, rep_obj, rep_str, JsonRep, JsonValue};
use crate::state::{OngoingFrame, OngoingV};

verus! {

/// The model of a wire-format frame record: the six fields of the positional
/// encoding, timestamps as whole seconds.
#[verifier::ext_equal]
pub struct WatsonV {
    pub start: int,
    pub end: int,
    pub project: Seq<char>,
    pub id: Seq<char>,
    pub tags: Seq<Seq<char>>,
    pub last_edit: int,
}

impl WatsonV {
    /// A well-formed record: the project and every tag are non-empty.
    pub open spec fn wf(&self) -> bool {
        &&& self.project.len() > 0
        &&& forall|i: int| 0 <= i < self.tags.len() ==> (#[trigger] self.tags[i]).len() > 0
    }
}

/// The wire image of a completed frame.
pub open spec fn completed_to_wire(f: FrameV) -> WatsonV {
    WatsonV {
        start: f.start,
        end: f.end->Some_0,
        project: f.project,
        id: f.id,
        tags: f.tags,
        last_edit: f.last_edit,
    }
}

/// The completed frame a wire record stands for.
pub open spec fn wire_to_completed(w: WatsonV) -> FrameV {
    FrameV {
        project: w.project,
        id: w.id,
        start: w.start,
        end: Some(w.end),
        tags: w.tags,
        last_edit: w.last_edit,
    }
}

/// A frame record in Watson's positional wire format.
#[derive(Debug)]
pub struct Frame {
    start_timestamp: i64,
    end_timestamp: i64,
    project: NonEmptyString,
    id: String,
    tags: Vec<NonEmptyString>,
    last_edit_timestamp: i64,
}

impl View for Frame {
    type V = WatsonV;

    closed spec fn view(&self) -> WatsonV {
        WatsonV {
            start: self.start_timestamp as int,
            end: self.end_timestamp as int,
            project: self.project@,
            id: self.id@,
            tags: tags_view(self.tags@),
            last_edit: self.last_edit_timestamp as int,
        }
    }
}

impl Frame {
    /// Build a record; used by tests and by decoding.
    pub fn new(
        start_timestamp: i64,
        end_timestamp: i64,
        project: NonEmptyString,
        id: String,
        tags: Vec<NonEmptyString>,
        last_edit_timestamp: i64,
    ) -> (r: Self)
        ensures
            r@ == (WatsonV {
                start: start_timestamp as int,
                end: end_timestamp as int,
                project: project@,
                id: id@,
                tags: tags_view(tags@),
                last_edit: last_edit_timestamp as int,
            }),
    {
        Frame { start_timestamp, end_timestamp, project, id, tags, last_edit_timestamp }
    }

    /// Project a completed frame onto the wire format, truncating nothing:
    /// timestamps are already whole seconds.
    pub fn from_completed(cf: &CompletedFrame) -> (r: Self)
        ensures
            r@ == completed_to_wire(cf@),
    {
        proof {
            use_type_invariant(cf);
        }
        let end_timestamp = cf.end();
        let f = cf.frame();
        Frame {
            start_timestamp: f.start(),
            end_timestamp,
            project: f.project().clone(),
            id: f.id().to_owned(),
            tags: clone_tags(f.tags()),
            last_edit_timestamp: f.last_edit(),
        }
    }

    /// Rebuild the completed frame a record stands for, keeping its id.
    pub fn into_completed(self) -> (r: CompletedFrame)
        ensures
            r@ == wire_to_completed(self@),
    {
        let frame = frame::Frame::new(
            self.project,
            Some(self.id),
            Some(self.start_timestamp),
            Some(self.end_timestamp),
            self.tags,
            Some(self.last_edit_timestamp),
        );
        match CompletedFrame::from_frame(frame) {
            Some(c) => c,
            None => unreached(),
        }
    }

    pub fn start_timestamp(&self) -> (r: i64)
        ensures
            r as int == self@.start,
    {
        self.start_timestamp
    }

    pub fn end_timestamp(&self) -> (r: i64)
        ensures
            r as int == self@.end,
    {
        self.end_timestamp
    }

    pub fn project(&self) -> (r: &NonEmptyString)
        ensures
            r@ == self@.project,
    {
        &self.project
    }

    pub fn id(&self) -> (r: &str)
        ensures
            r@ == self@.id,
    {
        self.id.as_str()
    }

    pub fn tags(&self) -> (r: &[NonEmptyString])
        ensures
            tags_view(r@) == self@.tags,
    {
        self.tags.as_slice()
    }

    pub fn last_edit_timestamp(&self) -> (r: i64)
        ensures
            r as int == self@.last_edit,
    {
        self.last_edit_timestamp
    }
}

impl Clone for Frame {
    fn clone(&self) -> (r: Self)
        ensures
            r@ == self@,
    {
        let r = Frame {
            start_timestamp: self.start_timestamp,
            end_timestamp: self.end_timestamp,
            project: self.project.clone(),
            id: self.id.clone(),
            tags: clone_tags(self.tags.as_slice()),
            last_edit_timestamp: self.last_edit_timestamp,
        };
        proof {
            assert(r@ =~= self@);
        }
        r
    }
}

/// The wire encoding of a record: the 6-element positional array
/// `[start, end, project, id, [tag, ...], last_edit]`. The field order is a
/// hard compatibility requirement.
pub open spec fn encode_frame_rep(w: WatsonV) -> JsonRep {
    JsonRep::Arr(
        seq![
            JsonRep::Int(w.start),
            JsonRep::Int(w.end),
            JsonRep::Str(w.project),
            JsonRep::Str(w.id),
            JsonRep::Arr(w.tags.map_values(|t: Seq<char>| JsonRep::Str(t))),
            JsonRep::Int(w.last_edit),
        ],
    )
}

/// Every element is a non-empty string.
pub open spec fn tags_all_strings(a: Seq<JsonRep>) -> bool {
    forall|i: int|
        0 <= i < a.len() ==> (rep_str(#[trigger] a[i]) matches Some(s) && s.len() > 0)
}

/// The tag list under a JSON array, or nothing when an element is not a
/// non-empty string.
pub open spec fn decode_tags_rep(a: Seq<JsonRep>) -> Option<Seq<Seq<char>>> {
    if tags_all_strings(a) {
        Some(a.map_values(|j: JsonRep| rep_str(j)->Some_0))
    } else {
        None
    }
}

/// The record under a JSON value, or nothing when the value does not follow
/// the positional format.
pub open spec fn decode_frame_rep(j: JsonRep) -> Option<WatsonV> {
    match rep_arr(j) {
        Some(a) => {
            if a.len() != 6 {
                None
            } else {
                match (rep_int(a[0]), rep_int(a[1]), rep_str(a[2]), rep_str(a[3]), rep_arr(a[4]), rep_int(a[5])) {
                    (Some(start), Some(end), Some(project), Some(id), Some(tags_arr), Some(last_edit)) => {
                        if project.len() > 0 {
                            match decode_tags_rep(tags_arr) {
                                Some(tags) => Some(
                                    WatsonV { start, end, project, id, tags, last_edit },
                                ),
                                None => None,
                            }
                        } else {
                            None
                        }
                    },
                    _ => None,
                }
            }
        },
        None => None,
    }
}

/// Encode a record into the positional wire format.
pub fn encode_frame(f: &Frame) -> (v: JsonValue)
    ensures
        v@ == encode_frame_rep(f@),
{
    let mut tags: Vec<JsonValue> = Vec::new();
    let mut i: usize = 0;
    while i < f.tags.len()
        invariant
            0 <= i <= f.tags@.len(),
            tags@.len() == i,
            forall|j: int| 0 <= j < i ==> (#[trigger] tags@[j])@ == JsonRep::Str(f.tags@[j]@),
        decreases f.tags@.len() - i,
    {
        tags.push(JsonValue::Str(f.tags[i].to_string()));
        i = i + 1;
    }
    let mut elems: Vec<JsonValue> = Vec::new();
    elems.push(JsonValue::Int(f.start_timestamp));
    elems.push(JsonValue::Int(f.end_timestamp));
    elems.push(JsonValue::Str(f.project.to_string()));
    elems.push(JsonValue::Str(f.id.clone()));
    elems.push(JsonValue::Arr(tags));
    elems.push(JsonValue::Int(f.last_edit_timestamp));
    let v = JsonValue::Arr(elems);
    proof {
        reveal_with_fuel(crate::json::json_rep, 3);
        let e = encode_frame_rep(f@);
        assert(v@ is Arr);
        let a = rep_arr(v@)->Some_0;
        assert(a.len() == 6);
        assert(a[0] == crate::json::json_rep(elems@[0]));
        assert(elems@[0] == JsonValue::Int(f.start_timestamp));
        assert(a[0] == JsonRep::Int(f@.start));
        assert(a[2] == JsonRep::Str(f@.project));
        assert(a[4] is Arr);
        let t4 = rep_arr(a[4])->Some_0;
        assert(t4.len() == f.tags@.len());
        assert(forall|j: int| 0 <= j < t4.len() ==> t4[j] == (#[trigger] tags@[j])@);
        assert(forall|j: int| 0 <= j < t4.len() ==> #[trigger] t4[j] == JsonRep::Str(f@.tags[j]));
        assert(t4 =~= f@.tags.map_values(|t: Seq<char>| JsonRep::Str(t)));
        assert(rep_arr(v@)->Some_0[4] =~~= rep_arr(e)->Some_0[4]);
        assert(a[1] == JsonRep::Int(f@.end));
        assert(a[3] == JsonRep::Str(f@.id));
        assert(a[5] == JsonRep::Int(f@.last_edit));
        assert(rep_arr(v@)->Some_0 =~~= rep_arr(e)->Some_0);
        assert(v@ =~~= e);
    }
    v
}

/// Decode a positional record; fails exactly when the value does not follow
/// the format.
#[verifier::loop_isolation(false)]
pub fn decode_frame(v: &JsonValue) -> (r: Option<Frame>)
    ensures
        r matches Some(f) ==> decode_frame_rep(v@) == Some(f@),
        r is None <==> decode_frame_rep(v@) is None,
{
    let elems = match v {
        JsonValue::Arr(a) => a,
        _ => {
            return None;
        },
    };
    proof {
        reveal_with_fuel(crate::json::json_rep, 3);
        assert(rep_arr(v@) is Some);
        assert(rep_arr(v@)->Some_0.len() == elems@.len());
        assert(forall|j: int|
            0 <= j < elems@.len() ==> rep_arr(v@)->Some_0[j] == (#[trigger] elems@[j])@);
    }
    if elems.len() != 6 {
        return None;
    }
    let start_timestamp = match &elems[0] {
        JsonValue::Int(i) => *i,
        _ => {
            return None;
        },
    };
    let end_timestamp = match &elems[1] {
        JsonValue::Int(i) => *i,
        _ => {
            return None;
        },
    };
    let project = match &elems[2] {
        JsonValue::Str(s) => match NonEmptyString::new(s.as_str()) {
            Some(p) => p,
            None => {
                return None;
            },
        },
        _ => {
            return None;
        },
    };
    let id = match &elems[3] {
        JsonValue::Str(s) => s.clone(),
        _ => {
            return None;
        },
    };
    let tag_elems = match &elems[4] {
        JsonValue::Arr(a) => a,
        _ => {
            return None;
        },
    };
    let last_edit_timestamp = match &elems[5] {
        JsonValue::Int(i) => *i,
        _ => {
            return None;
        },
    };
    let ghost tags_arr = rep_arr(elems@[4]@)->Some_0;
    proof {
        reveal_with_fuel(crate::json::json_rep, 3);
        assert(forall|j: int| 0 <= j < tag_elems@.len() ==> tags_arr[j] == (#[trigger] tag_elems@[j])@);
    }
    let mut tags: Vec<NonEmptyString> = Vec::new();
    let mut i: usize = 0;
    while i < tag_elems.len()
        invariant
            0 <= i <= tag_elems@.len(),
            tags@.len() == i,
            tags_arr.len() == tag_elems@.len(),
            forall|j: int| 0 <= j < tag_elems@.len() ==> tags_arr[j] == (#[trigger] tag_elems@[j])@,
            forall|j: int|
                0 <= j < i ==> (rep_str(#[trigger] tags_arr[j]) matches Some(s) && s.len() > 0),
            forall|j: int| 0 <= j < i ==> (#[trigger] tags@[j])@ == rep_str(tags_arr[j])->Some_0,
        decreases tag_elems@.len() - i,
    {
        match &tag_elems[i] {
            JsonValue::Str(s) => {
                match NonEmptyString::new(s.as_str()) {
                    Some(t) => {
                        tags.push(t);
                    },
                    None => {
                        proof {
                            reveal_with_fuel(crate::json::json_rep, 3);
                            assert(rep_str(tags_arr[i as int]) matches Some(e) && e.len() == 0);
                            assert(!tags_all_strings(tags_arr));
                        }
                        return None;
                    },
                }
            },
            _ => {
                proof {
                    reveal_with_fuel(crate::json::json_rep, 3);
                    assert(rep_str(tags_arr[i as int]) is None);
                    assert(!tags_all_strings(tags_arr));
                }
                return None;
            },
        }
        i = i + 1;
    }
    let f = Frame { start_timestamp, end_timestamp, project, id, tags, last_edit_timestamp };
    proof {
        reveal_with_fuel(crate::json::json_rep, 3);
        assert(tags_all_strings(tags_arr));
        assert(tags_view(f.tags@) =~= tags_arr.map_values(|j: JsonRep| rep_str(j)->Some_0));
        assert(decode_frame_rep(v@) matches Some(w) && w =~= f@);
    }
    Some(f)
}

/// Decoding a record undoes encoding it: the wire format loses nothing of a
/// well-formed record.
pub proof fn lemma_frame_round_trip(w: WatsonV)
    requires
        w.wf(),
    ensures
        decode_frame_rep(encode_frame_rep(w)) == Some(w),
{
    let j = encode_frame_rep(w);
    let a = rep_arr(j)->Some_0;
    let tags_arr = rep_arr(a[4])->Some_0;
    assert(tags_arr == w.tags.map_values(|t: Seq<char>| JsonRep::Str(t)));
    assert forall|i: int| 0 <= i < tags_arr.len() implies (rep_str(#[trigger] tags_arr[i]) matches
        Some(s) && s.len() > 0) by {
        assert(tags_arr[i] == JsonRep::Str(w.tags[i]));
    }
    assert(tags_all_strings(tags_arr));
    let ts = decode_tags_rep(tags_arr)->Some_0;
    assert(ts =~= w.tags);
    assert(decode_frame_rep(j) matches Some(w2) && w2 =~= w);
}

/// The two projections between completed frames and wire records undo each
/// other, and a completed frame survives the wire format: its project, id,
/// tags and whole-second timestamps come back unchanged.
pub proof fn lemma_completed_round_trip(f: FrameV)
    requires
        f.end is Some,
        f.project.len() > 0,
        forall|i: int| 0 <= i < f.tags.len() ==> (#[trigger] f.tags[i]).len() > 0,
    ensures
        decode_frame_rep(encode_frame_rep(completed_to_wire(f))) == Some(completed_to_wire(f)),
        wire_to_completed(completed_to_wire(f)) == f,
{
    lemma_frame_round_trip(completed_to_wire(f));
    assert(wire_to_completed(completed_to_wire(f)) =~= f);
}

/// The records under a JSON array, skipping every element that does not
/// follow the positional format: a store file is loaded by filtering, not by
/// aborting on the first bad record.
pub open spec fn decode_records_rep(a: Seq<JsonRep>) -> Seq<WatsonV>
    decreases a.len(),
{
    if a.len() == 0 {
        Seq::empty()
    } else {
        let rest = decode_records_rep(a.drop_last());
        match decode_frame_rep(a.last()) {
            Some(w) => rest.push(w),
            None => rest,
        }
    }
}

/// The record list under a JSON value, or nothing when the value is not an
/// array.
pub open spec fn decode_frames_rep(j: JsonRep) -> Option<Seq<WatsonV>> {
    match rep_arr(j) {
        Some(a) => Some(decode_records_rep(a)),
        None => None,
    }
}

/// The wire encoding of a list of records.
pub open spec fn encode_frames_rep(ws: Seq<WatsonV>) -> JsonRep {
    JsonRep::Arr(ws.map_values(|w: WatsonV| encode_frame_rep(w)))
}

/// Encode a list of records as the frames-file array.
pub fn encode_frames(frames: &Vec<Frame>) -> (v: JsonValue)
    ensures
        v@ == encode_frames_rep(frames@.map_values(|f: Frame| f@)),
{
    let mut elems: Vec<JsonValue> = Vec::new();
    let mut i: usize = 0;
    while i < frames.len()
        invariant
            0 <= i <= frames@.len(),
            elems@.len() == i,
            forall|j: int|
                0 <= j < i ==> (#[trigger] elems@[j])@ == encode_frame_rep(frames@[j]@),
        decreases frames@.len() - i,
    {
        elems.push(encode_frame(&frames[i]));
        i = i + 1;
    }
    let v = JsonValue::Arr(elems);
    proof {
        reveal_with_fuel(crate::json::json_rep, 2);
        assert(rep_arr(v@)->Some_0 =~= frames@.map_values(|f: Frame| f@).map_values(
            |w: WatsonV| encode_frame_rep(w),
        ));
        assert(v@ =~~= encode_frames_rep(frames@.map_values(|f: Frame| f@)));
    }
    v
}

/// Decode a frames-file array, filtering out every record that fails to
/// parse; fails exactly when the value is not an array.
#[verifier::loop_isolation(false)]
pub fn decode_frames(v: &JsonValue) -> (r: Option<Vec<Frame>>)
    ensures
        r matches Some(fs) ==> Some(fs@.map_values(|f: Frame| f@)) == decode_frames_rep(v@),
        r is None <==> decode_frames_rep(v@) is None,
{
    let elems = match v {
        JsonValue::Arr(a) => a,
        _ => {
            return None;
        },
    };
    let ghost arr = rep_arr(v@)->Some_0;
    proof {
        reveal_with_fuel(crate::json::json_rep, 2);
        assert(forall|j: int| 0 <= j < elems@.len() ==> arr[j] == (#[trigger] elems@[j])@);
        assert(arr.subrange(0, 0) =~= Seq::<JsonRep>::empty());
    }
    let mut frames: Vec<Frame> = Vec::new();
    let mut i: usize = 0;
    while i < elems.len()
        invariant
            0 <= i <= elems@.len(),
            frames@.map_values(|f: Frame| f@) == decode_records_rep(arr.subrange(0, i as int)),
        decreases elems@.len() - i,
    {
        proof {
            assert(arr.subrange(0, i as int + 1).drop_last() =~= arr.subrange(0, i as int));
            assert(arr.subrange(0, i as int + 1).last() == arr[i as int]);
        }
        let ghost old_frames = frames@;
        match decode_frame(&elems[i]) {
            Some(f) => {
                frames.push(f);
                proof {
                    assert(frames@.map_values(|f: Frame| f@) =~= old_frames.map_values(
                        |f: Frame| f@,
                    ).push(frames@.last()@));
                }
            },
            None => {},
        }
        i = i + 1;
    }
    proof {
        assert(arr.subrange(0, arr.len() as int) =~= arr);
    }
    Some(frames)
}


/// Look up the first member of a JSON object carrying `key`.
fn obj_lookup<'a>(
    members: &'a Vec<(String, JsonValue)>,
    key: &str,
    Ghost(rep): Ghost<Seq<(Seq<char>, JsonRep)>>,
) -> (r: Option<&'a JsonValue>)
    requires
        rep.len() == members@.len(),
        forall|i: int|
            0 <= i < members@.len() ==> rep[i] == ((#[trigger] members@[i]).0@, crate::json::json_rep(
                members@[i].1,
            )),
    ensures
        r matches Some(val) ==> rep_lookup(rep, key@) == Some(val@),
        r is None <==> rep_lookup(rep, key@) is None,
{
    proof {
        assert(rep.skip(0) =~= rep);
    }
    let mut i: usize = 0;
    while i < members.len()
        invariant
            0 <= i <= members@.len(),
            rep.len() == members@.len(),
            forall|m: int|
                0 <= m < members@.len() ==> rep[m] == ((#[trigger] members@[m]).0@, crate::json::json_rep(
                    members@[m].1,
                )),
            rep_lookup(rep, key@) == rep_lookup(rep.skip(i as int), key@),
        decreases members@.len() - i,
    {
        proof {
            assert(rep.skip(i as int).first() == rep[i as int]);
            assert(rep.skip(i as int).drop_first() =~= rep.skip(i as int + 1));
        }
        if crate::common::str_eq(members[i].0.as_str(), key) {
            return Some(&members[i].1);
        }
        i = i + 1;
    }
    proof {
        assert(rep.skip(members@.len() as int) =~= Seq::<(Seq<char>, JsonRep)>::empty());
    }
    None
}

/// The ongoing-state file's object: the fields observable while a frame is
/// ongoing, with the start as whole seconds.
pub struct State {
    project: NonEmptyString,
    start: i64,
    tags: Vec<NonEmptyString>,
}

impl View for State {
    type V = OngoingV;

    closed spec fn view(&self) -> OngoingV {
        OngoingV {
            project: self.project@,
            start: self.start as int,
            tags: tags_view(self.tags@),
        }
    }
}

impl State {
    /// The state a frame projects to: its project, start and tags.
    pub fn from(frame: frame::Frame) -> (r: Self)
        ensures
            r@.project == frame@.project,
            r@.start == frame@.start,
            r@.tags == frame@.tags,
    {
        State {
            project: frame.project().clone(),
            start: frame.start(),
            tags: clone_tags(frame.tags()),
        }
    }

    /// The state an ongoing frame persists as.
    pub fn from_ongoing(o: &OngoingFrame) -> (r: Self)
        ensures
            r@ == o@,
    {
        let r = State {
            project: o.project().clone(),
            start: o.start(),
            tags: clone_tags(o.tags()),
        };
        proof {
            assert(r@ =~= o@);
        }
        r
    }

    /// The ongoing frame a loaded state stands for.
    pub fn to_ongoing(self) -> (r: OngoingFrame)
        ensures
            r@ == self@,
    {
        let r = OngoingFrame::new(self.project, self.start, self.tags);
        proof {
            assert(r@ =~= self@);
        }
        r
    }

    pub fn project(&self) -> (r: &NonEmptyString)
        ensures
            r@ == self@.project,
    {
        &self.project
    }

    pub fn start(&self) -> (r: i64)
        ensures
            r as int == self@.start,
    {
        self.start
    }

    pub fn tags(&self) -> (r: &[NonEmptyString])
        ensures
            tags_view(r@) == self@.tags,
    {
        self.tags.as_slice()
    }
}

/// The wire encoding of the ongoing state: the object
/// `{ "project": ..., "start": ..., "tags": [...] }`.
pub open spec fn encode_state_rep(s: OngoingV) -> JsonRep {
    JsonRep::Obj(
        seq![
            ("project"@, JsonRep::Str(s.project)),
            ("start"@, JsonRep::Int(s.start)),
            ("tags"@, JsonRep::Arr(s.tags.map_values(|t: Seq<char>| JsonRep::Str(t)))),
        ],
    )
}

/// The state under a JSON value, or nothing when the value does not carry the
/// three fields; a cleared or unreadable state file therefore reads as "no
/// ongoing frame".
pub open spec fn decode_state_rep(j: JsonRep) -> Option<OngoingV> {
    match rep_obj(j) {
        Some(o) => {
            match (rep_lookup(o, "project"@), rep_lookup(o, "start"@), rep_lookup(o, "tags"@)) {
                (Some(pv), Some(sv), Some(tv)) => {
                    match (rep_str(pv), rep_int(sv), rep_arr(tv)) {
                        (Some(p), Some(s), Some(ta)) => {
                            if p.len() > 0 {
                                match decode_tags_rep(ta) {
                                    Some(tags) => Some(OngoingV { project: p, start: s, tags }),
                                    None => None,
                                }
                            } else {
                                None
                            }
                        },
                        _ => None,
                    }
                },
                _ => None,
            }
        },
        None => None,
    }
}

/// Encode the ongoing state as its file object.
pub fn encode_state(s: &State) -> (v: JsonValue)
    ensures
        v@ == encode_state_rep(s@),
{
    let mut tags: Vec<JsonValue> = Vec::new();
    let mut i: usize = 0;
    while i < s.tags.len()
        invariant
            0 <= i <= s.tags@.len(),
            tags@.len() == i,
            forall|j: int| 0 <= j < i ==> (#[trigger] tags@[j])@ == JsonRep::Str(s.tags@[j]@),
        decreases s.tags@.len() - i,
    {
        tags.push(JsonValue::Str(s.tags[i].to_string()));
        i = i + 1;
    }
    let mut members: Vec<(String, JsonValue)> = Vec::new();
    members.push(("project".to_owned(), JsonValue::Str(s.project.to_string())));
    members.push(("start".to_owned(), JsonValue::Int(s.start)));
    members.push(("tags".to_owned(), JsonValue::Arr(tags)));
    let v = JsonValue::Obj(members);
    proof {
        reveal_with_fuel(crate::json::json_rep, 3);
        let e = encode_state_rep(s@);
        let o = rep_obj(v@)->Some_0;
        assert(o.len() == 3);
        assert(o[0] == ("project"@, crate::json::json_rep(members@[0].1)));
        assert(o[0].1 == JsonRep::Str(s@.project));
        assert(o[1].1 == JsonRep::Int(s@.start));
        assert(o[2].0 == "tags"@);
        let t2 = rep_arr(o[2].1)->Some_0;
        assert(t2.len() == s.tags@.len());
        assert(forall|j: int| 0 <= j < t2.len() ==> #[trigger] t2[j] == JsonRep::Str(s@.tags[j]));
        assert(t2 =~= s@.tags.map_values(|t: Seq<char>| JsonRep::Str(t)));
        assert(o[2].1 =~~= rep_obj(e)->Some_0[2].1);
        assert(o =~~= rep_obj(e)->Some_0);
        assert(v@ =~~= e);
    }
    v
}

/// Decode the ongoing-state object; fails exactly when the value does not
/// follow the format.
#[verifier::loop_isolation(false)]
pub fn decode_state(v: &JsonValue) -> (r: Option<State>)
    ensures
        r matches Some(s) ==> decode_state_rep(v@) == Some(s@),
        r is None <==> decode_state_rep(v@) is None,
{
    let members = match v {
        JsonValue::Obj(o) => o,
        _ => {
            return None;
        },
    };
    let ghost o = rep_obj(v@)->Some_0;
    proof {
        reveal_with_fuel(crate::json::json_rep, 2);
        assert(o.len() == members@.len());
        assert(forall|j: int|
            0 <= j < members@.len() ==> o[j] == ((#[trigger] members@[j]).0@, crate::json::json_rep(
                members@[j].1,
            )));
    }
    let project = match obj_lookup(members, "project", Ghost(o)) {
        Some(JsonValue::Str(s)) => match NonEmptyString::new(s.as_str()) {
            Some(p) => p,
            None => {
                return None;
            },
        },
        Some(_) => {
            return None;
        },
        None => {
            return None;
        },
    };
    let start = match obj_lookup(members, "start", Ghost(o)) {
        Some(JsonValue::Int(i)) => *i,
        Some(_) => {
            return None;
        },
        None => {
            return None;
        },
    };
    let tag_elems = match obj_lookup(members, "tags", Ghost(o)) {
        Some(JsonValue::Arr(a)) => a,
        Some(_) => {
            return None;
        },
        None => {
            return None;
        },
    };
    let ghost tags_arr = rep_arr(rep_lookup(o, "tags"@)->Some_0)->Some_0;
    proof {
        reveal_with_fuel(crate::json::json_rep, 2);
        assert(forall|j: int|
            0 <= j < tag_elems@.len() ==> tags_arr[j] == (#[trigger] tag_elems@[j])@);
    }
    let mut tags: Vec<NonEmptyString> = Vec::new();
    let mut i: usize = 0;
    while i < tag_elems.len()
        invariant
            0 <= i <= tag_elems@.len(),
            tags@.len() == i,
            tags_arr.len() == tag_elems@.len(),
            forall|j: int|
                0 <= j < i ==> (rep_str(#[trigger] tags_arr[j]) matches Some(s) && s.len() > 0),
            forall|j: int| 0 <= j < i ==> (#[trigger] tags@[j])@ == rep_str(tags_arr[j])->Some_0,
        decreases tag_elems@.len() - i,
    {
        match &tag_elems[i] {
            JsonValue::Str(s) => {
                match NonEmptyString::new(s.as_str()) {
                    Some(t) => {
                        tags.push(t);
                    },
                    None => {
                        proof {
                            reveal_with_fuel(crate::json::json_rep, 2);
                            assert(!tags_all_strings(tags_arr));
                        }
                        return None;
                    },
                }
            },
            _ => {
                proof {
                    reveal_with_fuel(crate::json::json_rep, 2);
                    assert(!tags_all_strings(tags_arr));
                }
                return None;
            },
        }
        i = i + 1;
    }
    let s = State { project, start, tags };
    proof {
        reveal_with_fuel(crate::json::json_rep, 2);
        assert(tags_all_strings(tags_arr));
        assert(tags_view(s.tags@) =~= tags_arr.map_values(|j: JsonRep| rep_str(j)->Some_0));
        assert(decode_state_rep(v@) matches Some(w) && w =~= s@);
    }
    Some(s)
}


/// The model of an edit transfer object: a human-editable projection of a
/// frame, timestamps as formatted local date-time text.
#[verifier::ext_equal]
pub struct EditV {
    pub project: Seq<char>,
    pub start: Seq<char>,
    pub stop: Option<Seq<char>>,
    pub tags: Seq<Seq<char>>,
}

/// Frame representation used for editing a frame in an external editor.
/// The id and last-edit time are not user-editable, so they do not appear; a
/// missing stop means the subject remains ongoing.
#[derive(Debug)]
pub struct FrameEdit {
    project: NonEmptyString,
    start: String,
    stop: Option<String>,
    tags: Vec<NonEmptyString>,
}

impl View for FrameEdit {
    type V = EditV;

    closed spec fn view(&self) -> EditV {
        EditV {
            project: self.project@,
            start: self.start@,
            stop: match self.stop {
                Some(ref s) => Some(s@),
                None => None,
            },
            tags: tags_view(self.tags@),
        }
    }
}

impl FrameEdit {
    pub fn new(
        project: NonEmptyString,
        start: String,
        stop: Option<String>,
        tags: Vec<NonEmptyString>,
    ) -> (r: Self)
        ensures
            r@.project == project@,
            r@.start == start@,
            r@.stop == (match stop {
                Some(ref s) => Some(s@),
                None => None::<Seq<char>>,
            }),
            r@.tags == tags_view(tags@),
    {
        FrameEdit { project, start, stop, tags }
    }

    /// The editable projection of a frame; fails when a timestamp cannot be
    /// rendered as a local date-time.
    pub fn from_frame(f: &frame::Frame) -> (r: Option<Self>)
        ensures
            r matches Some(e) ==> {
                &&& e@.project == f@.project
                &&& e@.tags == f@.tags
                &&& (e@.stop is Some <==> f@.end is Some)
            },
    {
        let start = match clock::format_local_datetime(f.start()) {
            Some(s) => s,
            None => {
                return None;
            },
        };
        let stop = match f.end() {
            Some(e) => match clock::format_local_datetime(e) {
                Some(s) => Some(s),
                None => {
                    return None;
                },
            },
            None => None,
        };
        Some(FrameEdit { project: f.project().clone(), start, stop, tags: clone_tags(f.tags()) })
    }

    /// The editable projection of an ongoing frame: no stop yet.
    pub fn from_ongoing(o: &OngoingFrame) -> (r: Option<Self>)
        ensures
            r matches Some(e) ==> {
                &&& e@.project == o@.project
                &&& e@.tags == o@.tags
                &&& e@.stop is None
            },
    {
        let start = match clock::format_local_datetime(o.start()) {
            Some(s) => s,
            None => {
                return None;
            },
        };
        Some(FrameEdit { project: o.project().clone(), start, stop: None, tags: clone_tags(o.tags()) })
    }

    pub fn project(&self) -> (r: &NonEmptyString)
        ensures
            r@ == self@.project,
    {
        &self.project
    }

    pub fn tags(&self) -> (r: &[NonEmptyString])
        ensures
            tags_view(r@) == self@.tags,
    {
        self.tags.as_slice()
    }

    pub fn start_text(&self) -> (r: &str)
        ensures
            r@ == self@.start,
    {
        self.start.as_str()
    }

    pub fn stop_text(&self) -> (r: Option<&String>)
        ensures
            r is Some <==> self@.stop is Some,
            r matches Some(s) ==> self@.stop == Some(s@),
    {
        self.stop.as_ref()
    }

    /// Parse the start and stop texts as local date-times: the start, and the
    /// stop where one is present. Fails when either text does not parse; a
    /// missing stop is not a failure.
    pub fn parse_times(&self) -> (r: Option<(i64, Option<i64>)>)
        ensures
            r matches Some(p) ==> (p.1 is Some <==> self@.stop is Some),
    {
        let start = match clock::parse_local_datetime(self.start.as_str()) {
            Some(t) => t,
            None => {
                return None;
            },
        };
        let stop = match &self.stop {
            Some(s) => match clock::parse_local_datetime(s.as_str()) {
                Some(t) => Some(t),
                None => {
                    return None;
                },
            },
            None => None,
        };
        Some((start, stop))
    }
}

/// The wire encoding of an edit: the object `{ "project": ..., "start": ...,
/// "stop": ..., "tags": [...] }`, with the stop member left out entirely when
/// the subject is ongoing.
pub open spec fn encode_edit_rep(e: EditV) -> JsonRep {
    JsonRep::Obj(
        seq![("project"@, JsonRep::Str(e.project)), ("start"@, JsonRep::Str(e.start))] + (match e
            .stop {
            Some(s) => seq![("stop"@, JsonRep::Str(s))],
            None => Seq::empty(),
        }) + seq![("tags"@, JsonRep::Arr(e.tags.map_values(|t: Seq<char>| JsonRep::Str(t))))],
    )
}

/// The edit under a JSON value, or nothing when the value does not follow the
/// format; a present stop must be text.
pub open spec fn decode_edit_rep(j: JsonRep) -> Option<EditV> {
    match rep_obj(j) {
        Some(o) => {
            match (rep_lookup(o, "project"@), rep_lookup(o, "start"@), rep_lookup(o, "tags"@)) {
                (Some(pv), Some(sv), Some(tv)) => {
                    match (rep_str(pv), rep_str(sv), rep_arr(tv)) {
                        (Some(p), Some(s), Some(ta)) => {
                            if p.len() > 0 {
                                match (decode_tags_rep(ta), rep_lookup(o, "stop"@)) {
                                    (Some(tags), None) => Some(
                                        EditV { project: p, start: s, stop: None, tags },
                                    ),
                                    (Some(tags), Some(stv)) => match rep_str(stv) {
                                        Some(st) => Some(
                                            EditV { project: p, start: s, stop: Some(st), tags },
                                        ),
                                        None => None,
                                    },
                                    _ => None,
                                }
                            } else {
                                None
                            }
                        },
                        _ => None,
                    }
                },
                _ => None,
            }
        },
        None => None,
    }
}

/// Encode an edit as its transfer object.
pub fn encode_edit(e: &FrameEdit) -> (v: JsonValue)
    ensures
        v@ == encode_edit_rep(e@),
{
    let mut tags: Vec<JsonValue> = Vec::new();
    let mut i: usize = 0;
    while i < e.tags.len()
        invariant
            0 <= i <= e.tags@.len(),
            tags@.len() == i,
            forall|j: int| 0 <= j < i ==> (#[trigger] tags@[j])@ == JsonRep::Str(e.tags@[j]@),
        decreases e.tags@.len() - i,
    {
        tags.push(JsonValue::Str(e.tags[i].to_string()));
        i = i + 1;
    }
    let mut members: Vec<(String, JsonValue)> = Vec::new();
    members.push(("project".to_owned(), JsonValue::Str(e.project.to_string())));
    members.push(("start".to_owned(), JsonValue::Str(e.start.clone())));
    match &e.stop {
        Some(s) => {
            members.push(("stop".to_owned(), JsonValue::Str(s.clone())));
        },
        None => {},
    }
    members.push(("tags".to_owned(), JsonValue::Arr(tags)));
    let v = JsonValue::Obj(members);
    proof {
        reveal_with_fuel(crate::json::json_rep, 3);
        let ev = encode_edit_rep(e@);
        let o = rep_obj(v@)->Some_0;
        let eo = rep_obj(ev)->Some_0;
        let last = o.len() - 1;
        assert(o[0] == ("project"@, crate::json::json_rep(members@[0].1)));
        assert(o[0].1 == JsonRep::Str(e@.project));
        assert(o[1].1 == JsonRep::Str(e@.start));
        let t2 = rep_arr(o[last].1)->Some_0;
        assert(t2.len() == e.tags@.len());
        assert(forall|j: int| 0 <= j < t2.len() ==> #[trigger] t2[j] == JsonRep::Str(e@.tags[j]));
        assert(t2 =~= e@.tags.map_values(|t: Seq<char>| JsonRep::Str(t)));
        assert(o[last].1 =~~= eo[eo.len() - 1].1);
        assert(o =~~= eo);
        assert(v@ =~~= ev);
    }
    v
}

/// Decode an edit transfer object; fails exactly when the value does not
/// follow the format.
#[verifier::loop_isolation(false)]
pub fn decode_edit(v: &JsonValue) -> (r: Option<FrameEdit>)
    ensures
        r matches Some(e) ==> decode_edit_rep(v@) == Some(e@),
        r is None <==> decode_edit_rep(v@) is None,
{
    let members = match v {
        JsonValue::Obj(o) => o,
        _ => {
            return None;
        },
    };
    let ghost o = rep_obj(v@)->Some_0;
    proof {
        reveal_with_fuel(crate::json::json_rep, 2);
        assert(o.len() == members@.len());
        assert(forall|j: int|
            0 <= j < members@.len() ==> o[j] == ((#[trigger] members@[j]).0@, crate::json::json_rep(
                members@[j].1,
            )));
    }
    let project = match obj_lookup(members, "project", Ghost(o)) {
        Some(JsonValue::Str(s)) => match NonEmptyString::new(s.as_str()) {
            Some(p) => p,
            None => {
                return None;
            },
        },
        Some(_) => {
            return None;
        },
        None => {
            return None;
        },
    };
    let start = match obj_lookup(members, "start", Ghost(o)) {
        Some(JsonValue::Str(s)) => s.clone(),
        Some(_) => {
            return None;
        },
        None => {
            return None;
        },
    };
    let stop = match obj_lookup(members, "stop", Ghost(o)) {
        Some(JsonValue::Str(s)) => Some(s.clone()),
        Some(_) => {
            return None;
        },
        None => None,
    };
    let tag_elems = match obj_lookup(members, "tags", Ghost(o)) {
        Some(JsonValue::Arr(a)) => a,
        Some(_) => {
            return None;
        },
        None => {
            return None;
        },
    };
    let ghost tags_arr = rep_arr(rep_lookup(o, "tags"@)->Some_0)->Some_0;
    proof {
        reveal_with_fuel(crate::json::json_rep, 2);
        assert(forall|j: int|
            0 <= j < tag_elems@.len() ==> tags_arr[j] == (#[trigger] tag_elems@[j])@);
    }
    let mut tags: Vec<NonEmptyString> = Vec::new();
    let mut i: usize = 0;
    while i < tag_elems.len()
        invariant
            0 <= i <= tag_elems@.len(),
            tags@.len() == i,
            tags_arr.len() == tag_elems@.len(),
            forall|j: int|
                0 <= j < i ==> (rep_str(#[trigger] tags_arr[j]) matches Some(s) && s.len() > 0),
            forall|j: int| 0 <= j < i ==> (#[trigger] tags@[j])@ == rep_str(tags_arr[j])->Some_0,
        decreases tag_elems@.len() - i,
    {
        match &tag_elems[i] {
            JsonValue::Str(s) => {
                match NonEmptyString::new(s.as_str()) {
                    Some(t) => {
                        tags.push(t);
                    },
                    None => {
                        proof {
                            reveal_with_fuel(crate::json::json_rep, 2);
                            assert(!tags_all_strings(tags_arr));
                        }
                        return None;
                    },
                }
            },
            _ => {
                proof {
                    reveal_with_fuel(crate::json::json_rep, 2);
                    assert(!tags_all_strings(tags_arr));
                }
                return None;
            },
        }
        i = i + 1;
    }
    let e = FrameEdit { project, start, stop, tags };
    proof {
        reveal_with_fuel(crate::json::json_rep, 2);
        assert(tags_all_strings(tags_arr));
        assert(tags_view(e.tags@) =~= tags_arr.map_values(|j: JsonRep| rep_str(j)->Some_0));
        assert(decode_edit_rep(v@) matches Some(w) && w =~= e@);
    }
    Some(e)
}



/// Decoding a frames file undoes encoding it: no well-formed record is
/// filtered out or altered on the way through the wire format.
pub proof fn lemma_frames_round_trip(ws: Seq<WatsonV>)
    requires
        forall|i: int| 0 <= i < ws.len() ==> (#[trigger] ws[i]).wf(),
    ensures
        decode_frames_rep(encode_frames_rep(ws)) == Some(ws),
    decreases ws.len(),
{
    let a = ws.map_values(|w: WatsonV| encode_frame_rep(w));
    if ws.len() == 0 {
        assert(decode_records_rep(a) =~= ws);
    } else {
        let prefix = ws.drop_last();
        assert(forall|i: int| 0 <= i < prefix.len() ==> prefix[i] == ws[i]);
        lemma_frames_round_trip(prefix);
        let ap = prefix.map_values(|w: WatsonV| encode_frame_rep(w));
        assert(a.drop_last() =~= ap);
        lemma_frame_round_trip(ws.last());
        assert(a.last() == encode_frame_rep(ws.last()));
        assert(decode_records_rep(a) == decode_records_rep(ap).push(ws.last()));
        assert(decode_records_rep(a) =~= ws);
    }
}

/// Decoding the ongoing-state object undoes encoding it.
pub proof fn lemma_state_round_trip(s: OngoingV)
    requires
        s.project.len() > 0,
        forall|i: int| 0 <= i < s.tags.len() ==> (#[trigger] s.tags[i]).len() > 0,
    ensures
        decode_state_rep(encode_state_rep(s)) == Some(s),
{
    reveal_strlit("project");
    reveal_strlit("start");
    reveal_strlit("tags");
    reveal_with_fuel(crate::json::rep_lookup, 4);
    let j = encode_state_rep(s);
    let o = rep_obj(j)->Some_0;
    assert("project"@.len() == 7 && "start"@.len() == 5 && "tags"@.len() == 4);
    assert("project"@ != "start"@);
    assert("project"@ != "tags"@);
    assert("start"@ != "tags"@);
    assert(o.first() == ("project"@, JsonRep::Str(s.project)));
    assert(rep_lookup(o, "project"@) == Some(JsonRep::Str(s.project)));
    assert(o.drop_first().first() == ("start"@, JsonRep::Int(s.start)));
    assert(rep_lookup(o, "start"@) == Some(JsonRep::Int(s.start)));
    assert(o.drop_first().drop_first().first() == ("tags"@, JsonRep::Arr(
        s.tags.map_values(|t: Seq<char>| JsonRep::Str(t)),
    )));
    assert(rep_lookup(o, "tags"@) == Some(JsonRep::Arr(
        s.tags.map_values(|t: Seq<char>| JsonRep::Str(t)),
    )));
    let tags_arr = s.tags.map_values(|t: Seq<char>| JsonRep::Str(t));
    assert forall|i: int| 0 <= i < tags_arr.len() implies (rep_str(#[trigger] tags_arr[i]) matches
        Some(x) && x.len() > 0) by {
        assert(tags_arr[i] == JsonRep::Str(s.tags[i]));
    }
    assert(tags_all_strings(tags_arr));
    assert(decode_tags_rep(tags_arr)->Some_0 =~= s.tags);
    assert(decode_state_rep(j) matches Some(v) && v =~= s);
}


/// Decoding an edit transfer object undoes encoding it, whether or not the
/// edit carries a stop.
pub proof fn lemma_edit_round_trip(e: EditV)
    requires
        e.project.len() > 0,
        forall|i: int| 0 <= i < e.tags.len() ==> (#[trigger] e.tags[i]).len() > 0,
    ensures
        decode_edit_rep(encode_edit_rep(e)) == Some(e),
{
    reveal_strlit("project");
    reveal_strlit("start");
    reveal_strlit("stop");
    reveal_strlit("tags");
    reveal_with_fuel(crate::json::rep_lookup, 5);
    let j = encode_edit_rep(e);
    let o = rep_obj(j)->Some_0;
    assert("project"@.len() == 7 && "start"@.len() == 5 && "stop"@.len() == 4 && "tags"@.len()
        == 4);
    assert("stop"@[0] == 's' && "tags"@[0] == 't');
    assert("project"@ != "start"@ && "project"@ != "stop"@ && "project"@ != "tags"@);
    assert("start"@ != "stop"@ && "start"@ != "tags"@ && "stop"@ != "tags"@);
    let tags_arr = e.tags.map_values(|t: Seq<char>| JsonRep::Str(t));
    let tags_member = ("tags"@, JsonRep::Arr(tags_arr));
    match e.stop {
        None => {
            assert(o =~= seq![
                ("project"@, JsonRep::Str(e.project)),
                ("start"@, JsonRep::Str(e.start)),
                tags_member,
            ]);
            assert(rep_lookup(o, "project"@) == Some(JsonRep::Str(e.project)));
            assert(rep_lookup(o, "start"@) == Some(JsonRep::Str(e.start)));
            assert(rep_lookup(o, "stop"@) is None);
            assert(rep_lookup(o, "tags"@) == Some(JsonRep::Arr(tags_arr)));
        },
        Some(st) => {
            assert(o =~= seq![
                ("project"@, JsonRep::Str(e.project)),
                ("start"@, JsonRep::Str(e.start)),
                ("stop"@, JsonRep::Str(st)),
                tags_member,
            ]);
            assert(rep_lookup(o, "project"@) == Some(JsonRep::Str(e.project)));
            assert(rep_lookup(o, "start"@) == Some(JsonRep::Str(e.start)));
            assert(rep_lookup(o, "stop"@) == Some(JsonRep::Str(st)));
            assert(rep_lookup(o, "tags"@) == Some(JsonRep::Arr(tags_arr)));
        },
    }
    assert forall|i: int| 0 <= i < tags_arr.len() implies (rep_str(#[trigger] tags_arr[i]) matches
        Some(x) && x.len() > 0) by {
        assert(tags_arr[i] == JsonRep::Str(e.tags[i]));
    }
    assert(tags_all_strings(tags_arr));
    assert(decode_tags_rep(tags_arr)->Some_0 =~= e.tags);
    assert(decode_edit_rep(j) matches Some(v) && v =~= e);
}


/// The views of a list of wire records.
pub open spec fn records_view(rs: Seq<Frame>) -> Seq<WatsonV> {
    rs.map_values(|f: Frame| f@)
}

/// Inserting an element anywhere adds exactly it to the sequence's multiset.
proof fn lemma_insert_to_multiset(s: Seq<WatsonV>, pos: int, v: WatsonV)
    requires
        0 <= pos <= s.len(),
    ensures
        s.insert(pos, v).to_multiset() == s.to_multiset().insert(v),
{
    broadcast use vstd::seq_lib::group_to_multiset_ensures;

    let t = s.insert(pos, v);
    assert(t.remove(pos) =~= s);
    assert(t[pos] == v);
    assert(t.remove(pos).to_multiset() =~= t.to_multiset().remove(t[pos]));
    assert(t.contains(v));
    assert(t.to_multiset().count(v) > 0);
    assert(t.to_multiset() =~= s.to_multiset().insert(v));
}

/// Order records by start time, as the frames file keeps them. The result is
/// a permutation: exactly the given records, sorted ascending.
pub fn sort_records(records: &Vec<Frame>) -> (r: Vec<Frame>)
    ensures
        forall|i: int, j: int|
            0 <= i < j < r@.len() ==> (#[trigger] r@[i])@.start <= (#[trigger] r@[j])@.start,
        records_view(r@).to_multiset() == records_view(records@).to_multiset(),
{
    let ghost rv = records_view(records@);
    let mut out: Vec<Frame> = Vec::new();
    proof {
        broadcast use vstd::seq_lib::group_to_multiset_ensures;

        assert(records_view(out@) =~= Seq::<WatsonV>::empty());
        assert(rv.subrange(0, 0) =~= Seq::<WatsonV>::empty());
        assert(records_view(out@).to_multiset() =~= rv.subrange(0, 0).to_multiset());
    }
    let mut k: usize = 0;
    while k < records.len()
        invariant
            0 <= k <= records@.len(),
            rv == records_view(records@),
            forall|i: int, j: int|
                0 <= i < j < out@.len() ==> (#[trigger] out@[i])@.start <= (
                #[trigger] out@[j])@.start,
            records_view(out@).to_multiset() == rv.subrange(0, k as int).to_multiset(),
        decreases records@.len() - k,
    {
        let f_start = records[k].start_timestamp();
        let mut pos: usize = 0;
        while pos < out.len() && out[pos].start_timestamp() <= f_start
            invariant
                0 <= pos <= out@.len(),
                forall|i: int| 0 <= i < pos ==> (#[trigger] out@[i])@.start <= f_start as int,
            decreases out@.len() - pos,
        {
            pos = pos + 1;
        }
        let ghost old_out = out@;
        out.insert(pos, records[k].clone());
        proof {
            broadcast use vstd::seq_lib::group_to_multiset_ensures;

            records_view(old_out).insert_ensures(pos as int, rv[k as int]);
            let nv = records_view(out@);
            let ov = records_view(old_out);
            assert(nv =~= ov.insert(pos as int, rv[k as int]));
            assert(forall|m: int| 0 <= m < pos ==> nv[m] == ov[m]);
            assert(nv[pos as int] == rv[k as int]);
            assert(forall|m: int| pos < m < nv.len() ==> nv[m] == ov[m - 1]);
            // sortedness across the insertion point
            assert forall|i: int, j: int| 0 <= i < j < out@.len() implies (
            #[trigger] out@[i])@.start <= (#[trigger] out@[j])@.start by {
                assert(out@[i]@ == nv[i] && out@[j]@ == nv[j]);
                if j < pos {
                } else if i < pos && j == pos {
                    assert(ov[i].start <= f_start as int);
                } else if i == pos {
                    assert(nv[j] == ov[j - 1]);
                    if (pos as int) < ov.len() {
                        assert(ov[pos as int].start > f_start as int);
                        assert(ov[pos as int].start <= ov[j - 1].start);
                    }
                } else if i < pos && j > pos {
                    assert(nv[i] == ov[i] && nv[j] == ov[j - 1]);
                } else {
                    assert(nv[i] == ov[i - 1] && nv[j] == ov[j - 1]);
                }
            }
            // the multiset grows by exactly the inserted record
            lemma_insert_to_multiset(ov, pos as int, rv[k as int]);
            assert(rv.subrange(0, k as int + 1).drop_last() =~= rv.subrange(0, k as int));
            assert(rv.subrange(0, k as int + 1) =~= rv.subrange(0, k as int).push(
                rv[k as int],
            ));
            assert(nv.to_multiset() =~= rv.subrange(0, k as int + 1).to_multiset());
        }
        k = k + 1;
    }
    proof {
        assert(rv.subrange(0, rv.len() as int) =~= rv);
    }
    out
}

/// The file-backed frame store's identity: which data directory it writes.
/// The file reading and writing around it live with the surrounding tooling;
/// the store hands it the paths and the codecs above.
pub struct Store {
    config: Config,
}

impl View for Store {
    type V = Seq<char>;

    closed spec fn view(&self) -> Seq<char> {
        self.config@
    }
}

impl Store {
    pub fn new(config: Config) -> (r: Self)
        ensures
            r@ == config@,
    {
        Store { config }
    }

    /// The configuration the store was made with.
    pub fn config(&self) -> (r: &Config)
        ensures
            r@ == self@,
    {
        &self.config
    }
}

} // verus!
