use vstd::prelude::*;
use vstd::string::StringExecFns;
use vstd::string::StrSliceExecFns;

use crate::clock;
use crate::common::NonEmptyString;

verus! {

/// The view of a sequence of tags: each tag as its character sequence.
pub open spec fn tags_view(tags: Seq<NonEmptyString>) -> Seq<Seq<char>> {
    tags.map_values(|t: NonEmptyString| t@)
}

/// The mathematical model of a frame: a tracked interval bound to a project
/// and tags. Timestamps are whole seconds since the Unix epoch.
#[verifier::ext_equal]
pub struct FrameV {
    pub project: Seq<char>,
    pub id: Seq<char>,
    pub start: int,
    pub end: Option<int>,
    pub tags: Seq<Seq<char>>,
    pub last_edit: int,
}

pub const FNV_OFFSET: u64 = 0xcbf29ce484222325;
pub const FNV_PRIME: u64 = 0x100000001b3;

/// One step of the FNV-1a hash: fold a byte into the accumulator.
pub open spec fn fnv1a_step(acc: u64, b: u8) -> u64 {
    vstd::wrapping::u64_specs::wrapping_mul(acc ^ (b as u64), FNV_PRIME)
}

/// The FNV-1a hash of the bytes from index `i` on, starting from `acc`.
pub open spec fn fnv1a_from(bytes: Seq<u8>, i: int, acc: u64) -> u64
    decreases bytes.len() - i,
{
    if i < 0 || i >= bytes.len() {
        acc
    } else {
        fnv1a_from(bytes, i + 1, fnv1a_step(acc, bytes[i]))
    }
}

/// The FNV-1a hash of a byte sequence.
pub open spec fn fnv1a(bytes: Seq<u8>) -> u64 {
    fnv1a_from(bytes, 0, FNV_OFFSET)
}

/// Compute the FNV-1a hash of a byte slice.
fn fnv1a_hash(bytes: &[u8]) -> (r: u64)
    ensures
        r == fnv1a(bytes@),
{
    let mut acc: u64 = FNV_OFFSET;
    let mut i: usize = 0;
    while i < bytes.len()
        invariant
            0 <= i <= bytes@.len(),
            fnv1a_from(bytes@, i as int, acc) == fnv1a(bytes@),
        decreases bytes@.len() - i,
    {
        acc = (acc ^ (bytes[i] as u64)).wrapping_mul(FNV_PRIME);
        i = i + 1;
    }
    acc
}

/// The lowercase hexadecimal digit for a value below sixteen.
pub open spec fn hex_char(d: u64) -> char {
    if d == 0 { '0' } else if d == 1 { '1' } else if d == 2 { '2' } else if d == 3 { '3' }
    else if d == 4 { '4' } else if d == 5 { '5' } else if d == 6 { '6' } else if d == 7 { '7' }
    else if d == 8 { '8' } else if d == 9 { '9' } else if d == 10 { 'a' } else if d == 11 { 'b' }
    else if d == 12 { 'c' } else if d == 13 { 'd' } else if d == 14 { 'e' } else { 'f' }
}

/// The lowercase hexadecimal rendering of a number, without leading zeros.
pub open spec fn hex_str(n: u64) -> Seq<char>
    decreases n,
{
    if n < 16 {
        seq![hex_char(n)]
    } else {
        hex_str(n / 16).push(hex_char(n % 16))
    }
}

/// The sixteen hexadecimal digits, in value order.
proof fn lemma_hex_digit_table(d: u64)
    requires
        d < 16,
    ensures
        "0123456789abcdef"@[d as int] == hex_char(d),
{
    reveal_strlit("0123456789abcdef");
}

/// Render a number as lowercase hexadecimal, most significant digit first,
/// without leading zeros.
#[verifier::loop_isolation(false)]
fn to_hex(n: u64) -> (r: String)
    ensures
        r@ == hex_str(n),
{
    let digits = "0123456789abcdef";
    proof {
        reveal_strlit("0123456789abcdef");
        assert(digits@.len() == 16);
    }
    // collect the digits of n, least significant first
    let mut low_digits: Vec<u64> = Vec::new();
    let mut m = n;
    while m >= 16
        invariant
            hex_str(n) == hex_str(m) + Seq::new(
                low_digits@.len(),
                |i: int| hex_char(low_digits@[low_digits@.len() - 1 - i]),
            ),
            forall|i: int| 0 <= i < low_digits@.len() ==> low_digits@[i] < 16,
        decreases m,
    {
        let ghost before = low_digits@;
        low_digits.push(m % 16);
        proof {
            assert(hex_str(m) == hex_str(m / 16).push(hex_char(m % 16)));
            assert(hex_str(m / 16) + Seq::new(
                low_digits@.len(),
                |i: int| hex_char(low_digits@[low_digits@.len() - 1 - i]),
            ) =~= hex_str(m) + Seq::new(
                before.len(),
                |i: int| hex_char(before[before.len() - 1 - i]),
            ));
        }
        m = m / 16;
    }
    // write them out, most significant first
    let mut r = String::new();
    proof {
        assert(hex_str(m) =~= seq![hex_char(m)]);
        lemma_hex_digit_table(m);
        assert(digits@.subrange(m as int, m as int + 1) =~= seq![hex_char(m)]);
    }
    r.append(digits.substring_char(m as usize, m as usize + 1));
    let mut k: usize = low_digits.len();
    while k > 0
        invariant
            0 <= k <= low_digits@.len(),
            forall|i: int| 0 <= i < low_digits@.len() ==> low_digits@[i] < 16,
            hex_str(n) == hex_str(m) + Seq::new(
                low_digits@.len(),
                |i: int| hex_char(low_digits@[low_digits@.len() - 1 - i]),
            ),
            r@ =~= (hex_str(m) + Seq::new(
                low_digits@.len(),
                |i: int| hex_char(low_digits@[low_digits@.len() - 1 - i]),
            )).take(1 + low_digits@.len() - k),
        decreases k,
    {
        let d = low_digits[k - 1];
        proof {
            lemma_hex_digit_table(d);
            assert(digits@.subrange(d as int, d as int + 1) =~= seq![hex_char(d)]);
        }
        r.append(digits.substring_char(d as usize, d as usize + 1));
        k = k - 1;
        proof {
            let whole = hex_str(m) + Seq::new(
                low_digits@.len(),
                |i: int| hex_char(low_digits@[low_digits@.len() - 1 - i]),
            );
            assert(whole[1 + low_digits@.len() - k - 1] == hex_char(d));
            assert(r@ =~= whole.take(1 + low_digits@.len() - k));
        }
    }
    proof {
        assert(r@ =~= hex_str(n));
    }
    r
}

/// Generate a unique ID for a frame using a hash of the current time.
fn generate_id() -> String {
    let now = clock::now_string();
    let h = fnv1a_hash(now.as_str().as_bytes());
    to_hex(h)
}

/// Copy a borrowed tag list into an owned one.
pub fn clone_tags(tags: &[NonEmptyString]) -> (r: Vec<NonEmptyString>)
    ensures
        r@ == tags@,
{
    let mut r: Vec<NonEmptyString> = Vec::new();
    let mut i: usize = 0;
    while i < tags.len()
        invariant
            0 <= i <= tags@.len(),
            r@.len() == i,
            forall|j: int| 0 <= j < i ==> r@[j] == tags@[j],
        decreases tags@.len() - i,
    {
        r.push(tags[i].clone());
        i = i + 1;
    }
    proof {
        assert(r@ =~= tags@);
    }
    r
}

/// Represents a frame associated with a specific project.
#[derive(Debug)]
pub struct Frame {
    /// The project the frame is associated with.
    project: NonEmptyString,
    /// The frame's unique identifier.
    id: String,
    /// The start time of the frame.
    start: i64,
    /// The end time of the frame.
    end: Option<i64>,
    /// The tags associated with the frame.
    tags: Vec<NonEmptyString>,
    /// The last time the frame was edited.
    last_edit: i64,
}

impl View for Frame {
    type V = FrameV;

    closed spec fn view(&self) -> FrameV {
        FrameV {
            project: self.project@,
            id: self.id@,
            start: self.start as int,
            end: match self.end {
                Some(e) => Some(e as int),
                None => None,
            },
            tags: tags_view(self.tags@),
            last_edit: self.last_edit as int,
        }
    }
}

impl Frame {
    /// Create a frame. A missing id is freshly generated from the current
    /// time; missing start and last-edit times default to now.
    pub fn new(
        project: NonEmptyString,
        id: Option<String>,
        start: Option<i64>,
        end: Option<i64>,
        tags: Vec<NonEmptyString>,
        last_edit: Option<i64>,
    ) -> (r: Frame)
        ensures
            r@.project == project@,
            id matches Some(i) ==> r@.id == i@,
            start matches Some(s) ==> r@.start == s as int,
            r@.end == (match end {
                Some(e) => Some(e as int),
                None => None::<int>,
            }),
            r@.tags == tags_view(tags@),
            last_edit matches Some(l) ==> r@.last_edit == l as int,
    {
        let id = match id {
            Some(i) => i,
            None => generate_id(),
        };
        let start = match start {
            Some(s) => s,
            None => clock::now_ts(),
        };
        let last_edit = match last_edit {
            Some(l) => l,
            None => clock::now_ts(),
        };
        Frame { project, id, start, end, tags, last_edit }
    }

    /// Set the end time and return the completed wrapper; always succeeds.
    pub fn set_end(&mut self, end: i64) -> (r: CompletedFrame)
        ensures
            final(self)@ == (FrameV { end: Some(end as int), ..old(self)@ }),
            r@ == final(self)@,
    {
        self.end = Some(end);
        let f = self.clone();
        CompletedFrame { frame: f }
    }

    pub fn project(&self) -> (r: &NonEmptyString)
        ensures
            r@ == self@.project,
    {
        &self.project
    }

    pub fn start(&self) -> (r: i64)
        ensures
            r as int == self@.start,
    {
        self.start
    }

    pub fn id(&self) -> (r: &str)
        ensures
            r@ == self@.id,
    {
        self.id.as_str()
    }

    pub fn tags(&self) -> (r: &[NonEmptyString])
        ensures
            tags_view(r@) == self@.tags,
    {
        self.tags.as_slice()
    }

    pub fn last_edit(&self) -> (r: i64)
        ensures
            r as int == self@.last_edit,
    {
        self.last_edit
    }

    pub fn end(&self) -> (r: Option<i64>)
        ensures
            r is Some <==> self@.end is Some,
            r matches Some(e) ==> self@.end == Some(e as int),
    {
        self.end
    }

    /// Overwrite project, start, end and tags from an edit, with its
    /// timestamps already parsed; refresh the last-edit time to `now`. The id
    /// is never changed by an edit.
    pub fn update_from(
        &mut self,
        edit: &crate::watson::FrameEdit,
        start: i64,
        end: Option<i64>,
        now: i64,
    )
        ensures
            final(self)@ == (FrameV {
                project: edit@.project,
                id: old(self)@.id,
                start: start as int,
                end: match end {
                    Some(e) => Some(e as int),
                    None => None::<int>,
                },
                tags: edit@.tags,
                last_edit: now as int,
            }),
    {
        self.project = edit.project().clone();
        self.start = start;
        self.end = end;
        self.tags = clone_tags(edit.tags());
        self.last_edit = now;
    }
}

impl Clone for Frame {
    fn clone(&self) -> (r: Self)
        ensures
            r@ == self@,
    {
        let r = Frame {
            project: self.project.clone(),
            id: self.id.clone(),
            start: self.start,
            end: self.end,
            tags: self.tags.clone(),
            last_edit: self.last_edit,
        };
        proof {
            assert(tags_view(r.tags@) =~= tags_view(self.tags@));
            assert(r@ =~= self@);
        }
        r
    }
}

/// Represents a completed frame.
/// A completed frame is guaranteed to have an end time.
#[derive(Debug)]
pub struct CompletedFrame {
    frame: Frame,
}

impl View for CompletedFrame {
    type V = FrameV;

    closed spec fn view(&self) -> FrameV {
        self.frame@
    }
}

impl CompletedFrame {
    /// A completed frame always carries an end time.
    #[verifier::type_invariant]
    pub open spec fn completed(&self) -> bool {
        self@.end is Some
    }

    /// Wrap a frame; fails exactly when the frame has no end time. This is
    /// the single gate that enforces the "completed implies ended" invariant.
    pub fn from_frame(frame: Frame) -> (r: Option<Self>)
        ensures
            r is Some <==> frame@.end is Some,
            r matches Some(c) ==> c@ == frame@,
    {
        match frame.end() {
            Some(_) => Some(CompletedFrame { frame }),
            None => None,
        }
    }

    pub fn frame(&self) -> (r: &Frame)
        ensures
            r@ == self@,
    {
        &self.frame
    }

    /// The end time; always present on a completed frame.
    pub fn end(&self) -> (r: i64)
        ensures
            self@.end == Some(r as int),
    {
        proof {
            use_type_invariant(self);
        }
        match self.frame.end() {
            Some(e) => e,
            None => unreached(),
        }
    }

    /// The duration of the frame: end minus start. Not clamped; negative when
    /// the end lies before the start.
    pub fn duration(&self) -> (r: i64)
        requires
            i64::MIN <= self@.end->Some_0 - self@.start <= i64::MAX,
        ensures
            r as int == self@.end->Some_0 - self@.start,
    {
        proof {
            use_type_invariant(self);
        }
        let end = self.end();
        let start = self.frame.start();
        end - start
    }
}

impl Clone for CompletedFrame {
    fn clone(&self) -> (r: Self)
        ensures
            r@ == self@,
    {
        proof {
            use_type_invariant(self);
        }
        CompletedFrame { frame: self.frame.clone() }
    }
}

/// Two completed frames are equal iff their start times are equal; this
/// coarse equality orders frames chronologically.
impl PartialEq for CompletedFrame {
    fn eq(&self, other: &Self) -> (r: bool) {
        self.frame.start() == other.frame.start()
    }
}

impl Eq for CompletedFrame {}

impl vstd::std_specs::cmp::PartialEqSpecImpl for CompletedFrame {
    open spec fn obeys_eq_spec() -> bool {
        true
    }

    open spec fn eq_spec(&self, other: &Self) -> bool {
        self@.start == other@.start
    }
}

/// Completed frames order chronologically: by start time ascending.
impl PartialOrd for CompletedFrame {
    fn partial_cmp(&self, other: &Self) -> (r: Option<core::cmp::Ordering>) {
        if self.frame.start() < other.frame.start() {
            Some(core::cmp::Ordering::Less)
        } else if self.frame.start() == other.frame.start() {
            Some(core::cmp::Ordering::Equal)
        } else {
            Some(core::cmp::Ordering::Greater)
        }
    }
}

impl vstd::std_specs::cmp::PartialOrdSpecImpl for CompletedFrame {
    open spec fn obeys_partial_cmp_spec() -> bool {
        true
    }

    open spec fn partial_cmp_spec(&self, other: &Self) -> Option<core::cmp::Ordering> {
        if self@.start < other@.start {
            Some(core::cmp::Ordering::Less)
        } else if self@.start == other@.start {
            Some(core::cmp::Ordering::Equal)
        } else {
            Some(core::cmp::Ordering::Greater)
        }
    }
}

/// The view of a sequence of completed frames.
pub open spec fn frames_view(frames: Seq<CompletedFrame>) -> Seq<FrameV> {
    frames.map_values(|f: CompletedFrame| f@)
}

/// A well-formed frame store: every frame is completed and ids are unique.
pub open spec fn store_inv(frames: Seq<FrameV>) -> bool {
    &&& forall|i: int| 0 <= i < frames.len() ==> (#[trigger] frames[i]).end is Some
    &&& forall|i: int, j: int|
        0 <= i < frames.len() && 0 <= j < frames.len() && i != j ==> (#[trigger] frames[i]).id != (
        #[trigger] frames[j]).id
}

/// Saving a frame replaces the frame with the same id, or appends the frame
/// when no frame carries its id.
pub open spec fn upsert(frames: Seq<FrameV>, f: FrameV) -> Seq<FrameV> {
    frames.filter(|g: FrameV| g.id != f.id).push(f)
}

/// Some stored frame carries the project `p`.
pub open spec fn has_project(frames: Seq<FrameV>, p: Seq<char>) -> bool {
    exists|k: int| 0 <= k < frames.len() && (#[trigger] frames[k]).project == p
}

/// Some listed name reads `p`.
pub open spec fn seen_project(projects: Seq<NonEmptyString>, p: Seq<char>) -> bool {
    exists|i: int| 0 <= i < projects.len() && (#[trigger] projects[i])@ == p
}

/// A frame overlaps the half-open interval `[from, to)`.
pub open spec fn overlaps(f: FrameV, from: int, to: int) -> bool {
    f.start < to && f.end->Some_0 > from
}

/// Dropping the frames that share an id with `f` keeps the store well formed,
/// keeps only frames of other ids, and keeps every frame of another id.
pub proof fn lemma_remove_id(frames: Seq<FrameV>, f: FrameV)
    requires
        store_inv(frames),
    ensures
        ({
            let kept = frames.filter(|g: FrameV| g.id != f.id);
            &&& store_inv(kept)
            &&& forall|x: FrameV| kept.contains(x) <==> (frames.contains(x) && x.id != f.id)
        }),
    decreases frames.len(),
{
    reveal(Seq::filter);
    let pred = |g: FrameV| g.id != f.id;
    let kept = frames.filter(pred);
    if frames.len() == 0 {
        assert(kept =~= Seq::<FrameV>::empty());
    } else {
        let prefix = frames.drop_last();
        let last = frames.last();
        assert(store_inv(prefix)) by {
            assert(forall|i: int| 0 <= i < prefix.len() ==> prefix[i] == frames[i]);
        }
        lemma_remove_id(prefix, f);
        let kept_prefix = prefix.filter(pred);
        assert(forall|x: FrameV| prefix.contains(x) ==> frames.contains(x)) by {
            assert(forall|i: int| 0 <= i < prefix.len() ==> prefix[i] == frames[i]);
        }
        if pred(last) {
            assert(kept == kept_prefix.push(last));
            assert(frames.contains(last));
            // the pushed frame's id differs from every id already kept
            assert forall|i: int| 0 <= i < kept_prefix.len() implies kept_prefix[i].id
                != last.id by {
                assert(prefix.contains(kept_prefix[i]));
                let k = choose|k: int| 0 <= k < prefix.len() && prefix[k] == kept_prefix[i];
                assert(frames[k] == prefix[k]);
                assert(frames[k].id != frames[frames.len() - 1].id);
            }
            assert forall|x: FrameV| kept.contains(x) implies (frames.contains(x) && x.id
                != f.id) by {
                let i = choose|i: int| 0 <= i < kept.len() && kept[i] == x;
                if i < kept_prefix.len() {
                    assert(kept_prefix[i] == x);
                } else {
                    assert(x == last);
                }
            }
            assert forall|x: FrameV| frames.contains(x) && x.id != f.id implies kept.contains(
                x,
            ) by {
                let i = choose|i: int| 0 <= i < frames.len() && frames[i] == x;
                if i < prefix.len() {
                    assert(prefix[i] == x);
                    assert(kept_prefix.contains(x));
                    let k = choose|k: int| 0 <= k < kept_prefix.len() && kept_prefix[k] == x;
                    assert(kept[k] == x);
                } else {
                    assert(x == last);
                    assert(kept.last() == last);
                }
            }
        } else {
            assert(kept == kept_prefix);
            assert forall|x: FrameV| frames.contains(x) && x.id != f.id implies kept.contains(
                x,
            ) by {
                let i = choose|i: int| 0 <= i < frames.len() && frames[i] == x;
                if i < prefix.len() {
                    assert(prefix[i] == x);
                } else {
                    assert(x == last);
                    assert(!pred(last));
                }
            }
        }
    }
}

/// Saving a well-formed completed frame keeps the store well formed.
pub proof fn lemma_upsert_inv(frames: Seq<FrameV>, f: FrameV)
    requires
        store_inv(frames),
        f.end is Some,
    ensures
        store_inv(upsert(frames, f)),
        forall|x: FrameV| upsert(frames, f).contains(x) <==> ((frames.contains(x) && x.id != f.id)
            || x == f),
{
    lemma_remove_id(frames, f);
    let kept = frames.filter(|g: FrameV| g.id != f.id);
    let out = upsert(frames, f);
    assert(out == kept.push(f));
    assert(forall|i: int| 0 <= i < kept.len() ==> out[i] == kept[i]);
    assert(out.last() == f);
    assert forall|x: FrameV| out.contains(x) implies ((frames.contains(x) && x.id != f.id) || x
        == f) by {
        let i = choose|i: int| 0 <= i < out.len() && out[i] == x;
        if i < kept.len() {
            assert(kept[i] == x);
        }
    }
    assert forall|x: FrameV| (frames.contains(x) && x.id != f.id) || x == f implies out.contains(
        x,
    ) by {
        if x == f {
            assert(out.last() == x);
        } else {
            assert(kept.contains(x));
            let i = choose|i: int| 0 <= i < kept.len() && kept[i] == x;
            assert(out[i] == x);
        }
    }
    assert forall|i: int| 0 <= i < out.len() implies (#[trigger] out[i]).end is Some by {
        if i < kept.len() {
            assert(kept.contains(out[i]));
        }
    }
    assert forall|i: int, j: int|
        0 <= i < out.len() && 0 <= j < out.len() && i != j implies (#[trigger] out[i]).id != (
    #[trigger] out[j]).id by {
        if i < kept.len() && j < kept.len() {
        } else if i < kept.len() {
            assert(kept.contains(out[i]));
        } else if j < kept.len() {
            assert(kept.contains(out[j]));
        }
    }
}

/// The store of completed frames: durable storage plus the queries the
/// command layer needs.
pub trait FrameStore: Sized {
    type FrameStoreError;

    /// The model: the stored frames, in storage order.
    spec fn frames(&self) -> Seq<FrameV>;

    /// Save a frame to the store.
    /// If the frame already exists (identified by its id) it is updated,
    /// otherwise inserted. Returns an error if the saving failed.
    fn save_frame(&mut self, frame: &CompletedFrame) -> (r: Result<(), Self::FrameStoreError>)
        requires
            store_inv(old(self).frames()),
        ensures
            store_inv(final(self).frames()),
            r is Ok ==> final(self).frames() == upsert(old(self).frames(), frame@),
            r is Err ==> final(self).frames() == old(self).frames(),
    ;

    /// Get all the projects of frames stored in this store, each exactly
    /// once, sorted for determinism.
    fn get_projects(&self) -> (r: Result<Vec<NonEmptyString>, Self::FrameStoreError>)
        ensures
            r matches Ok(v) ==> {
                &&& forall|i: int, j: int|
                    0 <= i < v@.len() && 0 <= j < v@.len() && i != j ==> (#[trigger] v@[i])@ != (
                    #[trigger] v@[j])@
                &&& forall|i: int, j: int|
                    0 <= i < j < v@.len() ==> crate::common::lex_lt(
                        (#[trigger] v@[i])@,
                        (#[trigger] v@[j])@,
                    )
                &&& forall|i: int| 0 <= i < v@.len() ==> has_project(self.frames(), (#[trigger] v@[i])@)
                &&& forall|k: int|
                    0 <= k < self.frames().len() ==> seen_project(
                        v@,
                        (#[trigger] self.frames()[k]).project,
                    )
            },
    ;

    /// Get the last frame: one whose end time no stored frame exceeds, or
    /// none exactly when the store is empty.
    fn get_last_frame(&self) -> (r: Option<CompletedFrame>)
        requires
            store_inv(self.frames()),
        ensures
            r is None <==> self.frames().len() == 0,
            r matches Some(f) ==> self.frames().contains(f@) && forall|k: int|
                0 <= k < self.frames().len() ==> (#[trigger] self.frames()[k]).end->Some_0
                    <= f@.end->Some_0,
    ;

    /// Get a frame based on the id: the completed frame whose id matches, or
    /// none exactly when no stored frame carries the id.
    fn get_frame(&self, frame_id: &str) -> (r: Result<
        Option<CompletedFrame>,
        Self::FrameStoreError,
    >)
        ensures
            r matches Ok(o) ==> match o {
                Some(f) => f@.id == frame_id@ && self.frames().contains(f@),
                None => forall|k: int|
                    0 <= k < self.frames().len() ==> (#[trigger] self.frames()[k]).id != frame_id@,
            },
    ;

    /// Get the completed frames overlapping the half-open interval
    /// `[start, end)`: exactly those with `start < end && frame end > start`,
    /// sorted by start time.
    fn get_frames(&self, start: i64, end: i64) -> (r: Result<
        Vec<CompletedFrame>,
        Self::FrameStoreError,
    >)
        requires
            store_inv(self.frames()),
        ensures
            r matches Ok(v) ==> {
                &&& forall|x: FrameV|
                    #[trigger] frames_view(v@).contains(x) <==> (self.frames().contains(x)
                        && overlaps(x, start as int, end as int))
                &&& forall|i: int, j: int|
                    0 <= i < v@.len() && 0 <= j < v@.len() && i != j ==> (#[trigger] v@[i])@.id != (
                    #[trigger] v@[j])@.id
                &&& forall|i: int, j: int|
                    0 <= i < j < v@.len() ==> (#[trigger] v@[i])@.start <= (#[trigger] v@[j])@.start
            },
    ;
}

} // verus!
