use vstd::prelude::*;

verus! {

/// Compare two string slices character by character.
pub fn str_eq(a: &str, b: &str) -> (r: bool)
    ensures
        r == (a@ == b@),
{
    let alen = a.unicode_len();
    let blen = b.unicode_len();
    if alen != blen {
        return false;
    }
    let mut i: usize = 0;
    while i < alen
        invariant
            0 <= i <= alen,
            alen == a@.len(),
            alen == b@.len(),
            forall|j: int| 0 <= j < i ==> a@[j] == b@[j],
        decreases alen - i,
    {
        if a.get_char(i) != b.get_char(i) {
            return false;
        }
        i = i + 1;
    }
    proof {
        assert(a@ =~= b@);
    }
    true
}

/// Lexicographic comparison of character sequences from index `i` on: a
/// proper prefix comes first, otherwise the first differing character (by
/// code point) decides.
pub open spec fn lex_lt_from(a: Seq<char>, b: Seq<char>, i: int) -> bool
    decreases b.len() - i,
{
    if i >= b.len() {
        false
    } else if i >= a.len() {
        true
    } else if a[i] != b[i] {
        a[i] < b[i]
    } else {
        lex_lt_from(a, b, i + 1)
    }
}

/// Strict lexicographic order on character sequences.
pub open spec fn lex_lt(a: Seq<char>, b: Seq<char>) -> bool {
    lex_lt_from(a, b, 0)
}

/// The lexicographic order is connected: two sequences that agree up to `i`
/// are equal from there on, or one is less.
proof fn lemma_lex_connected_from(a: Seq<char>, b: Seq<char>, i: int)
    requires
        0 <= i <= a.len(),
        0 <= i <= b.len(),
    ensures
        lex_lt_from(a, b, i) || lex_lt_from(b, a, i) || (a.len() == b.len() && forall|j: int|
            i <= j < a.len() ==> a[j] == b[j]),
    decreases a.len() + b.len() - i,
{
    if i >= b.len() {
        if i < a.len() {
            assert(lex_lt_from(b, a, i));
        }
    } else if i >= a.len() {
        assert(lex_lt_from(a, b, i));
    } else if a[i] != b[i] {
        assert(a[i] < b[i] || b[i] < a[i]);
    } else {
        lemma_lex_connected_from(a, b, i + 1);
        if !lex_lt_from(a, b, i + 1) && !lex_lt_from(b, a, i + 1) {
            assert forall|j: int| i <= j < a.len() implies a[j] == b[j] by {
                if j > i {
                    assert(a[j] == b[j]);
                }
            }
        }
    }
}

/// Two distinct sequences compare one way or the other.
pub proof fn lemma_lex_total(a: Seq<char>, b: Seq<char>)
    ensures
        a == b || lex_lt(a, b) || lex_lt(b, a),
{
    lemma_lex_connected_from(a, b, 0);
    if !lex_lt(a, b) && !lex_lt(b, a) {
        assert(a =~= b);
    }
}

/// The lexicographic order is transitive from any index where all three
/// sequences still agree.
proof fn lemma_lex_trans_from(a: Seq<char>, b: Seq<char>, c: Seq<char>, i: int)
    requires
        0 <= i <= a.len(),
        0 <= i <= b.len(),
        0 <= i <= c.len(),
        lex_lt_from(a, b, i),
        lex_lt_from(b, c, i),
    ensures
        lex_lt_from(a, c, i),
    decreases b.len() - i,
{
    if i >= b.len() {
        // contradicts lex_lt_from(a, b, i)
    } else if i >= a.len() {
        // a is exhausted and c is not, since lex_lt_from(b, c, i) holds
    } else if a[i] != b[i] {
        if i < c.len() && b[i] == c[i] {
        }
    } else {
        if i >= c.len() {
        } else if b[i] != c[i] {
        } else {
            lemma_lex_trans_from(a, b, c, i + 1);
        }
    }
}

/// The lexicographic order is transitive.
pub proof fn lemma_lex_trans(a: Seq<char>, b: Seq<char>, c: Seq<char>)
    requires
        lex_lt(a, b),
        lex_lt(b, c),
    ensures
        lex_lt(a, c),
{
    lemma_lex_trans_from(a, b, c, 0);
}

/// Compare two string slices lexicographically.
pub fn str_lt(a: &str, b: &str) -> (r: bool)
    ensures
        r == lex_lt(a@, b@),
{
    let alen = a.unicode_len();
    let blen = b.unicode_len();
    let mut i: usize = 0;
    while i < alen && i < blen
        invariant
            0 <= i <= alen,
            0 <= i <= blen,
            alen == a@.len(),
            blen == b@.len(),
            lex_lt_from(a@, b@, i as int) == lex_lt(a@, b@),
        decreases blen - i,
    {
        let ca = a.get_char(i);
        let cb = b.get_char(i);
        if ca != cb {
            return ca < cb;
        }
        i = i + 1;
    }
    i < blen
}

/// A string that is guaranteed non-empty at construction.
/// Used for project names and tags.
#[derive(Debug)]
pub struct NonEmptyString {
    s: String,
}

impl View for NonEmptyString {
    type V = Seq<char>;

    closed spec fn view(&self) -> Seq<char> {
        self.s@
    }
}

impl NonEmptyString {
    /// The contents are never empty.
    pub open spec fn wf(&self) -> bool {
        self@.len() > 0
    }

    /// Construct from a string slice; fails exactly on the empty string.
    pub fn new(t: &str) -> (r: Option<Self>)
        ensures
            r is None <==> t@.len() == 0,
            r matches Some(n) ==> n@ == t@ && n.wf(),
    {
        if t.is_empty() {
            None
        } else {
            Some(NonEmptyString { s: t.to_owned() })
        }
    }

    /// The contents as an owned string.
    pub fn to_string(&self) -> (r: String)
        ensures
            r@ == self@,
    {
        self.s.clone()
    }

    /// The contents as a borrowed slice.
    pub fn as_str(&self) -> (r: &str)
        ensures
            r@ == self@,
    {
        self.s.as_str()
    }
}

impl Clone for NonEmptyString {
    fn clone(&self) -> (r: Self)
        ensures
            r == *self,
    {
        NonEmptyString { s: self.s.clone() }
    }
}

impl PartialEq for NonEmptyString {
    fn eq(&self, other: &Self) -> (r: bool) {
        self.s == other.s
    }
}

impl Eq for NonEmptyString {}

impl vstd::std_specs::cmp::PartialEqSpecImpl for NonEmptyString {
    open spec fn obeys_eq_spec() -> bool {
        true
    }

    open spec fn eq_spec(&self, other: &Self) -> bool {
        self@ == other@
    }
}

impl From<NonEmptyString> for String {
    fn from(value: NonEmptyString) -> (r: String) {
        value.s
    }
}

impl vstd::std_specs::convert::FromSpecImpl<NonEmptyString> for String {
    open spec fn obeys_from_spec() -> bool {
        true
    }

    closed spec fn from_spec(v: NonEmptyString) -> String {
        v.s
    }
}

} // verus!
