//! Recognition of scene nodes marked for collider synthesis.
//!
//! A node is marked when its name, lowercased, contains one of a
//! configurable set of marker substrings; the markers are lowercased once,
//! when the set is built, so matching ignores case on both sides.
use vstd::prelude::*;

verus! {

/// The lowercase mapping of a string, character by character, as Unicode defines it.
pub uninterp spec fn lower_of(s: Seq<char>) -> Seq<char>;

/// Relies on `str::to_lowercase`: the lowercase form of `s`, which depends
/// on the characters of `s` alone.
#[verifier::external_body]
fn lowercase(s: &str) -> (r: String)
    ensures
        r@ == lower_of(s@),
{
    s.to_lowercase()
}

/// `n` occurs in `h` starting at position `i`.
pub open spec fn occurs_at(h: Seq<char>, n: Seq<char>, i: int) -> bool {
    0 <= i && i + n.len() <= h.len() && h.subrange(i, i + n.len()) == n
}

/// `n` occurs somewhere in `h`.
pub open spec fn contains_sub(h: Seq<char>, n: Seq<char>) -> bool {
    exists|i: int| occurs_at(h, n, i)
}

/// Some marker occurs in the lowercased name.
pub open spec fn marked(markers: Seq<Seq<char>>, lowered: Seq<char>) -> bool {
    exists|k: int| 0 <= k < markers.len() && contains_sub(lowered, #[trigger] markers[k])
}

/// Whether `n` occurs as a substring of `h`.
pub fn has_substring(h: &str, n: &str) -> (r: bool)
    ensures
        r == contains_sub(h@, n@),
{
    let hl: usize = h.unicode_len();
    let nl: usize = n.unicode_len();
    if nl > hl {
        assert forall|i: int| !occurs_at(h@, n@, i) by {}
        return false;
    }
    let last: usize = hl - nl;
    let mut i: usize = 0;
    while i <= last
        invariant
            hl == h@.len(),
            nl == n@.len(),
            last == hl - nl,
            forall|p: int| 0 <= p < i ==> !#[trigger] occurs_at(h@, n@, p),
        decreases last + 1 - i,
    {
        let mut j: usize = 0;
        let mut same: bool = true;
        while j < nl && same
            invariant
                hl == h@.len(),
                nl == n@.len(),
                i <= last,
                last == hl - nl,
                j <= nl,
                same ==> forall|q: int| 0 <= q < j ==> h@[i + q] == n@[q],
                !same ==> j > 0 && h@[i + j - 1] != n@[j - 1],
            decreases nl - j,
        {
            if h.get_char(i + j) != n.get_char(j) {
                same = false;
            }
            j = j + 1;
        }
        if same {
            assert(h@.subrange(i as int, i + nl) =~= n@);
            assert(occurs_at(h@, n@, i as int));
            return true;
        }
        assert(h@.subrange(i as int, i + nl)[j - 1] != n@[j - 1]);
        i = i + 1;
    }
    assert forall|p: int| !occurs_at(h@, n@, p) by {
        if 0 <= p < i {
        }
    }
    false
}

/// A set of marker substrings, held in lowercase.
pub struct MarkerSet {
    markers: Vec<String>,
}

impl View for MarkerSet {
    type V = Seq<Seq<char>>;

    closed spec fn view(&self) -> Seq<Seq<char>> {
        Seq::new(self.markers@.len(), |k: int| self.markers@[k]@)
    }
}

impl MarkerSet {
    /// Builds a set from the given substrings, lowercasing each.
    pub fn new(markers: &Vec<String>) -> (r: MarkerSet)
        ensures
            r@.len() == markers@.len(),
            forall|k: int| 0 <= k < markers@.len() ==> #[trigger] r@[k] == lower_of(markers@[k]@),
    {
        let mut lowered: Vec<String> = Vec::new();
        let mut k: usize = 0;
        while k < markers.len()
            invariant
                k <= markers@.len(),
                lowered@.len() == k,
                forall|j: int| 0 <= j < k ==> #[trigger] lowered@[j]@ == lower_of(markers@[j]@),
            decreases markers@.len() - k,
        {
            lowered.push(lowercase(markers[k].as_str()));
            k = k + 1;
        }
        MarkerSet { markers: lowered }
    }

    /// Whether a name that is already lowercase contains one of the markers.
    pub fn matches_lowered(&self, lowered: &str) -> (r: bool)
        ensures
            r == marked(self@, lowered@),
    {
        let mut k: usize = 0;
        while k < self.markers.len()
            invariant
                k <= self@.len(),
                self@.len() == self.markers@.len(),
                forall|j: int| 0 <= j < k ==> !contains_sub(lowered@, #[trigger] self@[j]),
            decreases self.markers@.len() - k,
        {
            if has_substring(lowered, self.markers[k].as_str()) {
                assert(contains_sub(lowered@, self@[k as int]));
                return true;
            }
            k = k + 1;
        }
        false
    }

    /// Whether `name` is marked: its lowercase form contains one of the markers.
    pub fn matches(&self, name: &str) -> (r: bool)
        ensures
            r == marked(self@, lower_of(name@)),
    {
        let lowered = lowercase(name);
        self.matches_lowered(lowered.as_str())
    }
}

} // verus!
