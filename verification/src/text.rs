//! Character sequences: searching, trimming and the character classes that
//! the style rules are stated over.

use vstd::prelude::*;
use vstd::std_specs::iter::IteratorSpec;

verus! {

/// What `char::is_whitespace` answers for `c`: whether `c` has the Unicode
/// property White_Space.
pub uninterp spec fn char_is_whitespace(c: char) -> bool;

/// Calls `char::is_whitespace`. The answer depends on the character alone and
/// is given the name [`char_is_whitespace`]; nothing more is claimed of it.
#[verifier::external_body]
pub(crate) fn is_whitespace(c: char) -> (b: bool)
    ensures
        b == char_is_whitespace(c),
{
    c.is_whitespace()
}

/// What `char::is_uppercase` answers for `c`: whether `c` has the Unicode
/// property Uppercase.
pub uninterp spec fn char_is_uppercase(c: char) -> bool;

/// Calls `char::is_uppercase`. The answer depends on the character alone and
/// is given the name [`char_is_uppercase`]; nothing more is claimed of it.
#[verifier::external_body]
pub(crate) fn is_uppercase(c: char) -> (b: bool)
    ensures
        b == char_is_uppercase(c),
{
    c.is_uppercase()
}

/// A set of characters that can be trimmed from the ends of a text.
#[derive(Clone, Copy, Debug, PartialEq, Eq, Structural)]
pub enum CharClass {
    /// The double quote, the single quote and the backquote.
    Quote,
    /// The characters with the Unicode property White_Space.
    Whitespace,
}

impl CharClass {
    /// Whether `c` belongs to the class.
    pub open spec fn contains(self, c: char) -> bool {
        match self {
            CharClass::Quote => c == '"' || c == '\'' || c == '`',
            CharClass::Whitespace => char_is_whitespace(c),
        }
    }

    /// Whether `c` belongs to the class.
    pub fn has(self, c: char) -> (b: bool)
        ensures
            b == self.contains(c),
    {
        match self {
            CharClass::Quote => c == '"' || c == '\'' || c == '`',
            CharClass::Whitespace => is_whitespace(c),
        }
    }
}

/// `pat` stands in `s` at index `i`.
pub open spec fn occurs_at(s: Seq<char>, pat: Seq<char>, i: int) -> bool {
    &&& 0 <= i
    &&& i + pat.len() <= s.len()
    &&& forall|k: int| 0 <= k < pat.len() ==> #[trigger] s[i + k] == pat[k]
}

/// `i` is the smallest index at which `pat` stands in `s`.
pub open spec fn first_occurrence(s: Seq<char>, pat: Seq<char>, i: int) -> bool {
    &&& occurs_at(s, pat, i)
    &&& forall|j: int| 0 <= j < i ==> !occurs_at(s, pat, j)
}

/// `pat` stands somewhere in `s`.
pub open spec fn contains_text(s: Seq<char>, pat: Seq<char>) -> bool {
    exists|i: int| occurs_at(s, pat, i)
}

/// The smallest index at which `pat` stands in `s`, if there is one.
pub open spec fn find(s: Seq<char>, pat: Seq<char>) -> Option<int> {
    if contains_text(s, pat) {
        Some(choose|i: int| first_occurrence(s, pat, i))
    } else {
        None
    }
}

/// `i` is the smallest index of `s` that holds `c`.
pub open spec fn first_position(s: Seq<char>, c: char, i: int) -> bool {
    &&& 0 <= i < s.len()
    &&& s[i] == c
    &&& forall|j: int| 0 <= j < i ==> s[j] != c
}

/// The smallest index of `s` that holds `c`, if there is one.
pub open spec fn position(s: Seq<char>, c: char) -> Option<int> {
    if s.contains(c) {
        Some(choose|i: int| first_position(s, c, i))
    } else {
        None
    }
}

/// `s` without its longest prefix of characters of `class`.
pub open spec fn trim_start(s: Seq<char>, class: CharClass) -> Seq<char>
    decreases s.len(),
{
    if s.len() > 0 && class.contains(s.first()) {
        trim_start(s.drop_first(), class)
    } else {
        s
    }
}

/// `s` without its longest suffix of characters of `class`.
pub open spec fn trim_end(s: Seq<char>, class: CharClass) -> Seq<char>
    decreases s.len(),
{
    if s.len() > 0 && class.contains(s.last()) {
        trim_end(s.drop_last(), class)
    } else {
        s
    }
}

/// `s` without the characters of `class` at its two ends.
pub open spec fn trim(s: Seq<char>, class: CharClass) -> Seq<char> {
    trim_end(trim_start(s, class), class)
}

/// An index that is the first occurrence of `pat` is the one that `find` gives.
pub proof fn lemma_find_is_first(s: Seq<char>, pat: Seq<char>, i: int)
    requires
        first_occurrence(s, pat, i),
    ensures
        find(s, pat) == Some(i),
{
    let c = choose|c: int| first_occurrence(s, pat, c);
    assert(first_occurrence(s, pat, c));
    if c < i {
        assert(!occurs_at(s, pat, c));
    }
    if i < c {
        assert(!occurs_at(s, pat, i));
    }
}

/// What `find` gives is a first occurrence, and it gives one whenever `pat`
/// stands in `s`.
pub proof fn lemma_find_some(s: Seq<char>, pat: Seq<char>)
    ensures
        match find(s, pat) {
            Some(i) => first_occurrence(s, pat, i),
            None => forall|i: int| !occurs_at(s, pat, i),
        },
{
    if contains_text(s, pat) {
        let w = choose|i: int| occurs_at(s, pat, i);
        lemma_least_occurrence(s, pat, w);
    }
}

/// Below any occurrence of `pat` in `s` there is a first one.
proof fn lemma_least_occurrence(s: Seq<char>, pat: Seq<char>, w: int)
    requires
        occurs_at(s, pat, w),
    ensures
        exists|i: int| first_occurrence(s, pat, i),
    decreases w,
{
    if exists|j: int| 0 <= j < w && occurs_at(s, pat, j) {
        let j = choose|j: int| 0 <= j < w && occurs_at(s, pat, j);
        lemma_least_occurrence(s, pat, j);
    } else {
        assert(first_occurrence(s, pat, w));
    }
}

/// What `position` gives is a first position, and it gives one whenever `s`
/// holds `c`.
pub proof fn lemma_position_some(s: Seq<char>, c: char)
    ensures
        match position(s, c) {
            Some(i) => first_position(s, c, i),
            None => !s.contains(c),
        },
{
    if s.contains(c) {
        let w = choose|i: int| 0 <= i < s.len() && s[i] == c;
        lemma_least_position(s, c, w);
    }
}

/// Below any index of `s` that holds `c` there is a first one.
proof fn lemma_least_position(s: Seq<char>, c: char, w: int)
    requires
        0 <= w < s.len(),
        s[w] == c,
    ensures
        exists|i: int| first_position(s, c, i),
    decreases w,
{
    if exists|j: int| 0 <= j < w && s[j] == c {
        let j = choose|j: int| 0 <= j < w && s[j] == c;
        lemma_least_position(s, c, j);
    } else {
        assert(first_position(s, c, w));
    }
}

/// An index that is the first position of `c` is the one that `position` gives.
pub proof fn lemma_position_is_first(s: Seq<char>, c: char, i: int)
    requires
        first_position(s, c, i),
    ensures
        position(s, c) == Some(i),
{
    let k = choose|k: int| first_position(s, c, k);
    assert(first_position(s, c, k));
}

/// The characters of `s`, in order.
pub fn to_chars(s: &str) -> (v: Vec<char>)
    ensures
        v@ == s@,
{
    let mut v: Vec<char> = Vec::new();
    for c in it: s.chars()
        invariant
            v@ == it.seq().take(it.index()),
            it.seq() == s@,
    {
        v.push(c);
    }
    v
}

/// Whether `pat` stands in `s` at index `i`.
pub fn matches_at(s: &[char], pat: &[char], i: usize) -> (b: bool)
    requires
        i + pat@.len() <= s@.len(),
    ensures
        b == occurs_at(s@, pat@, i as int),
{
    let n: usize = s.len();
    let mut k: usize = 0;
    while k < pat.len()
        invariant
            k <= pat@.len(),
            n == s@.len(),
            i + pat@.len() <= s@.len(),
            forall|j: int| 0 <= j < k ==> #[trigger] s@[i + j] == pat@[j],
        decreases pat@.len() - k,
    {
        if s[i + k] != pat[k] {
            return false;
        }
        k = k + 1;
    }
    true
}

/// The smallest index at which `pat` stands in `s`.
pub fn find_text(s: &[char], pat: &[char]) -> (r: Option<usize>)
    ensures
        match r {
            Some(i) => find(s@, pat@) == Some(i as int) && first_occurrence(s@, pat@, i as int),
            None => find(s@, pat@) is None,
        },
{
    if pat.len() > s.len() {
        return None;
    }
    let last: usize = s.len() - pat.len();
    let mut i: usize = 0;
    loop
        invariant
            last == s@.len() - pat@.len(),
            i <= last,
            forall|j: int| 0 <= j < i ==> !occurs_at(s@, pat@, j),
        decreases last - i,
    {
        if matches_at(s, pat, i) {
            proof {
                lemma_find_is_first(s@, pat@, i as int);
            }
            return Some(i);
        }
        if i == last {
            return None;
        }
        i = i + 1;
    }
}

/// The smallest index of `s` that holds `c`.
pub fn find_char(s: &[char], c: char) -> (r: Option<usize>)
    ensures
        match r {
            Some(i) => position(s@, c) == Some(i as int) && first_position(s@, c, i as int),
            None => position(s@, c) is None,
        },
{
    let mut i: usize = 0;
    while i < s.len()
        invariant
            i <= s@.len(),
            forall|j: int| 0 <= j < i ==> s@[j] != c,
        decreases s@.len() - i,
    {
        if s[i] == c {
            proof {
                lemma_position_is_first(s@, c, i as int);
            }
            return Some(i);
        }
        i = i + 1;
    }
    None
}

/// The bounds in `s` of what is left of it when the characters of `class`
/// are taken from its two ends.
pub fn trim_bounds(s: &[char], class: CharClass) -> (r: (usize, usize))
    ensures
        r.0 <= r.1 <= s@.len(),
        s@.subrange(r.0 as int, r.1 as int) == trim(s@, class),
{
    let n: usize = s.len();
    let mut lo: usize = 0;
    assert(s@.subrange(0, n as int) =~= s@);
    while lo < n && class.has(s[lo])
        invariant
            n == s@.len(),
            lo <= n,
            trim_start(s@, class) == trim_start(s@.subrange(lo as int, n as int), class),
        decreases n - lo,
    {
        proof {
            let cur = s@.subrange(lo as int, n as int);
            assert(cur.drop_first() =~= s@.subrange(lo + 1, n as int));
        }
        lo = lo + 1;
    }
    assert(trim_start(s@, class) == s@.subrange(lo as int, n as int));
    let mut hi: usize = n;
    while lo < hi && class.has(s[hi - 1])
        invariant
            lo <= hi <= n,
            n == s@.len(),
            trim(s@, class) == trim_end(s@.subrange(lo as int, hi as int), class),
        decreases hi - lo,
    {
        proof {
            let cur = s@.subrange(lo as int, hi as int);
            assert(cur.drop_last() =~= s@.subrange(lo as int, hi - 1));
        }
        hi = hi - 1;
    }
    (lo, hi)
}

} // verus!
