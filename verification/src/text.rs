//! Character-level views of strings and the text predicates the engine relies on.

use vstd::prelude::*;
use vstd::std_specs::iter::IteratorSpec;
use vstd::string::StringExecFns;
use vstd::string::StrSliceExecFns;

verus! {

/// Unicode white space: the code points with the `White_Space` property.
pub open spec fn is_whitespace(c: char) -> bool {
    let n = c as u32;
    ||| 0x09 <= n <= 0x0D
    ||| n == 0x20
    ||| n == 0x85
    ||| n == 0xA0
    ||| n == 0x1680
    ||| 0x2000 <= n <= 0x200A
    ||| n == 0x2028
    ||| n == 0x2029
    ||| n == 0x202F
    ||| n == 0x205F
    ||| n == 0x3000
}

/// `s` without its leading white space.
pub open spec fn trim_start(s: Seq<char>) -> Seq<char>
    decreases s.len(),
{
    if s.len() > 0 && is_whitespace(s[0]) {
        trim_start(s.drop_first())
    } else {
        s
    }
}

/// `s` without its trailing white space.
pub open spec fn trim_end(s: Seq<char>) -> Seq<char>
    decreases s.len(),
{
    if s.len() > 0 && is_whitespace(s.last()) {
        trim_end(s.drop_last())
    } else {
        s
    }
}

/// `s` without leading and trailing white space.
pub open spec fn trim(s: Seq<char>) -> Seq<char> {
    trim_end(trim_start(s))
}

/// Whether `needle` occurs in `hay` starting at index `at`.
pub open spec fn occurs_at(hay: Seq<char>, needle: Seq<char>, at: int) -> bool {
    &&& 0 <= at
    &&& at + needle.len() <= hay.len()
    &&& hay.subrange(at, at + needle.len()) == needle
}

/// Whether `needle` occurs somewhere in `hay`. The empty text occurs in every text.
pub open spec fn is_substring(hay: Seq<char>, needle: Seq<char>) -> bool {
    exists|at: int| occurs_at(hay, needle, at)
}

/// Index of the first occurrence of `c` in `s`; the length of `s` where `c` does not
/// occur.
pub open spec fn first_index(s: Seq<char>, c: char) -> int
    decreases s.len(),
{
    if s.len() == 0 || s[0] == c {
        0
    } else {
        1 + first_index(s.drop_first(), c)
    }
}

/// Index of the first place in `s` where `a` is directly followed by `b`; the length of
/// `s` where there is no such place.
pub open spec fn first_pair_index(s: Seq<char>, a: char, b: char) -> int
    decreases s.len(),
{
    if s.len() < 2 {
        s.len() as int
    } else if s[0] == a && s[1] == b {
        0
    } else {
        1 + first_pair_index(s.drop_first(), a, b)
    }
}

/// Number of bytes that the UTF-8 encoding of `s` takes.
pub open spec fn byte_len(s: Seq<char>) -> nat {
    vstd::utf8::encode_utf8(s).len()
}

/// Whether every character of `s` is an ASCII character.
pub open spec fn is_ascii_text(s: Seq<char>) -> bool {
    forall|i: int| 0 <= i < s.len() ==> (#[trigger] s[i]) as u32 <= 0x7F
}

/// `c` with an ASCII capital letter replaced by its small letter.
pub open spec fn ascii_lower_char(c: char) -> char {
    if 0x41 <= c as u32 <= 0x5A {
        ((c as u32 + 0x20) as u32) as char
    } else {
        c
    }
}

/// `s` with every ASCII capital letter replaced by its small letter.
pub open spec fn ascii_lower(s: Seq<char>) -> Seq<char> {
    Seq::new(s.len(), |i: int| ascii_lower_char(s[i]))
}

/// `c` with an ASCII small letter replaced by its capital letter.
pub open spec fn ascii_upper_char(c: char) -> char {
    if 0x61 <= c as u32 <= 0x7A {
        ((c as u32 - 0x20) as u32) as char
    } else {
        c
    }
}

/// `s` with every ASCII small letter replaced by its capital letter.
pub open spec fn ascii_upper(s: Seq<char>) -> Seq<char> {
    Seq::new(s.len(), |i: int| ascii_upper_char(s[i]))
}

/// The lower-case form of a text, as `str::to_lowercase` of the standard library
/// computes it (the Unicode lower-case mapping, which no short formula states).
pub uninterp spec fn lowercase(s: Seq<char>) -> Seq<char>;

/// The upper-case form of a text, as `str::to_uppercase` of the standard library
/// computes it.
pub uninterp spec fn uppercase(s: Seq<char>) -> Seq<char>;

/// `str::to_lowercase`. Trusted: the result is the lower-case form of the argument, a
/// function of the argument's characters alone; in a text of ASCII characters it is the
/// text with its capital letters replaced by small ones.
#[verifier::external_body]
pub(crate) fn to_lowercase(s: &str) -> (lower: String)
    ensures
        lower@ == lowercase(s@),
        is_ascii_text(s@) ==> lower@ == ascii_lower(s@),
{
    s.to_lowercase()
}

/// `str::to_uppercase`. Trusted: the result is the upper-case form of the argument, a
/// function of the argument's characters alone; in a text of ASCII characters it is the
/// text with its small letters replaced by capital ones.
#[verifier::external_body]
pub(crate) fn to_uppercase(s: &str) -> (upper: String)
    ensures
        upper@ == uppercase(s@),
        is_ascii_text(s@) ==> upper@ == ascii_upper(s@),
{
    s.to_uppercase()
}

/// `str::contains` with a string pattern. Trusted: the result says whether the pattern
/// occurs as a run of consecutive characters of `hay`.
#[verifier::external_body]
pub(crate) fn contains(hay: &str, needle: &str) -> (found: bool)
    ensures
        found == is_substring(hay@, needle@),
{
    hay.contains(needle)
}

/// The characters of `s`, in order.
pub fn chars_of(s: &str) -> (chars: Vec<char>)
    ensures
        chars@ == s@,
{
    let mut chars: Vec<char> = Vec::new();
    let it0 = s.chars();
    for c in it: it0
        invariant
            it.seq() == s@,
            chars@ == s@.subrange(0, it.index() as int),
    {
        chars.push(c);
    }
    chars
}

/// The characters of `s` from index `from` up to, not including, `to`, as an owned string.
pub fn slice_text(s: &str, from: usize, to: usize) -> (piece: String)
    requires
        from <= to <= s@.len(),
    ensures
        piece@ == s@.subrange(from as int, to as int),
{
    String::from_str(s.substring_char(from, to))
}

/// Tests a character for Unicode white space.
pub fn char_is_whitespace(c: char) -> (b: bool)
    ensures
        b == is_whitespace(c),
{
    let n: u32 = c as u32;
    (0x09 <= n && n <= 0x0D) || n == 0x20 || n == 0x85 || n == 0xA0 || n == 0x1680 || (0x2000 <= n
        && n <= 0x200A) || n == 0x2028 || n == 0x2029 || n == 0x202F || n == 0x205F || n == 0x3000
}

/// Trimming the start of a window: what is left of `s` between `lo` and `hi` once the
/// leading white space is taken away starts at the first index from `lo` on that holds
/// no white space.
pub(crate) proof fn lemma_trim_start_window(s: Seq<char>, lo: int, a: int, hi: int)
    requires
        0 <= lo <= a <= hi <= s.len(),
        forall|i: int| lo <= i < a ==> is_whitespace(#[trigger] s[i]),
        a == hi || !is_whitespace(s[a]),
    ensures
        trim_start(s.subrange(lo, hi)) == s.subrange(a, hi),
    decreases a - lo,
{
    let w = s.subrange(lo, hi);
    if lo == a {
        if a < hi {
            assert(w[0] == s[a]);
        }
    } else {
        assert(w[0] == s[lo]);
        assert(w.drop_first() =~= s.subrange(lo + 1, hi));
        lemma_trim_start_window(s, lo + 1, a, hi);
    }
}

/// Trimming the end of a window: what is left of `s` between `lo` and `hi` once the
/// trailing white space is taken away ends after the last index before `hi` that holds
/// no white space.
proof fn lemma_trim_end_window(s: Seq<char>, lo: int, b: int, hi: int)
    requires
        0 <= lo <= b <= hi <= s.len(),
        forall|i: int| b <= i < hi ==> is_whitespace(#[trigger] s[i]),
        b == lo || !is_whitespace(s[b - 1]),
    ensures
        trim_end(s.subrange(lo, hi)) == s.subrange(lo, b),
    decreases hi - b,
{
    let w = s.subrange(lo, hi);
    if b == hi {
        if lo < b {
            assert(w.last() == s[b - 1]);
        }
    } else {
        assert(w.last() == s[hi - 1]);
        assert(w.drop_last() =~= s.subrange(lo, hi - 1));
        lemma_trim_end_window(s, lo, b, hi - 1);
    }
}

/// Bounds of the trimmed window: the pair `(a, b)` with
/// `trim(chars[lo..hi]) == chars[a..b]`.
pub fn trim_bounds(chars: &Vec<char>, lo: usize, hi: usize) -> (bounds: (usize, usize))
    requires
        lo <= hi <= chars.len(),
    ensures
        lo <= bounds.0 <= bounds.1 <= hi,
        trim(chars@.subrange(lo as int, hi as int)) == chars@.subrange(
            bounds.0 as int,
            bounds.1 as int,
        ),
{
    let mut a: usize = lo;
    while a < hi && char_is_whitespace(chars[a])
        invariant
            lo <= a <= hi <= chars.len(),
            forall|i: int| lo <= i < a ==> is_whitespace(#[trigger] chars@[i]),
        decreases hi - a,
    {
        a += 1;
    }
    let mut b: usize = hi;
    while b > a && char_is_whitespace(chars[b - 1])
        invariant
            a <= b <= hi <= chars.len(),
            forall|i: int| b <= i < hi ==> is_whitespace(#[trigger] chars@[i]),
        decreases b - a,
    {
        b -= 1;
    }
    proof {
        lemma_trim_start_window(chars@, lo as int, a as int, hi as int);
        lemma_trim_end_window(chars@, a as int, b as int, hi as int);
    }
    (a, b)
}

/// Number of bytes of `s`.
pub fn byte_length(s: &str) -> (n: usize)
    ensures
        n == byte_len(s@),
{
    s.as_bytes().len()
}

/// Whether two strings hold the same characters.
pub fn same_text(a: &str, b: &str) -> (same: bool)
    ensures
        same == (a@ == b@),
{
    let x = chars_of(a);
    let y = chars_of(b);
    if x.len() != y.len() {
        return false;
    }
    let mut i: usize = 0;
    while i < x.len()
        invariant
            i <= x.len(),
            x.len() == y.len(),
            x@ == a@,
            y@ == b@,
            forall|k: int| 0 <= k < i ==> x@[k] == y@[k],
        decreases x.len() - i,
    {
        if x[i] != y[i] {
            return false;
        }
        i += 1;
    }
    assert(x@ =~= y@);
    true
}

/// Locating a character in a window: where no index from `lo` up to `at` holds `c`, and
/// `at` holds it or is the end of the window, `at` is the first index of `c` in the window.
proof fn lemma_first_index_window(s: Seq<char>, lo: int, at: int, hi: int, c: char)
    requires
        0 <= lo <= at <= hi <= s.len(),
        forall|i: int| lo <= i < at ==> #[trigger] s[i] != c,
        at == hi || s[at] == c,
    ensures
        first_index(s.subrange(lo, hi), c) == at - lo,
    decreases at - lo,
{
    let w = s.subrange(lo, hi);
    if lo == at {
        if at < hi {
            assert(w[0] == s[at]);
        }
    } else {
        assert(w[0] == s[lo]);
        assert(w.drop_first() =~= s.subrange(lo + 1, hi));
        lemma_first_index_window(s, lo + 1, at, hi, c);
    }
}

/// The first index, counted from `lo`, of `c` among `chars[lo..hi]`.
pub fn find_char(chars: &Vec<char>, lo: usize, hi: usize, c: char) -> (at: usize)
    requires
        lo <= hi <= chars.len(),
    ensures
        lo <= at <= hi,
        first_index(chars@.subrange(lo as int, hi as int), c) == at - lo,
{
    let mut at: usize = lo;
    while at < hi && chars[at] != c
        invariant
            lo <= at <= hi <= chars.len(),
            forall|i: int| lo <= i < at ==> #[trigger] chars@[i] != c,
        decreases hi - at,
    {
        at += 1;
    }
    proof {
        lemma_first_index_window(chars@, lo as int, at as int, hi as int, c);
    }
    at
}

/// Locating a pair of characters: where no index from `lo` up to `at` starts the pair
/// `a`, `b`, and `at` starts it or is the end of `s`, `at` is where the pair first occurs
/// in `s` from `lo` on.
proof fn lemma_first_pair_index_from(s: Seq<char>, lo: int, at: int, a: char, b: char)
    requires
        0 <= lo <= at <= s.len(),
        forall|i: int| lo <= i < at && i + 1 < s.len() ==> !(#[trigger] s[i] == a && s[i + 1] == b),
        at == s.len() || (at + 1 < s.len() && s[at] == a && s[at + 1] == b),
    ensures
        first_pair_index(s.subrange(lo, s.len() as int), a, b) == at - lo,
    decreases s.len() - lo,
{
    let w = s.subrange(lo, s.len() as int);
    if w.len() < 2 {
        if at < s.len() {
            assert(lo == at);
        }
    } else {
        assert(w[0] == s[lo]);
        assert(w[1] == s[lo + 1]);
        if lo == at {
        } else {
            assert(w.drop_first() =~= s.subrange(lo + 1, s.len() as int));
            lemma_first_pair_index_from(s, lo + 1, at, a, b);
        }
    }
}

/// Whether `a` stands at index `at` of `chars` and `b` directly after it.
fn pair_at(chars: &Vec<char>, at: usize, a: char, b: char) -> (found: bool)
    requires
        at < chars.len(),
    ensures
        found == (at + 1 < chars.len() && chars@[at as int] == a && chars@[at + 1] == b),
{
    at + 1 < chars.len() && chars[at] == a && chars[at + 1] == b
}

/// The index in `chars` where `a` is first directly followed by `b`; the length of
/// `chars` where that never happens.
pub fn find_pair(chars: &Vec<char>, a: char, b: char) -> (at: usize)
    ensures
        at <= chars.len(),
        first_pair_index(chars@, a, b) == at,
        at < chars.len() ==> at + 1 < chars.len() && chars@[at as int] == a && chars@[at + 1] == b,
{
    let n = chars.len();
    let mut at: usize = 0;
    while at < n && !pair_at(chars, at, a, b)
        invariant
            at <= n,
            n == chars.len(),
            forall|i: int|
                0 <= i < at && i + 1 < n ==> !(#[trigger] chars@[i] == a && chars@[i + 1] == b),
        decreases n - at,
    {
        at += 1;
    }
    proof {
        lemma_first_pair_index_from(chars@, 0, at as int, a, b);
        assert(chars@.subrange(0, n as int) =~= chars@);
    }
    at
}

} // verus!
