//! Random probe payloads and the line-oriented catalogs of payloads and error signatures.

use vstd::prelude::*;

use crate::text::ascii_lower;
use crate::text::chars_of;
use crate::text::char_is_whitespace;
use crate::text::contains;
use crate::text::find_char;
use crate::text::first_index;
use crate::text::is_ascii_text;
use crate::text::is_substring;
use crate::text::is_whitespace;
use crate::text::lemma_trim_start_window;
use crate::text::lowercase;
use crate::text::slice_text;
use crate::text::to_lowercase;
use crate::text::trim_start;

verus! {

/// Whether `c` is an ASCII letter or digit.
pub open spec fn is_ascii_alphanumeric(c: char) -> bool {
    let n = c as u32;
    ||| 0x30 <= n <= 0x39
    ||| 0x41 <= n <= 0x5A
    ||| 0x61 <= n <= 0x7A
}

/// Whether `s` is made of ASCII letters and digits alone.
pub open spec fn is_alphanumeric_text(s: Seq<char>) -> bool {
    forall|i: int| 0 <= i < s.len() ==> is_ascii_alphanumeric(#[trigger] s[i])
}

/// `length` characters sampled from `rand::distributions::Alphanumeric` with the
/// thread's generator. Trusted: the result has `length` characters, each an ASCII
/// letter or digit; which ones is left open.
#[verifier::external_body]
pub fn random_string(length: usize) -> (s: String)
    ensures
        s@.len() == length,
        is_alphanumeric_text(s@),
{
    rand::Rng::sample_iter(rand::thread_rng(), &rand::distributions::Alphanumeric).take(
        length,
    ).map(char::from).collect()
}

/// A number sampled from `rand::distributions::Uniform` over `min..max` with the
/// thread's generator. Trusted: the result lies in the range; the range must not be
/// empty, for the sampler refuses an empty one.
#[verifier::external_body]
pub fn random_number(min: usize, max: usize) -> (n: usize)
    requires
        min < max,
    ensures
        min <= n < max,
{
    let mut rng = rand::thread_rng();
    rand::distributions::Distribution::sample(&rand::distributions::Uniform::from(min..max), &mut rng)
}

/// A random text of letters and digits whose length lies in `min..max`.
pub fn random_length_string(min: usize, max: usize) -> (s: String)
    requires
        min < max,
    ensures
        min <= s@.len() < max,
        is_alphanumeric_text(s@),
{
    let length = random_number(min, max);
    random_string(length)
}

/// `line` without the carriage return at its end, if it has one.
pub open spec fn strip_cr(line: Seq<char>) -> Seq<char> {
    if line.len() > 0 && line.last() == '\r' {
        line.drop_last()
    } else {
        line
    }
}

/// The lines of a text. A line ends at a line feed, and a carriage return directly
/// before that line feed belongs to the line ending too; the last line needs no line
/// ending, and a text that ends with one has no empty line after it.
pub open spec fn lines(text: Seq<char>) -> Seq<Seq<char>>
    decreases text.len(),
{
    if text.len() == 0 {
        Seq::empty()
    } else {
        let end = first_index(text, '\n');
        if 0 <= end < text.len() {
            seq![strip_cr(text.subrange(0, end))] + lines(
                text.subrange(end + 1, text.len() as int),
            )
        } else {
            seq![text]
        }
    }
}

/// Whether a line is an entry of a catalog: its first character that is no white space
/// exists and is not `#`. Blank lines and comment lines are no entries.
pub open spec fn is_entry(line: Seq<char>) -> bool {
    let body = trim_start(line);
    body.len() > 0 && body[0] != '#'
}

/// The test for entries, as a predicate on lines.
pub open spec fn entry_test() -> spec_fn(Seq<char>) -> bool {
    |line: Seq<char>| is_entry(line)
}

/// The entries among `lines`, in order.
pub open spec fn entries(lines: Seq<Seq<char>>) -> Seq<Seq<char>> {
    lines.filter(entry_test())
}

/// The entries of a catalog text: its lines that are neither blank nor comments, in
/// order and untrimmed.
pub open spec fn catalog(text: Seq<char>) -> Seq<Seq<char>> {
    entries(lines(text))
}

/// The test for signatures that do not occur in `body`.
pub open spec fn absence_test(body: Seq<char>) -> spec_fn(Seq<char>) -> bool {
    |signature: Seq<char>| !is_substring(body, signature)
}

/// The signatures that do not occur in `body`, in order.
pub open spec fn absent_from(signatures: Seq<Seq<char>>, body: Seq<char>) -> Seq<Seq<char>> {
    signatures.filter(absence_test(body))
}

/// The entries of a line followed by more lines.
proof fn lemma_entries_cons(line: Seq<char>, rest: Seq<Seq<char>>)
    ensures
        entries(seq![line] + rest) == (if is_entry(line) {
            seq![line]
        } else {
            Seq::empty()
        }) + entries(rest),
{
    let pred = entry_test();
    let none = Seq::<Seq<char>>::empty();
    let one = seq![line];
    Seq::filter_distributes_over_add(one, rest, pred);
    assert(none.filter(pred) =~= none) by {
        reveal(Seq::filter);
    }
    none.lemma_filter_push(line, pred);
    assert(none.push(line) =~= one);
}

/// Index of the first character of `chars[lo..hi]` that is no white space, or `hi`.
fn skip_whitespace(chars: &Vec<char>, lo: usize, hi: usize) -> (at: usize)
    requires
        lo <= hi <= chars.len(),
    ensures
        lo <= at <= hi,
        trim_start(chars@.subrange(lo as int, hi as int)) == chars@.subrange(at as int, hi as int),
{
    let mut at: usize = lo;
    while at < hi && char_is_whitespace(chars[at])
        invariant
            lo <= at <= hi <= chars.len(),
            forall|i: int| lo <= i < at ==> is_whitespace(#[trigger] chars@[i]),
        decreases hi - at,
    {
        at += 1;
    }
    proof {
        lemma_trim_start_window(chars@, lo as int, at as int, hi as int);
    }
    at
}

/// Reads a catalog: the lines of `file_content` that are neither blank nor comments.
pub fn load_payloads(file_content: &str) -> (payloads: Vec<String>)
    ensures
        payloads.deep_view() == catalog(file_content@),
{
    let chars = chars_of(file_content);
    let n = chars.len();
    let ghost text = file_content@;
    let mut payloads: Vec<String> = Vec::new();
    let mut start: usize = 0;
    assert(text.subrange(0, n as int) =~= text);
    assert(payloads.deep_view() =~= Seq::<Seq<char>>::empty());
    while start < n
        invariant
            start <= n,
            n == chars.len(),
            chars@ == text,
            text == file_content@,
            catalog(text) == payloads.deep_view() + catalog(text.subrange(start as int, n as int)),
        decreases n - start,
    {
        let ghost rest = text.subrange(start as int, n as int);
        let ghost before = payloads.deep_view();
        let end = find_char(&chars, start, n, '\n');
        let stop: usize = if end < n && end > start && chars[end - 1] == '\r' {
            end - 1
        } else {
            end
        };
        let next: usize = if end < n {
            end + 1
        } else {
            n
        };
        let ghost line = text.subrange(start as int, stop as int);
        let ghost tail = text.subrange(next as int, n as int);
        proof {
            if end < n {
                let raw = rest.subrange(0, end - start);
                assert(raw =~= text.subrange(start as int, end as int));
                assert(strip_cr(raw) =~= line);
                assert(rest.subrange(end - start + 1, rest.len() as int) =~= tail);
                assert(lines(rest) == seq![line] + lines(tail));
            } else {
                assert(line =~= rest);
                assert(lines(tail) =~= Seq::<Seq<char>>::empty());
                assert(lines(rest) =~= seq![line] + lines(tail));
            }
            lemma_entries_cons(line, lines(tail));
        }
        let at = skip_whitespace(&chars, start, stop);
        if at < stop && chars[at] != '#' {
            assert(text.subrange(at as int, stop as int)[0] == chars@[at as int]);
            payloads.push(slice_text(file_content, start, stop));
            assert(payloads.deep_view() =~= before + seq![line]);
        } else {
            if at < stop {
                assert(text.subrange(at as int, stop as int)[0] == chars@[at as int]);
            }
        }
        assert(catalog(text) =~= payloads.deep_view() + catalog(tail));
        start = next;
    }
    proof {
        let none = Seq::<Seq<char>>::empty();
        assert(lines(text.subrange(n as int, n as int)) =~= none);
        assert(none.filter(entry_test()) =~= none) by {
            reveal(Seq::filter);
        }
    }
    payloads
}

/// Keeps the signatures that do not occur in a body that is already in lower case.
pub fn retain_absent(signatures: Vec<String>, lower_body: &str) -> (kept: Vec<String>)
    ensures
        kept.deep_view() == absent_from(signatures.deep_view(), lower_body@),
{
    let ghost all = signatures.deep_view();
    let ghost pred = absence_test(lower_body@);
    let mut kept: Vec<String> = Vec::new();
    let mut i: usize = 0;
    proof {
        let none = Seq::<Seq<char>>::empty();
        assert(all.take(0) =~= none);
        assert(kept.deep_view() =~= none);
        assert(none.filter(pred) =~= none) by {
            reveal(Seq::filter);
        }
    }
    while i < signatures.len()
        invariant
            i <= signatures.len(),
            all == signatures.deep_view(),
            kept.deep_view() == absent_from(all.take(i as int), lower_body@),
        decreases signatures.len() - i,
    {
        let ghost before = kept.deep_view();
        proof {
            let next = all.take(i + 1);
            assert(next =~= all.take(i as int).push(all[i as int]));
            assert(all[i as int] == signatures@[i as int]@);
            all.take(i as int).lemma_filter_push(all[i as int], absence_test(lower_body@));
        }
        if !contains(lower_body, signatures[i].as_str()) {
            kept.push(signatures[i].clone());
            assert(kept.deep_view() =~= before.push(signatures@[i as int]@));
        }
        i += 1;
    }
    assert(all.take(i as int) =~= all);
    kept
}

/// Filters the signatures against a vanilla response: the body is put in lower case,
/// and every signature that occurs in it is dropped.
pub fn filter_signatures(signatures: Vec<String>, vanilla_body: &str) -> (kept: Vec<String>)
    ensures
        kept.deep_view() == absent_from(signatures.deep_view(), lowercase(vanilla_body@)),
        is_ascii_text(vanilla_body@) ==> lowercase(vanilla_body@) == ascii_lower(vanilla_body@),
{
    let lower = to_lowercase(vanilla_body);
    retain_absent(signatures, lower.as_str())
}

/// Reads the catalog of error signatures, filtered against the body of a vanilla
/// response where there is one.
pub fn load_detected_errors(file_content: &str, vanilla_body: Option<&str>) -> (signatures: Vec<
    String,
>)
    ensures
        signatures.deep_view() == (match vanilla_body {
            Some(body) => absent_from(catalog(file_content@), lowercase(body@)),
            None => catalog(file_content@),
        }),
        vanilla_body matches Some(body) ==> (is_ascii_text(body@) ==> lowercase(body@)
            == ascii_lower(body@)),
{
    let signatures = load_payloads(file_content);
    match vanilla_body {
        Some(body) => filter_signatures(signatures, body),
        None => signatures,
    }
}

} // verus!
