//! Whitespace-driven pre-tokenizers: spans are maximal runs of characters
//! of one class, and whitespace is dropped between them.
//!
//! `Whitespace` cuts a text into runs of word characters and runs of other
//! visible characters, as the boundary pattern `\w+|[^\w\s]+` does;
//! `WhitespaceSplit` only cuts at whitespace, keeping punctuation glued to
//! its word.

use vstd::prelude::*;
use crate::pre_tokenizers::Span;
use crate::text::chars_to_string;
use crate::text::chars_vec;
use crate::text::is_unicode_whitespace;
use crate::text::is_whitespace_char;

verus! {

/// What the word-character class `\w` of the `regex` crate matches: a
/// property of the character alone.
pub uninterp spec fn is_word_char(c: char) -> bool;

/// Relies on `regex::Regex::is_match` with the one-character pattern `\w`:
/// marks, for each character, whether it is a word character.
#[verifier::external_body]
fn word_flags(cs: &Vec<char>) -> (r: Vec<bool>)
    ensures
        r@.len() == cs@.len(),
        forall|i: int| 0 <= i < cs@.len() ==> #[trigger] r@[i] == is_word_char(cs@[i]),
{
    let re = regex::Regex::new(r"\w").unwrap();
    let mut flags = Vec::with_capacity(cs.len());
    let mut buf = [0u8; 4];
    for c in cs.iter() {
        flags.push(re.is_match(c.encode_utf8(&mut buf)));
    }
    flags
}

/// The class a character falls in when the word pattern splits: 0 for
/// whitespace (dropped), 1 for word characters, 2 for everything else.
pub open spec fn word_class(c: char) -> int {
    if is_word_char(c) {
        1
    } else if is_unicode_whitespace(c) {
        0
    } else {
        2
    }
}

/// The class a character falls in when only whitespace splits: 0 for
/// whitespace (dropped), 1 for everything else.
pub open spec fn visible_class(c: char) -> int {
    if is_unicode_whitespace(c) {
        0
    } else {
        1
    }
}

/// One span of a run split: a nonempty uniform run of nonzero class that
/// cannot be extended on either side, carrying its own content.
pub open spec fn span_ok(s: Seq<char>, class: spec_fn(char) -> int, sp: Span) -> bool {
    &&& 0 <= sp.start < sp.end <= s.len()
    &&& class(s[sp.start as int]) != 0
    &&& (forall|p: int|
        sp.start <= p < sp.end ==> #[trigger] class(s[p]) == class(s[sp.start as int]))
    &&& (sp.start == 0 || class(s[sp.start - 1]) != class(s[sp.start as int]))
    &&& (sp.end == s.len() || class(s[sp.end as int]) != class(s[sp.start as int]))
    &&& sp.content@ == s.subrange(sp.start as int, sp.end as int)
}

/// The spans are exactly the maximal runs of equal nonzero class under
/// `class`: each span is a nonempty uniform run, cannot be extended on
/// either side, the spans stand in order, and every character of nonzero
/// class lies in one of them.
pub open spec fn is_run_split(s: Seq<char>, class: spec_fn(char) -> int, r: Seq<Span>) -> bool {
    &&& forall|k: int| 0 <= k < r.len() ==> span_ok(s, class, #[trigger] r[k])
    &&& forall|k: int| 0 < k < r.len() ==> (#[trigger] r[k]).start >= r[k - 1].end
    &&& forall|p: int|
        0 <= p < s.len() && #[trigger] class(s[p]) != 0 ==> exists|k: int|
            0 <= k < r.len() && (#[trigger] r[k]).start <= p < r[k].end
}

/// `span_ok` against the whole text, stated over the label of each
/// character instead of its class.
spec fn span_ok_labels(s: Seq<char>, labels: Seq<u8>, sp: Span) -> bool {
    &&& 0 <= sp.start < sp.end <= labels.len()
    &&& labels[sp.start as int] != 0
    &&& (forall|p: int| sp.start <= p < sp.end ==> #[trigger] labels[p] == labels[sp.start as int])
    &&& (sp.start == 0 || labels[sp.start - 1] != labels[sp.start as int])
    &&& (sp.end == labels.len() || labels[sp.end as int] != labels[sp.start as int])
    &&& sp.content@ == s.subrange(sp.start as int, sp.end as int)
}

/// `is_run_split`, stated over labels.
spec fn is_run_split_labels(s: Seq<char>, labels: Seq<u8>, r: Seq<Span>) -> bool {
    &&& forall|k: int| 0 <= k < r.len() ==> span_ok_labels(s, labels, #[trigger] r[k])
    &&& forall|k: int| 0 < k < r.len() ==> (#[trigger] r[k]).start >= r[k - 1].end
    &&& forall|p: int|
        0 <= p < s.len() && #[trigger] labels[p] != 0 ==> exists|k: int|
            0 <= k < r.len() && (#[trigger] r[k]).start <= p < r[k].end
}

/// A run split of the labels is a run split of any class function the
/// labels agree with.
proof fn lemma_run_split_classes(
    s: Seq<char>,
    labels: Seq<u8>,
    class: spec_fn(char) -> int,
    r: Seq<Span>,
)
    requires
        labels.len() == s.len(),
        forall|q: int| 0 <= q < s.len() ==> #[trigger] labels[q] as int == class(s[q]),
        is_run_split_labels(s, labels, r),
    ensures
        is_run_split(s, class, r),
{
    assert forall|k: int|
        0 <= k < r.len() implies span_ok(s, class, #[trigger] r[k]) by {
        assert(span_ok_labels(s, labels, r[k]));
        let sp = r[k];
        assert forall|p: int|
            sp.start <= p < sp.end implies #[trigger] class(s[p]) == class(
            s[sp.start as int],
        ) by {
            assert(labels[p] == labels[sp.start as int]);
        }
    }
    assert forall|p: int|
        0 <= p < s.len() && #[trigger] class(s[p]) != 0 implies exists|k: int|
        0 <= k < r.len() && (#[trigger] r[k]).start <= p < r[k].end by {
        assert(labels[p] != 0);
    }
}

/// The state the splitting loop maintains after handling the first `i`
/// characters: the spans found so far are maximal runs, stand in order,
/// end at or before `i`, and cover every kept character before `i`.
spec fn runs_inv(s: Seq<char>, labels: Seq<u8>, r: Seq<Span>, i: int) -> bool {
    &&& forall|k: int| 0 <= k < r.len() ==> span_ok_labels(s, labels, #[trigger] r[k])
    &&& forall|k: int| 0 <= k < r.len() ==> (#[trigger] r[k]).end <= i
    &&& forall|k: int| 0 < k < r.len() ==> (#[trigger] r[k]).start >= r[k - 1].end
    &&& forall|p: int|
        0 <= p < i && #[trigger] labels[p] != 0 ==> exists|k: int|
            0 <= k < r.len() && (#[trigger] r[k]).start <= p < r[k].end
}

/// Appending the maximal run that starts at `i` and ends at `j` moves the
/// state from `i` to `j`.
proof fn lemma_runs_push(s: Seq<char>, labels: Seq<u8>, r0: Seq<Span>, sp: Span, i: int, j: int)
    requires
        labels.len() == s.len(),
        0 <= i < j <= labels.len(),
        labels[i] != 0,
        forall|p: int| i <= p < j ==> #[trigger] labels[p] == labels[i],
        j < labels.len() ==> labels[j] != labels[i],
        sp.start == i,
        sp.end == j,
        sp.content@ == s.subrange(i, j),
        runs_inv(s, labels, r0, i),
    ensures
        runs_inv(s, labels, r0.push(sp), j),
{
    let r = r0.push(sp);
    let kn = r0.len() as int;
    assert(forall|k: int| 0 <= k < kn ==> #[trigger] r[k] == r0[k]);
    assert(r[kn] == sp);
    // the character before the run cannot carry the run's label: it is
    // either dropped, or its span ends exactly where the run starts and is
    // maximal to the right
    if i > 0 && labels[i - 1] == labels[i] {
        let k0 = choose|k0: int| 0 <= k0 < kn && (#[trigger] r0[k0]).start <= i - 1 < r0[k0].end;
        assert(span_ok_labels(s, labels, r0[k0]));
        assert(labels[i - 1] == labels[r0[k0].start as int]);
        assert(r0[k0].end == i);
        assert(labels[i] != labels[r0[k0].start as int]);
        assert(false);
    }
    assert(span_ok_labels(s, labels, sp));
    assert forall|p: int|
        0 <= p < j && #[trigger] labels[p] != 0 implies exists|k: int|
        0 <= k < r.len() && (#[trigger] r[k]).start <= p < r[k].end by {
        if p < i {
            let k0 = choose|k: int| 0 <= k < kn && (#[trigger] r0[k]).start <= p < r0[k].end;
            assert(r[k0].start <= p < r[k0].end);
        } else {
            assert(r[kn].start <= p < r[kn].end);
        }
    }
}

/// Cuts the characters into maximal runs of equal nonzero label, dropping
/// label-0 characters between them.
fn split_runs(cs: &Vec<char>, labels: &Vec<u8>) -> (r: Vec<Span>)
    requires
        labels@.len() == cs@.len(),
    ensures
        is_run_split_labels(cs@, labels@, r@),
{
    let n = cs.len();
    let mut r: Vec<Span> = Vec::new();
    let mut i: usize = 0;
    while i < n
        invariant
            n == cs@.len(),
            labels@.len() == n,
            i <= n,
            runs_inv(cs@, labels@, r@, i as int),
        decreases n - i,
    {
        if labels[i] == 0 {
            i = i + 1;
        } else {
            let start = i;
            let mut j = i + 1;
            while j < n && labels[j] == labels[i]
                invariant
                    n == cs@.len(),
                    labels@.len() == n,
                    i < j <= n,
                    forall|p: int| i <= p < j ==> #[trigger] labels@[p] == labels@[i as int],
                decreases n - j,
            {
                j = j + 1;
            }
            let mut sub: Vec<char> = Vec::new();
            let mut p = start;
            while p < j
                invariant
                    start <= p <= j <= cs@.len(),
                    sub@ == cs@.subrange(start as int, p as int),
                decreases j - p,
            {
                sub.push(cs[p]);
                proof {
                    assert(sub@ =~= cs@.subrange(start as int, p + 1));
                }
                p = p + 1;
            }
            let content = chars_to_string(&sub);
            let ghost r0 = r@;
            let sp = Span { content, start, end: j };
            proof {
                lemma_runs_push(cs@, labels@, r0, sp, i as int, j as int);
            }
            r.push(sp);
            i = j;
        }
    }
    r
}

/// Splits a text into word spans and spans of other visible characters,
/// dropping the whitespace between them.
#[derive(Clone, Copy, Debug, PartialEq, Eq, Structural)]
pub struct Whitespace;

impl Default for Whitespace {
    fn default() -> (r: Self)
        ensures
            r == Whitespace,
    {
        Whitespace
    }
}

impl Whitespace {
    /// Splits the text into the maximal runs of word characters and of
    /// other visible characters; whitespace separates spans and is kept in
    /// none of them.
    pub fn pre_tokenize(&self, text: &str) -> (r: Vec<Span>)
        ensures
            is_run_split(text@, |c: char| word_class(c), r@),
    {
        let cs = chars_vec(text);
        let flags = word_flags(&cs);
        let n = cs.len();
        let mut labels: Vec<u8> = Vec::new();
        for i in 0..n
            invariant
                n == cs@.len(),
                flags@.len() == n,
                forall|q: int| 0 <= q < n ==> #[trigger] flags@[q] == is_word_char(cs@[q]),
                labels@.len() == i,
                forall|q: int| 0 <= q < i ==> #[trigger] labels@[q] as int == word_class(cs@[q]),
        {
            let l: u8 = if flags[i] {
                1
            } else if is_whitespace_char(cs[i]) {
                0
            } else {
                2
            };
            labels.push(l);
        }
        let r = split_runs(&cs, &labels);
        proof {
            lemma_run_split_classes(cs@, labels@, |c: char| word_class(c), r@);
        }
        r
    }
}

/// Splits a text at whitespace only: every maximal run of non-whitespace
/// characters is one span.
#[derive(Clone, Copy, Debug, PartialEq, Eq, Structural)]
pub struct WhitespaceSplit;

impl Default for WhitespaceSplit {
    fn default() -> (r: Self)
        ensures
            r == WhitespaceSplit,
    {
        WhitespaceSplit
    }
}

impl WhitespaceSplit {
    /// Splits the text into the maximal runs of non-whitespace characters.
    pub fn pre_tokenize(&self, text: &str) -> (r: Vec<Span>)
        ensures
            is_run_split(text@, |c: char| visible_class(c), r@),
    {
        let cs = chars_vec(text);
        let n = cs.len();
        let mut labels: Vec<u8> = Vec::new();
        for i in 0..n
            invariant
                n == cs@.len(),
                labels@.len() == i,
                forall|q: int| 0 <= q < i ==> #[trigger] labels@[q] as int == visible_class(cs@[q]),
        {
            let l: u8 = if is_whitespace_char(cs[i]) {
                0
            } else {
                1
            };
            labels.push(l);
        }
        let r = split_runs(&cs, &labels);
        proof {
            lemma_run_split_classes(cs@, labels@, |c: char| visible_class(c), r@);
        }
        r
    }
}

} // verus!
