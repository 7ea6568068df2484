//! Offset reconciliation: trimming the width that whitespace symbols
//! contribute from reported token spans.
//!
//! Each token's leading and trailing runs of whitespace-like symbols are
//! measured, and its offsets advance and retract by those run lengths, with
//! every move clamped so that the start never passes the end and the end
//! never falls below the start. The very first token keeps one single
//! leading space when prefix-space injection put it there.

use vstd::prelude::*;
use crate::alphabet::byte_to_symbol;
use crate::alphabet::symbol_of;
use crate::text::chars_vec;
use crate::text::is_unicode_whitespace;
use crate::text::is_whitespace_char;

verus! {

/// A record of produced tokens with their byte-offset spans, an optional
/// sequence index, and the secondary records that overflowed out of it and
/// need the same offset treatment.
pub struct Encoding {
    /// The produced token texts.
    pub tokens: Vec<String>,
    /// One (start, end) offset pair per token.
    pub offsets: Vec<(usize, usize)>,
    /// Which input sequence the record belongs to, once assigned.
    pub sequence_id: Option<usize>,
    /// Secondary records carrying the tokens that did not fit.
    pub overflowing: Vec<Encoding>,
}

impl Encoding {
    /// The record is well formed: one offset pair per token.
    pub open spec fn wf(&self) -> bool {
        self.tokens@.len() == self.offsets@.len()
    }

    /// The record and every record that overflowed out of it are well
    /// formed.
    pub open spec fn wf_deep(&self) -> bool {
        &&& self.wf()
        &&& forall|i: int|
            0 <= i < self.overflowing@.len() ==> (#[trigger] self.overflowing@[i]).wf()
    }

    /// Builds a record from token texts and their offset pairs.
    pub fn new(tokens: Vec<String>, offsets: Vec<(usize, usize)>) -> (r: Encoding)
        requires
            tokens@.len() == offsets@.len(),
        ensures
            r.wf(),
            r.tokens == tokens,
            r.offsets == offsets,
            r.sequence_id is None,
            r.overflowing@.len() == 0,
    {
        Encoding { tokens, offsets, sequence_id: None, overflowing: Vec::new() }
    }
}

/// A character whose width is trimmed from spans: the symbol standing for
/// the space byte, or any ordinary whitespace character that passed through
/// unmapped.
pub open spec fn is_trimmable(c: char) -> bool {
    c == symbol_of(0x20) || is_unicode_whitespace(c)
}

/// Whether a character counts toward leading or trailing trim runs.
pub fn is_trimmable_char(c: char) -> (r: bool)
    ensures
        r == is_trimmable(c),
{
    c == byte_to_symbol(0x20) || is_whitespace_char(c)
}

/// Length of the leading run of trimmable characters.
pub open spec fn leading_ws(t: Seq<char>) -> nat
    decreases t.len(),
{
    if t.len() == 0 || !is_trimmable(t[0]) {
        0
    } else {
        1 + leading_ws(t.drop_first())
    }
}

/// Length of the trailing run of trimmable characters.
pub open spec fn trailing_ws(t: Seq<char>) -> nat
    decreases t.len(),
{
    if t.len() == 0 || !is_trimmable(t.last()) {
        0
    } else {
        1 + trailing_ws(t.drop_last())
    }
}

/// The leading run is exactly the count found by scanning from the front.
pub proof fn lemma_leading_ws_count(t: Seq<char>, k: int)
    requires
        0 <= k <= t.len(),
        forall|m: int| 0 <= m < k ==> is_trimmable(#[trigger] t[m]),
        k < t.len() ==> !is_trimmable(t[k]),
    ensures
        leading_ws(t) == k,
    decreases t.len(),
{
    if k == 0 {
    } else {
        let rest = t.drop_first();
        assert(forall|m: int| 0 <= m < k - 1 ==> is_trimmable(#[trigger] rest[m]));
        lemma_leading_ws_count(rest, k - 1);
    }
}

/// The trailing run is exactly the count found by scanning from the back.
pub proof fn lemma_trailing_ws_count(t: Seq<char>, k: int)
    requires
        0 <= k <= t.len(),
        forall|m: int| t.len() - k <= m < t.len() ==> is_trimmable(#[trigger] t[m]),
        k < t.len() ==> !is_trimmable(t[t.len() - k - 1]),
    ensures
        trailing_ws(t) == k,
    decreases t.len(),
{
    if k == 0 {
    } else {
        let rest = t.drop_last();
        assert(forall|m: int| rest.len() - (k - 1) <= m < rest.len() ==> is_trimmable(
            #[trigger] rest[m],
        ));
        lemma_trailing_ws_count(rest, k - 1);
    }
}

/// The reconciled offsets of one token: the leading run advances the start
/// (unless it is the single injected space of the logically first token) and
/// the trailing run retracts the end, both clamped into the span. `idx` is
/// the token's position in its record.
pub open spec fn spec_trim_offsets(
    t: Seq<char>,
    start: usize,
    end: usize,
    idx: int,
    add_prefix_space: bool,
) -> (int, int) {
    let lead0 = leading_ws(t) as int;
    let trail = trailing_ws(t) as int;
    let lead = if (idx == 0 || start == 0) && add_prefix_space && lead0 == 1 {
        0
    } else {
        lead0
    };
    let new_start = if lead0 > 0 {
        if start + lead <= end {
            start + lead
        } else {
            end as int
        }
    } else {
        start as int
    };
    let new_end = if trail > 0 && end >= trail {
        if end - trail >= new_start {
            end - trail
        } else {
            new_start
        }
    } else {
        end as int
    };
    (new_start, new_end)
}

/// All offset pairs of a record after reconciliation, in order.
pub open spec fn trimmed_offsets(
    tokens: Seq<String>,
    offsets: Seq<(usize, usize)>,
    add_prefix_space: bool,
) -> Seq<(usize, usize)> {
    Seq::new(
        offsets.len(),
        |i: int|
            {
                let p = spec_trim_offsets(
                    tokens[i]@,
                    offsets[i].0,
                    offsets[i].1,
                    i,
                    add_prefix_space,
                );
                ((p.0 as usize), (p.1 as usize))
            },
    )
}

/// Counts the leading trimmable run of a token's characters.
fn count_leading(cs: &Vec<char>) -> (r: usize)
    ensures
        r == leading_ws(cs@),
{
    let n = cs.len();
    let mut j: usize = 0;
    while j < n && is_trimmable_char(cs[j])
        invariant
            n == cs@.len(),
            j <= n,
            forall|m: int| 0 <= m < j ==> is_trimmable(#[trigger] cs@[m]),
        decreases n - j,
    {
        j = j + 1;
    }
    proof {
        lemma_leading_ws_count(cs@, j as int);
    }
    j
}

/// Counts the trailing trimmable run of a token's characters.
fn count_trailing(cs: &Vec<char>) -> (r: usize)
    ensures
        r == trailing_ws(cs@),
{
    let n = cs.len();
    let mut k: usize = 0;
    while k < n && is_trimmable_char(cs[n - 1 - k])
        invariant
            n == cs@.len(),
            k <= n,
            forall|m: int| n - k <= m < n ==> is_trimmable(#[trigger] cs@[m]),
        decreases n - k,
    {
        k = k + 1;
    }
    proof {
        lemma_trailing_ws_count(cs@, k as int);
    }
    k
}

/// Reconciles every token span of one record: strips the width contributed
/// by whitespace symbols from reported offsets, without removing the one
/// intentionally injected leading space from the logically first token.
/// Never fails: all moves are clamped, and nothing but the offsets changes.
pub fn process_utf16_offsets(encoding: &mut Encoding, add_prefix_space: bool)
    requires
        old(encoding).wf(),
    ensures
        final(encoding).wf(),
        final(encoding).tokens == old(encoding).tokens,
        final(encoding).sequence_id == old(encoding).sequence_id,
        final(encoding).overflowing == old(encoding).overflowing,
        final(encoding).offsets@.len() == old(encoding).offsets@.len(),
        forall|i: int|
            0 <= i < old(encoding).offsets@.len() ==> ({
                let p = spec_trim_offsets(
                    old(encoding).tokens@[i]@,
                    old(encoding).offsets@[i].0,
                    old(encoding).offsets@[i].1,
                    i,
                    add_prefix_space,
                );
                (#[trigger] final(encoding).offsets@[i]).0 == p.0
                    && final(encoding).offsets@[i].1 == p.1
            }),
{
    let n = encoding.tokens.len();
    let mut i: usize = 0;
    while i < n
        invariant
            encoding.wf(),
            n == encoding.tokens@.len(),
            i <= n,
            encoding.tokens == old(encoding).tokens,
            encoding.sequence_id == old(encoding).sequence_id,
            encoding.overflowing == old(encoding).overflowing,
            encoding.offsets@.len() == old(encoding).offsets@.len(),
            forall|k: int|
                i <= k < n ==> #[trigger] encoding.offsets@[k] == old(encoding).offsets@[k],
            forall|k: int|
                0 <= k < i ==> ({
                    let p = spec_trim_offsets(
                        old(encoding).tokens@[k]@,
                        old(encoding).offsets@[k].0,
                        old(encoding).offsets@[k].1,
                        k,
                        add_prefix_space,
                    );
                    (#[trigger] encoding.offsets@[k]).0 == p.0 && encoding.offsets@[k].1 == p.1
                }),
        decreases n - i,
    {
        let cs = chars_vec(encoding.tokens[i].as_str());
        let lead0 = count_leading(&cs);
        let trail = count_trailing(&cs);
        let (s0, e0) = encoding.offsets[i];
        let lead = if (i == 0 || s0 == 0) && add_prefix_space && lead0 == 1 {
            0
        } else {
            lead0
        };
        let mut ns = s0;
        let mut ne = e0;
        if lead0 > 0 {
            ns = if s0 <= e0 && lead <= e0 - s0 {
                s0 + lead
            } else {
                e0
            };
        }
        if trail > 0 && e0 >= trail {
            ne = if e0 - trail >= ns {
                e0 - trail
            } else {
                ns
            };
        }
        encoding.offsets[i] = (ns, ne);
        i = i + 1;
    }
}

/// First-token prefix exemption: with prefix-space injection on, a
/// logically first token whose leading run is exactly one space keeps its
/// start untouched; with a longer leading run nothing is exempted and the
/// start advances by the whole run, clamped to the end.
pub proof fn lemma_first_token_exemption(
    t: Seq<char>,
    start: usize,
    end: usize,
    idx: int,
)
    requires
        idx == 0 || start == 0,
        start <= end,
    ensures
        leading_ws(t) == 1 ==> spec_trim_offsets(t, start, end, idx, true).0 == start,
        leading_ws(t) >= 2 ==> spec_trim_offsets(t, start, end, idx, true).0 == (if start
            + leading_ws(t) <= end {
            start + leading_ws(t)
        } else {
            end as int
        }),
{
}

/// For a token made entirely of whitespace symbols, and a span no wider
/// than the token, reconciliation collapses the span to zero width between
/// the original start and end, and reconciling the already-reconciled span
/// again changes nothing.
pub proof fn lemma_trim_whitespace_token(
    t: Seq<char>,
    start: usize,
    end: usize,
    idx: int,
    add_prefix_space: bool,
)
    requires
        t.len() > 0,
        forall|i: int| 0 <= i < t.len() ==> is_trimmable(#[trigger] t[i]),
        start <= end,
        end - start <= t.len(),
    ensures
        ({
            let p = spec_trim_offsets(t, start, end, idx, add_prefix_space);
            &&& p.0 == p.1
            &&& start <= p.0 <= end
            &&& spec_trim_offsets(t, p.0 as usize, p.1 as usize, idx, add_prefix_space) == p
        }),
{
    lemma_leading_ws_count(t, t.len() as int);
    lemma_trailing_ws_count(t, t.len() as int);
}

} // verus!
