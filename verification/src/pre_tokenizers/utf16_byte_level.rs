//! The byte-level pre-tokenization stage over the fixed-width encoding.
//!
//! It injects a leading space when configured to, splits the prepared text
//! at the boundaries an external pattern splitter chose, rewrites every
//! span into its symbol string, trims offsets after the segmentation model
//! has run, and can also reassemble model output like the decoder stage.

use vstd::prelude::*;
use crate::alphabet::byte_to_symbol;
use crate::alphabet::lemma_symbol_injective;
use crate::alphabet::symbol_of;
use crate::codec::DecodeError;
use crate::offsets::Encoding;
use crate::offsets::process_utf16_offsets;
use crate::offsets::trimmed_offsets;
use crate::pre_tokenizers::Span;
use crate::symbols::spec_symbols_to_text;
use crate::symbols::symbols_of;
use crate::symbols::symbols_to_text;
use crate::symbols::text_to_symbols;
use crate::text::chars_to_string;
use crate::text::chars_vec;

verus! {

/// Configuration of the byte-level stage: whether to inject a leading space
/// on the first word, whether post-processing trims whitespace out of
/// reported offsets, and whether the boundary pattern is applied at all.
#[derive(Clone, Copy, Debug, PartialEq, Eq, Structural)]
pub struct UTF16ByteLevel {
    /// Whether to add a leading space to the first word, so that the leading
    /// word is treated like every other word.
    pub add_prefix_space: bool,
    /// Whether post-processing trims offsets to avoid including whitespace.
    pub trim_offsets: bool,
    /// Whether the boundary pattern is applied when pre-tokenizing; when
    /// off, the whole text is handled as one span.
    pub use_regex: bool,
}

impl Default for UTF16ByteLevel {
    /// All three behaviours are on by default.
    fn default() -> (r: Self)
        ensures
            r.add_prefix_space && r.trim_offsets && r.use_regex,
    {
        UTF16ByteLevel { add_prefix_space: true, trim_offsets: true, use_regex: true }
    }
}

/// The text the boundary splitter sees: one space is put in front when the
/// flag asks for it and the text does not already start with one.
pub open spec fn prepared_text(s: Seq<char>, add_prefix_space: bool) -> Seq<char> {
    if add_prefix_space && !(s.len() > 0 && s[0] == ' ') {
        seq![' '] + s
    } else {
        s
    }
}

/// Boundary cut points are usable when each lies strictly inside the text
/// and they come in strictly ascending order.
pub open spec fn cuts_ok(cuts: Seq<usize>, len: int) -> bool {
    &&& forall|i: int| 0 <= i < cuts.len() ==> 0 < #[trigger] cuts[i] < len
    &&& forall|i: int, j: int| 0 <= i < j < cuts.len() ==> cuts[i] < cuts[j]
}

/// First character offset of span `k` among the spans the cuts delimit.
pub open spec fn cut_lo(cuts: Seq<usize>, k: int) -> int {
    if k == 0 {
        0
    } else {
        cuts[k - 1] as int
    }
}

/// One-past-last character offset of span `k`.
pub open spec fn cut_hi(cuts: Seq<usize>, len: int, k: int) -> int {
    if k == cuts.len() {
        len
    } else {
        cuts[k] as int
    }
}

/// Ascending cut points inside the text leave fewer cuts than characters.
proof fn lemma_cut_minimum(cuts: Seq<usize>, len: int, i: int)
    requires
        cuts_ok(cuts, len),
        0 <= i < cuts.len(),
    ensures
        cuts[i] >= i + 1,
    decreases i,
{
    if i > 0 {
        lemma_cut_minimum(cuts, len, i - 1);
    }
}

/// Builds the prepared character sequence of a text.
fn prepare_chars(text: &str, add_prefix_space: bool) -> (r: Vec<char>)
    ensures
        r@ == prepared_text(text@, add_prefix_space),
{
    let mut cs = chars_vec(text);
    if add_prefix_space && (cs.len() == 0 || cs[0] != ' ') {
        let mut r: Vec<char> = Vec::new();
        r.push(' ');
        r.append(&mut cs);
        r
    } else {
        cs
    }
}

/// Reconciles the token spans of one record and of every record that
/// overflowed out of it; nothing else changes.
fn trim_record(e: &mut Encoding, add_prefix_space: bool)
    requires
        old(e).wf_deep(),
    ensures
        final(e).tokens == old(e).tokens,
        final(e).sequence_id == old(e).sequence_id,
        final(e).offsets@ == trimmed_offsets(old(e).tokens@, old(e).offsets@, add_prefix_space),
        final(e).overflowing@.len() == old(e).overflowing@.len(),
        forall|j: int|
            0 <= j < old(e).overflowing@.len() ==> {
                let o = old(e).overflowing@[j];
                let ro = #[trigger] final(e).overflowing@[j];
                &&& ro.tokens == o.tokens
                &&& ro.sequence_id == o.sequence_id
                &&& ro.offsets@ == trimmed_offsets(o.tokens@, o.offsets@, add_prefix_space)
                &&& ro.overflowing == o.overflowing
            },
{
    process_utf16_offsets(e, add_prefix_space);
    proof {
        assert(e.offsets@ =~= trimmed_offsets(
            old(e).tokens@,
            old(e).offsets@,
            add_prefix_space,
        ));
    }
    let ghost old_ov = e.overflowing@;
    let mut new_ov: Vec<Encoding> = Vec::new();
    while e.overflowing.len() > 0
        invariant
            e.tokens == old(e).tokens,
            e.sequence_id == old(e).sequence_id,
            e.offsets@ == trimmed_offsets(old(e).tokens@, old(e).offsets@, add_prefix_space),
            new_ov@.len() + e.overflowing@.len() == old_ov.len(),
            e.overflowing@ == old_ov.skip(new_ov@.len() as int),
            forall|j: int| 0 <= j < old_ov.len() ==> (#[trigger] old_ov[j]).wf(),
            forall|j: int|
                0 <= j < new_ov@.len() ==> {
                    let o = old_ov[j];
                    let ro = #[trigger] new_ov@[j];
                    &&& ro.tokens == o.tokens
                    &&& ro.sequence_id == o.sequence_id
                    &&& ro.offsets@ == trimmed_offsets(o.tokens@, o.offsets@, add_prefix_space)
                    &&& ro.overflowing == o.overflowing
                },
        decreases e.overflowing@.len(),
    {
        let ghost j = new_ov@.len() as int;
        let mut o = e.overflowing.remove(0);
        assert(o == old_ov[j]);
        process_utf16_offsets(&mut o, add_prefix_space);
        proof {
            assert(o.offsets@ =~= trimmed_offsets(
                old_ov[j].tokens@,
                old_ov[j].offsets@,
                add_prefix_space,
            ));
        }
        let ghost nv0 = new_ov@;
        let ghost ofin = o;
        new_ov.push(o);
        proof {
            assert(forall|q: int| 0 <= q < nv0.len() ==> #[trigger] new_ov@[q] == nv0[q]);
            assert(new_ov@[j] == ofin);
            assert(e.overflowing@ =~= old_ov.skip(new_ov@.len() as int));
        }
    }
    e.overflowing = new_ov;
}

impl UTF16ByteLevel {
    /// Builds a configuration from its three flags.
    pub fn new(add_prefix_space: bool, trim_offsets: bool, use_regex: bool) -> (r: Self)
        ensures
            r == (UTF16ByteLevel { add_prefix_space, trim_offsets, use_regex }),
    {
        UTF16ByteLevel { add_prefix_space, trim_offsets, use_regex }
    }

    /// Returns the same configuration with the prefix-space flag replaced.
    #[must_use]
    pub fn add_prefix_space(self, v: bool) -> (r: Self)
        ensures
            r == (UTF16ByteLevel { add_prefix_space: v, ..self }),
    {
        UTF16ByteLevel { add_prefix_space: v, ..self }
    }

    /// Returns the same configuration with the offset-trimming flag replaced.
    #[must_use]
    pub fn trim_offsets(self, v: bool) -> (r: Self)
        ensures
            r == (UTF16ByteLevel { trim_offsets: v, ..self }),
    {
        UTF16ByteLevel { trim_offsets: v, ..self }
    }

    /// Returns the same configuration with the boundary-pattern flag replaced.
    #[must_use]
    pub fn use_regex(self, v: bool) -> (r: Self)
        ensures
            r == (UTF16ByteLevel { use_regex: v, ..self }),
    {
        UTF16ByteLevel { use_regex: v, ..self }
    }

    /// The alphabet this stage writes spans in: the symbol of every byte
    /// value, in byte order. 256 characters, all distinct.
    pub fn alphabet() -> (r: Vec<char>)
        ensures
            r@.len() == 256,
            forall|i: int| 0 <= i < 256 ==> #[trigger] r@[i] == symbol_of(i as u8),
    {
        let mut v: Vec<char> = Vec::new();
        for b in 0..256usize
            invariant
                v@.len() == b,
                forall|i: int| 0 <= i < b ==> #[trigger] v@[i] == symbol_of(i as u8),
        {
            v.push(byte_to_symbol(b as u8));
        }
        v
    }

    /// Pre-tokenizes a text without a boundary pattern: the prepared text
    /// stands as a single span, rewritten into its symbol string.
    pub fn pre_tokenize(&self, text: &str) -> (r: Vec<Span>)
        ensures
            ({
                let prep = prepared_text(text@, self.add_prefix_space);
                &&& r@.len() == 1
                &&& r@[0].start == 0
                &&& r@[0].end == prep.len()
                &&& r@[0].content@ == symbols_of(prep)
            }),
    {
        let prepared = prepare_chars(text, self.add_prefix_space);
        let s = chars_to_string(&prepared);
        let content = text_to_symbols(s.as_str());
        let end = prepared.len();
        let mut r: Vec<Span> = Vec::new();
        r.push(Span { content, start: 0, end });
        r
    }

    /// Pre-tokenizes a text along the boundaries an external pattern
    /// splitter chose on the prepared text. Every span between consecutive
    /// cut points is rewritten into its symbol string in place, so that the
    /// spans still cover the prepared text with no gaps or overlaps. When
    /// the boundary pattern is disabled the cuts are ignored and the whole
    /// text stands as one span.
    pub fn pre_tokenize_with_cuts(&self, text: &str, cuts: &Vec<usize>) -> (r: Vec<Span>)
        requires
            cuts_ok(cuts@, prepared_text(text@, self.add_prefix_space).len() as int),
        ensures
            ({
                let prep = prepared_text(text@, self.add_prefix_space);
                if self.use_regex {
                    &&& r@.len() == cuts@.len() + 1
                    &&& forall|k: int|
                        0 <= k < r@.len() ==> {
                            let lo = cut_lo(cuts@, k);
                            let hi = cut_hi(cuts@, prep.len() as int, k);
                            &&& (#[trigger] r@[k]).start == lo
                            &&& r@[k].end == hi
                            &&& r@[k].content@ == symbols_of(prep.subrange(lo, hi))
                        }
                } else {
                    &&& r@.len() == 1
                    &&& r@[0].start == 0
                    &&& r@[0].end == prep.len()
                    &&& r@[0].content@ == symbols_of(prep)
                }
            }),
    {
        if !self.use_regex {
            return self.pre_tokenize(text);
        }
        let prepared = prepare_chars(text, self.add_prefix_space);
        let ghost prep = prepared_text(text@, self.add_prefix_space);
        let n = prepared.len();
        let m = cuts.len();
        proof {
            if m > 0 {
                lemma_cut_minimum(cuts@, n as int, m - 1);
            }
        }
        let mut r: Vec<Span> = Vec::new();
        for k in 0..m + 1
            invariant
                n == prep.len(),
                prepared@ == prep,
                m == cuts@.len(),
                m < n || m == 0,
                cuts_ok(cuts@, n as int),
                r@.len() == k,
                forall|q: int|
                    0 <= q < k ==> {
                        let lo = cut_lo(cuts@, q);
                        let hi = cut_hi(cuts@, n as int, q);
                        &&& (#[trigger] r@[q]).start == lo
                        &&& r@[q].end == hi
                        &&& r@[q].content@ == symbols_of(prep.subrange(lo, hi))
                    },
        {
            let lo = if k == 0 {
                0
            } else {
                cuts[k - 1]
            };
            let hi = if k == m {
                n
            } else {
                cuts[k]
            };
            let mut sub: Vec<char> = Vec::new();
            let mut j = lo;
            while j < hi
                invariant
                    lo <= j <= hi <= prepared@.len(),
                    prepared@ == prep,
                    sub@ == prep.subrange(lo as int, j as int),
                decreases hi - j,
            {
                sub.push(prepared[j]);
                proof {
                    assert(sub@ =~= prep.subrange(lo as int, j + 1));
                }
                j = j + 1;
            }
            let s = chars_to_string(&sub);
            let content = text_to_symbols(s.as_str());
            r.push(Span { content, start: lo, end: hi });
        }
        r
    }

    /// Post-processing adds no token of its own to a sequence or a pair.
    pub fn added_tokens(&self, _is_pair: bool) -> (r: usize)
        ensures
            r == 0,
    {
        0
    }

    /// Post-processes finalized records: when offset trimming is enabled,
    /// every record and every record that overflowed out of it has its token
    /// spans reconciled; afterwards the records are numbered in order.
    pub fn process_encodings(&self, encodings: Vec<Encoding>) -> (r: Vec<Encoding>)
        requires
            forall|i: int| 0 <= i < encodings@.len() ==> (#[trigger] encodings@[i]).wf_deep(),
        ensures
            r@.len() == encodings@.len(),
            forall|i: int|
                0 <= i < r@.len() ==> {
                    let e = encodings@[i];
                    let re = #[trigger] r@[i];
                    &&& re.tokens == e.tokens
                    &&& re.sequence_id == Some(i as usize)
                    &&& re.offsets@ == (if self.trim_offsets {
                        trimmed_offsets(e.tokens@, e.offsets@, self.add_prefix_space)
                    } else {
                        e.offsets@
                    })
                    &&& re.overflowing@.len() == e.overflowing@.len()
                    &&& forall|j: int|
                        0 <= j < re.overflowing@.len() ==> {
                            let o = e.overflowing@[j];
                            let ro = #[trigger] re.overflowing@[j];
                            &&& ro.tokens == o.tokens
                            &&& ro.sequence_id == o.sequence_id
                            &&& ro.offsets@ == (if self.trim_offsets {
                                trimmed_offsets(o.tokens@, o.offsets@, self.add_prefix_space)
                            } else {
                                o.offsets@
                            })
                            &&& ro.overflowing == o.overflowing
                        }
                },
    {
        let ghost orig = encodings@;
        let mut rest = encodings;
        let mut out: Vec<Encoding> = Vec::new();
        while rest.len() > 0
            invariant
                out@.len() + rest@.len() == orig.len(),
                rest@ == orig.skip(out@.len() as int),
                forall|i: int| 0 <= i < orig.len() ==> (#[trigger] orig[i]).wf_deep(),
                forall|i: int|
                    0 <= i < out@.len() ==> {
                        let e = orig[i];
                        let re = #[trigger] out@[i];
                        &&& re.tokens == e.tokens
                        &&& re.sequence_id == Some(i as usize)
                        &&& re.offsets@ == (if self.trim_offsets {
                            trimmed_offsets(e.tokens@, e.offsets@, self.add_prefix_space)
                        } else {
                            e.offsets@
                        })
                        &&& re.overflowing@.len() == e.overflowing@.len()
                        &&& forall|j: int|
                            0 <= j < re.overflowing@.len() ==> {
                                let o = e.overflowing@[j];
                                let ro = #[trigger] re.overflowing@[j];
                                &&& ro.tokens == o.tokens
                                &&& ro.sequence_id == o.sequence_id
                                &&& ro.offsets@ == (if self.trim_offsets {
                                    trimmed_offsets(o.tokens@, o.offsets@, self.add_prefix_space)
                                } else {
                                    o.offsets@
                                })
                                &&& ro.overflowing == o.overflowing
                            }
                    },
            decreases rest@.len(),
        {
            let ghost i = out@.len() as int;
            let mut e = rest.remove(0);
            assert(e == orig[i]);
            if self.trim_offsets {
                trim_record(&mut e, self.add_prefix_space);
            }
            e.sequence_id = Some(out.len());
            let ghost out0 = out@;
            let ghost efin = e;
            out.push(e);
            proof {
                assert(forall|q: int| 0 <= q < out0.len() ==> #[trigger] out@[q] == out0[q]);
                assert(out@[i] == efin);
                assert(rest@ =~= orig.skip(out@.len() as int));
            }
        }
        out
    }

    /// Reassembles model output tokens into text, exactly as the decoder
    /// stage does: all token bytes are gathered first and decoded in one
    /// piece, and the codec's failure, if any, is passed on. On success the
    /// result holds exactly one string.
    pub fn decode_chain(&self, tokens: Vec<String>) -> (r: Result<Vec<String>, DecodeError>)
        ensures
            r matches Ok(v) ==> v@.len() == 1 && spec_symbols_to_text(
                tokens@.map_values(|t: String| t@),
            ) == Ok::<Seq<char>, DecodeError>(v@[0]@),
            r matches Err(e) ==> spec_symbols_to_text(tokens@.map_values(|t: String| t@))
                == Err::<Seq<char>, DecodeError>(e),
    {
        match symbols_to_text(&tokens) {
            Ok(s) => {
                let mut v: Vec<String> = Vec::new();
                v.push(s);
                Ok(v)
            },
            Err(e) => Err(e),
        }
    }
}

/// The spans the alphabet covers are pairwise distinct characters: no two
/// byte values share a symbol.
pub proof fn lemma_alphabet_distinct(s: Seq<char>)
    requires
        s.len() == 256,
        forall|i: int| 0 <= i < 256 ==> #[trigger] s[i] == symbol_of(i as u8),
    ensures
        forall|i: int, j: int| 0 <= i < j < 256 ==> s[i] != s[j],
{
    assert forall|i: int, j: int| 0 <= i < j < 256 implies s[i] != s[j] by {
        if s[i] == s[j] {
            lemma_symbol_injective(i as u8, j as u8);
        }
    }
}

} // verus!
