//! Replaces byte ranges of a string, from the back of the string to the front.

use core::ops::Range;
use vstd::prelude::*;
use vstd::string::*;
use vstd::utf8::*;
use crate::text::{byte_len, lemma_boundary_in_prefix, lemma_boundary_of_prefix, lemma_encode_concat};

verus! {

/// One replacement: the bytes `start..end` of the original text give way to
/// `with`.
pub struct Edit {
    pub start: int,
    pub end: int,
    pub with: Seq<u8>,
}

/// Where the untouched prefix of a text of `len` bytes ends once `edits` were
/// made: at the start of the last edit.
pub open spec fn rest_len(len: int, edits: Seq<Edit>) -> int {
    if edits.len() == 0 {
        len
    } else {
        edits.last().start
    }
}

/// The edits proceed from the back of the text to its front and do not
/// overlap: each one ends where the one before it starts, or earlier.
pub open spec fn edits_ordered(len: int, edits: Seq<Edit>) -> bool
    decreases edits.len(),
{
    if edits.len() == 0 {
        0 <= len
    } else {
        let last = edits.last();
        let before = edits.drop_last();
        &&& edits_ordered(len, before)
        &&& 0 <= last.start <= last.end <= rest_len(len, before)
    }
}

/// What follows the untouched prefix once `edits` were made: for each edit its
/// replacement and then the original text up to the edit before it.
pub open spec fn spliced_tail(original: Seq<u8>, edits: Seq<Edit>) -> Seq<u8>
    decreases edits.len(),
{
    if edits.len() == 0 {
        Seq::empty()
    } else {
        let last = edits.last();
        let before = edits.drop_last();
        last.with + original.subrange(last.end, rest_len(original.len() as int, before))
            + spliced_tail(original, before)
    }
}

/// The original text with the content of each edit's range replaced.
pub open spec fn spliced(original: Seq<u8>, edits: Seq<Edit>) -> Seq<u8> {
    original.subrange(0, rest_len(original.len() as int, edits)) + spliced_tail(original, edits)
}

/// Whether `edit` can follow `edits`: it lies in what they left untouched and
/// cuts no character in two.
pub open spec fn fits(original: Seq<u8>, edits: Seq<Edit>, edit: Edit) -> bool {
    &&& 0 <= edit.start <= edit.end <= rest_len(original.len() as int, edits)
    &&& is_char_boundary(original, edit.start)
    &&& is_char_boundary(original, edit.end)
}

/// `edits` with `edit` after them if it fits, and without it if it does not.
pub open spec fn accept(original: Seq<u8>, edits: Seq<Edit>, edit: Edit) -> Seq<Edit> {
    if fits(original, edits, edit) {
        edits.push(edit)
    } else {
        edits
    }
}

/// `edits` with each of `candidates` that fits, in their order.
pub open spec fn apply(original: Seq<u8>, edits: Seq<Edit>, candidates: Seq<Edit>) -> Seq<Edit>
    decreases candidates.len(),
{
    if candidates.len() == 0 {
        edits
    } else {
        apply(original, accept(original, edits, candidates[0]), candidates.drop_first())
    }
}

/// Applying two runs of candidates one after the other is applying both.
pub proof fn lemma_apply_concat(
    original: Seq<u8>,
    edits: Seq<Edit>,
    first: Seq<Edit>,
    second: Seq<Edit>,
)
    ensures
        apply(original, edits, first + second) == apply(
            original,
            apply(original, edits, first),
            second,
        ),
    decreases first.len(),
{
    if first.len() == 0 {
        assert(first + second =~= second);
    } else {
        assert((first + second).drop_first() =~= first.drop_first() + second);
        lemma_apply_concat(
            original,
            accept(original, edits, first[0]),
            first.drop_first(),
            second,
        );
    }
}

/// The bytes of the chunks, last chunk first.
pub open spec fn chunks_text(chunks: Seq<&str>) -> Seq<u8>
    decreases chunks.len(),
{
    if chunks.len() == 0 {
        Seq::empty()
    } else {
        chunks.last().spec_bytes() + chunks_text(chunks.drop_last())
    }
}

/// A type to efficiently replace string ranges.
///
/// Ranges and indices must be replaced in reverse order and must not overlap.
pub struct StringReplacer<'a> {
    string: &'a str,
    chunks: Vec<&'a str>,
    original: Ghost<Seq<u8>>,
    edits: Ghost<Seq<Edit>>,
}

impl<'a> StringReplacer<'a> {
    /// The text that the replacer was made for.
    pub closed spec fn original(&self) -> Seq<u8> {
        self.original@
    }

    /// The edits made so far, in the order they were made.
    pub closed spec fn edits(&self) -> Seq<Edit> {
        self.edits@
    }

    /// The untouched prefix of the original text.
    pub closed spec fn rest_bytes(&self) -> Seq<u8> {
        self.string.spec_bytes()
    }

    /// What follows the untouched prefix: the replacements made so far and
    /// the original text between them.
    pub closed spec fn tail_bytes(&self) -> Seq<u8> {
        chunks_text(self.chunks@)
    }

    /// The text as it stands with the edits made so far.
    pub open spec fn text(&self) -> Seq<u8> {
        self.rest_bytes() + self.tail_bytes()
    }

    /// The replacer holds the original text with its edits applied.
    pub closed spec fn wf(&self) -> bool {
        &&& valid_utf8(self.original@)
        &&& edits_ordered(self.original@.len() as int, self.edits@)
        &&& rest_len(self.original@.len() as int, self.edits@) == self.string.spec_bytes().len()
        &&& is_char_boundary(self.original@, self.string.spec_bytes().len() as int)
        &&& self.string.spec_bytes() == self.original@.subrange(
            0,
            self.string.spec_bytes().len() as int,
        )
        &&& chunks_text(self.chunks@) == spliced_tail(self.original@, self.edits@)
    }

    /// Whether the bytes `start..end` of the untouched prefix can be replaced:
    /// the range lies in the prefix and cuts no character in two.
    pub open spec fn replaceable(&self, start: int, end: int) -> bool {
        &&& 0 <= start <= end <= self.rest_bytes().len()
        &&& is_char_boundary(self.rest_bytes(), start)
        &&& is_char_boundary(self.rest_bytes(), end)
    }

    /// What a replacer holds after any run of replacements: its edits
    /// proceed from the back of the text to its front without overlap, what
    /// is left untouched is the text before the last of them, and its text
    /// is the original text with the content of each edit's range replaced.
    pub proof fn lemma_wf(&self)
        requires
            self.wf(),
        ensures
            valid_utf8(self.original()),
            edits_ordered(self.original().len() as int, self.edits()),
            self.rest_bytes() == self.original().subrange(
                0,
                rest_len(self.original().len() as int, self.edits()),
            ),
            self.rest_bytes().len() == rest_len(self.original().len() as int, self.edits()),
            0 <= rest_len(self.original().len() as int, self.edits()) <= self.original().len(),
            self.text() == spliced(self.original(), self.edits()),
    {
        lemma_rest_len_bounds(self.original@.len() as int, self.edits@);
    }

    /// A replacer for the text, with no edit made.
    pub fn new(string: &'a str) -> (replacer: Self)
        ensures
            replacer.wf(),
            replacer.original() == string.spec_bytes(),
            replacer.edits() == Seq::<Edit>::empty(),
            replacer.rest_bytes() == string.spec_bytes(),
            replacer.tail_bytes() == Seq::<u8>::empty(),
    {
        let replacer = Self {
            string,
            chunks: Vec::new(),
            original: Ghost(string.spec_bytes()),
            edits: Ghost(Seq::empty()),
        };
        proof {
            let bytes = string.spec_bytes();
            encode_utf8_valid_utf8(string@);
            is_char_boundary_start_end_of_seq(bytes);
            assert(bytes.subrange(0, bytes.len() as int) =~= bytes);
        }
        replacer
    }

    /// Replaces the bytes of the range by `with`. The range lies in what the
    /// edits before it left untouched and cuts no character in two.
    pub fn replace(&mut self, range: Range<usize>, with: &'a str)
        requires
            old(self).wf(),
            old(self).replaceable(range.start as int, range.end as int),
        ensures
            final(self).wf(),
            final(self).original() == old(self).original(),
            final(self).edits() == old(self).edits().push(
                Edit { start: range.start as int, end: range.end as int, with: with.spec_bytes() },
            ),
            final(self).rest_bytes() == old(self).rest_bytes().subrange(0, range.start as int),
            final(self).tail_bytes() == with.spec_bytes() + old(self).rest_bytes().subrange(
                range.end as int,
                old(self).rest_bytes().len() as int,
            ) + old(self).tail_bytes(),
    {
        self.replace_inner(range, with)
    }

    /// Makes the replacement if the range can be replaced, and says whether
    /// it did.
    pub fn try_replace(&mut self, range: Range<usize>, with: &'a str) -> (done: bool)
        requires
            old(self).wf(),
        ensures
            final(self).wf(),
            final(self).original() == old(self).original(),
            done == fits(
                old(self).original(),
                old(self).edits(),
                Edit { start: range.start as int, end: range.end as int, with: with.spec_bytes() },
            ),
            final(self).edits() == accept(
                old(self).original(),
                old(self).edits(),
                Edit { start: range.start as int, end: range.end as int, with: with.spec_bytes() },
            ),
    {
        proof {
            self.lemma_wf();
            lemma_rest_len_bounds(self.original@.len() as int, self.edits@);
        }
        let ghost original = self.original@;
        let ghost len = self.string.spec_bytes().len() as int;
        if range.start <= range.end && range.end <= byte_len(self.string) {
            let start_ok = self.string.is_char_boundary(range.start);
            let end_ok = self.string.is_char_boundary(range.end);
            proof {
                if is_char_boundary(original, range.start as int) {
                    lemma_boundary_in_prefix(original, range.start as int, len);
                }
                if is_char_boundary(original, range.end as int) {
                    lemma_boundary_in_prefix(original, range.end as int, len);
                }
                if start_ok {
                    lemma_boundary_of_prefix(original, range.start as int, len);
                }
                if end_ok {
                    lemma_boundary_of_prefix(original, range.end as int, len);
                }
            }
            if start_ok && end_ok {
                self.replace(range, with);
                return true;
            }
        }
        false
    }

    /// Puts `with` in at `idx`.
    pub fn insert(&mut self, idx: usize, with: &'a str)
        requires
            old(self).wf(),
            old(self).replaceable(idx as int, idx as int),
        ensures
            final(self).wf(),
            final(self).original() == old(self).original(),
            final(self).edits() == old(self).edits().push(
                Edit { start: idx as int, end: idx as int, with: with.spec_bytes() },
            ),
            final(self).rest_bytes() == old(self).rest_bytes().subrange(0, idx as int),
            final(self).tail_bytes() == with.spec_bytes() + old(self).rest_bytes().subrange(
                idx as int,
                old(self).rest_bytes().len() as int,
            ) + old(self).tail_bytes(),
    {
        self.replace(idx..idx, with)
    }

    /// Takes the bytes of the range out.
    pub fn remove(&mut self, range: Range<usize>)
        requires
            old(self).wf(),
            old(self).replaceable(range.start as int, range.end as int),
        ensures
            final(self).wf(),
            final(self).original() == old(self).original(),
            final(self).edits() == old(self).edits().push(
                Edit { start: range.start as int, end: range.end as int, with: Seq::empty() },
            ),
            final(self).rest_bytes() == old(self).rest_bytes().subrange(0, range.start as int),
            final(self).tail_bytes() == old(self).rest_bytes().subrange(
                range.end as int,
                old(self).rest_bytes().len() as int,
            ) + old(self).tail_bytes(),
    {
        proof {
            reveal_strlit("");
            assert("".spec_bytes() =~= Seq::<u8>::empty());
        }
        self.replace(range, "")
    }

    fn replace_inner(&mut self, range: Range<usize>, with: &'a str)
        requires
            old(self).wf(),
            old(self).replaceable(range.start as int, range.end as int),
        ensures
            final(self).wf(),
            final(self).original() == old(self).original(),
            final(self).edits() == old(self).edits().push(
                Edit { start: range.start as int, end: range.end as int, with: with.spec_bytes() },
            ),
            final(self).rest_bytes() == old(self).rest_bytes().subrange(0, range.start as int),
            final(self).tail_bytes() == with.spec_bytes() + old(self).rest_bytes().subrange(
                range.end as int,
                old(self).rest_bytes().len() as int,
            ) + old(self).tail_bytes(),
    {
        let ghost rest = self.string.spec_bytes();
        let ghost old_tail = chunks_text(self.chunks@);
        let ghost old_chunks = self.chunks@;
        proof {
            encode_utf8_valid_utf8(self.string@);
            lemma_boundary_in_prefix(rest, range.start as int, range.end as int);
            lemma_rest_len_bounds(self.original@.len() as int, self.edits@);
        }
        let (head, end_chunk) = self.string.split_at(range.end);
        if !end_chunk.is_empty() {
            self.chunks.push(end_chunk);
            proof {
                assert(self.chunks@.drop_last() =~= old_chunks);
            }
        } else {
            proof {
                assert(end_chunk.spec_bytes() =~= Seq::<u8>::empty());
            }
        }
        let ghost mid_chunks = self.chunks@;
        assert(chunks_text(mid_chunks) =~= end_chunk.spec_bytes() + old_tail);
        if !with.is_empty() {
            self.chunks.push(with);
            proof {
                assert(self.chunks@.drop_last() =~= mid_chunks);
            }
        } else {
            proof {
                assert(with.spec_bytes() =~= Seq::<u8>::empty());
            }
        }
        assert(chunks_text(self.chunks@) =~= with.spec_bytes() + end_chunk.spec_bytes() + old_tail);
        let (start_chunk, _) = head.split_at(range.start);
        self.string = start_chunk;
        proof {
            let edit = Edit {
                start: range.start as int,
                end: range.end as int,
                with: with.spec_bytes(),
            };
            let edits = self.edits@.push(edit);
            assert(edits.drop_last() =~= self.edits@);
            assert(edits.last() == edit);
            self.edits = Ghost(edits);
            let original = self.original@;
            assert(start_chunk.spec_bytes() =~= original.subrange(0, range.start as int));
            assert(end_chunk.spec_bytes() =~= original.subrange(
                range.end as int,
                rest.len() as int,
            ));
            lemma_boundary_of_prefix(original, range.start as int, rest.len() as int);
        }
    }

    /// What the edits left untouched: the text before the last of them.
    pub fn rest(&self) -> (rest: &str)
        ensures
            rest.spec_bytes() == self.rest_bytes(),
    {
        self.string
    }

    /// The text with all edits made.
    pub fn finish(&self) -> (out: String)
        ensures
            encode_utf8(out@) == self.text(),
    {
        let mut out = String::new();
        out.append(self.string);
        proof {
            assert(out@ =~= self.string@);
            assert(self.chunks@.subrange(0, self.chunks@.len() as int) =~= self.chunks@);
        }
        let mut i: usize = self.chunks.len();
        while i > 0
            invariant
                0 <= i <= self.chunks.len(),
                encode_utf8(out@) + chunks_text(self.chunks@.subrange(0, i as int))
                    == self.string.spec_bytes() + chunks_text(self.chunks@),
            decreases i,
        {
            i -= 1;
            let chunk: &str = self.chunks[i];
            let ghost before = out@;
            out.append(chunk);
            proof {
                lemma_encode_concat(before, chunk@);
                let upto = self.chunks@.subrange(0, i as int + 1);
                assert(upto.drop_last() =~= self.chunks@.subrange(0, i as int));
                assert(upto.last() == chunk);
                assert(encode_utf8(out@) + chunks_text(self.chunks@.subrange(0, i as int))
                    =~= encode_utf8(before) + chunks_text(upto));
            }
        }
        proof {
            assert(self.chunks@.subrange(0, 0) =~= Seq::<&str>::empty());
            assert(encode_utf8(out@) + Seq::<u8>::empty() =~= encode_utf8(out@));
        }
        out
    }
}

/// The untouched prefix never grows, and it stays within the text.
pub proof fn lemma_rest_len_bounds(len: int, edits: Seq<Edit>)
    requires
        edits_ordered(len, edits),
    ensures
        0 <= rest_len(len, edits) <= len,
    decreases edits.len(),
{
    if edits.len() > 0 {
        lemma_rest_len_bounds(len, edits.drop_last());
    }
}

/// The edit puts in what it takes out: it keeps the text as it is.
pub open spec fn keeps(original: Seq<u8>, edit: Edit) -> bool {
    0 <= edit.start <= edit.end <= original.len() && edit.with == original.subrange(
        edit.start,
        edit.end,
    )
}

/// Each of the edits keeps the text as it is.
pub open spec fn all_keep(original: Seq<u8>, edits: Seq<Edit>) -> bool {
    forall|k: int| 0 <= k < edits.len() ==> keeps(original, #[trigger] edits[k])
}

/// A text in which every range is replaced by its own content is the text.
pub proof fn lemma_spliced_identity(original: Seq<u8>, edits: Seq<Edit>)
    requires
        edits_ordered(original.len() as int, edits),
        all_keep(original, edits),
    ensures
        spliced(original, edits) == original,
    decreases edits.len(),
{
    let len = original.len() as int;
    if edits.len() == 0 {
        assert(original.subrange(0, len) + Seq::<u8>::empty() =~= original);
    } else {
        let last = edits.last();
        let before = edits.drop_last();
        assert forall|k: int| 0 <= k < before.len() implies keeps(original, #[trigger] before[k]) by {
            assert(before[k] == edits[k]);
        }
        lemma_spliced_identity(original, before);
        lemma_rest_len_bounds(len, before);
        let rest = rest_len(len, before);
        assert(keeps(original, edits[edits.len() - 1]));
        assert(original.subrange(0, last.start) + (last.with + original.subrange(last.end, rest)
            + spliced_tail(original, before)) =~= original.subrange(0, rest) + spliced_tail(
            original,
            before,
        ));
    }
}

/// The text with its edits is as long as the text, less what the edits take
/// out, and what they put in.
pub open spec fn spliced_len(len: int, edits: Seq<Edit>) -> int
    decreases edits.len(),
{
    if edits.len() == 0 {
        len
    } else {
        spliced_len(len, edits.drop_last()) - (edits.last().end - edits.last().start)
            + edits.last().with.len()
    }
}

/// How long the text with its edits is.
pub proof fn lemma_spliced_len(original: Seq<u8>, edits: Seq<Edit>)
    requires
        edits_ordered(original.len() as int, edits),
    ensures
        spliced(original, edits).len() == spliced_len(original.len() as int, edits),
        spliced_tail(original, edits).len() == spliced_len(original.len() as int, edits)
            - rest_len(original.len() as int, edits),
    decreases edits.len(),
{
    let len = original.len() as int;
    lemma_rest_len_bounds(len, edits);
    if edits.len() > 0 {
        lemma_spliced_len(original, edits.drop_last());
        lemma_rest_len_bounds(len, edits.drop_last());
    }
}

/// Edits that are accepted one after the other are in order, and they keep
/// the text as it is if each candidate does.
pub proof fn lemma_apply_keeps(original: Seq<u8>, edits: Seq<Edit>, candidates: Seq<Edit>)
    requires
        edits_ordered(original.len() as int, edits),
    ensures
        edits_ordered(original.len() as int, apply(original, edits, candidates)),
        all_keep(original, edits) && all_keep(original, candidates) ==> all_keep(
            original,
            apply(original, edits, candidates),
        ),
    decreases candidates.len(),
{
    if candidates.len() > 0 {
        let first = candidates[0];
        let next = accept(original, edits, first);
        if fits(original, edits, first) {
            assert(next.drop_last() =~= edits);
            assert(next.last() == first);
        }
        lemma_apply_keeps(original, next, candidates.drop_first());
        if all_keep(original, edits) && all_keep(original, candidates) {
            assert forall|k: int| 0 <= k < next.len() implies keeps(original, #[trigger] next[k]) by {
                if k < edits.len() {
                    assert(next[k] == edits[k]);
                } else {
                    assert(next[k] == candidates[0]);
                }
            }
            assert forall|k: int| 0 <= k < candidates.drop_first().len() implies keeps(
                original,
                #[trigger] candidates.drop_first()[k],
            ) by {
                assert(candidates.drop_first()[k] == candidates[k + 1]);
            }
        }
    }
}

} // verus!
