//! GC statistics of one nucleotide sequence.

use vstd::prelude::*;
use vstd::string::StrSliceExecFns;

verus! {

/// `c`, with an ASCII lower-case letter replaced by its upper-case form.
pub open spec fn ascii_uppercase(c: char) -> char {
    if 'a' <= c <= 'z' {
        (c as u32 - 32) as char
    } else {
        c
    }
}

/// Whether `c` stands for guanine or cytosine: upper-cased, it is `G` or `C`.
pub open spec fn spec_is_gc_base(c: char) -> bool {
    ascii_uppercase(c) == 'G' || ascii_uppercase(c) == 'C'
}

/// Whether `c` stands for guanine or cytosine, in either case of the letter.
#[verifier::when_used_as_spec(spec_is_gc_base)]
pub fn is_gc_base(c: char) -> (b: bool)
    ensures
        b == spec_is_gc_base(c),
{
    c == 'G' || c == 'C' || c == 'g' || c == 'c'
}

/// The number of characters of `sequence` that stand for guanine or cytosine.
pub open spec fn gc_count(sequence: Seq<char>) -> nat {
    sequence.filter(|c: char| spec_is_gc_base(c)).len()
}

/// What a `GcResult` holds, as mathematical values.
pub struct GcSummary {
    pub name: Seq<char>,
    pub length: nat,
    pub gc_count: nat,
}

impl GcSummary {
    /// The GC content: the share of GC bases among the characters of the
    /// sequence, and zero for a sequence without characters.
    pub open spec fn gc_content(self) -> real {
        if self.length > 0 {
            self.gc_count as real / self.length as real
        } else {
            0real
        }
    }
}

/// The statistics of the sequence `sequence` under the name `name`: the number
/// of its characters, and how many of them stand for guanine or cytosine.
pub open spec fn summarize(name: Seq<char>, sequence: Seq<char>) -> GcSummary {
    GcSummary { name, length: sequence.len(), gc_count: gc_count(sequence) }
}

/// The GC statistics of one named sequence. The GC content of the sequence is
/// the ratio of `gc_count` to `length`, and zero where `length` is zero.
#[derive(Debug, PartialEq, Eq)]
pub struct GcResult {
    pub name: String,
    pub length: usize,
    pub gc_count: usize,
}

impl GcResult {
    /// Whether the result can be that of a sequence: it counts no more GC
    /// bases than characters.
    pub open spec fn wf(&self) -> bool {
        self.gc_count <= self.length
    }
}

impl View for GcResult {
    type V = GcSummary;

    open spec fn view(&self) -> GcSummary {
        GcSummary {
            name: self.name@,
            length: self.length as nat,
            gc_count: self.gc_count as nat,
        }
    }
}

impl DeepView for GcResult {
    type V = GcSummary;

    open spec fn deep_view(&self) -> GcSummary {
        self@
    }
}

/// No sequence holds more GC bases than characters.
pub proof fn lemma_gc_count_le_len(sequence: Seq<char>)
    ensures
        gc_count(sequence) <= sequence.len(),
{
    sequence.lemma_filter_len(|c: char| spec_is_gc_base(c));
}

/// The GC content of a sequence lies between zero and one.
pub proof fn lemma_gc_content_bounds(name: Seq<char>, sequence: Seq<char>)
    ensures
        0real <= summarize(name, sequence).gc_content() <= 1real,
{
    lemma_gc_count_le_len(sequence);
    if sequence.len() > 0 {
        let count = gc_count(sequence) as real;
        let length = sequence.len() as real;
        assert(0real <= count / length <= 1real) by (nonlinear_arith)
            requires
                0real <= count <= length,
                length > 0real,
        ;
    }
}

/// Sequences that differ in the case of their letters only hold the same
/// number of GC bases.
pub proof fn lemma_gc_count_ignores_case(first: Seq<char>, second: Seq<char>)
    requires
        first.len() == second.len(),
        forall|i: int|
            0 <= i < first.len() ==> ascii_uppercase(first[i]) == ascii_uppercase(second[i]),
    ensures
        gc_count(first) == gc_count(second),
    decreases first.len(),
{
    if first.len() > 0 {
        lemma_gc_count_ignores_case(first.drop_last(), second.drop_last());
        lemma_gc_count_push(first.drop_last(), first.last());
        lemma_gc_count_push(second.drop_last(), second.last());
        assert(first.drop_last().push(first.last()) == first);
        assert(second.drop_last().push(second.last()) == second);
    }
}

/// Counting one more character of a sequence.
proof fn lemma_gc_count_push(sequence: Seq<char>, c: char)
    ensures
        gc_count(sequence.push(c)) == gc_count(sequence) + if spec_is_gc_base(c) {
            1nat
        } else {
            0nat
        },
{
    reveal(Seq::filter);
    assert(sequence.push(c).drop_last() == sequence);
}

/// The GC statistics of `sequence`, under the name `name`.
pub fn gc_for_sequence(name: &str, sequence: &str) -> (result: GcResult)
    ensures
        result@ == summarize(name@, sequence@),
        result.wf(),
{
    broadcast use vstd::string::group_string_axioms;

    let length = sequence.unicode_len();
    let mut gc_count: usize = 0;
    for c in it: sequence.chars()
        invariant
            it.seq() == sequence@,
            length == sequence@.len(),
            gc_count == self::gc_count(sequence@.take(it.index())),
            gc_count <= it.index(),
    {
        proof {
            lemma_gc_count_push(sequence@.take(it.index()), c);
            assert(sequence@.take(it.index() + 1) == sequence@.take(it.index()).push(c));
        }
        if is_gc_base(c) {
            gc_count += 1;
        }
    }
    assert(sequence@.take(sequence@.len() as int) == sequence@);
    GcResult { name: name.to_owned(), length, gc_count }
}

} // verus!
