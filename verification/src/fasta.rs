//! The records of a FASTA text and their GC statistics.

use crate::gc::{
    gc_for_sequence, lemma_gc_content_bounds, lemma_gc_count_le_len, summarize, GcResult,
    GcSummary,
};
use crate::text::{
    lemma_trimmed_lines_first, lemma_trimmed_lines_last, push_range, trim, trim_range,
    trimmed_lines,
};
use vstd::prelude::*;

verus! {

/// One entry of a FASTA text: the name that its header line gives, and the
/// lines that follow the header, joined.
pub struct Record {
    pub name: Seq<char>,
    pub sequence: Seq<char>,
}

/// Whether the trimmed line `line` is a header line: it starts with `>`.
pub open spec fn is_header(line: Seq<char>) -> bool {
    line.len() > 0 && line.first() == '>'
}

/// The name that the header line `line` gives: what follows the `>`, trimmed.
pub open spec fn header_name(line: Seq<char>) -> Seq<char> {
    trim(line.drop_first())
}

/// The lines of `lines` up to its first header line, joined.
pub open spec fn body(lines: Seq<Seq<char>>) -> Seq<char>
    decreases lines.len(),
{
    if lines.len() == 0 || is_header(lines.first()) {
        Seq::empty()
    } else {
        lines.first() + body(lines.drop_first())
    }
}

/// The records of the trimmed lines `lines`, in the order of their headers.
/// Each header line with a name opens a record, which holds the lines up to
/// the next header line. Lines that no named header stands above are in no
/// record.
pub open spec fn records(lines: Seq<Seq<char>>) -> Seq<Record>
    decreases lines.len(),
{
    if lines.len() == 0 {
        Seq::empty()
    } else if is_header(lines.first()) && header_name(lines.first()).len() > 0 {
        seq![
            Record { name: header_name(lines.first()), sequence: body(lines.drop_first()) },
        ] + records(lines.drop_first())
    } else {
        records(lines.drop_first())
    }
}

/// The records of the FASTA text `text`.
pub open spec fn parse(text: Seq<char>) -> Seq<Record> {
    records(trimmed_lines(text))
}

/// The GC statistics of each of `records`.
pub open spec fn summaries(records: Seq<Record>) -> Seq<GcSummary> {
    records.map_values(|record: Record| summarize(record.name, record.sequence))
}

/// The GC statistics of the records of the FASTA text `text`, in the order
/// of their headers.
pub open spec fn gc_results(text: Seq<char>) -> Seq<GcSummary> {
    summaries(parse(text))
}

/// Whether none of the trimmed lines `lines` is a header line.
pub open spec fn no_header(lines: Seq<Seq<char>>) -> bool {
    forall|i: int| 0 <= i < lines.len() ==> !is_header(#[trigger] lines[i])
}

/// Lines without a header among them, with a header line or nothing after
/// them, are joined into one body, in their order.
proof fn lemma_body_of_block(block: Seq<Seq<char>>, rest: Seq<Seq<char>>)
    requires
        no_header(block),
        rest.len() == 0 || is_header(rest.first()),
    ensures
        body(block + rest) == block.flatten(),
    decreases block.len(),
{
    if block.len() > 0 {
        assert((block + rest).drop_first() == block.drop_first() + rest);
        lemma_body_of_block(block.drop_first(), rest);
    }
}

/// The lines above the first header line are in no record.
pub proof fn lemma_records_skip_leading(block: Seq<Seq<char>>, rest: Seq<Seq<char>>)
    requires
        no_header(block),
    ensures
        records(block + rest) == records(rest),
    decreases block.len(),
{
    if block.len() > 0 {
        assert((block + rest).drop_first() == block.drop_first() + rest);
        lemma_records_skip_leading(block.drop_first(), rest);
    }
}

/// A header line, the lines under it, and the header lines and their lines
/// that follow: where the header gives a name, the first record has that name
/// and holds the lines under the header, joined in their order, and the other
/// records follow it. A header that gives no name opens no record, and the
/// lines under it are in none.
pub proof fn lemma_records_of_entry(
    header: Seq<char>,
    block: Seq<Seq<char>>,
    rest: Seq<Seq<char>>,
)
    requires
        is_header(header),
        no_header(block),
        rest.len() == 0 || is_header(rest.first()),
    ensures
        records(seq![header] + block + rest) == if header_name(header).len() > 0 {
            seq![Record { name: header_name(header), sequence: block.flatten() }] + records(rest)
        } else {
            records(rest)
        },
{
    assert((seq![header] + block + rest).drop_first() == block + rest);
    lemma_body_of_block(block, rest);
    lemma_records_skip_leading(block, rest);
}

/// Where a scan of the lines of a text stands: the statistics of the records
/// that are closed, and the name and the sequence, so far, of the open one.
/// No record is open where the name is empty.
struct ScanState {
    results: Seq<GcSummary>,
    name: Seq<char>,
    sequence: Seq<char>,
}

/// The statistics of the open record, if there is one.
spec fn pending(name: Seq<char>, sequence: Seq<char>) -> Seq<GcSummary> {
    if name.len() > 0 {
        seq![summarize(name, sequence)]
    } else {
        Seq::empty()
    }
}

/// The state after the trimmed line `line` is read in the state `state`.
spec fn step(state: ScanState, line: Seq<char>) -> ScanState {
    if is_header(line) {
        ScanState {
            results: state.results + pending(state.name, state.sequence),
            name: header_name(line),
            sequence: Seq::empty(),
        }
    } else if state.name.len() > 0 {
        ScanState { sequence: state.sequence + line, ..state }
    } else {
        state
    }
}

/// What the scan gives in the end, where the trimmed lines `rest` are still to
/// be read in the state `state`.
spec fn outcome(state: ScanState, rest: Seq<Seq<char>>) -> Seq<GcSummary> {
    state.results + pending(state.name, state.sequence + body(rest)) + summaries(records(rest))
}

/// Reading one line changes nothing of what the scan gives in the end.
proof fn lemma_step(state: ScanState, rest: Seq<Seq<char>>)
    requires
        rest.len() > 0,
    ensures
        outcome(step(state, rest.first()), rest.drop_first()) == outcome(state, rest),
{
}

/// Every record of a text has at most as many GC bases as characters, and a
/// GC content between zero and one.
pub proof fn lemma_gc_results_bounded(text: Seq<char>)
    ensures
        forall|i: int|
            0 <= i < gc_results(text).len() ==> {
                &&& (#[trigger] gc_results(text)[i]).gc_count <= gc_results(text)[i].length
                &&& 0real <= gc_results(text)[i].gc_content() <= 1real
            },
{
    assert forall|i: int| 0 <= i < gc_results(text).len() implies {
        &&& (#[trigger] gc_results(text)[i]).gc_count <= gc_results(text)[i].length
        &&& 0real <= gc_results(text)[i].gc_content() <= 1real
    } by {
        let record = parse(text)[i];
        lemma_gc_count_le_len(record.sequence);
        lemma_gc_content_bounds(record.name, record.sequence);
    }
}

/// Two runs on one text give the same results: what `calculate_gc_content`
/// returns depends on the text alone.
pub proof fn lemma_calculate_deterministic(
    text: Seq<char>,
    first: Vec<GcResult>,
    second: Vec<GcResult>,
)
    requires
        first.deep_view() == gc_results(text),
        second.deep_view() == gc_results(text),
    ensures
        first.len() == second.len(),
        forall|i: int| 0 <= i < first.len() ==> first[i]@ == second[i]@,
{
    assert(first.deep_view().len() == first.len());
    assert(second.deep_view().len() == second.len());
    assert forall|i: int| 0 <= i < first.len() implies first[i]@ == second[i]@ by {
        assert(first.deep_view()[i] == first[i]@);
        assert(second.deep_view()[i] == second[i]@);
    }
}

/// A single pass over the lines of a FASTA text.
struct Scanner {
    results: Vec<GcResult>,
    name: String,
    sequence: String,
}

impl Scanner {
    spec fn state(&self) -> ScanState {
        ScanState {
            results: self.results.deep_view(),
            name: self.name@,
            sequence: self.sequence@,
        }
    }

    fn new() -> (scanner: Self)
        ensures
            scanner.state() == (ScanState {
                results: Seq::empty(),
                name: Seq::empty(),
                sequence: Seq::empty(),
            }),
    {
        let scanner = Scanner {
            results: Vec::new(),
            name: String::new(),
            sequence: String::new(),
        };
        assert(scanner.results.deep_view() == Seq::<GcSummary>::empty());
        scanner
    }

    /// Closes the open record, if there is one.
    fn close(&mut self)
        ensures
            final(self).state() == (ScanState {
                results: old(self).state().results + pending(
                    old(self).state().name,
                    old(self).state().sequence,
                ),
                ..old(self).state()
            }),
    {
        if !self.name.as_str().is_empty() {
            let result = gc_for_sequence(self.name.as_str(), self.sequence.as_str());
            self.results.push(result);
        }
        assert(self.results.deep_view() == old(self).results.deep_view() + pending(
            self.name@,
            self.sequence@,
        ));
    }

    /// Reads one line, not yet trimmed.
    fn feed_line(&mut self, line: &[char])
        ensures
            final(self).state() == step(old(self).state(), trim(line@)),
    {
        assert(line@.subrange(0, line.len() as int) == line@);
        let (start, end) = trim_range(line, 0, line.len());
        if start < end && line[start] == '>' {
            self.close();
            let (name_start, name_end) = trim_range(line, start + 1, end);
            assert(line@.subrange(start as int, end as int).drop_first() == line@.subrange(
                start + 1,
                end as int,
            ));
            let mut name = String::new();
            push_range(&mut name, line, name_start, name_end);
            self.name = name;
            self.sequence = String::new();
        } else if !self.name.as_str().is_empty() {
            push_range(&mut self.sequence, line, start, end);
        }
    }

    /// Closes the open record, and gives the statistics of all records.
    fn finish(self) -> (results: Vec<GcResult>)
        ensures
            results.deep_view() == outcome(self.state(), Seq::empty()),
    {
        let mut scanner = self;
        scanner.close();
        scanner.results
    }
}

/// The GC statistics of each record of the FASTA text `fasta`, in the order of
/// their headers.
pub fn calculate_gc_content(fasta: &str) -> (results: Vec<GcResult>)
    ensures
        results.deep_view() == gc_results(fasta@),
        forall|i: int| 0 <= i < results.len() ==> results[i].wf(),
{
    broadcast use vstd::string::group_string_axioms;

    let mut scanner = Scanner::new();
    let mut line: Vec<char> = Vec::new();
    let ghost mut start: int = 0;
    assert(fasta@.skip(0) == fasta@);
    for c in it: fasta.chars()
        invariant
            it.seq() == fasta@,
            0 <= start <= it.index(),
            line@ == fasta@.subrange(start, it.index()),
            forall|j: int| start <= j < it.index() ==> fasta@[j] != '\n',
            outcome(scanner.state(), trimmed_lines(fasta@.skip(start))) == gc_results(fasta@),
    {
        if c == '\n' {
            proof {
                let rest = fasta@.skip(start);
                let n = it.index() - start;
                lemma_trimmed_lines_first(rest, n);
                assert(rest.take(n) == line@);
                assert(rest.skip(n + 1) == fasta@.skip(it.index() + 1));
                let pieces = trimmed_lines(rest);
                assert(pieces.drop_first() == trimmed_lines(fasta@.skip(it.index() + 1)));
                lemma_step(scanner.state(), pieces);
                start = it.index() + 1;
            }
            scanner.feed_line(line.as_slice());
            line.clear();
        } else {
            line.push(c);
        }
    }
    proof {
        let rest = fasta@.skip(start);
        lemma_trimmed_lines_last(rest);
        lemma_step(scanner.state(), trimmed_lines(rest));
    }
    scanner.feed_line(line.as_slice());
    let results = scanner.finish();
    proof {
        lemma_gc_results_bounded(fasta@);
        assert forall|i: int| 0 <= i < results.len() implies results[i].wf() by {
            assert(results.deep_view()[i] == results[i]@);
        }
    }
    results
}

} // verus!
