//! Running the rows of a line program into sequences of rows.

use super::LineRow;
use vstd::prelude::*;

verus! {

/// A row of a sequence: from `address` on, the instructions belong to a line
/// of a file.
#[derive(Clone, Copy, Debug, PartialEq, Eq, Structural)]
pub struct LineProgramRow {
    /// The address of the first instruction.
    pub address: u64,
    /// The index of the file among the files of the line program.
    pub file_index: u64,
    /// The line; zero where it is not known.
    pub line: u32,
}

/// A sequence of rows with ascending addresses, for the instructions from
/// `start` up to `end`.
#[derive(Debug)]
pub struct LineSequence {
    /// The address of the first row.
    pub start: u64,
    /// The address of the row that ended the sequence.
    pub end: u64,
    /// The rows.
    pub rows: Vec<LineProgramRow>,
}

/// A sequence as plain values.
pub struct Sequence {
    /// The address of the first row.
    pub start: u64,
    /// The address of the row that ended the sequence.
    pub end: u64,
    /// The rows.
    pub rows: Seq<LineProgramRow>,
}

impl View for LineSequence {
    type V = Sequence;

    open spec fn view(&self) -> Sequence {
        Sequence { start: self.start, end: self.end, rows: self.rows@ }
    }
}

impl DeepView for LineSequence {
    type V = Sequence;

    open spec fn deep_view(&self) -> Sequence {
        self@
    }
}

/// How far a line program has run: the sequences it has closed, and the rows
/// of the sequence it is in.
pub struct Run {
    /// The sequences that were closed, in the order in which they were.
    pub closed: Seq<Sequence>,
    /// The rows of the sequence that is open.
    pub open: Seq<LineProgramRow>,
}

/// The row that is kept for a row of the line program: its line is cut to
/// 32 bits.
pub open spec fn kept_row(row: LineRow) -> LineProgramRow {
    LineProgramRow {
        address: row.address,
        file_index: row.file_index,
        line: (row.line % 0x1_0000_0000) as u32,
    }
}

/// What one row does to a run.
///
/// A row that ends a sequence closes the open sequence, if it has a row; a
/// sequence that starts at address zero is dropped. Any other row is added to
/// the open sequence, with two exceptions: at the address of the row before
/// it, it takes that row's place, so that the last row at an address counts;
/// and with the file and line of the row before it, it is left out.
pub open spec fn step(run: Run, row: LineRow) -> Run {
    if row.end_sequence {
        if run.open.len() == 0 {
            run
        } else if run.open[0].address == 0 {
            Run { closed: run.closed, open: Seq::empty() }
        } else {
            Run {
                closed: run.closed.push(
                    Sequence { start: run.open[0].address, end: row.address, rows: run.open },
                ),
                open: Seq::empty(),
            }
        }
    } else if run.open.len() > 0 && run.open.last().address == row.address {
        Run { closed: run.closed, open: run.open.update(run.open.len() - 1, kept_row(row)) }
    } else if run.open.len() > 0 && run.open.last().file_index == row.file_index
        && run.open.last().line == kept_row(row).line {
        run
    } else {
        Run { closed: run.closed, open: run.open.push(kept_row(row)) }
    }
}

/// The run after all of `rows`.
pub open spec fn run_of(rows: Seq<LineRow>) -> Run
    decreases rows.len(),
{
    if rows.len() == 0 {
        Run { closed: Seq::empty(), open: Seq::empty() }
    } else {
        step(run_of(rows.drop_last()), rows.last())
    }
}

/// The number of sequences that start at or before `start`.
pub open spec fn count_up_to(sequences: Seq<Sequence>, start: u64) -> int
    decreases sequences.len(),
{
    if sequences.len() == 0 {
        0
    } else if sequences.last().start <= start {
        count_up_to(sequences.drop_last(), start) + 1
    } else {
        count_up_to(sequences.drop_last(), start)
    }
}

/// The sequences in the order of their start; sequences with the same start
/// stay in the order in which they stand.
pub open spec fn sorted_by_start(sequences: Seq<Sequence>) -> Seq<Sequence>
    decreases sequences.len(),
{
    if sequences.len() == 0 {
        Seq::empty()
    } else {
        let before = sorted_by_start(sequences.drop_last());
        before.insert(count_up_to(before, sequences.last().start), sequences.last())
    }
}

/// No sequence starts before the one before it.
pub open spec fn starts_ascend(sequences: Seq<Sequence>) -> bool {
    forall|i: int, j: int| 0 <= i < j < sequences.len() ==> sequences[i].start <= sequences[j].start
}

/// In sequences whose starts ascend, the place where the starts pass `start`
/// is the number of sequences that start at or before it.
pub proof fn lemma_count_up_to(sequences: Seq<Sequence>, start: u64, p: int)
    requires
        0 <= p <= sequences.len(),
        forall|i: int| 0 <= i < p ==> (#[trigger] sequences[i]).start <= start,
        forall|i: int| p <= i < sequences.len() ==> (#[trigger] sequences[i]).start > start,
    ensures
        count_up_to(sequences, start) == p,
    decreases sequences.len(),
{
    if sequences.len() > 0 {
        let rest = sequences.drop_last();
        assert(sequences.last() == sequences[sequences.len() - 1]);
        if p == sequences.len() {
            assert forall|i: int| 0 <= i < p - 1 implies (#[trigger] rest[i]).start <= start by {
                assert(rest[i] == sequences[i]);
            }
            lemma_count_up_to(rest, start, p - 1);
        } else {
            assert forall|i: int| 0 <= i < p implies (#[trigger] rest[i]).start <= start by {
                assert(rest[i] == sequences[i]);
            }
            assert forall|i: int| p <= i < rest.len() implies (#[trigger] rest[i]).start
                > start by {
                assert(rest[i] == sequences[i]);
            }
            lemma_count_up_to(rest, start, p);
        }
    }
}

/// The sequences of a line program in the order of their start.
pub open spec fn sequences_of(rows: Seq<LineRow>) -> Seq<Sequence> {
    sorted_by_start(run_of(rows).closed)
}

/// Runs the rows of a line program into sequences, in the order of their
/// start. Rows behind the last row that ends a sequence are dropped.
pub fn parse_line_program(rows: &Vec<LineRow>) -> (sequences: Vec<LineSequence>)
    ensures
        sequences.deep_view() == sequences_of(rows@),
        starts_ascend(sequences.deep_view()),
{
    let mut sequences: Vec<LineSequence> = Vec::new();
    let mut sequence_rows: Vec<LineProgramRow> = Vec::new();
    let mut i: usize = 0;
    assert(sequences.deep_view() =~= Seq::<Sequence>::empty());
    while i < rows.len()
        invariant
            i <= rows@.len(),
            sequence_rows@ == run_of(rows@.subrange(0, i as int)).open,
            sequences.deep_view() == sorted_by_start(run_of(rows@.subrange(0, i as int)).closed),
            starts_ascend(sequences.deep_view()),
        decreases rows@.len() - i,
    {
        proof {
            let next = rows@.subrange(0, i + 1);
            assert(next.drop_last() =~= rows@.subrange(0, i as int));
            assert(next.last() == rows@[i as int]);
        }
        let ghost before = run_of(rows@.subrange(0, i as int));
        let row: LineRow = rows[i];
        i = i + 1;
        if row.end_sequence {
            if sequence_rows.len() > 0 {
                let start: u64 = sequence_rows[0].address;
                let mut closed: Vec<LineProgramRow> = Vec::new();
                core::mem::swap(&mut closed, &mut sequence_rows);
                if start != 0 {
                    let sequence = LineSequence { start, end: row.address, rows: closed };
                    proof {
                        assert(before.closed.push(sequence@).drop_last() =~= before.closed);
                    }
                    insert_by_start(&mut sequences, sequence);
                }
            }
            continue ;
        }
        let line: u32 = (row.line % 0x1_0000_0000) as u32;
        let kept = LineProgramRow { address: row.address, file_index: row.file_index, line };
        let count: usize = sequence_rows.len();
        if count > 0 {
            let last: LineProgramRow = sequence_rows[count - 1];
            if last.address == row.address {
                sequence_rows[count - 1] = kept;
                continue ;
            }
            if last.file_index == row.file_index && last.line == line {
                continue ;
            }
        }
        sequence_rows.push(kept);
    }
    assert(rows@.subrange(0, i as int) =~= rows@);
    sequences
}

/// Puts a sequence behind the sequences that start at or before its start.
fn insert_by_start(sequences: &mut Vec<LineSequence>, sequence: LineSequence)
    requires
        starts_ascend(old(sequences).deep_view()),
    ensures
        final(sequences).deep_view() == old(sequences).deep_view().insert(
            count_up_to(old(sequences).deep_view(), sequence.start),
            sequence@,
        ),
        starts_ascend(final(sequences).deep_view()),
{
    let ghost before = sequences.deep_view();
    let start: u64 = sequence.start;
    let mut p: usize = sequences.len();
    assert(before.len() == sequences@.len());
    while p > 0 && sequences[p - 1].start > start
        invariant
            p <= sequences@.len(),
            sequences.deep_view() == before,
            before.len() == sequences@.len(),
            forall|i: int| p <= i < before.len() ==> (#[trigger] before[i]).start > start,
        decreases p,
    {
        assert(before[p - 1] == sequences@[p - 1]@);
        p = p - 1;
    }
    proof {
        assert forall|i: int| 0 <= i < p implies (#[trigger] before[i]).start <= start by {
            assert(before[p - 1] == sequences@[p - 1]@);
            if i < p - 1 {
                assert(before[i].start <= before[p - 1].start);
            }
        }
        lemma_count_up_to(before, start, p as int);
    }
    let ghost model = sequence@;
    sequences.insert(p, sequence);
    proof {
        let after = sequences.deep_view();
        assert(after =~= before.insert(p as int, model)) by {
            assert(after.len() == before.len() + 1);
            assert forall|i: int| 0 <= i < after.len() implies after[i] == before.insert(
                p as int,
                model,
            )[i] by {
                assert(after[i] == sequences@[i]@);
                if i < p {
                    assert(before[i] == old(sequences)@[i]@);
                } else if i > p {
                    assert(before[i - 1] == old(sequences)@[i - 1]@);
                }
            }
        }
        assert forall|i: int, j: int| 0 <= i < j < after.len() implies after[i].start
            <= after[j].start by {
            if i < p && j > p {
                assert(before[i].start <= start);
                assert(before[j - 1].start > start);
            } else if i < p && j < p {
                assert(before[i].start <= before[j].start);
            } else if i > p {
                assert(before[i - 1].start <= before[j - 1].start);
            }
        }
    }
}

} // verus!
