//! A compiled unit: code bytes, a constant pool and a line table.
//!
//! The line table is run-length encoded: a pair `(line, count)` says that
//! the next `count` code bytes were written for source line `line`.

use vstd::prelude::*;
use crate::opcode;
use crate::opcode::{is_jump, operand_count, operand_width};
use crate::value::Value;

verus! {

/// The little-endian bytes of a 32-bit operand.
pub open spec fn le_bytes(value: u32) -> Seq<u8> {
    seq![
        (value % 256) as u8,
        (value / 256 % 256) as u8,
        (value / 65536 % 256) as u8,
        (value / 16777216) as u8,
    ]
}

/// The 32-bit operand that starts at `at` in `code`.
pub open spec fn le_value(code: Seq<u8>, at: int) -> u32 {
    (code[at] + 256 * code[at + 1] + 65536 * code[at + 2] + 16777216 * code[at + 3]) as u32
}

/// Reading an operand gives back what was written.
pub proof fn lemma_le_round_trip(value: u32)
    ensures
        le_bytes(value).len() == 4,
        le_value(le_bytes(value), 0) == value,
{
}

/// Patching an operand changes these four bytes and no other, and the
/// operand then reads as the value that was written.
pub proof fn lemma_patched(chunk: ChunkView, index: int, value: u32)
    requires
        0 <= index,
        index + 4 <= chunk.code.len(),
    ensures
        chunk.patched(index, value).code.len() == chunk.code.len(),
        le_value(chunk.patched(index, value).code, index) == value,
        forall|i: int|
            0 <= i < chunk.code.len() && !(index <= i < index + 4) ==> chunk.patched(index, value).code[i]
                == chunk.code[i],
        chunk.patched(index, value).lines == chunk.lines,
        chunk.patched(index, value).constants == chunk.constants,
{
    lemma_le_round_trip(value);
    let patched = chunk.patched(index, value).code;
    assert(patched[index] == le_bytes(value)[0]);
    assert(patched[index + 1] == le_bytes(value)[1]);
    assert(patched[index + 2] == le_bytes(value)[2]);
    assert(patched[index + 3] == le_bytes(value)[3]);
}

/// An operand that was appended to the code reads as the value that was
/// written.
pub proof fn lemma_appended_operand(code: Seq<u8>, value: u32)
    ensures
        le_value(code + le_bytes(value), code.len() as int) == value,
        (code + le_bytes(value)).len() == code.len() + 4,
{
    lemma_le_round_trip(value);
    let longer = code + le_bytes(value);
    let at = code.len() as int;
    assert(longer[at] == le_bytes(value)[0]);
    assert(longer[at + 1] == le_bytes(value)[1]);
    assert(longer[at + 2] == le_bytes(value)[2]);
    assert(longer[at + 3] == le_bytes(value)[3]);
}

/// Line tracking: the byte that was written last has the line it was
/// written for, and the bytes before it keep theirs.
pub proof fn lemma_line_tracking(chunk: ChunkView, byte: u8, line: usize)
    requires
        chunk.lines.len() == chunk.code.len(),
    ensures
        chunk.written(byte, line).line_at(chunk.code.len() as int) == line,
        chunk.written(byte, line).lines.len() == chunk.written(byte, line).code.len(),
        forall|i: int| 0 <= i < chunk.code.len() ==> chunk.written(byte, line).line_at(i) == chunk.line_at(i),
{
}

/// Whether reading instruction after instruction from `from` on arrives
/// at `at`.
pub open spec fn reaches(code: Seq<u8>, from: int, at: int) -> bool
    decreases at - from,
{
    if from == at {
        true
    } else if from < 0 || from >= code.len() || from + 1 + operand_width(code[from]) > at {
        false
    } else {
        reaches(code, from + 1 + operand_width(code[from]), at)
    }
}

/// Whether the byte at `at` is the first byte of an instruction: an
/// opcode.
pub open spec fn is_instruction_start(code: Seq<u8>, at: int) -> bool {
    0 <= at < code.len() && reaches(code, 0, at)
}

/// Where the jump instruction at `at` leads: forward from behind its
/// operand, or for LOOP back from there by one more than its operand.
pub open spec fn jump_target(code: Seq<u8>, at: int) -> int {
    if code[at] == opcode::LOOP {
        at + 5 - le_value(code, at + 1) - 1
    } else {
        at + 5 + le_value(code, at + 1)
    }
}

/// A valid chunk: the code is a sequence of whole instructions, and every
/// jump leads to the first byte of an instruction.
pub open spec fn well_formed(code: Seq<u8>) -> bool {
    &&& reaches(code, 0, code.len() as int)
    &&& forall|at: int|
        is_instruction_start(code, at) && is_jump(#[trigger] code[at]) ==> is_instruction_start(
            code,
            jump_target(code, at),
        )
}

/// Reading on from a place that was reached: what is reached from `from`
/// and lies behind `middle`, which also is, is reached from `middle`.
pub proof fn lemma_reaches_between(code: Seq<u8>, from: int, middle: int, at: int)
    requires
        reaches(code, from, middle),
        reaches(code, from, at),
        middle <= at,
    ensures
        reaches(code, middle, at),
    decreases middle - from,
{
    if from != middle {
        lemma_reaches_between(code, from + 1 + operand_width(code[from]), middle, at);
    }
}

/// Nothing inside an instruction is reached, and the next instruction is.
pub proof fn lemma_reaches_next(code: Seq<u8>, start: int, at: int)
    requires
        reaches(code, 0, start),
        0 <= start < code.len(),
    ensures
        reaches(code, 0, start + 1 + operand_width(code[start])),
        start < at < start + 1 + operand_width(code[start]) ==> !reaches(code, 0, at),
        start < at && reaches(code, 0, at) ==> start + 1 + operand_width(code[start]) <= at,
{
    let next = start + 1 + operand_width(code[start]);
    lemma_reaches_extend(code, 0, start);
    if start < at && reaches(code, 0, at) {
        lemma_reaches_between(code, 0, start, at);
    }
}

proof fn lemma_reaches_extend(code: Seq<u8>, from: int, start: int)
    requires
        reaches(code, from, start),
        0 <= start < code.len(),
    ensures
        reaches(code, from, start + 1 + operand_width(code[start])),
    decreases start - from,
{
    let next = start + 1 + operand_width(code[start]);
    if from == start {
        assert(reaches(code, next, next));
    } else {
        lemma_reaches_extend(code, from + 1 + operand_width(code[from]), start);
    }
}

/// The line of every byte that the runs stand for, in order.
pub open spec fn expand_runs(runs: Seq<(usize, usize)>) -> Seq<usize>
    decreases runs.len(),
{
    if runs.len() == 0 {
        Seq::empty()
    } else {
        expand_runs(runs.drop_last()) + Seq::new(runs.last().1 as nat, |i: int| runs.last().0)
    }
}

/// What a chunk holds. `lines[i]` is the source line for which the code
/// byte `i` was written.
pub struct ChunkView {
    pub code: Seq<u8>,
    pub constants: Seq<Value>,
    pub lines: Seq<usize>,
}

impl ChunkView {
    pub open spec fn empty() -> ChunkView {
        ChunkView { code: Seq::empty(), constants: Seq::empty(), lines: Seq::empty() }
    }

    /// The chunk after `byte` was written for `line`.
    pub open spec fn written(self, byte: u8, line: usize) -> ChunkView {
        ChunkView { code: self.code.push(byte), lines: self.lines.push(line), ..self }
    }

    /// The chunk after all of `bytes` were written for `line`.
    pub open spec fn extended(self, bytes: Seq<u8>, line: usize) -> ChunkView {
        ChunkView {
            code: self.code + bytes,
            lines: self.lines + Seq::new(bytes.len(), |i: int| line),
            ..self
        }
    }

    /// The chunk after the four bytes at `index` were replaced by `value`.
    pub open spec fn patched(self, index: int, value: u32) -> ChunkView {
        ChunkView {
            code: self.code.subrange(0, index) + le_bytes(value) + self.code.subrange(
                index + 4,
                self.code.len() as int,
            ),
            ..self
        }
    }

    /// The line for which the byte at `index` was written, 0 where there is
    /// no such byte.
    pub open spec fn line_at(self, index: int) -> usize {
        if 0 <= index < self.lines.len() {
            self.lines[index]
        } else {
            0
        }
    }
}

pub struct Chunk {
    code: Vec<u8>,
    constants: Vec<Value>,
    lines: Vec<(usize, usize)>,
}

impl View for Chunk {
    type V = ChunkView;

    closed spec fn view(&self) -> ChunkView {
        ChunkView { code: self.code@, constants: self.constants@, lines: expand_runs(self.lines@) }
    }
}

proof fn lemma_expand_push(runs: Seq<(usize, usize)>, line: usize)
    ensures
        expand_runs(runs.push((line, 1))) == expand_runs(runs).push(line),
{
    let longer = runs.push((line, 1));
    assert(longer.drop_last() =~= runs);
    assert(Seq::new(1, |i: int| line) =~= seq![line]);
    assert(expand_runs(runs) + seq![line] =~= expand_runs(runs).push(line));
}

proof fn lemma_expand_grow(runs: Seq<(usize, usize)>)
    requires
        runs.len() > 0,
        runs.last().1 < usize::MAX,
    ensures
        expand_runs(runs.update(runs.len() - 1, (runs.last().0, (runs.last().1 + 1) as usize)))
            == expand_runs(runs).push(runs.last().0),
{
    let line = runs.last().0;
    let count = runs.last().1;
    let grown = runs.update(runs.len() - 1, (line, (count + 1) as usize));
    assert(grown.drop_last() =~= runs.drop_last());
    assert(Seq::new((count + 1) as nat, |i: int| line) =~= Seq::new(count as nat, |i: int| line).push(
        line,
    ));
    assert(expand_runs(grown) =~= expand_runs(runs).push(line));
}

proof fn lemma_expand_last_run(runs: Seq<(usize, usize)>)
    requires
        runs.len() > 0,
    ensures
        expand_runs(runs).len() == expand_runs(runs.drop_last()).len() + runs.last().1,
        forall|i: int|
            0 <= i < expand_runs(runs.drop_last()).len() ==> expand_runs(runs)[i] == expand_runs(
                runs.drop_last(),
            )[i],
        forall|i: int|
            expand_runs(runs.drop_last()).len() <= i < expand_runs(runs).len() ==> expand_runs(
                runs,
            )[i] == runs.last().0,
{
}

proof fn lemma_expand_prefix(runs: Seq<(usize, usize)>, n: int)
    requires
        0 <= n <= runs.len(),
    ensures
        expand_runs(runs.take(n)).len() <= expand_runs(runs).len(),
        forall|i: int|
            0 <= i < expand_runs(runs.take(n)).len() ==> expand_runs(runs)[i] == expand_runs(
                runs.take(n),
            )[i],
    decreases runs.len() - n,
{
    if n == runs.len() {
        assert(runs.take(n) =~= runs);
    } else {
        lemma_expand_prefix(runs, n + 1);
        assert(runs.take(n + 1).drop_last() =~= runs.take(n));
        lemma_expand_last_run(runs.take(n + 1));
    }
}

impl Chunk {
    /// The line table has one line for every code byte.
    pub open spec fn wf(&self) -> bool {
        self@.lines.len() == self@.code.len()
    }

    pub fn new() -> (chunk: Chunk)
        ensures
            chunk@ == ChunkView::empty(),
            chunk.wf(),
    {
        Chunk { code: Vec::new(), constants: Vec::new(), lines: Vec::new() }
    }

    pub fn code(&self) -> (code: &Vec<u8>)
        ensures
            code@ == self@.code,
    {
        &self.code
    }

    pub fn constants(&self) -> (constants: &Vec<Value>)
        ensures
            constants@ == self@.constants,
    {
        &self.constants
    }

    pub fn len(&self) -> (len: usize)
        ensures
            len == self@.code.len(),
    {
        self.code.len()
    }

    /// Appends `byte`, written for source line `line`.
    pub fn write(&mut self, byte: u8, line: usize)
        requires
            old(self).wf(),
        ensures
            final(self)@ == old(self)@.written(byte, line),
            final(self).wf(),
    {
        self.code.push(byte);
        assert(self.code.len() <= usize::MAX);
        self.save_line(line);
    }

    /// Appends `value` to the constant pool and returns its slot.
    pub fn add_constant(&mut self, value: Value) -> (slot: usize)
        ensures
            final(self)@ == (ChunkView { constants: old(self)@.constants.push(value), ..old(self)@ }),
            slot == old(self)@.constants.len(),
            final(self).wf() == old(self).wf(),
    {
        self.constants.push(value);
        self.constants.len() - 1
    }

    pub fn add_u8(&mut self, value: u8, line: usize)
        requires
            old(self).wf(),
        ensures
            final(self)@ == old(self)@.written(value, line),
            final(self).wf(),
    {
        self.write(value, line);
    }

    /// Appends the four little-endian bytes of `value`.
    pub fn add_u32(&mut self, value: u32, line: usize)
        requires
            old(self).wf(),
        ensures
            final(self)@ == old(self)@.extended(le_bytes(value), line),
            final(self).wf(),
    {
        let ghost before = self@;
        self.write((value % 256) as u8, line);
        self.write((value / 256 % 256) as u8, line);
        self.write((value / 65536 % 256) as u8, line);
        self.write((value / 16777216) as u8, line);
        proof {
            let after = before.extended(le_bytes(value), line);
            assert(self@.code =~= after.code);
            assert(self@.lines =~= after.lines);
        }
    }

    pub fn get_u8(&self, idx: usize) -> (byte: u8)
        requires
            idx < self@.code.len(),
        ensures
            byte == self@.code[idx as int],
    {
        self.code[idx]
    }

    /// The 32-bit operand that starts at `idx`.
    pub fn get_u32(&self, idx: usize) -> (value: u32)
        requires
            idx + 4 <= self@.code.len(),
        ensures
            value == le_value(self@.code, idx as int),
    {
        assert(self.code.len() <= usize::MAX);
        let b0: u32 = self.code[idx] as u32;
        let b1: u32 = self.code[idx + 1] as u32;
        let b2: u32 = self.code[idx + 2] as u32;
        let b3: u32 = self.code[idx + 3] as u32;
        b0 + 256 * b1 + 65536 * b2 + 16777216 * b3
    }

    /// Replaces the 32-bit operand that starts at `index`.
    pub fn overwrite_u32(&mut self, index: usize, value: u32)
        requires
            index + 4 <= old(self)@.code.len(),
        ensures
            final(self)@ == old(self)@.patched(index as int, value),
            final(self).wf() == old(self).wf(),
    {
        let ghost before = self@;
        assert(self.code.len() <= usize::MAX);
        self.code[index] = (value % 256) as u8;
        self.code[index + 1] = (value / 256 % 256) as u8;
        self.code[index + 2] = (value / 65536 % 256) as u8;
        self.code[index + 3] = (value / 16777216) as u8;
        assert(self@.code =~= before.patched(index as int, value).code);
    }

    /// The source line for which the byte at `index` was written; 0 where
    /// the chunk has no such byte.
    pub fn get_line(&self, index: usize) -> (line: usize)
        ensures
            line == self@.line_at(index as int),
    {
        let mut rest: usize = index;
        let mut i: usize = 0;
        while i < self.lines.len()
            invariant
                i <= self.lines@.len(),
                rest + expand_runs(self.lines@.take(i as int)).len() == index,
            decreases self.lines@.len() - i,
        {
            let (line, count) = self.lines[i];
            proof {
                assert(self.lines@.take(i + 1).drop_last() =~= self.lines@.take(i as int));
                lemma_expand_last_run(self.lines@.take(i + 1));
                lemma_expand_prefix(self.lines@, i + 1);
            }
            if rest < count {
                return line;
            }
            rest = rest - count;
            i += 1;
        }
        proof {
            assert(self.lines@.take(i as int) =~= self.lines@);
        }
        0
    }

    /// Records that one more byte was written for `line`.
    pub fn save_line(&mut self, line: usize)
        requires
            old(self)@.lines.len() < usize::MAX,
        ensures
            final(self)@ == (ChunkView { lines: old(self)@.lines.push(line), ..old(self)@ }),
    {
        let n: usize = self.lines.len();
        if n > 0 && self.lines[n - 1].0 == line {
            let count: usize = self.lines[n - 1].1;
            proof {
                lemma_expand_last_run(self.lines@);
                lemma_expand_grow(self.lines@);
            }
            self.lines[n - 1] = (line, count + 1);
        } else {
            proof {
                lemma_expand_push(self.lines@, line);
            }
            self.lines.push((line, 1));
        }
    }

    /// Whether the chunk is valid: whole instructions, and every jump to
    /// the first byte of an instruction.
    pub fn is_well_formed(&self) -> (valid: bool)
        ensures
            valid == well_formed(self@.code),
    {
        let len = self.code.len();
        let ghost code = self.code@;
        let mut starts: Vec<bool> = Vec::new();
        let mut n: usize = 0;
        while n < len
            invariant
                n <= len,
                starts@.len() == n,
                forall|j: int| 0 <= j < n ==> !starts@[j],
            decreases len - n,
        {
            starts.push(false);
            n += 1;
        }
        let mut i: usize = 0;
        while i < len
            invariant
                i <= len,
                len == code.len(),
                code == self.code@,
                starts@.len() == len,
                reaches(code, 0, i as int),
                forall|j: int| 0 <= j < i ==> starts@[j] == reaches(code, 0, j),
                forall|j: int| i <= j < len ==> !starts@[j],
            decreases len - i,
        {
            let width = operand_count(self.code[i]);
            proof {
                assert forall|j: int| i < j < i + 1 + width implies !reaches(code, 0, j) by {
                    lemma_reaches_next(code, i as int, j);
                }
                lemma_reaches_next(code, i as int, len as int);
            }
            if width > len - i - 1 {
                return false;
            }
            starts[i] = true;
            i = i + 1 + width;
        }
        let mut at: usize = 0;
        while at < len
            invariant
                at <= len,
                len == code.len(),
                code == self.code@,
                starts@.len() == len,
                reaches(code, 0, len as int),
                forall|j: int| 0 <= j < len ==> starts@[j] == reaches(code, 0, j),
                forall|j: int|
                    0 <= j < at && is_instruction_start(code, j) && is_jump(#[trigger] code[j])
                        ==> is_instruction_start(code, jump_target(code, j)),
            decreases len - at,
        {
            let op = self.code[at];
            if starts[at] && (op == opcode::JUMP_IF_FALSE || op == opcode::JUMP || op == opcode::LOOP || op
                == opcode::RECORD_BREAK) {
                proof {
                    lemma_reaches_next(code, at as int, len as int);
                }
                let offset = self.get_u32(at + 1) as u64;
                let behind: u64 = at as u64 + 5;
                let target: u64 = if op == opcode::LOOP {
                    if behind < offset + 1 {
                        return false;
                    }
                    behind - offset - 1
                } else {
                    if offset >= len as u64 - behind {
                        return false;
                    }
                    behind + offset
                };
                if target >= len as u64 || !starts[target as usize] {
                    return false;
                }
            }
            at += 1;
        }
        true
    }
}

} // verus!
