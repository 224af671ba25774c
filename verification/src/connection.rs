//! The line framer: turning a per-connection byte stream into commands.
//!
//! A connection holds a byte buffer and, after a storage header, a waiting
//! state carrying that header and its announced payload size.
//! [`read_instruction`](Connection::read_instruction) consumes complete
//! CRLF-terminated lines from the buffer: a header line yields a `get`
//! command, enters the waiting state, or fails; the line after a waiting
//! header is the payload and completes the command when its byte length
//! matches the announced size. When no complete line is buffered it
//! returns `InsufficientData`, and the caller feeds more bytes with
//! [`feed`](Connection::feed).
//!
//! The payload line is itself CRLF-delimited, so payloads containing CRLF
//! are not representable; the framer is strictly line-oriented.
//!
//! [`spec_drain`] is the framer's semantics, and [`lemma_reassembly`]
//! proves it reassembly-correct: however a byte stream is cut into chunks,
//! feeding and draining them one at a time yields exactly the command
//! sequence of the whole stream at once.

use vstd::prelude::*;
use vstd::utf8::{valid_utf8, decode_utf8};
use crate::error::{ParseError, ParseErrorModel};
use crate::instruction::{self, Instruction, InstructionModel, spec_parse_line};
use crate::text::bytes_to_string;

verus! {

/// Spec-level image of a framer: the buffered bytes and the waiting state.
pub ghost struct ConnectionModel {
    pub buffer: Seq<u8>,
    pub waiting: Option<(InstructionModel, usize)>,
}

/// The per-connection framer state.
pub struct Connection {
    buffer: Vec<u8>,
    waiting_instruction: Option<(Instruction, usize)>,
}

impl View for Connection {
    type V = ConnectionModel;

    closed spec fn view(&self) -> ConnectionModel {
        ConnectionModel {
            buffer: self.buffer@,
            waiting: match self.waiting_instruction {
                Some((ins, size)) => Some((ins@, size)),
                None => None,
            },
        }
    }
}

/// Whether a CRLF pair starts at position `i` of `b`.
pub open spec fn is_crlf_at(b: Seq<u8>, i: int) -> bool {
    0 <= i && i + 1 < b.len() && b[i] == 13 && b[i + 1] == 10
}

/// The position of the first CRLF pair of `b`, if any.
pub open spec fn find_crlf(b: Seq<u8>) -> Option<int>
    decreases b.len(),
{
    if b.len() < 2 {
        None
    } else if b[0] == 13 && b[1] == 10 {
        Some(0)
    } else {
        match find_crlf(b.drop_first()) {
            None => None,
            Some(j) => Some(j + 1),
        }
    }
}

/// `find_crlf` finds the first CRLF pair exactly.
pub proof fn lemma_find_crlf(b: Seq<u8>)
    ensures
        match find_crlf(b) {
            Some(i) => is_crlf_at(b, i) && forall|j: int| 0 <= j < i ==> !is_crlf_at(b, j),
            None => forall|j: int| !is_crlf_at(b, j),
        },
    decreases b.len(),
{
    if b.len() < 2 {
    } else if b[0] == 13 && b[1] == 10 {
    } else {
        lemma_find_crlf(b.drop_first());
        let rest = b.drop_first();
        match find_crlf(rest) {
            None => {
                assert forall|j: int| !is_crlf_at(b, j) by {
                    if 1 <= j && j + 1 < b.len() {
                        assert(!is_crlf_at(rest, j - 1));
                        assert(rest[j - 1] == b[j] && rest[j] == b[j + 1]);
                    }
                }
            },
            Some(k) => {
                assert(rest[k] == b[k + 1] && rest[k + 1] == b[k + 2]);
                assert(is_crlf_at(b, k + 1));
                assert forall|j: int| 0 <= j < k + 1 implies !is_crlf_at(b, j) by {
                    if 1 <= j {
                        assert(!is_crlf_at(rest, j - 1));
                        assert(rest[j - 1] == b[j] && rest[j] == b[j + 1]);
                    }
                }
            },
        }
    }
}

/// Appending bytes does not move an already-found first CRLF.
pub proof fn lemma_find_crlf_append(b: Seq<u8>, c: Seq<u8>)
    requires
        find_crlf(b) is Some,
    ensures
        find_crlf(b + c) == find_crlf(b),
    decreases b.len(),
{
    if b[0] == 13 && b[1] == 10 {
        assert((b + c)[0] == 13 && (b + c)[1] == 10);
    } else {
        lemma_find_crlf_append(b.drop_first(), c);
        assert(b.drop_first() + c =~= (b + c).drop_first());
        assert((b + c)[0] == b[0] && (b + c)[1] == b[1]);
    }
}

/// What parsing one header line of raw bytes yields: the line must be
/// UTF-8, then it is parsed as text.
pub open spec fn line_bytes_parse(line: Seq<u8>) -> Result<InstructionModel, ParseErrorModel> {
    if valid_utf8(line) {
        spec_parse_line(decode_utf8(line))
    } else {
        Err(ParseErrorModel::InvalidInstruction)
    }
}

/// Everything a framer emits and where it stops: the command and error
/// outputs of draining all complete lines, and the final waiting state and
/// residual buffer (which holds no complete line).
pub ghost struct DrainResult {
    pub outs: Seq<Result<InstructionModel, ParseErrorModel>>,
    pub waiting: Option<(InstructionModel, usize)>,
    pub buffer: Seq<u8>,
}

/// The framer's semantics: consume CRLF-terminated lines from the front of
/// `buffer` until none is complete. Out of the waiting state a line is a
/// header: a `get` is emitted, a storage header enters the waiting state
/// silently, anything else emits `InvalidInstruction`. In the waiting
/// state a line is the payload: with the announced length it completes and
/// emits the command; otherwise `InvalidData` is emitted and the waiting
/// state is kept.
pub open spec fn spec_drain(
    waiting: Option<(InstructionModel, usize)>,
    buffer: Seq<u8>,
) -> DrainResult
    decreases buffer.len(),
    via spec_drain_decreases
{
    match find_crlf(buffer) {
        None => DrainResult { outs: Seq::empty(), waiting, buffer },
        Some(i) => {
            let line = buffer.take(i);
            let rest = buffer.skip(i + 2);
            match waiting {
                Some((ins, size)) => {
                    if line.len() == size {
                        let d = spec_drain(None, rest);
                        DrainResult {
                            outs: seq![Ok(ins.with_data(line))] + d.outs,
                            waiting: d.waiting,
                            buffer: d.buffer,
                        }
                    } else {
                        let d = spec_drain(waiting, rest);
                        DrainResult {
                            outs: seq![Err(ParseErrorModel::InvalidData)] + d.outs,
                            waiting: d.waiting,
                            buffer: d.buffer,
                        }
                    }
                },
                None => {
                    match line_bytes_parse(line) {
                        Ok(m) => {
                            let d = spec_drain(None, rest);
                            DrainResult {
                                outs: seq![Ok(m)] + d.outs,
                                waiting: d.waiting,
                                buffer: d.buffer,
                            }
                        },
                        Err(ParseErrorModel::InsufficientWaiting(m, size)) => spec_drain(
                            Some((m, size)),
                            rest,
                        ),
                        Err(e) => {
                            let d = spec_drain(None, rest);
                            DrainResult {
                                outs: seq![Err(e)] + d.outs,
                                waiting: d.waiting,
                                buffer: d.buffer,
                            }
                        },
                    }
                },
            }
        },
    }
}

#[via_fn]
proof fn spec_drain_decreases(waiting: Option<(InstructionModel, usize)>, buffer: Seq<u8>) {
    lemma_find_crlf(buffer);
}

/// Extracts the first complete CRLF-terminated line of `buffer`, consuming
/// it and its terminator; `InsufficientData` when none is complete yet.
pub fn get_line(buffer: &mut Vec<u8>) -> (r: Result<Vec<u8>, ParseError>)
    ensures
        ({
            let found = find_crlf(old(buffer)@);
            match r {
                Ok(line) => (found is Some) && line@ == old(buffer)@.take(found.unwrap())
                    && final(buffer)@ == old(buffer)@.skip(found.unwrap() + 2),
                Err(e) => (found is None) && e@ == ParseErrorModel::InsufficientData
                    && final(buffer)@ == old(buffer)@,
            }
        }),
{
    proof {
        lemma_find_crlf(buffer@);
    }
    let n = buffer.len();
    let mut i: usize = 0;
    let mut found: Option<usize> = None;
    while found.is_none() && n >= 2 && i < n - 1
        invariant
            n == buffer@.len(),
            0 <= i <= n,
            match found {
                Some(k) => k == i && is_crlf_at(buffer@, i as int) && forall|j: int|
                    0 <= j < i ==> !is_crlf_at(buffer@, j),
                None => forall|j: int| 0 <= j < i ==> !is_crlf_at(buffer@, j),
            },
        decreases n - i, (if found is None { 1int } else { 0int }),
    {
        if buffer[i] == 13 && buffer[i + 1] == 10 {
            found = Some(i);
        } else {
            i = i + 1;
        }
    }
    match found {
        None => {
            proof {
                assert forall|j: int| !is_crlf_at(buffer@, j) by {
                    if 0 <= j && j + 1 < buffer@.len() {
                        assert(j < i);
                    }
                }
                assert(find_crlf(buffer@) is None);
            }
            Err(ParseError::InsufficientData)
        },
        Some(k) => {
            proof {
                assert(find_crlf(buffer@) == Some(k as int));
            }
            let mut tail = buffer.split_off(k + 2);
            buffer.truncate(k);
            core::mem::swap(buffer, &mut tail);
            proof {
                assert(tail@ =~= old(buffer)@.take(k as int));
                assert(buffer@ =~= old(buffer)@.skip(k as int + 2));
            }
            Ok(tail)
        },
    }
}

impl Connection {
    /// A fresh framer: empty buffer, not waiting for a payload.
    pub fn new() -> (r: Connection)
        ensures
            r@.buffer == Seq::<u8>::empty(),
            r@.waiting is None,
    {
        Connection { buffer: Vec::new(), waiting_instruction: None }
    }

    /// Records the storage header whose payload line is awaited.
    pub fn set_waiting(&mut self, ins: Instruction, data_size: usize)
        ensures
            final(self)@.waiting == Some((ins@, data_size)),
            final(self)@.buffer == old(self)@.buffer,
    {
        self.waiting_instruction = Some((ins, data_size));
    }

    /// Leaves the waiting state.
    pub fn clear_waiting(&mut self)
        ensures
            final(self)@.waiting is None,
            final(self)@.buffer == old(self)@.buffer,
    {
        self.waiting_instruction = None;
    }

    /// Appends bytes read from the socket to the buffer.
    pub fn feed(&mut self, data: &[u8])
        ensures
            final(self)@.buffer == old(self)@.buffer + data@,
            final(self)@.waiting == old(self)@.waiting,
    {
        let mut k: usize = 0;
        while k < data.len()
            invariant
                0 <= k <= data@.len(),
                self.buffer@ == old(self)@.buffer + data@.take(k as int),
                self.waiting_instruction == old(self).waiting_instruction,
            decreases data@.len() - k,
        {
            self.buffer.push(data[k]);
            proof {
                assert(old(self)@.buffer + data@.take(k as int + 1) =~= (old(self)@.buffer
                    + data@.take(k as int)).push(data@[k as int]));
            }
            k = k + 1;
        }
        proof {
            assert(data@.take(data@.len() as int) =~= data@);
        }
    }

    /// Produces the next command of the buffered bytes, or the error that
    /// the server replies. `InsufficientData` means no complete line is
    /// buffered: feed more bytes and call again; any header lines consumed
    /// meanwhile (entering the waiting state) are accounted for. Every
    /// other result is exactly the next output of [`spec_drain`], and the
    /// framer afterwards drains to the same end state.
    pub fn read_instruction(&mut self) -> (r: Result<Instruction, ParseError>)
        ensures
            ({
                let d0 = spec_drain(old(self)@.waiting, old(self)@.buffer);
                let d1 = spec_drain(final(self)@.waiting, final(self)@.buffer);
                match r {
                    Ok(ins) => d0.outs == seq![Ok::<InstructionModel, ParseErrorModel>(ins@)]
                        + d1.outs && d0.waiting == d1.waiting && d0.buffer == d1.buffer,
                    Err(e) => match e@ {
                        ParseErrorModel::InsufficientData => d0.outs.len() == 0
                            && final(self)@.waiting == d0.waiting
                            && final(self)@.buffer == d0.buffer,
                        _ => d0.outs == seq![
                            Err::<InstructionModel, ParseErrorModel>(e@),
                        ] + d1.outs && d0.waiting == d1.waiting && d0.buffer == d1.buffer,
                    },
                }
            }),
    {
        let ghost d0 = spec_drain(old(self)@.waiting, old(self)@.buffer);
        loop
            invariant
                d0 == spec_drain(old(self)@.waiting, old(self)@.buffer),
                spec_drain(self@.waiting, self@.buffer) == d0,
            decreases self@.buffer.len(),
        {
            let ghost pre = self@;
            let mut w: Option<(Instruction, usize)> = None;
            core::mem::swap(&mut w, &mut self.waiting_instruction);
            proof {
                lemma_find_crlf(pre.buffer);
            }
            match w {
                Some((ins, data_size)) => {
                    match get_line(&mut self.buffer) {
                        Err(e) => {
                            self.waiting_instruction = Some((ins, data_size));
                            proof {
                                assert(self@.waiting == pre.waiting && self@.buffer == pre.buffer);
                                assert(spec_drain(self@.waiting, self@.buffer).outs.len() == 0);
                                assert(d0.waiting == self@.waiting && d0.buffer == self@.buffer);
                            }
                            return Err(e);
                        },
                        Ok(line) => {
                            let ghost i = find_crlf(pre.buffer).unwrap();
                            proof {
                                assert(line@ == pre.buffer.take(i));
                                assert(self@.buffer == pre.buffer.skip(i + 2));
                            }
                            if line.len() != data_size {
                                self.waiting_instruction = Some((ins, data_size));
                                proof {
                                    assert(self@.waiting == pre.waiting);
                                    assert(d0.outs == seq![
                                        Err::<InstructionModel, ParseErrorModel>(
                                            ParseErrorModel::InvalidData,
                                        ),
                                    ] + spec_drain(self@.waiting, self@.buffer).outs);
                                    assert(d0.waiting == spec_drain(
                                        self@.waiting,
                                        self@.buffer,
                                    ).waiting && d0.buffer == spec_drain(
                                        self@.waiting,
                                        self@.buffer,
                                    ).buffer);
                                }
                                return Err(ParseError::InvalidData);
                            } else {
                                let r = instruction::complete_ins(ins, line);
                                proof {
                                    assert(self@.waiting is None);
                                    assert(d0.outs == seq![
                                        Ok::<InstructionModel, ParseErrorModel>(r@),
                                    ] + spec_drain(self@.waiting, self@.buffer).outs);
                                    assert(d0.waiting == spec_drain(
                                        self@.waiting,
                                        self@.buffer,
                                    ).waiting && d0.buffer == spec_drain(
                                        self@.waiting,
                                        self@.buffer,
                                    ).buffer);
                                }
                                return Ok(r);
                            }
                        },
                    }
                },
                None => {
                    match get_line(&mut self.buffer) {
                        Err(e) => {
                            proof {
                                assert(self@.waiting == pre.waiting && self@.buffer == pre.buffer);
                                assert(spec_drain(self@.waiting, self@.buffer).outs.len() == 0);
                                assert(d0.waiting == self@.waiting && d0.buffer == self@.buffer);
                            }
                            return Err(e);
                        },
                        Ok(line) => {
                            let ghost i = find_crlf(pre.buffer).unwrap();
                            let ghost line_view = line@;
                            proof {
                                assert(line_view == pre.buffer.take(i));
                                assert(self@.buffer == pre.buffer.skip(i + 2));
                                assert(self@.waiting is None);
                            }
                            match bytes_to_string(line) {
                                None => {
                                    proof {
                                        assert(line_bytes_parse(line_view) == Err::<
                                            InstructionModel,
                                            ParseErrorModel,
                                        >(ParseErrorModel::InvalidInstruction));
                                        assert(d0.outs == seq![
                                            Err::<InstructionModel, ParseErrorModel>(
                                                ParseErrorModel::InvalidInstruction,
                                            ),
                                        ] + spec_drain(self@.waiting, self@.buffer).outs);
                                        assert(d0.waiting == spec_drain(
                                            self@.waiting,
                                            self@.buffer,
                                        ).waiting && d0.buffer == spec_drain(
                                            self@.waiting,
                                            self@.buffer,
                                        ).buffer);
                                    }
                                    return Err(ParseError::InvalidInstruction);
                                },
                                Some(text) => {
                                    proof {
                                        assert(text@ == decode_utf8(line_view));
                                    }
                                    match instruction::parse_string(text) {
                                        Ok(ins) => {
                                            proof {
                                                assert(line_bytes_parse(line_view) == Ok::<
                                                    InstructionModel,
                                                    ParseErrorModel,
                                                >(ins@));
                                                assert(d0.outs == seq![
                                                    Ok::<InstructionModel, ParseErrorModel>(ins@),
                                                ] + spec_drain(self@.waiting, self@.buffer).outs);
                                                assert(d0.waiting == spec_drain(
                                                    self@.waiting,
                                                    self@.buffer,
                                                ).waiting && d0.buffer == spec_drain(
                                                    self@.waiting,
                                                    self@.buffer,
                                                ).buffer);
                                            }
                                            return Ok(ins);
                                        },
                                        Err(ParseError::InsufficientWaiting(ins, data_size)) => {
                                            self.waiting_instruction = Some((ins, data_size));
                                            proof {
                                                assert(line_bytes_parse(line_view) == Err::<
                                                    InstructionModel,
                                                    ParseErrorModel,
                                                >(ParseErrorModel::InsufficientWaiting(
                                                    ins@,
                                                    data_size,
                                                )));
                                                assert(spec_drain(self@.waiting, self@.buffer)
                                                    == d0);
                                            }
                                        },
                                        Err(e) => {
                                            proof {
                                                assert(line_bytes_parse(line_view) == Err::<
                                                    InstructionModel,
                                                    ParseErrorModel,
                                                >(e@));
                                                assert(d0.outs == seq![
                                                    Err::<InstructionModel, ParseErrorModel>(e@),
                                                ] + spec_drain(self@.waiting, self@.buffer).outs);
                                                assert(d0.waiting == spec_drain(
                                                    self@.waiting,
                                                    self@.buffer,
                                                ).waiting && d0.buffer == spec_drain(
                                                    self@.waiting,
                                                    self@.buffer,
                                                ).buffer);
                                            }
                                            return Err(e);
                                        },
                                    }
                                },
                            }
                        },
                    }
                },
            }
        }
    }
}

/// Draining `b + c` drains `b` first, then continues from where that
/// stopped with `c` appended: appended bytes never change what the front
/// of the buffer means.
pub proof fn lemma_drain_append(w: Option<(InstructionModel, usize)>, b: Seq<u8>, c: Seq<u8>)
    ensures
        ({
            let d = spec_drain(w, b);
            let dc = spec_drain(w, b + c);
            let dtail = spec_drain(d.waiting, d.buffer + c);
            dc.outs == d.outs + dtail.outs && dc.waiting == dtail.waiting && dc.buffer
                == dtail.buffer
        }),
    decreases b.len(),
{
    lemma_find_crlf(b);
    let d = spec_drain(w, b);
    match find_crlf(b) {
        None => {
            assert(d.outs + spec_drain(w, b + c).outs =~= spec_drain(w, b + c).outs);
        },
        Some(i) => {
            lemma_find_crlf_append(b, c);
            let line = b.take(i);
            let rest = b.skip(i + 2);
            assert((b + c).take(i) =~= line);
            assert((b + c).skip(i + 2) =~= rest + c);
            match w {
                Some((ins, size)) => {
                    if line.len() == size {
                        lemma_drain_append(None, rest, c);
                        let d2 = spec_drain(None, rest);
                        assert((seq![Ok::<InstructionModel, ParseErrorModel>(ins.with_data(line))]
                            + d2.outs) + spec_drain(d2.waiting, d2.buffer + c).outs =~= seq![
                            Ok::<InstructionModel, ParseErrorModel>(ins.with_data(line)),
                        ] + (d2.outs + spec_drain(d2.waiting, d2.buffer + c).outs));
                    } else {
                        lemma_drain_append(w, rest, c);
                        let d2 = spec_drain(w, rest);
                        assert((seq![Err::<InstructionModel, ParseErrorModel>(
                            ParseErrorModel::InvalidData,
                        )] + d2.outs) + spec_drain(d2.waiting, d2.buffer + c).outs =~= seq![
                            Err::<InstructionModel, ParseErrorModel>(ParseErrorModel::InvalidData),
                        ] + (d2.outs + spec_drain(d2.waiting, d2.buffer + c).outs));
                    }
                },
                None => {
                    match line_bytes_parse(line) {
                        Ok(m) => {
                            lemma_drain_append(None, rest, c);
                            let d2 = spec_drain(None, rest);
                            assert((seq![Ok::<InstructionModel, ParseErrorModel>(m)] + d2.outs)
                                + spec_drain(d2.waiting, d2.buffer + c).outs =~= seq![
                                Ok::<InstructionModel, ParseErrorModel>(m),
                            ] + (d2.outs + spec_drain(d2.waiting, d2.buffer + c).outs));
                        },
                        Err(ParseErrorModel::InsufficientWaiting(m, size)) => {
                            lemma_drain_append(Some((m, size)), rest, c);
                        },
                        Err(e) => {
                            lemma_drain_append(None, rest, c);
                            let d2 = spec_drain(None, rest);
                            assert((seq![Err::<InstructionModel, ParseErrorModel>(e)] + d2.outs)
                                + spec_drain(d2.waiting, d2.buffer + c).outs =~= seq![
                                Err::<InstructionModel, ParseErrorModel>(e),
                            ] + (d2.outs + spec_drain(d2.waiting, d2.buffer + c).outs));
                        },
                    }
                },
            }
        },
    }
}

/// The concatenation of a sequence of byte chunks.
pub open spec fn concat_chunks(chunks: Seq<Seq<u8>>) -> Seq<u8>
    decreases chunks.len(),
{
    if chunks.len() == 0 {
        Seq::empty()
    } else {
        chunks[0] + concat_chunks(chunks.drop_first())
    }
}

/// The outputs of a framer starting at `(waiting, buffer)` that drains,
/// feeds the next chunk, and repeats until the chunks are spent.
pub open spec fn chunked_outs(
    waiting: Option<(InstructionModel, usize)>,
    buffer: Seq<u8>,
    chunks: Seq<Seq<u8>>,
) -> Seq<Result<InstructionModel, ParseErrorModel>>
    decreases chunks.len(),
{
    let d = spec_drain(waiting, buffer);
    if chunks.len() == 0 {
        d.outs
    } else {
        d.outs + chunked_outs(d.waiting, d.buffer + chunks[0], chunks.drop_first())
    }
}

/// Reassembly correctness: however a byte stream is cut into chunks,
/// feeding and draining the chunks one at a time emits exactly the
/// command sequence of draining the whole stream at once.
pub proof fn lemma_reassembly(
    waiting: Option<(InstructionModel, usize)>,
    buffer: Seq<u8>,
    chunks: Seq<Seq<u8>>,
)
    ensures
        chunked_outs(waiting, buffer, chunks) == spec_drain(
            waiting,
            buffer + concat_chunks(chunks),
        ).outs,
    decreases chunks.len(),
{
    let d = spec_drain(waiting, buffer);
    if chunks.len() == 0 {
        assert(buffer + concat_chunks(chunks) =~= buffer);
    } else {
        lemma_drain_append(waiting, buffer, concat_chunks(chunks));
        lemma_reassembly(d.waiting, d.buffer + chunks[0], chunks.drop_first());
        assert((d.buffer + chunks[0]) + concat_chunks(chunks.drop_first()) =~= d.buffer
            + concat_chunks(chunks));
    }
}

} // verus!
