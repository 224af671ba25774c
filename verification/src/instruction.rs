//! The command set: parsed commands, the header-line parser, and the
//! completion of a storage header with its payload.
//!
//! A header line is split on whitespace. The first token is the verb:
//! `get <key>` is complete in one line, while the storage verbs
//! `set|add|replace|append|prepend <key> <expiry_secs> <data_size>`
//! announce a payload line, so parsing them yields the
//! `InsufficientWaiting` signal carrying the header command and the
//! announced size.

use vstd::prelude::*;
use vstd::string::*;
use crate::error::{ParseError, ParseErrorModel};
use crate::text::{
    spec_parse_u128, spec_parse_usize, parse_u128_str, parse_usize_str, str_eq,
};

verus! {

/// Spec-level image of a command: keys as character sequences, payloads
/// as byte sequences.
pub ghost enum InstructionModel {
    Put { key: Seq<char>, expiry: u128, data_size: usize, data: Seq<u8> },
    Get { key: Seq<char> },
    Append { key: Seq<char>, expiry: u128, data_size: usize, data: Seq<u8> },
    Prepend { key: Seq<char>, expiry: u128, data_size: usize, data: Seq<u8> },
    Add { key: Seq<char>, expiry: u128, data_size: usize, data: Seq<u8> },
    Replace { key: Seq<char>, expiry: u128, data_size: usize, data: Seq<u8> },
}

impl InstructionModel {
    /// The same command with `data` as its payload; a retrieval command
    /// is unchanged.
    pub open spec fn with_data(self, data: Seq<u8>) -> InstructionModel {
        match self {
            InstructionModel::Put { key, expiry, data_size, .. } => InstructionModel::Put {
                key,
                expiry,
                data_size,
                data,
            },
            InstructionModel::Append { key, expiry, data_size, .. } => InstructionModel::Append {
                key,
                expiry,
                data_size,
                data,
            },
            InstructionModel::Prepend { key, expiry, data_size, .. } => InstructionModel::Prepend {
                key,
                expiry,
                data_size,
                data,
            },
            InstructionModel::Add { key, expiry, data_size, .. } => InstructionModel::Add {
                key,
                expiry,
                data_size,
                data,
            },
            InstructionModel::Replace { key, expiry, data_size, .. } => InstructionModel::Replace {
                key,
                expiry,
                data_size,
                data,
            },
            InstructionModel::Get { key } => InstructionModel::Get { key },
        }
    }
}

/// A parsed command. Storage commands carry an opaque byte payload of the
/// length announced in their header line.
#[derive(Debug, Clone)]
pub enum Instruction {
    Put { key: String, expiry: u128, data_size: usize, data: Vec<u8> },
    Get { key: String },
    Append { key: String, expiry: u128, data_size: usize, data: Vec<u8> },
    Prepend { key: String, expiry: u128, data_size: usize, data: Vec<u8> },
    Add { key: String, expiry: u128, data_size: usize, data: Vec<u8> },
    Replace { key: String, expiry: u128, data_size: usize, data: Vec<u8> },
}

impl View for Instruction {
    type V = InstructionModel;

    open spec fn view(&self) -> InstructionModel {
        match self {
            Instruction::Put { key, expiry, data_size, data } => InstructionModel::Put {
                key: key@,
                expiry: *expiry,
                data_size: *data_size,
                data: data@,
            },
            Instruction::Get { key } => InstructionModel::Get { key: key@ },
            Instruction::Append { key, expiry, data_size, data } => InstructionModel::Append {
                key: key@,
                expiry: *expiry,
                data_size: *data_size,
                data: data@,
            },
            Instruction::Prepend { key, expiry, data_size, data } => InstructionModel::Prepend {
                key: key@,
                expiry: *expiry,
                data_size: *data_size,
                data: data@,
            },
            Instruction::Add { key, expiry, data_size, data } => InstructionModel::Add {
                key: key@,
                expiry: *expiry,
                data_size: *data_size,
                data: data@,
            },
            Instruction::Replace { key, expiry, data_size, data } => InstructionModel::Replace {
                key: key@,
                expiry: *expiry,
                data_size: *data_size,
                data: data@,
            },
        }
    }
}

/// Whether `c` separates tokens of a header line.
pub open spec fn is_ws(c: char) -> bool {
    c == ' ' || c == '\t' || c == '\n' || c == '\r' || c as u32 == 11 || c as u32 == 12
}

/// The first position at or after `i` holding a non-whitespace character,
/// or the end of `s`.
pub open spec fn spec_skip_ws(s: Seq<char>, i: int) -> int
    decreases s.len() - i,
{
    if i < 0 || i >= s.len() {
        s.len() as int
    } else if is_ws(s[i]) {
        spec_skip_ws(s, i + 1)
    } else {
        i
    }
}

/// The first position at or after `i` holding a whitespace character, or
/// the end of `s`.
pub open spec fn spec_token_end(s: Seq<char>, i: int) -> int
    decreases s.len() - i,
{
    if i < 0 || i >= s.len() {
        s.len() as int
    } else if !is_ws(s[i]) {
        spec_token_end(s, i + 1)
    } else {
        i
    }
}

/// The next whitespace-separated token of `s` at or after position `i`,
/// with the position just past it.
pub open spec fn spec_next_token(s: Seq<char>, i: int) -> Option<(Seq<char>, int)> {
    let j = spec_skip_ws(s, i);
    if j >= s.len() {
        None
    } else {
        let k = spec_token_end(s, j);
        Some((s.subrange(j, k), k))
    }
}

/// The `<key> <expiry_secs> <data_size>` fields of a storage header,
/// read from `s` after the verb ends at `after_verb`.
pub open spec fn spec_parse_fields(s: Seq<char>, after_verb: int) -> Option<
    (Seq<char>, u128, usize),
> {
    match spec_next_token(s, after_verb) {
        None => None,
        Some((key, p1)) => match spec_next_token(s, p1) {
            None => None,
            Some((etok, p2)) => match spec_parse_u128(etok) {
                None => None,
                Some(expiry) => match spec_next_token(s, p2) {
                    None => None,
                    Some((stok, _)) => match spec_parse_usize(stok) {
                        None => None,
                        Some(ds) => Some((key, expiry, ds)),
                    },
                },
            },
        },
    }
}

/// What parsing one header line yields: a complete `get`, the
/// `InsufficientWaiting` signal for a storage verb (its payload still
/// empty), or `InvalidInstruction`.
pub open spec fn spec_parse_line(s: Seq<char>) -> Result<InstructionModel, ParseErrorModel> {
    match spec_next_token(s, 0) {
        None => Err(ParseErrorModel::InvalidInstruction),
        Some((verb, p)) => if verb == "get"@ {
            match spec_next_token(s, p) {
                None => Err(ParseErrorModel::InvalidInstruction),
                Some((key, _)) => Ok(InstructionModel::Get { key }),
            }
        } else if verb == "set"@ {
            match spec_parse_fields(s, p) {
                None => Err(ParseErrorModel::InvalidInstruction),
                Some((key, expiry, ds)) => Err(ParseErrorModel::InsufficientWaiting(
                    InstructionModel::Put { key, expiry, data_size: ds, data: Seq::empty() },
                    ds,
                )),
            }
        } else if verb == "append"@ {
            match spec_parse_fields(s, p) {
                None => Err(ParseErrorModel::InvalidInstruction),
                Some((key, expiry, ds)) => Err(ParseErrorModel::InsufficientWaiting(
                    InstructionModel::Append { key, expiry, data_size: ds, data: Seq::empty() },
                    ds,
                )),
            }
        } else if verb == "prepend"@ {
            match spec_parse_fields(s, p) {
                None => Err(ParseErrorModel::InvalidInstruction),
                Some((key, expiry, ds)) => Err(ParseErrorModel::InsufficientWaiting(
                    InstructionModel::Prepend { key, expiry, data_size: ds, data: Seq::empty() },
                    ds,
                )),
            }
        } else if verb == "add"@ {
            match spec_parse_fields(s, p) {
                None => Err(ParseErrorModel::InvalidInstruction),
                Some((key, expiry, ds)) => Err(ParseErrorModel::InsufficientWaiting(
                    InstructionModel::Add { key, expiry, data_size: ds, data: Seq::empty() },
                    ds,
                )),
            }
        } else if verb == "replace"@ {
            match spec_parse_fields(s, p) {
                None => Err(ParseErrorModel::InvalidInstruction),
                Some((key, expiry, ds)) => Err(ParseErrorModel::InsufficientWaiting(
                    InstructionModel::Replace { key, expiry, data_size: ds, data: Seq::empty() },
                    ds,
                )),
            }
        } else {
            Err(ParseErrorModel::InvalidInstruction)
        },
    }
}

/// What parsing a header line together with an already-read payload line
/// yields. Only the verbs `set`, `append` and `prepend` accept this form.
pub open spec fn spec_parse_ins_with_data(s: Seq<char>, data: Seq<u8>) -> Result<
    InstructionModel,
    ParseErrorModel,
> {
    match spec_next_token(s, 0) {
        None => Err(ParseErrorModel::InvalidInstruction),
        Some((verb, _)) => if verb == "set"@ || verb == "append"@ || verb == "prepend"@ {
            match spec_parse_line(s) {
                Ok(m) => Ok(m.with_data(data)),
                Err(ParseErrorModel::InsufficientWaiting(m, _)) => Ok(m.with_data(data)),
                Err(e) => Err(e),
            }
        } else {
            Err(ParseErrorModel::InvalidInstruction)
        },
    }
}

/// The spec-level image of a parse result.
pub open spec fn parse_result_view(r: Result<Instruction, ParseError>) -> Result<
    InstructionModel,
    ParseErrorModel,
> {
    match r {
        Ok(ins) => Ok(ins@),
        Err(e) => Err(e@),
    }
}

fn is_ws_exec(c: char) -> (r: bool)
    ensures
        r == is_ws(c),
{
    c == ' ' || c == '\t' || c == '\n' || c == '\r' || c as u32 == 11 || c as u32 == 12
}

/// The next whitespace-separated token of `s` at or after position `from`.
fn next_token(s: &str, from: usize) -> (r: Option<(String, usize)>)
    ensures
        match r {
            None => spec_next_token(s@, from as int) is None,
            Some(t) => spec_next_token(s@, from as int) == Some((t.0@, t.1 as int)),
        },
{
    let n = s.unicode_len();
    let mut j = from;
    while j < n && is_ws_exec(s.get_char(j))
        invariant
            from <= j,
            n == s@.len(),
            j <= n || j == from,
            spec_skip_ws(s@, from as int) == spec_skip_ws(s@, j as int),
        decreases n - j,
    {
        j = j + 1;
    }
    if j >= n {
        assert(spec_skip_ws(s@, from as int) == s@.len());
        return None;
    }
    assert(spec_skip_ws(s@, from as int) == j);
    let start = j;
    let mut k = j;
    while k < n && !is_ws_exec(s.get_char(k))
        invariant
            start <= k <= n,
            n == s@.len(),
            spec_token_end(s@, start as int) == spec_token_end(s@, k as int),
        decreases n - k,
    {
        k = k + 1;
    }
    assert(spec_token_end(s@, start as int) == k);
    let tok = s.substring_char(start, k).to_owned();
    Some((tok, k))
}

/// The `<key> <expiry_secs> <data_size>` fields of a storage header.
fn parse_fields(s: &str, after_verb: usize) -> (r: Option<(String, u128, usize)>)
    ensures
        match r {
            None => spec_parse_fields(s@, after_verb as int) is None,
            Some(t) => spec_parse_fields(s@, after_verb as int) == Some(
                (t.0@, t.1, t.2),
            ),
        },
{
    let (key, p1) = match next_token(s, after_verb) {
        None => {
            return None;
        },
        Some(t) => t,
    };
    let (etok, p2) = match next_token(s, p1) {
        None => {
            return None;
        },
        Some(t) => t,
    };
    let expiry = match parse_u128_str(etok.as_str()) {
        None => {
            return None;
        },
        Some(v) => v,
    };
    let (stok, _p3) = match next_token(s, p2) {
        None => {
            return None;
        },
        Some(t) => t,
    };
    let ds = match parse_usize_str(stok.as_str()) {
        None => {
            return None;
        },
        Some(v) => v,
    };
    Some((key, expiry, ds))
}

/// Parses one header line.
pub fn parse_string(line: String) -> (r: Result<Instruction, ParseError>)
    ensures
        parse_result_view(r) == spec_parse_line(line@),
{
    let s = line.as_str();
    let (verb, p) = match next_token(s, 0) {
        None => {
            return Err(ParseError::InvalidInstruction);
        },
        Some(t) => t,
    };
    if str_eq(verb.as_str(), "get") {
        match next_token(s, p) {
            None => Err(ParseError::InvalidInstruction),
            Some((key, _)) => Ok(Instruction::Get { key }),
        }
    } else if str_eq(verb.as_str(), "set") {
        match parse_fields(s, p) {
            None => Err(ParseError::InvalidInstruction),
            Some((key, expiry, ds)) => Err(ParseError::InsufficientWaiting(
                Instruction::Put { key, expiry, data_size: ds, data: Vec::new() },
                ds,
            )),
        }
    } else if str_eq(verb.as_str(), "append") {
        match parse_fields(s, p) {
            None => Err(ParseError::InvalidInstruction),
            Some((key, expiry, ds)) => Err(ParseError::InsufficientWaiting(
                Instruction::Append { key, expiry, data_size: ds, data: Vec::new() },
                ds,
            )),
        }
    } else if str_eq(verb.as_str(), "prepend") {
        match parse_fields(s, p) {
            None => Err(ParseError::InvalidInstruction),
            Some((key, expiry, ds)) => Err(ParseError::InsufficientWaiting(
                Instruction::Prepend { key, expiry, data_size: ds, data: Vec::new() },
                ds,
            )),
        }
    } else if str_eq(verb.as_str(), "add") {
        match parse_fields(s, p) {
            None => Err(ParseError::InvalidInstruction),
            Some((key, expiry, ds)) => Err(ParseError::InsufficientWaiting(
                Instruction::Add { key, expiry, data_size: ds, data: Vec::new() },
                ds,
            )),
        }
    } else if str_eq(verb.as_str(), "replace") {
        match parse_fields(s, p) {
            None => Err(ParseError::InvalidInstruction),
            Some((key, expiry, ds)) => Err(ParseError::InsufficientWaiting(
                Instruction::Replace { key, expiry, data_size: ds, data: Vec::new() },
                ds,
            )),
        }
    } else {
        Err(ParseError::InvalidInstruction)
    }
}

/// Fills the payload of a storage header into the matching variant; a
/// retrieval command is returned unchanged.
pub fn complete_ins(ins: Instruction, data: Vec<u8>) -> (r: Instruction)
    ensures
        r@ == ins@.with_data(data@),
{
    match ins {
        Instruction::Put { key, expiry, data_size, data: _ } => Instruction::Put {
            key,
            expiry,
            data_size,
            data,
        },
        Instruction::Append { key, expiry, data_size, data: _ } => Instruction::Append {
            key,
            expiry,
            data_size,
            data,
        },
        Instruction::Prepend { key, expiry, data_size, data: _ } => Instruction::Prepend {
            key,
            expiry,
            data_size,
            data,
        },
        Instruction::Add { key, expiry, data_size, data: _ } => Instruction::Add {
            key,
            expiry,
            data_size,
            data,
        },
        Instruction::Replace { key, expiry, data_size, data: _ } => Instruction::Replace {
            key,
            expiry,
            data_size,
            data,
        },
        Instruction::Get { key } => Instruction::Get { key },
    }
}

/// Parses a header line whose payload line was already read. Only the
/// verbs `set`, `append` and `prepend` accept this two-line form here.
pub fn parse_ins_with_data(line: String, data: Vec<u8>) -> (r: Result<Instruction, ParseError>)
    ensures
        parse_result_view(r) == spec_parse_ins_with_data(line@, data@),
{
    let accepted = match next_token(line.as_str(), 0) {
        None => {
            return Err(ParseError::InvalidInstruction);
        },
        Some((verb, _)) => str_eq(verb.as_str(), "set") || str_eq(verb.as_str(), "append")
            || str_eq(verb.as_str(), "prepend"),
    };
    if !accepted {
        return Err(ParseError::InvalidInstruction);
    }
    match parse_string(line) {
        Ok(ins) => Ok(complete_ins(ins, data)),
        Err(ParseError::InsufficientWaiting(ins, _)) => Ok(complete_ins(ins, data)),
        Err(e) => Err(e),
    }
}

} // verus!
