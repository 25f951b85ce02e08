//! Rows of the kernel's TCP connection table and the table as a whole.
use vstd::prelude::*;

use crate::scanner::{
    colon, consume_until_newline, decimal, hex_u16, hex_u8, line_len, line_length,
    spec_colon, spec_consume_until_newline, spec_decimal, spec_hex_u16, spec_hex_u8,
    spec_whitespace, whitespace, lemma_consume_until_newline,
};

verus! {

/// A kernel TCP connection state, as the table encodes it in two hex digits.
#[derive(Clone, Copy, Debug, PartialEq, Eq, Structural)]
pub enum TcpState {
    Established,
    SynSent,
    SynRecv,
    FinWait1,
    FinWait2,
    TimeWait,
    Close,
    CloseWait,
    LastAck,
    Listen,
    Closing,
    Unknown(u8),
}

pub open spec fn state_of_code(code: u8) -> TcpState {
    if code == 1 {
        TcpState::Established
    } else if code == 2 {
        TcpState::SynSent
    } else if code == 3 {
        TcpState::SynRecv
    } else if code == 4 {
        TcpState::FinWait1
    } else if code == 5 {
        TcpState::FinWait2
    } else if code == 6 {
        TcpState::TimeWait
    } else if code == 7 {
        TcpState::Close
    } else if code == 8 {
        TcpState::CloseWait
    } else if code == 9 {
        TcpState::LastAck
    } else if code == 10 {
        TcpState::Listen
    } else if code == 11 {
        TcpState::Closing
    } else {
        TcpState::Unknown(code)
    }
}

impl TcpState {
    /// The state that a kernel state code stands for; codes outside the
    /// known set are kept as `Unknown`.
    pub fn from_code(code: u8) -> (r: TcpState)
        ensures
            r == state_of_code(code),
    {
        match code {
            1 => TcpState::Established,
            2 => TcpState::SynSent,
            3 => TcpState::SynRecv,
            4 => TcpState::FinWait1,
            5 => TcpState::FinWait2,
            6 => TcpState::TimeWait,
            7 => TcpState::Close,
            8 => TcpState::CloseWait,
            9 => TcpState::LastAck,
            10 => TcpState::Listen,
            11 => TcpState::Closing,
            _ => TcpState::Unknown(code),
        }
    }
}

/// One socket of the table. Addresses are in conventional order: 127.0.0.1
/// is `0x7F00_0001`.
#[derive(Clone, Copy, Debug, PartialEq, Eq, Structural)]
pub struct ConnectionRecord {
    pub local_address: u32,
    pub local_port: u16,
    pub remote_address: u32,
    pub remote_port: u16,
    pub state: TcpState,
}

/// The address whose octets, first to last, are `a`, `b`, `c`, `d`.
pub open spec fn ipv4(a: u8, b: u8, c: u8, d: u8) -> u32 {
    (a * 16777216 + b * 65536 + c * 256 + d) as u32
}

/// An address and port as the table writes them: the address as four hex
/// bytes in the kernel's byte order (last octet first), a colon, then the
/// port as four hex digits.
pub open spec fn spec_endpoint(s: Seq<u8>) -> Option<(Seq<u8>, u32, u16)> {
    match spec_hex_u8(s) {
        None => None,
        Some((s1, b0)) => match spec_hex_u8(s1) {
            None => None,
            Some((s2, b1)) => match spec_hex_u8(s2) {
                None => None,
                Some((s3, b2)) => match spec_hex_u8(s3) {
                    None => None,
                    Some((s4, b3)) => match spec_colon(s4) {
                        None => None,
                        Some(s5) => match spec_hex_u16(s5) {
                            None => None,
                            Some((s6, port)) => Some((s6, ipv4(b3, b2, b1, b0), port)),
                        },
                    },
                },
            },
        },
    }
}

/// Whitespace if there is any, else nothing.
pub open spec fn spec_skip_whitespace(s: Seq<u8>) -> Seq<u8> {
    match spec_whitespace(s) {
        Some(rest) => rest,
        None => s,
    }
}

/// The record that one line of the table (without its newline) describes:
/// optional leading whitespace, the row number, a colon, whitespace, the
/// local endpoint, whitespace, the remote endpoint, whitespace, and the state
/// code. Whatever follows the state code is not read.
pub open spec fn spec_row(line: Seq<u8>) -> Option<ConnectionRecord> {
    match spec_decimal(spec_skip_whitespace(line)) {
        None => None,
        Some((s1, _)) => match spec_colon(s1) {
            None => None,
            Some(s2) => match spec_whitespace(s2) {
                None => None,
                Some(s3) => match spec_endpoint(s3) {
                    None => None,
                    Some((s4, la, lp)) => match spec_whitespace(s4) {
                        None => None,
                        Some(s5) => match spec_endpoint(s5) {
                            None => None,
                            Some((s6, ra, rp)) => match spec_whitespace(s6) {
                                None => None,
                                Some(s7) => match spec_hex_u8(s7) {
                                    None => None,
                                    Some((_, code)) => Some(
                                        ConnectionRecord {
                                            local_address: la,
                                            local_port: lp,
                                            remote_address: ra,
                                            remote_port: rp,
                                            state: state_of_code(code),
                                        },
                                    ),
                                },
                            },
                        },
                    },
                },
            },
        },
    }
}

/// The records of the rows of `s`, in order; a row that does not parse
/// gives none.
pub open spec fn spec_rows(s: Seq<u8>) -> Seq<ConnectionRecord>
    decreases s.len(),
{
    if s.len() == 0 {
        Seq::empty()
    } else {
        let k = line_len(s);
        let here = match spec_row(s.subrange(0, k as int)) {
            Some(r) => seq![r],
            None => Seq::empty(),
        };
        if k < s.len() {
            here + spec_rows(s.subrange(k + 1 as int, s.len() as int))
        } else {
            here
        }
    }
}

/// The records of a whole table: the first line is a header and is skipped.
pub open spec fn spec_table(s: Seq<u8>) -> Seq<ConnectionRecord> {
    spec_rows(spec_consume_until_newline(s))
}

fn endpoint(st: &[u8]) -> (r: Option<(&[u8], u32, u16)>)
    ensures
        r matches Some((rest, a, p)) ==> spec_endpoint(st@) == Some((rest@, a, p)),
        r is None ==> spec_endpoint(st@) is None,
{
    let (s1, b0) = match hex_u8(st) {
        Some(x) => x,
        None => return None,
    };
    let (s2, b1) = match hex_u8(s1) {
        Some(x) => x,
        None => return None,
    };
    let (s3, b2) = match hex_u8(s2) {
        Some(x) => x,
        None => return None,
    };
    let (s4, b3) = match hex_u8(s3) {
        Some(x) => x,
        None => return None,
    };
    let s5 = match colon(s4) {
        Some(x) => x,
        None => return None,
    };
    let (s6, port) = match hex_u16(s5) {
        Some(x) => x,
        None => return None,
    };
    let addr = (b3 as u32) * 16777216 + (b2 as u32) * 65536 + (b1 as u32) * 256 + b0 as u32;
    Some((s6, addr, port))
}

/// Parses one line of the table (without its newline) into a record.
pub fn parse_row(line: &[u8]) -> (r: Option<ConnectionRecord>)
    ensures
        r == spec_row(line@),
{
    let s0 = match whitespace(line) {
        Some(x) => x,
        None => line,
    };
    let (s1, _index) = match decimal(s0) {
        Some(x) => x,
        None => return None,
    };
    let s2 = match colon(s1) {
        Some(x) => x,
        None => return None,
    };
    let s3 = match whitespace(s2) {
        Some(x) => x,
        None => return None,
    };
    let (s4, la, lp) = match endpoint(s3) {
        Some(x) => x,
        None => return None,
    };
    let s5 = match whitespace(s4) {
        Some(x) => x,
        None => return None,
    };
    let (s6, ra, rp) = match endpoint(s5) {
        Some(x) => x,
        None => return None,
    };
    let s7 = match whitespace(s6) {
        Some(x) => x,
        None => return None,
    };
    let (_, code) = match hex_u8(s7) {
        Some(x) => x,
        None => return None,
    };
    Some(
        ConnectionRecord {
            local_address: la,
            local_port: lp,
            remote_address: ra,
            remote_port: rp,
            state: TcpState::from_code(code),
        },
    )
}

/// Parses a whole table: skips the header line, then reads every row,
/// dropping those that do not parse.
pub fn parse_table(contents: &[u8]) -> (r: Vec<ConnectionRecord>)
    ensures
        r@ == spec_table(contents@),
{
    let mut cur = consume_until_newline(contents);
    let mut out: Vec<ConnectionRecord> = Vec::new();
    while cur.len() > 0
        invariant
            out@ + spec_rows(cur@) == spec_table(contents@),
        decreases cur@.len(),
    {
        let k = line_length(cur);
        let line = &cur[0..k];
        let ghost here = match spec_row(line@) {
            Some(r) => seq![r],
            None => Seq::empty(),
        };
        let ghost old_out = out@;
        match parse_row(line) {
            Some(rec) => out.push(rec),
            None => {},
        }
        assert(out@ =~= old_out + here);
        let next = consume_until_newline(cur);
        proof {
            if k < cur@.len() {
                assert(spec_rows(cur@) == here + spec_rows(next@));
                assert(old_out + (here + spec_rows(next@)) =~= out@ + spec_rows(next@));
            } else {
                assert(spec_rows(cur@) == here);
                assert(next@ =~= Seq::<u8>::empty());
                assert(out@ + spec_rows(next@) =~= out@);
            }
        }
        cur = next;
    }
    assert(out@ + spec_rows(cur@) =~= out@);
    out
}

/// A table that holds only its header line, with or without the newline
/// that ends it, has no records.
pub proof fn lemma_header_only_table(header: Seq<u8>)
    requires
        forall|i: int| 0 <= i < header.len() ==> #[trigger] header[i] != 10,
    ensures
        spec_table(header) == Seq::<ConnectionRecord>::empty(),
        spec_table(header.push(10)) == Seq::<ConnectionRecord>::empty(),
{
    lemma_consume_until_newline(header);
    let h = header.push(10);
    lemma_consume_until_newline(h);
    assert(h[header.len() as int] == 10);
    assert(forall|i: int| 0 <= i < header.len() ==> h[i] == header[i]);
    assert(h.subrange(header.len() + 1 as int, h.len() as int) =~= Seq::<u8>::empty());
}

} // verus!
