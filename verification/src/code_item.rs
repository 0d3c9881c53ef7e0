//! Code items: the bytecode body of a method, with its exception
//! table, and the debug-info item it points at.
//!
//! After a fixed 16-byte header come the instructions (16-bit code
//! units), a 2-byte alignment pad exactly when the instruction count is
//! odd and there are tries, the try items, and — when there are tries —
//! the encoded catch-handler list.

use crate::catch_handlers::{
    ech_chain, ech_chain_end, ech_list_bytes, ech_list_ok, EncodedCatchHandlerList,
};
use crate::codec::{le16_at, le32_at, read_u16, read_u32, write_u16, write_u32, Parsed};
use crate::leb128::{uleb_dec, uleb_enc, uleb_truncated, LebError, Uleb128};
use crate::simple::TryItem;
use vstd::prelude::*;

verus! {

/// Failure while reading a debug-info item.
#[derive(Debug, Clone, Copy, PartialEq, Eq, Structural)]
pub enum DebugInfoError {
    /// An opcode outside the defined range was met.
    InvalidOperation(u8),
    /// The item ran past the end of the buffer.
    BadOffset,
    /// A ULEB128 value was over-wide.
    BadInput,
}

/// A method body.
#[derive(Debug, PartialEq, Eq)]
pub struct CodeItem {
    /// Number of registers the method uses.
    pub registers_size: u16,
    /// Number of words of incoming arguments.
    pub ins_size: u16,
    /// Number of words of outgoing argument space.
    pub outs_size: u16,
    /// Offset of the debug-info item, or 0 if there is none.
    pub debug_info_off: u32,
    /// The instructions, as 16-bit code units.
    pub insns: Vec<u16>,
    /// The exception table.
    pub tries: Vec<TryItem>,
    /// The catch-handler list; present exactly when there are tries.
    pub handlers: Option<EncodedCatchHandlerList>,
}

/// The alignment pad before the tries: two bytes exactly when the
/// instruction count is odd and there are tries.
pub open spec fn tries_pad(insns_size: int, tries_size: int) -> int {
    if insns_size % 2 == 1 && tries_size > 0 {
        2
    } else {
        0
    }
}

/// How a decoded code item relates to the bytes it came from.
pub open spec fn code_item_parts_ok(ci: CodeItem, s: Seq<u8>, start: int, end: int) -> bool {
    let tries_size = le16_at(s, start + 6) as int;
    let insns_size = le32_at(s, start + 12) as int;
    let tries_pos = start + 16 + 2 * insns_size + tries_pad(insns_size, tries_size);
    let h_pos = tries_pos + 8 * tries_size;
    &&& ci.registers_size == le16_at(s, start)
    &&& ci.ins_size == le16_at(s, start + 2)
    &&& ci.outs_size == le16_at(s, start + 4)
    &&& ci.debug_info_off == le32_at(s, start + 8)
    &&& ci.insns@.len() == insns_size
    &&& forall|i: int| 0 <= i < insns_size ==> ci.insns@[i] == le16_at(s, start + 16 + 2 * i)
    &&& ci.tries@.len() == tries_size
    &&& forall|k: int|
        0 <= k < tries_size ==> #[trigger] ci.tries@[k] == (TryItem {
            start_addr: le32_at(s, tries_pos + 8 * k),
            insn_count: le16_at(s, tries_pos + 8 * k + 4),
            handler_off: le16_at(s, tries_pos + 8 * k + 6),
        })
    &&& if tries_size > 0 {
        &&& ci.handlers matches Some(l)
        &&& match uleb_dec(s.skip(h_pos)) {
            Some(c) => {
                &&& ci.handlers matches Some(l) && {
                    &&& l.0@.len() == c.0
                    &&& ech_chain(s, h_pos, h_pos + c.1, l.0@)
                    &&& end == ech_chain_end(s, h_pos + c.1, l.0@)
                }
            },
            None => false,
        }
    } else {
        &&& ci.handlers is None
        &&& end == h_pos
    }
}

/// Whether a whole code item parses at `start`: the fixed header and
/// instructions, the pad and tries, and — where there are tries — the
/// catch-handler list.
pub open spec fn code_item_ok(s: Seq<u8>, start: int) -> bool {
    &&& start + 16 <= s.len()
    &&& ({
        let tries_size = le16_at(s, start + 6) as int;
        let insns_size = le32_at(s, start + 12) as int;
        let tries_pos = start + 16 + 2 * insns_size + tries_pad(insns_size, tries_size);
        let h_pos = tries_pos + 8 * tries_size;
        &&& h_pos <= s.len()
        &&& (tries_size > 0 ==> ech_list_ok(s, h_pos))
    })
}

/// The concatenated wire bytes of the instruction words.
pub open spec fn insns_bytes(insns: Seq<u16>) -> Seq<u8>
    decreases insns.len(),
{
    if insns.len() == 0 {
        Seq::empty()
    } else {
        insns_bytes(insns.drop_last()) + vstd::bytes::spec_u16_to_le_bytes(insns.last())
    }
}

/// The concatenated wire bytes of the try items.
pub open spec fn tries_bytes(tries: Seq<TryItem>) -> Seq<u8>
    decreases tries.len(),
{
    if tries.len() == 0 {
        Seq::empty()
    } else {
        tries_bytes(tries.drop_last()) + crate::simple::try_item_bytes(tries.last())
    }
}

/// The wire bytes of a whole code item: header words, instructions,
/// the alignment pad when due, tries, and the handler list when there
/// are tries.
pub open spec fn code_item_bytes(ci: CodeItem) -> Seq<u8> {
    vstd::bytes::spec_u16_to_le_bytes(ci.registers_size) + vstd::bytes::spec_u16_to_le_bytes(
        ci.ins_size,
    ) + vstd::bytes::spec_u16_to_le_bytes(ci.outs_size) + vstd::bytes::spec_u16_to_le_bytes(
        ci.tries@.len() as u16,
    ) + vstd::bytes::spec_u32_to_le_bytes(ci.debug_info_off) + vstd::bytes::spec_u32_to_le_bytes(
        ci.insns@.len() as u32,
    ) + insns_bytes(ci.insns@) + (if ci.insns@.len() % 2 == 1 && ci.tries@.len() > 0 {
        vstd::bytes::spec_u16_to_le_bytes(0u16)
    } else {
        Seq::empty()
    }) + tries_bytes(ci.tries@) + (match ci.handlers {
        Some(l) => crate::leb128::uleb_enc(l.0@.len() as nat) + ech_list_bytes(l.0@),
        None => Seq::empty(),
    })
}

impl CodeItem {
    /// Decodes a code item at the cursor; it succeeds exactly when a
    /// whole code item parses there.
    #[verifier::rlimit(100)]
    pub fn read(src: &[u8], offset: &mut usize) -> (r: Result<CodeItem, LebError>)
        requires
            *old(offset) <= src@.len(),
        ensures
            r is Ok <==> code_item_ok(src@, *old(offset) as int),
            match r {
                Ok(ci) => {
                    &&& *old(offset) <= *final(offset) <= src@.len()
                    &&& code_item_parts_ok(ci, src@, *old(offset) as int, *final(offset) as int)
                },
                Err(_) => *final(offset) == *old(offset),
            },
    {
        let mut pos = *offset;
        let registers_size = match read_u16(src, &mut pos) {
            Ok(v) => v,
            Err(_) => {
                return Err(LebError::BadOffset);
            },
        };
        let ins_size = match read_u16(src, &mut pos) {
            Ok(v) => v,
            Err(_) => {
                return Err(LebError::BadOffset);
            },
        };
        let outs_size = match read_u16(src, &mut pos) {
            Ok(v) => v,
            Err(_) => {
                return Err(LebError::BadOffset);
            },
        };
        let tries_size = match read_u16(src, &mut pos) {
            Ok(v) => v,
            Err(_) => {
                return Err(LebError::BadOffset);
            },
        };
        let debug_info_off = match read_u32(src, &mut pos) {
            Ok(v) => v,
            Err(_) => {
                return Err(LebError::BadOffset);
            },
        };
        let insns_size = match read_u32(src, &mut pos) {
            Ok(v) => v,
            Err(_) => {
                return Err(LebError::BadOffset);
            },
        };
        let avail = src.len() - pos;
        if (insns_size as u64) > (avail as u64) / 2 {
            proof {
                vstd::arithmetic::div_mod::lemma_fundamental_div_mod(avail as int, 2);
            }
            return Err(LebError::BadOffset);
        }
        proof {
            vstd::arithmetic::div_mod::lemma_fundamental_div_mod(avail as int, 2);
            vstd::arithmetic::mul::lemma_mul_inequality(insns_size as int, (avail as int) / 2, 2);
        }
        assert(pos + 2 * (insns_size as int) <= src@.len());
        let ghost insns_base = pos as int;
        let mut insns: Vec<u16> = Vec::new();
        let mut i: u32 = 0;
        while i < insns_size
            invariant
                0 <= i <= insns_size,
                pos == insns_base + 2 * (i as int),
                insns_base + 2 * (insns_size as int) <= src@.len(),
                insns@.len() == i,
                forall|j: int| 0 <= j < i ==> insns@[j] == le16_at(src@, insns_base + 2 * j),
            decreases insns_size - i,
        {
            let w = match read_u16(src, &mut pos) {
                Ok(v) => v,
                Err(_) => {
                    proof {
                        assert(false);
                    }
                    return Err(LebError::BadOffset);
                },
            };
            insns.push(w);
            i = i + 1;
        }
        if insns_size % 2 == 1 && tries_size > 0 {
            match read_u16(src, &mut pos) {
                Ok(_) => {},
                Err(_) => {
                    return Err(LebError::BadOffset);
                },
            }
        }
        let ghost tries_base = pos as int;
        let avail2 = src.len() - pos;
        if (tries_size as u64) > (avail2 as u64) / 8 {
            proof {
                vstd::arithmetic::div_mod::lemma_fundamental_div_mod(avail2 as int, 8);
            }
            return Err(LebError::BadOffset);
        }
        proof {
            vstd::arithmetic::div_mod::lemma_fundamental_div_mod(avail2 as int, 8);
            vstd::arithmetic::mul::lemma_mul_inequality(tries_size as int, (avail2 as int) / 8, 8);
        }
        assert(pos + 8 * (tries_size as int) <= src@.len());
        let mut tries: Vec<TryItem> = Vec::new();
        let mut k: u16 = 0;
        while k < tries_size
            invariant
                0 <= k <= tries_size,
                pos == tries_base + 8 * (k as int),
                tries_base + 8 * (tries_size as int) <= src@.len(),
                tries@.len() == k,
                forall|j: int|
                    0 <= j < k ==> #[trigger] tries@[j] == (TryItem {
                        start_addr: le32_at(src@, tries_base + 8 * j),
                        insn_count: le16_at(src@, tries_base + 8 * j + 4),
                        handler_off: le16_at(src@, tries_base + 8 * j + 6),
                    }),
            decreases tries_size - k,
        {
            let t = match TryItem::read(src, &mut pos) {
                Ok(v) => v,
                Err(_) => {
                    proof {
                        assert(false);
                    }
                    return Err(LebError::BadOffset);
                },
            };
            tries.push(t);
            k = k + 1;
        }
        let handlers = if tries_size > 0 {
            match EncodedCatchHandlerList::read(src, &mut pos) {
                Ok(l) => Some(l),
                Err(e) => {
                    return Err(e);
                },
            }
        } else {
            None
        };
        *offset = pos;
        Ok(
            CodeItem {
                registers_size,
                ins_size,
                outs_size,
                debug_info_off,
                insns,
                tries,
                handlers,
            },
        )
    }

    /// Appends this item's wire bytes: header, instructions, the
    /// alignment pad when due, tries and handlers.
    pub fn write(&self, dst: &mut Vec<u8>)
        requires
            self.insns@.len() <= u32::MAX,
            self.tries@.len() <= u16::MAX,
            self.handlers is Some <==> self.tries@.len() > 0,
            self.handlers matches Some(l) ==> {
                &&& l.0@.len() <= u64::MAX
                &&& forall|j: int|
                    0 <= j < l.0@.len() ==> {
                        &&& crate::catch_handlers::size_abs(#[trigger] l.0@[j].1.size as int)
                            == l.0@[j].1.handlers@.len()
                        &&& (l.0@[j].1.size <= 0 <==> l.0@[j].1.catch_all_addr is Some)
                    }
            },
        ensures
            final(dst)@ == old(dst)@ + code_item_bytes(*self),
    {
        write_u16(dst, self.registers_size);
        write_u16(dst, self.ins_size);
        write_u16(dst, self.outs_size);
        write_u16(dst, self.tries.len() as u16);
        write_u32(dst, self.debug_info_off);
        write_u32(dst, self.insns.len() as u32);
        let ghost header_done = dst@;
        let mut i: usize = 0;
        while i < self.insns.len()
            invariant
                0 <= i <= self.insns@.len(),
                dst@ == header_done + insns_bytes(self.insns@.take(i as int)),
            decreases self.insns@.len() - i,
        {
            write_u16(dst, self.insns[i]);
            proof {
                assert(self.insns@.take(i + 1).drop_last() =~= self.insns@.take(i as int));
                assert(self.insns@.take(i + 1).last() == self.insns@[i as int]);
            }
            i = i + 1;
        }
        assert(self.insns@.take(self.insns@.len() as int) =~= self.insns@);
        if self.insns.len() % 2 == 1 && self.tries.len() > 0 {
            write_u16(dst, 0);
        }
        let ghost tries_done = dst@;
        let mut k: usize = 0;
        while k < self.tries.len()
            invariant
                0 <= k <= self.tries@.len(),
                dst@ == tries_done + tries_bytes(self.tries@.take(k as int)),
            decreases self.tries@.len() - k,
        {
            self.tries[k].write(dst);
            proof {
                assert(self.tries@.take(k + 1).drop_last() =~= self.tries@.take(k as int));
                assert(self.tries@.take(k + 1).last() == self.tries@[k as int]);
            }
            k = k + 1;
        }
        assert(self.tries@.take(self.tries@.len() as int) =~= self.tries@);
        match &self.handlers {
            Some(l) => {
                l.write(dst);
            },
            None => {},
        }
        assert(dst@ =~= old(dst)@ + code_item_bytes(*self));
    }
}

/// Where there are tries, the pad rule puts the first try item at a
/// 4-byte-aligned offset from the start of the code item.
pub proof fn lemma_tries_alignment(ci: CodeItem, s: Seq<u8>, start: int, end: int)
    requires
        code_item_parts_ok(ci, s, start, end),
        ci.tries@.len() > 0,
    ensures
        ({
            let tries_size = le16_at(s, start + 6) as int;
            let insns_size = le32_at(s, start + 12) as int;
            let tries_pos = start + 16 + 2 * insns_size + tries_pad(insns_size, tries_size);
            (tries_pos - start) % 4 == 0
        }),
{
    let insns_size = le32_at(s, start + 12) as int;
    vstd::arithmetic::div_mod::lemma_fundamental_div_mod(insns_size, 2);
    vstd::arithmetic::div_mod::lemma_mod_division_less_than_divisor(insns_size, 2);
    let q = insns_size / 2;
    if insns_size % 2 == 1 {
        assert((16 + 2 * (2 * q + 1) + 2) % 4 == 0) by {
            vstd::arithmetic::div_mod::lemma_mod_multiples_vanish(q + 5, 0, 4);
        }
    } else {
        assert((16 + 2 * (2 * q)) % 4 == 0) by {
            vstd::arithmetic::div_mod::lemma_mod_multiples_vanish(q + 4, 0, 4);
        }
    }
}

/// The line table and parameter names attached to a method.
#[derive(Debug, PartialEq, Eq, Clone)]
pub struct DebugInfoItem {
    /// The line number where this item's state machine starts.
    pub line_start: u64,
    /// One entry per method parameter: the string-pool index of its
    /// name, or `None` for an unnamed parameter.
    pub parameter_names: Vec<Option<u64>>,
}

/// The parse of one ULEB128p1 parameter name at the head of `s`.
pub open spec fn p1_dec(s: Seq<u8>) -> Parsed<Option<u64>> {
    match uleb_dec(s) {
        Some(p) => Parsed::Value(
            if p.0 == 0 {
                None
            } else {
                Some((p.0 - 1) as u64)
            },
            p.1,
        ),
        None => if uleb_truncated(s) {
            Parsed::Truncated
        } else {
            Parsed::Invalid
        },
    }
}

/// The parse of a run of `count` parameter names at the head of `s`.
pub open spec fn p1_run(s: Seq<u8>, count: nat) -> Parsed<Seq<Option<u64>>>
    decreases count,
{
    if count == 0 {
        Parsed::Value(Seq::empty(), 0)
    } else {
        match p1_dec(s) {
            Parsed::Value(v, n) => match p1_run(s.skip(n as int), (count - 1) as nat) {
                Parsed::Value(vs, m) => Parsed::Value(seq![v] + vs, n + m),
                Parsed::Truncated => Parsed::Truncated,
                Parsed::Invalid => Parsed::Invalid,
            },
            Parsed::Truncated => Parsed::Truncated,
            Parsed::Invalid => Parsed::Invalid,
        }
    }
}

/// A parsed name run has one entry per count and stays within the
/// sequence.
pub proof fn lemma_p1_run_len(s: Seq<u8>, count: nat)
    ensures
        p1_run(s, count) matches Parsed::Value(vs, n) ==> vs.len() == count && n <= s.len(),
    decreases count,
{
    if count > 0 {
        crate::leb128::lemma_uleb_dec_rem_bound(s, crate::leb128::MAX_LEB_LEN as nat);
        if let Parsed::Value(v, n) = p1_dec(s) {
            lemma_p1_run_len(s.skip(n as int), (count - 1) as nat);
        }
    }
}

/// A parsed prefix of a name run continues with the parse of the rest.
pub proof fn lemma_p1_run_split(s: Seq<u8>, i: nat, count: nat)
    requires
        i <= count,
        p1_run(s, i) matches Parsed::Value(vs, n),
    ensures
        p1_run(s, i) matches Parsed::Value(vs, n) ==> p1_run(s, count) == (match p1_run(
            s.skip(n as int),
            (count - i) as nat,
        ) {
            Parsed::Value(vs2, m) => Parsed::Value(vs + vs2, n + m),
            Parsed::Truncated => Parsed::<Seq<Option<u64>>>::Truncated,
            Parsed::Invalid => Parsed::<Seq<Option<u64>>>::Invalid,
        }),
    decreases i,
{
    lemma_p1_run_len(s, i);
    if let Parsed::Value(vs, n) = p1_run(s, i) {
        if i == 0 {
            assert(s.skip(0) =~= s);
            assert(vs =~= Seq::<Option<u64>>::empty());
            if let Parsed::Value(vs2, m) = p1_run(s, count) {
                assert(vs + vs2 =~= vs2);
            }
        } else {
            if let Parsed::Value(v0, n0) = p1_dec(s) {
                crate::leb128::lemma_uleb_dec_rem_bound(s, crate::leb128::MAX_LEB_LEN as nat);
                let s1 = s.skip(n0 as int);
                if let Parsed::Value(vs1, n1) = p1_run(s1, (i - 1) as nat) {
                    lemma_p1_run_len(s1, (i - 1) as nat);
                    lemma_p1_run_split(s1, (i - 1) as nat, (count - 1) as nat);
                    assert(s1.skip(n1 as int) =~= s.skip(n as int));
                    match p1_run(s.skip(n as int), (count - i) as nat) {
                        Parsed::Value(vs2, m) => {
                            assert(p1_run(s1, (count - 1) as nat) == Parsed::Value(
                                vs1 + vs2,
                                n1 + m,
                            ));
                            assert(seq![v0] + (vs1 + vs2) =~= (seq![v0] + vs1) + vs2);
                            assert(vs =~= seq![v0] + vs1);
                        },
                        _ => {},
                    }
                }
            }
        }
    }
}

/// The operations of the debug-info state machine.
#[derive(Debug, Clone, Copy, Eq, PartialEq, Structural)]
pub enum DebugInfoOperation {
    EndSequence,
    AdvancePc,
    AdvanceLine,
    StartLocal,
    StartLocalExtended,
    EndLocal,
    RestartLocal,
    SetPrologueEnd,
    SetEpilogueBegin,
    SetFile,
}

/// The standard operation a byte names, or `None` for a special
/// (line-advancing) opcode in `0x0a..=0xff`.
pub open spec fn spec_debug_op_from_u8(v: u8) -> Option<DebugInfoOperation> {
    match v {
        0x00 => Some(DebugInfoOperation::EndSequence),
        0x01 => Some(DebugInfoOperation::AdvancePc),
        0x02 => Some(DebugInfoOperation::AdvanceLine),
        0x03 => Some(DebugInfoOperation::StartLocal),
        0x04 => Some(DebugInfoOperation::StartLocalExtended),
        0x05 => Some(DebugInfoOperation::EndLocal),
        0x06 => Some(DebugInfoOperation::RestartLocal),
        0x07 => Some(DebugInfoOperation::SetPrologueEnd),
        0x08 => Some(DebugInfoOperation::SetEpilogueBegin),
        0x09 => Some(DebugInfoOperation::SetFile),
        _ => None,
    }
}

impl DebugInfoOperation {
    /// The standard operation a byte names, if any.
    pub fn from_u8(v: u8) -> (r: Option<DebugInfoOperation>)
        ensures
            r == spec_debug_op_from_u8(v),
    {
        match v {
            0x00 => Some(DebugInfoOperation::EndSequence),
            0x01 => Some(DebugInfoOperation::AdvancePc),
            0x02 => Some(DebugInfoOperation::AdvanceLine),
            0x03 => Some(DebugInfoOperation::StartLocal),
            0x04 => Some(DebugInfoOperation::StartLocalExtended),
            0x05 => Some(DebugInfoOperation::EndLocal),
            0x06 => Some(DebugInfoOperation::RestartLocal),
            0x07 => Some(DebugInfoOperation::SetPrologueEnd),
            0x08 => Some(DebugInfoOperation::SetEpilogueBegin),
            0x09 => Some(DebugInfoOperation::SetFile),
            _ => None,
        }
    }
}

/// Whether a debug-info prefix (starting line, name count and names)
/// parses at `start` and is followed at once by the end-of-sequence
/// marker — the shape this crate's writer emits.  The general opcode
/// tail is deliberately left unspecified.
pub open spec fn debug_info_prefix_ends(s: Seq<u8>, start: int) -> bool {
    match uleb_dec(s.skip(start)) {
        Some(p1) => match uleb_dec(s.skip(start + p1.1)) {
            Some(p2) => match p1_run(s.skip(start + p1.1 + p2.1), p2.0) {
                Parsed::Value(vs, nlen) => start + p1.1 + p2.1 + nlen < s.len() && s[start
                    + p1.1 + p2.1 + nlen] == 0,
                _ => false,
            },
            None => false,
        },
        None => false,
    }
}

impl DebugInfoItem {
    /// Decodes a debug-info item at the cursor: the starting line and
    /// the parameter names are decoded exactly; the opcode tail is
    /// walked up to its end marker and discarded.  The read succeeds
    /// whenever the prefix parses and ends at once.
    pub fn read(src: &[u8], offset: &mut usize) -> (r: Result<DebugInfoItem, DebugInfoError>)
        requires
            *old(offset) <= src@.len(),
        ensures
            debug_info_prefix_ends(src@, *old(offset) as int) ==> r is Ok,
            match r {
                Ok(di) => {
                    &&& uleb_dec(src@.skip(*old(offset) as int)) matches Some(p1) && {
                        &&& di.line_start == p1.0
                        &&& uleb_dec(src@.skip(*old(offset) + p1.1)) matches Some(p2) && {
                            &&& p1_run(src@.skip(*old(offset) + p1.1 + p2.1), p2.0)
                                matches Parsed::Value(vs, nlen) && {
                                &&& vs == di.parameter_names@
                                &&& *old(offset) + p1.1 + p2.1 + nlen <= *final(offset)
                            }
                        }
                    }
                    &&& *old(offset) <= *final(offset) <= src@.len()
                },
                Err(_) => *final(offset) == *old(offset),
            },
    {
        let mut pos = *offset;
        let line_start = match Uleb128::read(src, &mut pos) {
            Ok(v) => v,
            Err(e) => {
                return Err(map_leb(e));
            },
        };
        let ghost p1_end = pos as int;
        let params_size = match Uleb128::read(src, &mut pos) {
            Ok(v) => v,
            Err(e) => {
                return Err(map_leb(e));
            },
        };
        assert(src@.skip(*old(offset) as int).skip(p1_end - *old(offset)) =~= src@.skip(p1_end));
        let ghost names_start = pos as int;
        let ghost s0 = src@.skip(names_start);
        let mut parameter_names: Vec<Option<u64>> = Vec::new();
        let mut i: u64 = 0;
        while i < params_size
            invariant
                0 <= i <= params_size,
                0 <= names_start <= pos <= src@.len(),
                s0 == src@.skip(names_start),
                *offset == *old(offset),
                uleb_dec(src@.skip(*old(offset) as int)) matches Some(q1)
                    && uleb_dec(src@.skip(*old(offset) + q1.1)) matches Some(q2) && names_start
                    == *old(offset) + q1.1 + q2.1 && q2.0 == params_size,
                parameter_names@.len() == i,
                p1_run(s0, i as nat) == Parsed::<Seq<Option<u64>>>::Value(
                    parameter_names@,
                    (pos - names_start) as nat,
                ),
            decreases params_size - i,
        {
            let ghost pre = pos as int;
            let ghost n = (pre - names_start) as nat;
            proof {
                assert(s0.skip(n as int) =~= src@.skip(pre));
            }
            let name = match Uleb128::read_p1(src, &mut pos) {
                Ok(v) => v,
                Err(e) => {
                    proof {
                        lemma_p1_run_split(s0, i as nat, params_size as nat);
                        assert(!(p1_run(s0, params_size as nat) is Value));
                    }
                    return Err(map_leb(e));
                },
            };
            proof {
                let m = (pos - pre) as nat;
                if let Some(p) = uleb_dec(src@.skip(pre)) {
                    match name {
                        Some(v) => {
                            assert(p.0 != 0);
                            assert(v == p.0 - 1);
                            assert((p.0 - 1) as u64 == v);
                        },
                        None => {
                            assert(p.0 == 0);
                        },
                    }
                }
                assert(p1_dec(s0.skip(n as int)) == Parsed::<Option<u64>>::Value(name, m));
                assert(s0.skip(n as int).skip(m as int) =~= src@.skip(pos as int));
                assert(p1_run(s0.skip(n as int).skip(m as int), 0) == Parsed::<
                    Seq<Option<u64>>,
                >::Value(Seq::empty(), 0));
                assert(p1_run(s0.skip(n as int), 1) == Parsed::<Seq<Option<u64>>>::Value(
                    seq![name],
                    m,
                )) by {
                    assert(seq![name] + Seq::<Option<u64>>::empty() =~= seq![name]);
                }
                lemma_p1_run_split(s0, i as nat, (i + 1) as nat);
                assert(p1_run(s0, (i + 1) as nat) == Parsed::<Seq<Option<u64>>>::Value(
                    parameter_names@ + seq![name],
                    n + m,
                ));
            }
            let ghost old_names = parameter_names@;
            parameter_names.push(name);
            proof {
                assert(parameter_names@ =~= old_names + seq![name]);
            }
            i = i + 1;
        }
        let ghost names_end = pos as int;
        proof {
            if debug_info_prefix_ends(src@, *old(offset) as int) {
                assert(names_end < src@.len() && src@[names_end] == 0);
            }
        }
        // walk the opcode tail to its end marker, discarding it
        loop
            invariant_except_break
                pos > names_end ==> !(names_end < src@.len() && src@[names_end] == 0),
            invariant
                names_end <= pos <= src@.len(),
                *offset == *old(offset),
                debug_info_prefix_ends(src@, *old(offset) as int) ==> (names_end < src@.len()
                    && src@[names_end] == 0),
            decreases src@.len() - pos,
        {
            let ghost entry = pos as int;
            let b = match read_byte(src, &mut pos) {
                Ok(v) => v,
                Err(_) => {
                    return Err(DebugInfoError::BadOffset);
                },
            };
            if b == 0 {
                break;
            }
            proof {
                if entry == names_end {
                    assert(src@[names_end] == b && b != 0);
                }
            }
            match DebugInfoOperation::from_u8(b) {
                Some(DebugInfoOperation::EndSequence) => {
                    proof {
                        assert(false);
                    }
                    break;
                },
                Some(DebugInfoOperation::AdvancePc) => {
                    skip_uleb(src, &mut pos)?;
                },
                Some(DebugInfoOperation::AdvanceLine) => {
                    skip_sleb(src, &mut pos)?;
                },
                Some(DebugInfoOperation::StartLocal) => {
                    skip_uleb(src, &mut pos)?;
                    skip_uleb(src, &mut pos)?;
                    skip_uleb(src, &mut pos)?;
                },
                Some(DebugInfoOperation::StartLocalExtended) => {
                    skip_uleb(src, &mut pos)?;
                    skip_uleb(src, &mut pos)?;
                    skip_uleb(src, &mut pos)?;
                    skip_uleb(src, &mut pos)?;
                },
                Some(DebugInfoOperation::EndLocal) => {
                    skip_uleb(src, &mut pos)?;
                },
                Some(DebugInfoOperation::RestartLocal) => {
                    skip_uleb(src, &mut pos)?;
                },
                Some(DebugInfoOperation::SetPrologueEnd) => {},
                Some(DebugInfoOperation::SetEpilogueBegin) => {},
                Some(DebugInfoOperation::SetFile) => {
                    skip_uleb(src, &mut pos)?;
                },
                None => {
                    // a special opcode advances the state machine and
                    // carries no operands
                },
            }
        }
        proof {
            let tail = (pos - names_end) as nat;
            assert(pos - *old(offset) - (p1_end - *old(offset)) - (names_start - p1_end) - tail
                == names_end - names_start);
        }
        *offset = pos;
        Ok(DebugInfoItem { line_start, parameter_names })
    }

    /// Appends this item's wire bytes: the starting line, the
    /// parameter names, and an immediate end marker in place of the
    /// opcode tail.
    pub fn write(&self, dst: &mut Vec<u8>)
        requires
            self.parameter_names@.len() <= u64::MAX,
            forall|i: int|
                0 <= i < self.parameter_names@.len() ==> ((#[trigger] self.parameter_names@[i])
                    matches Some(v) ==> v < u64::MAX),
        ensures
            final(dst)@ == old(dst)@ + uleb_enc(self.line_start as nat) + uleb_enc(
                self.parameter_names@.len() as nat,
            ) + p1_names_bytes(self.parameter_names@) + seq![0u8],
    {
        Uleb128::write(dst, self.line_start);
        Uleb128::write(dst, self.parameter_names.len() as u64);
        let ghost mid = dst@;
        let mut i: usize = 0;
        while i < self.parameter_names.len()
            invariant
                0 <= i <= self.parameter_names@.len(),
                dst@ == mid + p1_names_bytes(self.parameter_names@.take(i as int)),
                mid == old(dst)@ + uleb_enc(self.line_start as nat) + uleb_enc(
                    self.parameter_names@.len() as nat,
                ),
                forall|j: int|
                    0 <= j < self.parameter_names@.len() ==> ((
                    #[trigger] self.parameter_names@[j]) matches Some(v) ==> v < u64::MAX),
            decreases self.parameter_names@.len() - i,
        {
            match self.parameter_names[i] {
                Some(v) => {
                    Uleb128::write(dst, v + 1);
                },
                None => {
                    Uleb128::write(dst, 0);
                },
            }
            proof {
                assert(self.parameter_names@.take(i + 1).drop_last() =~= self.parameter_names@.take(
                    i as int,
                ));
                assert(self.parameter_names@.take(i + 1).last() == self.parameter_names@[i as int]);
            }
            i = i + 1;
        }
        assert(self.parameter_names@.take(self.parameter_names@.len() as int)
            =~= self.parameter_names@);
        dst.push(0);
        assert(dst@ =~= old(dst)@ + uleb_enc(self.line_start as nat) + uleb_enc(
            self.parameter_names@.len() as nat,
        ) + p1_names_bytes(self.parameter_names@) + seq![0u8]);
    }
}

/// The concatenated ULEB128p1 bytes of a list of parameter names.
pub open spec fn p1_names_bytes(names: Seq<Option<u64>>) -> Seq<u8>
    decreases names.len(),
{
    if names.len() == 0 {
        Seq::empty()
    } else {
        p1_names_bytes(names.drop_last()) + (match names.last() {
            Some(v) => uleb_enc((v + 1) as nat),
            None => uleb_enc(0),
        })
    }
}

/// Maps a LEB failure to a debug-info failure.
fn map_leb(e: LebError) -> (r: DebugInfoError)
    ensures
        r == DebugInfoError::BadOffset <==> e == LebError::BadOffset,
        r == DebugInfoError::BadInput <==> e == LebError::BadInput,
{
    match e {
        LebError::BadOffset => DebugInfoError::BadOffset,
        LebError::BadInput => DebugInfoError::BadInput,
    }
}

/// Reads one byte of the opcode tail.
fn read_byte(src: &[u8], pos: &mut usize) -> (r: Result<u8, DebugInfoError>)
    requires
        *old(pos) <= src@.len(),
    ensures
        match r {
            Ok(b) => {
                &&& *old(pos) < src@.len()
                &&& b == src@[*old(pos) as int]
                &&& *final(pos) == *old(pos) + 1
            },
            Err(_) => *final(pos) == *old(pos) && *old(pos) >= src@.len(),
        },
{
    if *pos < src.len() {
        let b = src[*pos];
        *pos = *pos + 1;
        Ok(b)
    } else {
        Err(DebugInfoError::BadOffset)
    }
}

/// Skips one ULEB128 operand of the opcode tail.
fn skip_uleb(src: &[u8], pos: &mut usize) -> (r: Result<(), DebugInfoError>)
    requires
        *old(pos) <= src@.len(),
    ensures
        match r {
            Ok(_) => *old(pos) <= *final(pos) <= src@.len(),
            Err(_) => *final(pos) == *old(pos),
        },
{
    match Uleb128::read(src, pos) {
        Ok(_) => Ok(()),
        Err(e) => Err(map_leb(e)),
    }
}

/// Skips one SLEB128 operand of the opcode tail.
fn skip_sleb(src: &[u8], pos: &mut usize) -> (r: Result<(), DebugInfoError>)
    requires
        *old(pos) <= src@.len(),
    ensures
        match r {
            Ok(_) => *old(pos) <= *final(pos) <= src@.len(),
            Err(_) => *final(pos) == *old(pos),
        },
{
    match crate::leb128::Sleb128::read(src, pos) {
        Ok(_) => Ok(()),
        Err(e) => Err(map_leb(e)),
    }
}

} // verus!
