//! Encoded catch-handler lists, embedded at the tail of a code item.
//!
//! The list is a ULEB128 handler count followed by the handlers.  A
//! handler's SLEB128 size counts its typed `(type, address)` pairs; a
//! non-positive size means a catch-all address follows.  Each handler's
//! byte offset from the start of the list is recorded while decoding,
//! because try items address handlers by that offset.

use crate::codec::Parsed;
use crate::leb128::{
    lemma_uleb_dec_rem_bound, sleb_dec, uleb_dec, uleb_enc, uleb_truncated, LebError, Sleb128,
    Uleb128, MAX_LEB_LEN,
};
use vstd::prelude::*;

verus! {

/// One typed catch: an exception type index and a handler address.
#[derive(Debug, Clone, Copy, PartialEq, Eq, Structural)]
pub struct EncodedTypeAddrPair {
    /// Index into the type pool of the caught exception type.
    pub type_id: u64,
    /// Code-unit address of the handler.
    pub addr: u64,
}

/// The parse of a type-address pair at the head of `s`.
pub open spec fn tap_dec(s: Seq<u8>) -> Parsed<EncodedTypeAddrPair> {
    match uleb_dec(s) {
        Some(p1) => match uleb_dec(s.skip(p1.1 as int)) {
            Some(p2) => Parsed::Value(
                EncodedTypeAddrPair { type_id: p1.0 as u64, addr: p2.0 as u64 },
                p1.1 + p2.1,
            ),
            None => if uleb_truncated(s.skip(p1.1 as int)) {
                Parsed::Truncated
            } else {
                Parsed::Invalid
            },
        },
        None => if uleb_truncated(s) {
            Parsed::Truncated
        } else {
            Parsed::Invalid
        },
    }
}

/// A parsed pair occupies at least one byte and stays within the
/// sequence.
pub proof fn lemma_tap_dec_len(s: Seq<u8>)
    ensures
        tap_dec(s) matches Parsed::Value(p, n) ==> 1 <= n <= s.len(),
{
    lemma_uleb_dec_rem_bound(s, MAX_LEB_LEN as nat);
    if let Some(p1) = uleb_dec(s) {
        lemma_uleb_dec_rem_bound(s.skip(p1.1 as int), MAX_LEB_LEN as nat);
    }
}

/// The wire bytes of a type-address pair.
pub open spec fn tap_bytes(p: EncodedTypeAddrPair) -> Seq<u8> {
    uleb_enc(p.type_id as nat) + uleb_enc(p.addr as nat)
}

impl EncodedTypeAddrPair {
    /// Decodes a type-address pair at the cursor.
    pub fn read(src: &[u8], offset: &mut usize) -> (r: Result<EncodedTypeAddrPair, LebError>)
        requires
            *old(offset) <= src@.len(),
        ensures
            match r {
                Ok(p) => {
                    &&& tap_dec(src@.skip(*old(offset) as int)) == Parsed::Value(
                        p,
                        (*final(offset) - *old(offset)) as nat,
                    )
                    &&& *old(offset) < *final(offset) <= src@.len()
                },
                Err(e) => {
                    &&& *final(offset) == *old(offset)
                    &&& (e == LebError::BadOffset <==> tap_dec(
                        src@.skip(*old(offset) as int),
                    ) is Truncated)
                    &&& (e == LebError::BadInput <==> tap_dec(
                        src@.skip(*old(offset) as int),
                    ) is Invalid)
                },
            },
    {
        let mut pos = *offset;
        let type_id = Uleb128::read(src, &mut pos)?;
        assert(src@.skip(*old(offset) as int).skip(pos - *old(offset)) =~= src@.skip(pos as int));
        let addr = Uleb128::read(src, &mut pos)?;
        *offset = pos;
        Ok(EncodedTypeAddrPair { type_id, addr })
    }

    /// Appends this pair's wire bytes.
    pub fn write(&self, dst: &mut Vec<u8>)
        ensures
            final(dst)@ == old(dst)@ + tap_bytes(*self),
    {
        Uleb128::write(dst, self.type_id);
        Uleb128::write(dst, self.addr);
        assert(dst@ =~= old(dst)@ + tap_bytes(*self));
    }
}

/// The parse of a run of `count` type-address pairs at the head of
/// `s`.
pub open spec fn tap_run(s: Seq<u8>, count: nat) -> Parsed<Seq<EncodedTypeAddrPair>>
    decreases count,
{
    if count == 0 {
        Parsed::Value(Seq::empty(), 0)
    } else {
        match tap_dec(s) {
            Parsed::Value(p, n) => match tap_run(s.skip(n as int), (count - 1) as nat) {
                Parsed::Value(ps, m) => Parsed::Value(seq![p] + ps, n + m),
                Parsed::Truncated => Parsed::Truncated,
                Parsed::Invalid => Parsed::Invalid,
            },
            Parsed::Truncated => Parsed::Truncated,
            Parsed::Invalid => Parsed::Invalid,
        }
    }
}

/// A parsed pair run has one entry per count and stays within the
/// sequence.
pub proof fn lemma_tap_run_len(s: Seq<u8>, count: nat)
    ensures
        tap_run(s, count) matches Parsed::Value(ps, n) ==> ps.len() == count && n <= s.len(),
    decreases count,
{
    if count > 0 {
        lemma_tap_dec_len(s);
        if let Parsed::Value(p, n) = tap_dec(s) {
            lemma_tap_run_len(s.skip(n as int), (count - 1) as nat);
        }
    }
}

/// A parsed prefix of a pair run continues with the parse of the rest.
pub proof fn lemma_tap_run_split(s: Seq<u8>, i: nat, count: nat)
    requires
        i <= count,
        tap_run(s, i) matches Parsed::Value(ps, n),
    ensures
        tap_run(s, i) matches Parsed::Value(ps, n) ==> tap_run(s, count) == (match tap_run(
            s.skip(n as int),
            (count - i) as nat,
        ) {
            Parsed::Value(ps2, m) => Parsed::Value(ps + ps2, n + m),
            Parsed::Truncated => Parsed::<Seq<EncodedTypeAddrPair>>::Truncated,
            Parsed::Invalid => Parsed::<Seq<EncodedTypeAddrPair>>::Invalid,
        }),
    decreases i,
{
    lemma_tap_run_len(s, i);
    if let Parsed::Value(ps, n) = tap_run(s, i) {
        if i == 0 {
            assert(s.skip(0) =~= s);
            assert(ps =~= Seq::<EncodedTypeAddrPair>::empty());
            if let Parsed::Value(ps2, m) = tap_run(s, count) {
                assert(ps + ps2 =~= ps2);
            }
        } else {
            if let Parsed::Value(p0, n0) = tap_dec(s) {
                lemma_tap_dec_len(s);
                let s1 = s.skip(n0 as int);
                if let Parsed::Value(ps1, n1) = tap_run(s1, (i - 1) as nat) {
                    lemma_tap_run_len(s1, (i - 1) as nat);
                    lemma_tap_run_split(s1, (i - 1) as nat, (count - 1) as nat);
                    assert(s1.skip(n1 as int) =~= s.skip(n as int));
                    match tap_run(s.skip(n as int), (count - i) as nat) {
                        Parsed::Value(ps2, m) => {
                            assert(tap_run(s1, (count - 1) as nat) == Parsed::Value(
                                ps1 + ps2,
                                n1 + m,
                            ));
                            assert(seq![p0] + (ps1 + ps2) =~= (seq![p0] + ps1) + ps2);
                            assert(ps =~= seq![p0] + ps1);
                        },
                        _ => {},
                    }
                }
            }
        }
    }
}

/// Reads a run of `count` type-address pairs at the cursor.
fn read_tap_run(src: &[u8], offset: &mut usize, count: u64) -> (r: Result<
    Vec<EncodedTypeAddrPair>,
    LebError,
>)
    requires
        *old(offset) <= src@.len(),
    ensures
        match r {
            Ok(ps) => {
                &&& tap_run(src@.skip(*old(offset) as int), count as nat) == Parsed::Value(
                    ps@,
                    (*final(offset) - *old(offset)) as nat,
                )
                &&& *old(offset) <= *final(offset) <= src@.len()
                &&& ps@.len() == count
            },
            Err(e) => {
                &&& *final(offset) == *old(offset)
                &&& (e == LebError::BadOffset <==> tap_run(
                    src@.skip(*old(offset) as int),
                    count as nat,
                ) is Truncated)
                &&& (e == LebError::BadInput <==> tap_run(
                    src@.skip(*old(offset) as int),
                    count as nat,
                ) is Invalid)
            },
        },
{
    let ghost s0 = src@.skip(*old(offset) as int);
    let mut items: Vec<EncodedTypeAddrPair> = Vec::new();
    let mut pos = *offset;
    let mut i: u64 = 0;
    while i < count
        invariant
            0 <= i <= count,
            *old(offset) <= pos <= src@.len(),
            s0 == src@.skip(*old(offset) as int),
            items@.len() == i,
            tap_run(s0, i as nat) == Parsed::Value(items@, (pos - *old(offset)) as nat),
        decreases count - i,
    {
        let ghost pre = pos as int;
        let ghost n = (pre - *old(offset)) as nat;
        proof {
            assert(s0.skip(n as int) =~= src@.skip(pre));
        }
        let p = match EncodedTypeAddrPair::read(src, &mut pos) {
            Ok(p) => p,
            Err(e) => {
                proof {
                    lemma_tap_run_split(s0, i as nat, count as nat);
                }
                return Err(e);
            },
        };
        proof {
            let m = (pos - pre) as nat;
            assert(tap_dec(s0.skip(n as int)) == Parsed::Value(p, m));
            assert(s0.skip(n as int).skip(m as int) =~= src@.skip(pos as int));
            assert(tap_run(s0.skip(n as int).skip(m as int), 0) == Parsed::Value(
                Seq::<EncodedTypeAddrPair>::empty(),
                0,
            ));
            assert(tap_run(s0.skip(n as int), 1) == Parsed::Value(seq![p], m)) by {
                assert(seq![p] + Seq::<EncodedTypeAddrPair>::empty() =~= seq![p]);
            }
            lemma_tap_run_split(s0, i as nat, (i + 1) as nat);
            assert(tap_run(s0, (i + 1) as nat) == Parsed::Value(items@ + seq![p], n + m));
        }
        let ghost old_items = items@;
        items.push(p);
        proof {
            assert(items@ =~= old_items + seq![p]);
        }
        i = i + 1;
    }
    *offset = pos;
    Ok(items)
}

/// One catch handler: its typed catches and, when the stored size is
/// non-positive, a catch-all address.
#[derive(Debug, Clone, PartialEq, Eq)]
pub struct EncodedCatchHandler {
    /// The stored SLEB128 size; its magnitude is the number of typed
    /// catches, and a non-positive value announces a catch-all.
    pub size: i64,
    /// The typed catches.
    pub handlers: Vec<EncodedTypeAddrPair>,
    /// The catch-all address, present exactly when `size <= 0`.
    pub catch_all_addr: Option<u64>,
}

/// The magnitude of a handler size.
pub open spec fn size_abs(sz: int) -> nat {
    if sz < 0 {
        (-sz) as nat
    } else {
        sz as nat
    }
}

/// How a decoded catch handler relates to the bytes at the head of
/// `s`.
pub open spec fn ech_parts_ok(h: EncodedCatchHandler, s: Seq<u8>) -> bool {
    match sleb_dec(s) {
        Some(p1) => {
            &&& h.size == p1.0
            &&& match tap_run(s.skip(p1.1 as int), size_abs(p1.0)) {
                Parsed::Value(ps, n2) => {
                    &&& h.handlers@ == ps
                    &&& if p1.0 <= 0 {
                        match uleb_dec(s.skip(p1.1 + n2 as int)) {
                            Some(p3) => h.catch_all_addr == Some(p3.0 as u64),
                            None => false,
                        }
                    } else {
                        h.catch_all_addr is None
                    }
                },
                _ => false,
            }
        },
        None => false,
    }
}

/// The byte length of the catch handler at the head of `s`, when it
/// parses.
pub open spec fn ech_len(s: Seq<u8>) -> Option<nat> {
    match sleb_dec(s) {
        Some(p1) => match tap_run(s.skip(p1.1 as int), size_abs(p1.0)) {
            Parsed::Value(ps, n2) => if p1.0 <= 0 {
                match uleb_dec(s.skip(p1.1 + n2 as int)) {
                    Some(p3) => Some((p1.1 + n2 + p3.1) as nat),
                    None => None,
                }
            } else {
                Some((p1.1 + n2) as nat)
            },
            _ => None,
        },
        None => None,
    }
}

/// A catch handler that parses occupies at least one byte and stays
/// within the sequence.
pub proof fn lemma_ech_len_bound(s: Seq<u8>)
    ensures
        ech_len(s) matches Some(n) ==> 1 <= n <= s.len(),
{
    if let Some(p1) = sleb_dec(s) {
        crate::leb128::lemma_sleb_dec_rem_bound(s, MAX_LEB_LEN as nat);
        lemma_tap_run_len(s.skip(p1.1 as int), size_abs(p1.0));
        if let Parsed::Value(ps, n2) = tap_run(s.skip(p1.1 as int), size_abs(p1.0)) {
            if p1.0 <= 0 {
                lemma_uleb_dec_rem_bound(s.skip(p1.1 + n2 as int), MAX_LEB_LEN as nat);
                assert(s.skip(p1.1 + n2 as int).len() == s.len() - p1.1 - n2);
            }
        }
    }
}

impl EncodedCatchHandler {
    /// Decodes one catch handler at the cursor; it succeeds exactly
    /// when a handler parses at that position.
    pub fn read(src: &[u8], offset: &mut usize) -> (r: Result<EncodedCatchHandler, LebError>)
        requires
            *old(offset) <= src@.len(),
        ensures
            r is Ok <==> ech_len(src@.skip(*old(offset) as int)) is Some,
            match r {
                Ok(h) => {
                    &&& ech_parts_ok(h, src@.skip(*old(offset) as int))
                    &&& ech_len(src@.skip(*old(offset) as int)) == Some(
                        (*final(offset) - *old(offset)) as nat,
                    )
                    &&& *old(offset) < *final(offset) <= src@.len()
                },
                Err(_) => *final(offset) == *old(offset),
            },
    {
        let mut pos = *offset;
        let size = Sleb128::read(src, &mut pos)?;
        assert(src@.skip(*old(offset) as int).skip(pos - *old(offset)) =~= src@.skip(pos as int));
        let npairs: u64 = if size < 0 {
            if size == i64::MIN {
                // the magnitude of i64::MIN still fits in u64
                9223372036854775808u64
            } else {
                (-size) as u64
            }
        } else {
            size as u64
        };
        let handlers = read_tap_run(src, &mut pos, npairs)?;
        assert(src@.skip(*old(offset) as int).skip(pos - *old(offset)) =~= src@.skip(pos as int));
        let catch_all_addr = if size <= 0 {
            Some(Uleb128::read(src, &mut pos)?)
        } else {
            None
        };
        *offset = pos;
        Ok(EncodedCatchHandler { size, handlers, catch_all_addr })
    }

    /// Appends this handler's wire bytes.  The stored size must agree
    /// with the pair list and the catch-all presence rule.
    pub fn write(&self, dst: &mut Vec<u8>)
        requires
            size_abs(self.size as int) == self.handlers@.len(),
            self.size <= 0 <==> self.catch_all_addr is Some,
        ensures
            final(dst)@ == old(dst)@ + ech_bytes(*self),
    {
        Sleb128::write(dst, self.size);
        let ghost mid = dst@;
        let mut i: usize = 0;
        while i < self.handlers.len()
            invariant
                0 <= i <= self.handlers@.len(),
                dst@ == mid + taps_bytes(self.handlers@.take(i as int)),
                mid == old(dst)@ + crate::leb128::sleb_enc(self.size as int),
            decreases self.handlers@.len() - i,
        {
            self.handlers[i].write(dst);
            proof {
                assert(self.handlers@.take(i + 1).drop_last() =~= self.handlers@.take(i as int));
                assert(self.handlers@.take(i + 1).last() == self.handlers@[i as int]);
            }
            i = i + 1;
        }
        assert(self.handlers@.take(self.handlers@.len() as int) =~= self.handlers@);
        match self.catch_all_addr {
            Some(addr) => {
                Uleb128::write(dst, addr);
            },
            None => {},
        }
        assert(dst@ =~= old(dst)@ + ech_bytes(*self));
    }

    /// The flattened catches of this handler: each typed pair, then
    /// the catch-all (as a base-exception catch) if present.
    pub fn handlers(&self) -> (r: Vec<CatchHandler>)
        ensures
            r@.len() == self.handlers@.len() + (if self.catch_all_addr is Some {
                1int
            } else {
                0int
            }),
            forall|i: int|
                0 <= i < self.handlers@.len() ==> r@[i] == (CatchHandler {
                    exception: ExceptionType::Type(self.handlers@[i].type_id),
                    addr: self.handlers@[i].addr,
                }),
            self.catch_all_addr matches Some(addr) ==> r@.last() == (CatchHandler {
                exception: ExceptionType::BaseException,
                addr: addr,
            }),
    {
        let mut out: Vec<CatchHandler> = Vec::new();
        let mut i: usize = 0;
        while i < self.handlers.len()
            invariant
                0 <= i <= self.handlers@.len(),
                out@.len() == i,
                forall|j: int|
                    0 <= j < i ==> out@[j] == (CatchHandler {
                        exception: ExceptionType::Type(self.handlers@[j].type_id),
                        addr: self.handlers@[j].addr,
                    }),
            decreases self.handlers@.len() - i,
    {
            let p = self.handlers[i];
            out.push(CatchHandler { exception: ExceptionType::Type(p.type_id), addr: p.addr });
            i = i + 1;
        }
        match self.catch_all_addr {
            Some(addr) => {
                out.push(CatchHandler { exception: ExceptionType::BaseException, addr });
            },
            None => {},
        }
        out
    }
}

/// The wire bytes of one catch handler.
pub open spec fn ech_bytes(h: EncodedCatchHandler) -> Seq<u8> {
    crate::leb128::sleb_enc(h.size as int) + taps_bytes(h.handlers@) + (match h.catch_all_addr {
        Some(addr) => uleb_enc(addr as nat),
        None => Seq::empty(),
    })
}

/// The concatenated wire bytes of a run of type-address pairs.
pub open spec fn taps_bytes(items: Seq<EncodedTypeAddrPair>) -> Seq<u8>
    decreases items.len(),
{
    if items.len() == 0 {
        Seq::empty()
    } else {
        taps_bytes(items.drop_last()) + tap_bytes(items.last())
    }
}

/// The exception caught by a handler: a specific type from the type
/// pool, or every exception (the catch-all).
#[derive(Debug, Clone, Copy, PartialEq, Eq, Structural)]
pub enum ExceptionType {
    /// Any exception: the catch-all entry.
    BaseException,
    /// The exception type at this type-pool index.
    Type(u64),
}

/// One flattened catch: what it catches and where its code starts.
#[derive(Debug, Clone, Copy, PartialEq, Eq, Structural)]
pub struct CatchHandler {
    /// The caught exception type.
    pub exception: ExceptionType,
    /// Code-unit address of the handler.
    pub addr: u64,
}

/// Whether `items`, with their recorded offsets, parse one after
/// another in `s`: the entry at position `k` starts `items[k].0` bytes
/// after `base`.
pub open spec fn ech_chain(s: Seq<u8>, base: int, pos: int, items: Seq<(usize, EncodedCatchHandler)>) -> bool
    decreases items.len(),
{
    if items.len() == 0 {
        true
    } else {
        &&& items[0].0 == pos - base
        &&& 0 <= pos <= s.len()
        &&& ech_parts_ok(items[0].1, s.skip(pos))
        &&& match ech_len(s.skip(pos)) {
            Some(n) => ech_chain(s, base, pos + n, items.skip(1)),
            None => false,
        }
    }
}

/// Where a chain of parsed handlers ends.
pub open spec fn ech_chain_end(s: Seq<u8>, pos: int, items: Seq<(usize, EncodedCatchHandler)>) -> int
    decreases items.len(),
{
    if items.len() == 0 {
        pos
    } else {
        match ech_len(s.skip(pos)) {
            Some(n) => ech_chain_end(s, pos + n, items.skip(1)),
            None => pos,
        }
    }
}

/// Extending a chain by one handler that parses at its end keeps it a
/// chain, ending after the new handler.
pub proof fn lemma_ech_chain_push(
    s: Seq<u8>,
    base: int,
    pos: int,
    items: Seq<(usize, EncodedCatchHandler)>,
    off: usize,
    h: EncodedCatchHandler,
    n: nat,
)
    requires
        ech_chain(s, base, pos, items),
        off == ech_chain_end(s, pos, items) - base,
        0 <= ech_chain_end(s, pos, items) <= s.len(),
        ech_parts_ok(h, s.skip(ech_chain_end(s, pos, items))),
        ech_len(s.skip(ech_chain_end(s, pos, items))) == Some(n),
    ensures
        ech_chain(s, base, pos, items.push((off, h))),
        ech_chain_end(s, pos, items.push((off, h))) == ech_chain_end(s, pos, items) + n,
    decreases items.len(),
{
    let pushed = items.push((off, h));
    if items.len() == 0 {
        assert(pushed.len() == 1);
        assert(pushed[0] == (off, h));
        assert(pushed[0].0 == off && pushed[0].1 == h);
        assert(pushed.skip(1) =~= Seq::<(usize, EncodedCatchHandler)>::empty());
        assert(ech_chain_end(s, pos, items) == pos);
        assert(ech_chain(s, base, pos + n, pushed.skip(1)));
        assert(ech_chain_end(s, pos + n, pushed.skip(1)) == pos + n);
        assert(ech_chain(s, base, pos, pushed));
        assert(ech_chain_end(s, pos, pushed) == pos + n);
    } else {
        if let Some(n0) = ech_len(s.skip(pos)) {
            lemma_ech_chain_push(s, base, pos + n0, items.skip(1), off, h, n);
            assert(pushed.skip(1) =~= items.skip(1).push((off, h)));
            assert(pushed[0] == items[0]);
            assert(ech_chain(s, base, pos, pushed));
        }
    }
}

/// Whether `count` catch handlers parse one after another starting at
/// `pos`.
pub open spec fn ech_run_ok(s: Seq<u8>, pos: int, count: nat) -> bool
    decreases count,
{
    count == 0 || (0 <= pos <= s.len() && match ech_len(s.skip(pos)) {
        Some(n) => ech_run_ok(s, pos + n, (count - 1) as nat),
        None => false,
    })
}

/// Whether a whole catch-handler list parses at `pos`: its count and
/// then that many handlers.
pub open spec fn ech_list_ok(s: Seq<u8>, pos: int) -> bool {
    match uleb_dec(s.skip(pos)) {
        Some(c) => ech_run_ok(s, pos + c.1, c.0),
        None => false,
    }
}

/// The catch handlers of a code item, each with its byte offset from
/// the start of the list.
#[derive(Debug, PartialEq, Eq)]
pub struct EncodedCatchHandlerList(pub Vec<(usize, EncodedCatchHandler)>);

impl EncodedCatchHandlerList {
    /// The handlers with their recorded offsets.
    pub fn into_inner(self) -> (r: Vec<(usize, EncodedCatchHandler)>)
        ensures
            r@ == self.0@,
    {
        self.0
    }

    /// The handler recorded at byte offset `offset` from the start of
    /// the list, if any.
    pub fn find(&self, offset: u16) -> (r: Option<&EncodedCatchHandler>)
        ensures
            match r {
                Some(h) => exists|k: int|
                    0 <= k < self.0@.len() && self.0@[k].0 == offset as usize && *h
                        == self.0@[k].1,
                None => forall|k: int|
                    0 <= k < self.0@.len() ==> self.0@[k].0 != offset as usize,
            },
    {
        let mut i: usize = 0;
        while i < self.0.len()
            invariant
                0 <= i <= self.0@.len(),
                forall|k: int| 0 <= k < i ==> self.0@[k].0 != offset as usize,
            decreases self.0@.len() - i,
        {
            if self.0[i].0 == offset as usize {
                return Some(&self.0[i].1);
            }
            i = i + 1;
        }
        None
    }

    /// Decodes a catch-handler list at the cursor: a handler count,
    /// then the handlers, each with its offset from the list start.
    /// It succeeds exactly when the whole list parses there.
    pub fn read(src: &[u8], offset: &mut usize) -> (r: Result<EncodedCatchHandlerList, LebError>)
        requires
            *old(offset) <= src@.len(),
        ensures
            r is Ok <==> ech_list_ok(src@, *old(offset) as int),
            match r {
                Ok(l) => {
                    &&& uleb_dec(src@.skip(*old(offset) as int)) matches Some(c) && {
                        &&& l.0@.len() == c.0
                        &&& ech_chain(
                            src@,
                            *old(offset) as int,
                            *old(offset) + c.1,
                            l.0@,
                        )
                        &&& *final(offset) == ech_chain_end(src@, *old(offset) + c.1, l.0@)
                    }
                    &&& *old(offset) <= *final(offset) <= src@.len()
                },
                Err(_) => *final(offset) == *old(offset),
            },
    {
        let start = *offset;
        let mut pos = *offset;
        let count = Uleb128::read(src, &mut pos)?;
        let ghost chain_start = pos as int;
        let mut items: Vec<(usize, EncodedCatchHandler)> = Vec::new();
        let mut i: u64 = 0;
        while i < count
            invariant
                0 <= i <= count,
                start == *old(offset),
                *offset == *old(offset),
                start <= chain_start <= pos <= src@.len(),
                items@.len() == i,
                ech_chain(src@, start as int, chain_start, items@),
                ech_chain_end(src@, chain_start, items@) == pos as int,
                ech_list_ok(src@, start as int) == ech_run_ok(
                    src@,
                    pos as int,
                    (count - i) as nat,
                ),
                uleb_dec(src@.skip(start as int)) == Some((count as nat, (chain_start - start) as nat)),
            decreases count - i,
        {
            let off = pos - start;
            let h = match EncodedCatchHandler::read(src, &mut pos) {
                Ok(h) => h,
                Err(e) => {
                    assert(!ech_run_ok(src@, pos as int, (count - i) as nat));
                    return Err(e);
                },
            };
            let ghost old_items = items@;
            let ghost n = (pos - ech_chain_end(src@, chain_start, old_items)) as nat;
            proof {
                lemma_ech_chain_push(src@, start as int, chain_start, old_items, off, h, n);
            }
            items.push((off, h));
            proof {
                assert(items@ =~= old_items.push((off, h)));
            }
            i = i + 1;
        }
        assert(ech_run_ok(src@, pos as int, 0));
        *offset = pos;
        Ok(EncodedCatchHandlerList(items))
    }

    /// Appends the list's wire bytes: the count, then each handler.
    /// The recorded offsets are a decoding aid and are not written.
    pub fn write(&self, dst: &mut Vec<u8>)
        requires
            forall|k: int|
                0 <= k < self.0@.len() ==> {
                    &&& size_abs(#[trigger] self.0@[k].1.size as int) == self.0@[k].1.handlers@.len()
                    &&& (self.0@[k].1.size <= 0 <==> self.0@[k].1.catch_all_addr is Some)
                },
        ensures
            final(dst)@ == old(dst)@ + uleb_enc(self.0@.len() as nat) + ech_list_bytes(self.0@),
    {
        Uleb128::write(dst, self.0.len() as u64);
        let ghost mid = dst@;
        let mut i: usize = 0;
        while i < self.0.len()
            invariant
                0 <= i <= self.0@.len(),
                dst@ == mid + ech_list_bytes(self.0@.take(i as int)),
                mid == old(dst)@ + uleb_enc(self.0@.len() as nat),
                forall|k: int|
                    0 <= k < self.0@.len() ==> {
                        &&& size_abs(#[trigger] self.0@[k].1.size as int)
                            == self.0@[k].1.handlers@.len()
                        &&& (self.0@[k].1.size <= 0 <==> self.0@[k].1.catch_all_addr is Some)
                    },
            decreases self.0@.len() - i,
        {
            self.0[i].1.write(dst);
            proof {
                assert(self.0@.take(i + 1).drop_last() =~= self.0@.take(i as int));
                assert(self.0@.take(i + 1).last() == self.0@[i as int]);
            }
            i = i + 1;
        }
        assert(self.0@.take(self.0@.len() as int) =~= self.0@);
    }
}

/// The concatenated wire bytes of the handlers of a list.
pub open spec fn ech_list_bytes(items: Seq<(usize, EncodedCatchHandler)>) -> Seq<u8>
    decreases items.len(),
{
    if items.len() == 0 {
        Seq::empty()
    } else {
        ech_list_bytes(items.drop_last()) + ech_bytes(items.last().1)
    }
}

} // verus!
