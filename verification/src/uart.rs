//! PL011 UART for the QEMU `virt` machine.
//!
//! Two registers matter: the data register (`DR`) to send or receive a byte,
//! and the flag register (`FR`), whose bits say whether the transmit FIFO is
//! full or the receive FIFO is empty. This module computes register
//! addresses, reads flag values and turns text into the bytes that go out on
//! the wire; the register accesses themselves are the caller's.

use vstd::prelude::*;
use vstd::string::StringSliceAdditionalSpecFns;

verus! {

/// Base address of UART0 on the QEMU `virt` machine.
pub const UART0_BASE: usize = 0x0900_0000;

/// Data register offset: read = received byte, write = byte to send.
pub const DR: usize = 0x00;

/// Flag register offset.
pub const FR: usize = 0x18;

/// Flag bit: receive FIFO empty.
pub const FR_RXFE: u8 = 0x10;

/// Flag bit: transmit FIFO full.
pub const FR_TXFF: u8 = 0x20;

/// Carriage return.
pub const CR: u8 = 0x0D;

/// Line feed.
pub const LF: u8 = 0x0A;

/// The bytes sent for `s`: every line feed goes out as carriage return + line
/// feed, every other byte as itself.
pub open spec fn crlf(s: Seq<u8>) -> Seq<u8>
    decreases s.len(),
{
    if s.len() == 0 {
        Seq::empty()
    } else {
        let rest = crlf(s.drop_last());
        if s.last() == LF {
            rest.push(CR).push(LF)
        } else {
            rest.push(s.last())
        }
    }
}

/// Handle to the UART. The hardware holds the state, so the handle holds
/// nothing.
pub struct Uart;

impl Uart {
    /// The address of the register at offset `off`.
    pub fn reg(off: usize) -> (r: usize)
        requires
            off <= usize::MAX - UART0_BASE,
        ensures
            r == UART0_BASE + off,
    {
        UART0_BASE + off
    }

    /// Whether the flag value `flags` says the transmit FIFO is full (sending
    /// must wait).
    pub fn tx_full(flags: u8) -> (r: bool)
        ensures
            r == (flags & FR_TXFF != 0),
    {
        flags & FR_TXFF != 0
    }

    /// Whether the flag value `flags` says the receive FIFO is empty (no byte
    /// to read).
    pub fn rx_empty(flags: u8) -> (r: bool)
        ensures
            r == (flags & FR_RXFE != 0),
    {
        flags & FR_RXFE != 0
    }

    /// The bytes sent for the text byte `b`: the first `n` bytes of the
    /// returned pair, where a line feed becomes CR LF and any other byte goes
    /// out as itself.
    pub fn wire_bytes(b: u8) -> (r: ([u8; 2], usize))
        ensures
            r.1 <= 2,
            r.0@.subrange(0, r.1 as int) == crlf(seq![b]),
    {
        assert(seq![b].drop_last() =~= Seq::<u8>::empty());
        assert(crlf(Seq::<u8>::empty()) =~= Seq::<u8>::empty());
        assert(seq![b].last() == b);
        if b == LF {
            let r: [u8; 2] = [CR, LF];
            assert(r@.subrange(0, 2) =~= crlf(seq![b]));
            (r, 2)
        } else {
            let r: [u8; 2] = [b, 0];
            assert(r@.subrange(0, 1) =~= crlf(seq![b]));
            (r, 1)
        }
    }

    /// The bytes that writing `s` sends, in order: terminals expect CRLF, so
    /// every LF goes out as CR LF (whatever precedes it).
    pub fn encode(s: &str) -> (r: Vec<u8>)
        ensures
            r@ == crlf(s.spec_bytes()),
    {
        let bytes: &[u8] = s.as_bytes();
        let mut out: Vec<u8> = Vec::new();
        let mut i: usize = 0;
        while i < bytes.len()
            invariant
                i <= bytes@.len(),
                out@ == crlf(bytes@.subrange(0, i as int)),
            decreases bytes@.len() - i,
        {
            let b = bytes[i];
            assert(bytes@.subrange(0, i + 1).drop_last() =~= bytes@.subrange(0, i as int));
            if b == LF {
                out.push(CR);
            }
            out.push(b);
            i = i + 1;
        }
        assert(bytes@.subrange(0, bytes@.len() as int) =~= bytes@);
        out
    }
}

/// Every line feed sent is preceded by a carriage return, and exactly one
/// byte is added per line feed of the text.
pub proof fn lemma_crlf(s: Seq<u8>)
    ensures
        forall|k: int| 0 <= k < crlf(s).len() && #[trigger] crlf(s)[k] == LF ==> k > 0 && crlf(s)[k - 1] == CR,
        crlf(s).len() == s.len() + s.filter(|b: u8| b == LF).len(),
    decreases s.len(),
{
    if s.len() > 0 {
        lemma_crlf(s.drop_last());
        let rest = crlf(s.drop_last());
        s.drop_last().lemma_filter_push(s.last(), |b: u8| b == LF);
        assert(s.drop_last().push(s.last()) =~= s);
        assert forall|k: int| 0 <= k < crlf(s).len() && #[trigger] crlf(s)[k] == LF implies k > 0 && crlf(s)[k
            - 1] == CR by {
            if k < rest.len() {
                assert(crlf(s)[k] == rest[k]);
            }
        }
    }
}

/// Nothing but the inserted carriage returns is added, and every text byte
/// goes out unchanged: text byte `k` (with `n` line feeds before it) is sent at
/// position `k + n`; a byte other than LF is sent as itself, and an LF is sent
/// as CR at `k + n` followed by LF at `k + n + 1`.
pub proof fn lemma_crlf_keeps_every_byte(s: Seq<u8>)
    ensures
        forall|k: int|
            #![trigger s[k]]
            0 <= k < s.len() ==> {
                let n = s.subrange(0, k).filter(|b: u8| b == 0x0Au8).len() as int;
                &&& s[k] != 0x0Au8 ==> crlf(s)[k + n] == s[k]
                &&& s[k] == 0x0Au8 ==> crlf(s)[k + n] == 0x0Du8 && crlf(s)[k + n + 1] == 0x0Au8
            },
    decreases s.len(),
{
    if s.len() > 0 {
        let d = s.drop_last();
        lemma_crlf_keeps_every_byte(d);
        lemma_crlf(d);
        let rest = crlf(d);
        assert forall|k: int| #![trigger s[k]] 0 <= k < s.len() implies {
            let n = s.subrange(0, k).filter(|b: u8| b == 0x0Au8).len() as int;
            &&& s[k] != 0x0Au8 ==> crlf(s)[k + n] == s[k]
            &&& s[k] == 0x0Au8 ==> crlf(s)[k + n] == 0x0Du8 && crlf(s)[k + n + 1] == 0x0Au8
        } by {
            let n = s.subrange(0, k).filter(|b: u8| b == 0x0Au8).len() as int;
            if k < d.len() {
                assert(s.subrange(0, k) =~= d.subrange(0, k));
                assert(d[k] == s[k]);
                let nd = d.subrange(0, k).filter(|b: u8| b == 0x0Au8).len() as int;
                assert(nd == n);
                if s[k] == 0x0Au8 {
                    assert(k + n + 1 < rest.len()) by {
                        lemma_lf_count_bound(d, k);
                    }
                } else {
                    assert(k + n < rest.len()) by {
                        lemma_lf_count_bound(d, k);
                    }
                }
            } else {
                assert(s.subrange(0, k) =~= d);
                assert(k + n == rest.len());
            }
        }
    }
}

/// The line feeds before position `k` plus the bytes from `k` on, with their
/// line feeds, fill the sent bytes: position `k + n` (and `k + n + 1` for an
/// LF) lies inside them.
proof fn lemma_lf_count_bound(s: Seq<u8>, k: int)
    requires
        0 <= k < s.len(),
    ensures
        ({
            let n = s.subrange(0, k).filter(|b: u8| b == 0x0Au8).len() as int;
            &&& k + n < crlf(s).len()
            &&& s[k] == 0x0Au8 ==> k + n + 1 < crlf(s).len()
        }),
    decreases s.len(),
{
    lemma_crlf(s);
    let d = s.drop_last();
    lemma_crlf(d);
    if k < d.len() {
        lemma_lf_count_bound(d, k);
        assert(s.subrange(0, k) =~= d.subrange(0, k));
        assert(d[k] == s[k]);
    } else {
        assert(s.subrange(0, k) =~= d);
    }
}

} // verus!
