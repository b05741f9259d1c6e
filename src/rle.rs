//! PackBits run-length coding, as Apple's technical note TN1023 describes it.
//!
//! The encoder makes one streaming pass over its input. It keeps a pending
//! literal buffer and a count of how many of the most recent bytes were equal;
//! the state after each byte is `encoder_run`, and the packets it leaves are
//! `encoder_packets`.

use vstd::prelude::*;

verus! {

/// One PackBits packet, as a value.
pub enum Packet {
    /// Bytes copied as they are.
    Literal(Seq<u8>),
    /// A byte repeated a number of times.
    Repeat(nat, u8),
}

/// The bytes that stand for one packet: a header and its payload.
pub open spec fn packet_bytes(p: Packet) -> Seq<u8> {
    match p {
        Packet::Literal(d) => seq![(d.len() - 1) as u8] + d,
        Packet::Repeat(n, b) => seq![(257 - n) as u8, b],
    }
}

/// The bytes that a packet expands to.
pub open spec fn packet_run(p: Packet) -> Seq<u8> {
    match p {
        Packet::Literal(d) => d,
        Packet::Repeat(n, b) => Seq::new(n, |_i: int| b),
    }
}

/// A literal holds 1 to 128 bytes; a repeat stands for 3 to 128 bytes.
pub open spec fn packet_ok(p: Packet) -> bool {
    match p {
        Packet::Literal(d) => 1 <= d.len() <= 128,
        Packet::Repeat(n, _b) => 3 <= n <= 128,
    }
}

pub open spec fn packets_ok(ps: Seq<Packet>) -> bool {
    forall|i: int| 0 <= i < ps.len() ==> #[trigger] packet_ok(ps[i])
}

/// The bytes of a sequence of packets, one after the other.
pub open spec fn packets_bytes(ps: Seq<Packet>) -> Seq<u8>
    decreases ps.len(),
{
    if ps.len() == 0 {
        seq![]
    } else {
        packet_bytes(ps[0]) + packets_bytes(ps.drop_first())
    }
}

/// What a sequence of packets expands to.
pub open spec fn packets_run(ps: Seq<Packet>) -> Seq<u8>
    decreases ps.len(),
{
    if ps.len() == 0 {
        seq![]
    } else {
        packet_run(ps[0]) + packets_run(ps.drop_first())
    }
}

/// The encoder's state between two input bytes.
pub struct EncoderState {
    /// The packets written so far.
    pub packets: Seq<Packet>,
    /// The pending literal buffer.
    pub pending: Seq<u8>,
    /// How many of the most recent bytes were equal.
    pub count: int,
    /// The most recent byte.
    pub prev: Option<u8>,
}

pub open spec fn encoder_start() -> EncoderState {
    EncoderState { packets: seq![], pending: seq![], count: 0, prev: None }
}

/// The repeat count after byte `b`: it grows while the byte repeats, up to 128.
pub open spec fn next_count(st: EncoderState, b: u8) -> int {
    if st.prev == Some(b) && st.count != 128 {
        st.count + 1
    } else {
        1
    }
}

/// The encoder's state after one more byte `b`.
pub open spec fn encoder_step(st: EncoderState, b: u8) -> EncoderState {
    let count = next_count(st, b);
    let pending = st.pending.push(b);
    // Three equal bytes start a repeat run: what came before them leaves as a literal.
    let literal = if pending.len() >= 3 {
        pending.take(pending.len() - 3)
    } else {
        seq![]
    };
    let packets = if count == 3 && literal.len() > 0 {
        st.packets.push(Packet::Literal(literal))
    } else {
        st.packets
    };
    let pending = if count == 3 {
        seq![]
    } else {
        pending
    };
    // A full literal buffer leaves as one packet.
    let full = pending.len() == 128;
    let packets = if full {
        packets.push(Packet::Literal(pending))
    } else {
        packets
    };
    let pending = if full {
        seq![]
    } else {
        pending
    };
    let count = if full {
        0
    } else {
        count
    };
    // The byte broke a run of three or more: the run leaves as a repeat packet.
    let broke = st.count > 2 && count == 1;
    let packets = if broke {
        packets.push(Packet::Repeat(st.count as nat, st.prev->0))
    } else {
        packets
    };
    let pending = if broke {
        seq![b]
    } else {
        pending
    };
    EncoderState { packets, pending, count, prev: Some(b) }
}

/// The encoder's state after all of `s`.
pub open spec fn encoder_run(s: Seq<u8>) -> EncoderState
    decreases s.len(),
{
    if s.len() == 0 {
        encoder_start()
    } else {
        encoder_step(encoder_run(s.drop_last()), s.last())
    }
}

/// The packets that close the stream: an active run of three or more, else
/// the pending literal buffer if it holds anything.
pub open spec fn encoder_finish(st: EncoderState) -> Seq<Packet> {
    if st.count >= 3 {
        st.packets.push(Packet::Repeat(st.count as nat, st.prev->0))
    } else if st.pending.len() > 0 {
        st.packets.push(Packet::Literal(st.pending))
    } else {
        st.packets
    }
}

/// The packets that encode `s`.
pub open spec fn encoder_packets(s: Seq<u8>) -> Seq<Packet> {
    encoder_finish(encoder_run(s))
}

/// The PackBits encoding of `s`.
pub open spec fn rle_encode(s: Seq<u8>) -> Seq<u8> {
    packets_bytes(encoder_packets(s))
}

// Reading a PackBits stream.

/// The number of bytes that the packet at the start of `bytes` takes:
/// header `h` below 0x80 is a literal of `h + 1` bytes, 0x80 is a header alone,
/// and a header above 0x80 is followed by the one byte it repeats.
pub open spec fn first_packet_len(bytes: Seq<u8>) -> int
    recommends
        bytes.len() > 0,
{
    if bytes[0] < 128 {
        bytes[0] + 2
    } else if bytes[0] == 128 {
        1
    } else {
        2
    }
}

/// The number of bytes that a literal header stands for.
pub open spec fn literal_len(h: u8) -> int {
    h + 1
}

/// The number of bytes that a repeat header stands for.
pub open spec fn repeat_len(h: u8) -> int {
    257 - h
}

/// What the packet at the start of `bytes` expands to (as much of it as is there).
pub open spec fn first_packet_run(bytes: Seq<u8>) -> Seq<u8>
    recommends
        bytes.len() > 0,
{
    let h = bytes[0];
    if h < 128 {
        if bytes.len() >= literal_len(h) + 1 {
            bytes.subrange(1, literal_len(h) + 1)
        } else {
            bytes.skip(1)
        }
    } else if h == 128 || bytes.len() < 2 {
        seq![]
    } else {
        Seq::new(repeat_len(h) as nat, |_i: int| bytes[1])
    }
}

/// PackBits decoding.
pub open spec fn rle_decode(bytes: Seq<u8>) -> Seq<u8>
    decreases bytes.len(),
{
    if bytes.len() == 0 {
        seq![]
    } else if first_packet_len(bytes) >= bytes.len() {
        first_packet_run(bytes)
    } else {
        first_packet_run(bytes) + rle_decode(bytes.skip(first_packet_len(bytes)))
    }
}

/// The header bytes met while reading `bytes` packet by packet.
pub open spec fn packet_headers(bytes: Seq<u8>) -> Seq<u8>
    decreases bytes.len(),
{
    if bytes.len() == 0 {
        seq![]
    } else if first_packet_len(bytes) >= bytes.len() {
        seq![bytes[0]]
    } else {
        seq![bytes[0]] + packet_headers(bytes.skip(first_packet_len(bytes)))
    }
}

/// `bytes` ends exactly where a packet ends.
pub open spec fn packets_complete(bytes: Seq<u8>) -> bool
    decreases bytes.len(),
{
    if bytes.len() == 0 {
        true
    } else if first_packet_len(bytes) >= bytes.len() {
        first_packet_len(bytes) == bytes.len()
    } else {
        packets_complete(bytes.skip(first_packet_len(bytes)))
    }
}

/// Returns the data encoded using the RLE algorithm.
pub fn encoded(source: &[u8]) -> (output: Vec<u8>)
    ensures
        output@ == rle_encode(source@),
{
    let mut output: Vec<u8> = Vec::new();
    let mut pending: Vec<u8> = Vec::new();
    let mut count: usize = 0;
    let mut previous: Option<u8> = None;
    let n = source.len();
    let mut index: usize = 0;
    proof {
        assert(source@.take(0) =~= seq![]);
    }
    while index < n
        invariant
            index <= n,
            n == source@.len(),
            output@ == packets_bytes(encoder_run(source@.take(index as int)).packets),
            pending@ == encoder_run(source@.take(index as int)).pending,
            count == encoder_run(source@.take(index as int)).count,
            previous == encoder_run(source@.take(index as int)).prev,
            encoder_inv(encoder_run(source@.take(index as int)), source@.take(index as int)),
        decreases n - index,
    {
        let byte = source[index];
        let ghost st = encoder_run(source@.take(index as int));
        proof {
            let next = source@.take(index + 1);
            assert(next.drop_last() =~= source@.take(index as int));
            lemma_encoder_inv_step(st, source@.take(index as int), byte);
            assert(source@.take(index as int).push(byte) =~= next);
        }
        let previous_count = count;
        let repeats = match previous {
            Some(p) => p == byte,
            None => false,
        };
        if repeats && count != 128 {
            count = count + 1;
        } else {
            count = 1;
        }
        pending.push(byte);
        let ghost mut packets = st.packets;
        // Three equal bytes start a repeat run.
        if count == 3 {
            let len = pending.len();
            if len >= 3 {
                pending.truncate(len - 3);
            } else {
                pending.clear();
            }
            if pending.len() > 0 {
                proof {
                    lemma_packets_bytes_push(packets, Packet::Literal(pending@));
                    packets = packets.push(Packet::Literal(pending@));
                }
                output.push((pending.len() - 1) as u8);
                output.append(&mut pending);
            }
            pending.clear();
        }
        // A full literal buffer leaves as one packet.
        if pending.len() == 128 {
            proof {
                lemma_packets_bytes_push(packets, Packet::Literal(pending@));
                packets = packets.push(Packet::Literal(pending@));
            }
            output.push(127u8);
            output.append(&mut pending);
            count = 0;
        }
        // The byte broke a repeat run.
        if previous_count > 2 && count == 1 {
            if let Some(p) = previous {
                proof {
                    lemma_packets_bytes_push(packets, Packet::Repeat(previous_count as nat, p));
                    packets = packets.push(Packet::Repeat(previous_count as nat, p));
                }
                output.push((257 - previous_count) as u8);
                output.push(p);
            }
            pending = vec![byte];
        }
        previous = Some(byte);
        index = index + 1;
        proof {
            assert(packets =~= encoder_step(st, byte).packets);
            assert(pending@ =~= encoder_step(st, byte).pending);
        }
    }
    proof {
        assert(source@.take(n as int) =~= source@);
    }
    let ghost st = encoder_run(source@);
    if count >= 3 {
        if let Some(p) = previous {
            proof {
                lemma_packets_bytes_push(st.packets, Packet::Repeat(count as nat, p));
            }
            output.push((257 - count) as u8);
            output.push(p);
        }
    } else if pending.len() > 0 {
        proof {
            lemma_packets_bytes_push(st.packets, Packet::Literal(pending@));
        }
        output.push((pending.len() - 1) as u8);
        output.append(&mut pending);
    }
    output
}

// Proofs.

pub proof fn lemma_packets_bytes_push(ps: Seq<Packet>, p: Packet)
    ensures
        packets_bytes(ps.push(p)) == packets_bytes(ps) + packet_bytes(p),
    decreases ps.len(),
{
    if ps.len() == 0 {
        assert(ps.push(p).drop_first() =~= Seq::<Packet>::empty());
        assert(ps.push(p)[0] == p);
        assert(packets_bytes(Seq::<Packet>::empty()) == Seq::<u8>::empty());
        assert(packets_bytes(ps) == Seq::<u8>::empty());
        assert(packets_bytes(ps.push(p)) =~= packet_bytes(p));
    } else {
        assert(ps.push(p).drop_first() =~= ps.drop_first().push(p));
        lemma_packets_bytes_push(ps.drop_first(), p);
        assert(packets_bytes(ps.push(p)) =~= packets_bytes(ps) + packet_bytes(p));
    }
}

pub proof fn lemma_packets_run_push(ps: Seq<Packet>, p: Packet)
    ensures
        packets_run(ps.push(p)) == packets_run(ps) + packet_run(p),
    decreases ps.len(),
{
    if ps.len() == 0 {
        assert(ps.push(p).drop_first() =~= Seq::<Packet>::empty());
        assert(ps.push(p)[0] == p);
        assert(packets_run(Seq::<Packet>::empty()) == Seq::<u8>::empty());
        assert(packets_run(ps) == Seq::<u8>::empty());
        assert(packets_run(ps.push(p)) =~= packet_run(p));
    } else {
        assert(ps.push(p).drop_first() =~= ps.drop_first().push(p));
        lemma_packets_run_push(ps.drop_first(), p);
        assert(packets_run(ps.push(p)) =~= packets_run(ps) + packet_run(p));
    }
}

/// What the input consumed so far is still waiting to be written: the active
/// run when there is one, else the pending literal buffer.
pub open spec fn encoder_tail(st: EncoderState) -> Seq<u8> {
    if st.count >= 3 {
        Seq::new(st.count as nat, |_i: int| st.prev->0)
    } else {
        st.pending
    }
}

/// What holds of the encoder's state after input `s`.
pub open spec fn encoder_inv(st: EncoderState, s: Seq<u8>) -> bool {
    &&& packets_ok(st.packets)
    &&& packets_run(st.packets) + encoder_tail(st) == s
    &&& 0 <= st.count <= 128
    &&& st.pending.len() <= 127
    &&& (s.len() > 0 ==> st.prev == Some(s.last()))
    &&& (st.count >= 1 ==> st.prev is Some)
    &&& (st.count >= 3 ==> st.pending == Seq::new((st.count - 3) as nat, |_i: int| st.prev->0))
    &&& (st.count < 3 ==> st.pending.len() >= st.count && forall|j: int|
        st.pending.len() - st.count <= j < st.pending.len() ==> st.pending[j] == st.prev->0)
}

pub proof fn lemma_encoder_inv_step(st: EncoderState, s: Seq<u8>, b: u8)
    requires
        encoder_inv(st, s),
    ensures
        encoder_inv(encoder_step(st, b), s.push(b)),
{
    let nx = encoder_step(st, b);
    let c = st.count;
    let c1 = next_count(st, b);
    let p1 = st.pending.push(b);
    assert(s.push(b).last() == b);
    if c1 == 3 {
        let lit = p1.take(p1.len() - 3);
        assert(p1.len() >= 3);
        assert(st.pending =~= lit + seq![b, b]);
        if lit.len() > 0 {
            lemma_packets_run_push(st.packets, Packet::Literal(lit));
            assert forall|i: int| 0 <= i < nx.packets.len() implies #[trigger] packet_ok(
                nx.packets[i],
            ) by {
                if i < st.packets.len() {
                    assert(nx.packets[i] == st.packets[i]);
                }
            }
        } else {
            assert(nx.packets == st.packets);
        }
        assert(encoder_tail(nx) =~= seq![b, b, b]);
        assert(packets_run(nx.packets) + encoder_tail(nx) =~= s.push(b));
        assert(nx.pending =~= Seq::new((nx.count - 3) as nat, |_i: int| nx.prev->0));
    } else if c1 == c + 1 && c >= 3 {
        assert(p1 =~= Seq::new((c1 - 3) as nat, |_i: int| b));
        assert(nx.packets == st.packets);
        assert(encoder_tail(nx) =~= encoder_tail(st).push(b));
        assert(packets_run(nx.packets) + encoder_tail(nx) =~= s.push(b));
    } else if c1 == c + 1 {
        // c is 0 or 1: the pending buffer holds the bytes not yet written
        if p1.len() == 128 {
            lemma_packets_run_push(st.packets, Packet::Literal(p1));
            assert forall|i: int| 0 <= i < nx.packets.len() implies #[trigger] packet_ok(
                nx.packets[i],
            ) by {
                if i < st.packets.len() {
                    assert(nx.packets[i] == st.packets[i]);
                }
            }
            assert(packets_run(nx.packets) + encoder_tail(nx) =~= s.push(b));
        } else {
            assert(nx.packets == st.packets);
            assert(packets_run(nx.packets) + encoder_tail(nx) =~= s.push(b));
        }
    } else {
        assert(c1 == 1);
        if c > 2 {
            let run = Packet::Repeat(c as nat, st.prev->0);
            lemma_packets_run_push(st.packets, run);
            assert(nx.packets == st.packets.push(run));
            assert forall|i: int| 0 <= i < nx.packets.len() implies #[trigger] packet_ok(
                nx.packets[i],
            ) by {
                if i < st.packets.len() {
                    assert(nx.packets[i] == st.packets[i]);
                }
            }
            assert(packet_run(run) =~= encoder_tail(st));
            assert(packets_run(nx.packets) + encoder_tail(nx) =~= s.push(b));
        } else if p1.len() == 128 {
            lemma_packets_run_push(st.packets, Packet::Literal(p1));
            assert forall|i: int| 0 <= i < nx.packets.len() implies #[trigger] packet_ok(
                nx.packets[i],
            ) by {
                if i < st.packets.len() {
                    assert(nx.packets[i] == st.packets[i]);
                }
            }
            assert(packets_run(nx.packets) + encoder_tail(nx) =~= s.push(b));
        } else {
            assert(nx.packets == st.packets);
            assert(packets_run(nx.packets) + encoder_tail(nx) =~= s.push(b));
        }
    }
}

pub proof fn lemma_encoder_inv_run(s: Seq<u8>)
    ensures
        encoder_inv(encoder_run(s), s),
    decreases s.len(),
{
    if s.len() == 0 {
        assert(packets_run(Seq::<Packet>::empty()) == Seq::<u8>::empty());
        assert(encoder_tail(encoder_start()) =~= Seq::<u8>::empty());
        assert(packets_run(seq![]) + encoder_tail(encoder_start()) =~= s);
    } else {
        lemma_encoder_inv_run(s.drop_last());
        lemma_encoder_inv_step(encoder_run(s.drop_last()), s.drop_last(), s.last());
        assert(s.drop_last().push(s.last()) =~= s);
    }
}

/// The packets that encode `s` are well formed and expand to `s`.
pub proof fn lemma_encoder_packets(s: Seq<u8>)
    ensures
        packets_ok(encoder_packets(s)),
        packets_run(encoder_packets(s)) == s,
{
    let st = encoder_run(s);
    lemma_encoder_inv_run(s);
    let ps = encoder_packets(s);
    if st.count >= 3 {
        let last = Packet::Repeat(st.count as nat, st.prev->0);
        lemma_packets_run_push(st.packets, last);
        assert(packet_run(last) =~= encoder_tail(st));
    } else if st.pending.len() > 0 {
        lemma_packets_run_push(st.packets, Packet::Literal(st.pending));
    } else {
        assert(encoder_tail(st) =~= Seq::<u8>::empty());
        assert(packets_run(st.packets) + encoder_tail(st) =~= packets_run(st.packets));
    }
    assert forall|i: int| 0 <= i < ps.len() implies #[trigger] packet_ok(ps[i]) by {
        if i < st.packets.len() {
            assert(ps[i] == st.packets[i]);
        }
    }
}

/// The header byte of a packet.
pub open spec fn packet_header(p: Packet) -> u8 {
    packet_bytes(p)[0]
}

/// Reading back the bytes of well-formed packets gives the packets again:
/// their headers, their expansion, and nothing left over.
pub proof fn lemma_read_packets(ps: Seq<Packet>)
    requires
        packets_ok(ps),
    ensures
        rle_decode(packets_bytes(ps)) == packets_run(ps),
        packet_headers(packets_bytes(ps)) == ps.map_values(|p: Packet| packet_header(p)),
        packets_complete(packets_bytes(ps)),
    decreases ps.len(),
{
    let bytes = packets_bytes(ps);
    if ps.len() == 0 {
        assert(ps.map_values(|p: Packet| packet_header(p)) =~= Seq::<u8>::empty());
    } else {
        let p = ps[0];
        let rest = ps.drop_first();
        assert(packet_ok(p));
        assert forall|i: int| 0 <= i < rest.len() implies #[trigger] packet_ok(rest[i]) by {
            assert(rest[i] == ps[i + 1]);
        }
        lemma_read_packets(rest);
        let pb = packet_bytes(p);
        assert(bytes == pb + packets_bytes(rest));
        assert(bytes[0] == pb[0]);
        match p {
            Packet::Literal(d) => {
                assert(pb[0] == d.len() - 1);
                assert(first_packet_len(bytes) == pb.len());
                assert(bytes.subrange(1, literal_len(bytes[0]) + 1) =~= d);
                assert(first_packet_run(bytes) == packet_run(p));
            },
            Packet::Repeat(n, b) => {
                assert(pb[0] == 257 - n);
                assert(first_packet_len(bytes) == pb.len());
                assert(bytes[1] == b);
                assert(first_packet_run(bytes) =~= packet_run(p));
            },
        }
        assert(bytes.skip(first_packet_len(bytes)) =~= packets_bytes(rest));
        let heads = ps.map_values(|q: Packet| packet_header(q));
        assert(heads =~= seq![packet_header(p)] + rest.map_values(|q: Packet| packet_header(q)));
        if rest.len() == 0 {
            assert(packets_bytes(rest) == Seq::<u8>::empty());
            assert(packets_run(rest) == Seq::<u8>::empty());
            assert(bytes =~= pb);
            assert(packets_run(ps) =~= packet_run(p));
            assert(rest.map_values(|q: Packet| packet_header(q)) =~= Seq::<u8>::empty());
            assert(packet_headers(bytes) =~= heads);
        } else {
            assert(packets_bytes(rest).len() > 0) by {
                assert(packets_bytes(rest) == packet_bytes(rest[0]) + packets_bytes(rest.drop_first()));
            }
            assert(packet_headers(bytes) =~= heads);
        }
    }
}

/// Decoding the encoding of any byte sequence gives the sequence back.
pub proof fn lemma_rle_round_trip(s: Seq<u8>)
    ensures
        rle_decode(rle_encode(s)) == s,
{
    lemma_encoder_packets(s);
    lemma_read_packets(encoder_packets(s));
}

/// The encoder never writes 0x80 as a packet header.
pub proof fn lemma_rle_no_noop_header(s: Seq<u8>)
    ensures
        forall|i: int|
            0 <= i < packet_headers(rle_encode(s)).len() ==> #[trigger] packet_headers(
                rle_encode(s),
            )[i] != 0x80,
{
    lemma_rle_packet_bounds(s);
}

/// Every packet of an encoding is complete; a literal packet holds 1 to 128
/// bytes and a repeat packet stands for 3 to 128 bytes.
pub proof fn lemma_rle_packet_bounds(s: Seq<u8>)
    ensures
        packets_complete(rle_encode(s)),
        forall|i: int|
            0 <= i < packet_headers(rle_encode(s)).len() ==> {
                let h = #[trigger] packet_headers(rle_encode(s))[i];
                (h < 0x80 && 1 <= literal_len(h) <= 128) || (h > 0x80 && 3 <= repeat_len(h)
                    <= 128)
            },
{
    let ps = encoder_packets(s);
    lemma_encoder_packets(s);
    lemma_read_packets(ps);
    assert forall|i: int| 0 <= i < packet_headers(rle_encode(s)).len() implies {
        let h = #[trigger] packet_headers(rle_encode(s))[i];
        (h < 0x80 && 1 <= literal_len(h) <= 128) || (h > 0x80 && 3 <= repeat_len(h) <= 128)
    } by {
        assert(packet_ok(ps[i]));
        let h = packet_headers(rle_encode(s))[i];
        assert(h == packet_header(ps[i]));
    }
}

/// `n` copies of the byte `b`.
pub open spec fn repeated(b: u8, n: nat) -> Seq<u8> {
    Seq::new(n, |_i: int| b)
}

proof fn lemma_run_of_equal_bytes(b: u8, k: nat)
    requires
        1 <= k <= 128,
    ensures
        encoder_run(repeated(b, k)).packets == Seq::<Packet>::empty(),
        encoder_run(repeated(b, k)).count == k,
        encoder_run(repeated(b, k)).prev == Some(b),
        encoder_run(repeated(b, k)).pending == (if k >= 3 {
            repeated(b, (k - 3) as nat)
        } else {
            repeated(b, k)
        }),
    decreases k,
{
    let s = repeated(b, k);
    assert(s.drop_last() =~= repeated(b, (k - 1) as nat));
    if k == 1 {
        assert(repeated(b, 0) =~= Seq::<u8>::empty());
        assert(encoder_run(repeated(b, 0)) == encoder_start());
        assert(encoder_run(s).pending =~= repeated(b, 1));
    } else {
        lemma_run_of_equal_bytes(b, (k - 1) as nat);
        let st = encoder_run(repeated(b, (k - 1) as nat));
        assert(st.pending.push(b).len() < 128);
        if k == 3 {
            assert(st.pending.push(b).take(0) =~= Seq::<u8>::empty());
            assert(encoder_run(s).pending =~= repeated(b, 0));
        } else if k > 3 {
            assert(encoder_run(s).pending =~= repeated(b, (k - 3) as nat));
        } else {
            assert(encoder_run(s).pending =~= repeated(b, k));
        }
    }
}

/// A run of 128 equal bytes encodes as the one repeat packet `0x81 b`.
pub proof fn lemma_rle_128_equal_bytes(b: u8)
    ensures
        rle_encode(repeated(b, 128)) == seq![0x81u8, b],
{
    lemma_run_of_equal_bytes(b, 128);
    let ps = encoder_packets(repeated(b, 128));
    assert(ps =~= seq![Packet::Repeat(128, b)]);
    assert(ps.drop_first() =~= Seq::<Packet>::empty());
    assert(packets_bytes(Seq::<Packet>::empty()) == Seq::<u8>::empty());
    assert(rle_encode(repeated(b, 128)) =~= seq![0x81u8, b]);
}

/// A run of 129 equal bytes encodes as the repeat packet `0x81 b` followed by
/// the literal packet `0x00 b`.
pub proof fn lemma_rle_129_equal_bytes(b: u8)
    ensures
        rle_encode(repeated(b, 129)) == seq![0x81u8, b, 0x00u8, b],
{
    lemma_run_of_equal_bytes(b, 128);
    assert(repeated(b, 129).drop_last() =~= repeated(b, 128));
    let st = encoder_run(repeated(b, 129));
    assert(st.pending =~= seq![b]);
    let ps = encoder_packets(repeated(b, 129));
    assert(ps =~= seq![Packet::Repeat(128, b), Packet::Literal(seq![b])]);
    assert(ps.drop_first() =~= seq![Packet::Literal(seq![b])]);
    assert(ps.drop_first().drop_first() =~= Seq::<Packet>::empty());
    assert(packets_bytes(Seq::<Packet>::empty()) == Seq::<u8>::empty());
    assert(packet_bytes(Packet::Literal(seq![b])) =~= seq![0x00u8, b]);
    assert(packets_bytes(ps.drop_first()) =~= seq![0x00u8, b]);
    assert(packet_bytes(Packet::Repeat(128, b)) =~= seq![0x81u8, b]);
    assert(rle_encode(repeated(b, 129)) =~= seq![0x81u8, b, 0x00u8, b]);
}

// The encoding's length.

/// A literal packet holding the most bytes one can hold.
pub open spec fn is_full_literal(p: Packet) -> bool {
    p matches Packet::Literal(d) && d.len() == 128
}

/// The number of full literal packets.
pub open spec fn full_literals(ps: Seq<Packet>) -> nat
    decreases ps.len(),
{
    if ps.len() == 0 {
        0
    } else {
        (if is_full_literal(ps[0]) {
            1nat
        } else {
            0nat
        }) + full_literals(ps.drop_first())
    }
}

proof fn lemma_full_literals_push(ps: Seq<Packet>, p: Packet)
    ensures
        full_literals(ps.push(p)) == full_literals(ps) + (if is_full_literal(p) {
            1nat
        } else {
            0nat
        }),
    decreases ps.len(),
{
    if ps.len() == 0 {
        assert(ps.push(p).drop_first() =~= Seq::<Packet>::empty());
        assert(ps.push(p)[0] == p);
        assert(full_literals(Seq::<Packet>::empty()) == 0);
        assert(full_literals(ps) == 0);
    } else {
        assert(ps.push(p).drop_first() =~= ps.drop_first().push(p));
        assert(ps.push(p)[0] == ps[0]);
        lemma_full_literals_push(ps.drop_first(), p);
    }
}

/// Each full literal stands for 128 bytes of input.
proof fn lemma_full_literals_bound(ps: Seq<Packet>)
    ensures
        128 * full_literals(ps) <= packets_run(ps).len(),
    decreases ps.len(),
{
    if ps.len() > 0 {
        lemma_full_literals_bound(ps.drop_first());
    }
}

/// The bytes written so far exceed the input they stand for by at most one
/// byte per full literal, plus one while a repeat run is active (the literal
/// closed before it is paid back when the run is written).
pub open spec fn encoder_budget(st: EncoderState) -> bool {
    packets_bytes(st.packets).len() <= packets_run(st.packets).len() + full_literals(st.packets) + (
    if st.count >= 3 {
        1int
    } else {
        0int
    })
}

proof fn lemma_packet_push_lengths(ps: Seq<Packet>, p: Packet)
    ensures
        packets_bytes(ps.push(p)).len() == packets_bytes(ps).len() + packet_bytes(p).len(),
        packets_run(ps.push(p)).len() == packets_run(ps).len() + packet_run(p).len(),
        full_literals(ps.push(p)) == full_literals(ps) + (if is_full_literal(p) {
            1nat
        } else {
            0nat
        }),
{
    lemma_packets_bytes_push(ps, p);
    lemma_packets_run_push(ps, p);
    lemma_full_literals_push(ps, p);
}

proof fn lemma_encoder_budget_step(st: EncoderState, s: Seq<u8>, b: u8)
    requires
        encoder_inv(st, s),
        encoder_budget(st),
    ensures
        encoder_budget(encoder_step(st, b)),
{
    let c = st.count;
    let c1 = next_count(st, b);
    let p1 = st.pending.push(b);
    if c1 == 3 {
        let lit = p1.take(p1.len() - 3);
        if lit.len() > 0 {
            lemma_packet_push_lengths(st.packets, Packet::Literal(lit));
        }
    } else if c1 == c + 1 && c >= 3 {
    } else if c1 == c + 1 {
        if p1.len() == 128 {
            lemma_packet_push_lengths(st.packets, Packet::Literal(p1));
        }
    } else {
        if c > 2 {
            lemma_packet_push_lengths(st.packets, Packet::Repeat(c as nat, st.prev->0));
        } else if p1.len() == 128 {
            lemma_packet_push_lengths(st.packets, Packet::Literal(p1));
        }
    }
}

proof fn lemma_encoder_budget_run(s: Seq<u8>)
    ensures
        encoder_budget(encoder_run(s)),
    decreases s.len(),
{
    if s.len() == 0 {
        assert(packets_bytes(Seq::<Packet>::empty()) == Seq::<u8>::empty());
        assert(packets_run(Seq::<Packet>::empty()) == Seq::<u8>::empty());
    } else {
        lemma_encoder_budget_run(s.drop_last());
        lemma_encoder_inv_run(s.drop_last());
        lemma_encoder_budget_step(encoder_run(s.drop_last()), s.drop_last(), s.last());
    }
}

/// The encoding of `n` bytes takes at most `n + n / 128 + 1` bytes.
pub proof fn lemma_rle_encode_len(s: Seq<u8>)
    ensures
        rle_encode(s).len() <= s.len() + s.len() / 128 + 1,
{
    let st = encoder_run(s);
    lemma_encoder_budget_run(s);
    lemma_encoder_inv_run(s);
    lemma_encoder_packets(s);
    let ps = encoder_packets(s);
    if st.count >= 3 {
        lemma_packet_push_lengths(st.packets, Packet::Repeat(st.count as nat, st.prev->0));
    } else if st.pending.len() > 0 {
        lemma_packet_push_lengths(st.packets, Packet::Literal(st.pending));
    }
    assert(packets_bytes(ps).len() <= s.len() + full_literals(ps) + 1);
    lemma_full_literals_bound(ps);
    let f = full_literals(ps);
    let n = s.len() as int;
    assert(f <= n / 128) by (nonlinear_arith)
        requires
            128 * f <= n,
            f >= 0;
}

} // verus!
