use vstd::prelude::*;
use vstd::slice::slice_subrange;

use crate::error::{result_view, PeelError};

verus! {

/// The only source address whose packets are kept (10.1.1.10).
pub const WANTED_SOURCE: u32 = 0x0A01010A;

/// The only destination address whose packets are kept (10.1.1.200).
pub const WANTED_DESTINATION: u32 = 0x0A0101C8;

/// The only UDP destination port whose packets are kept.
pub const WANTED_PORT: u16 = 42069;

/// The fields of a 20-byte IPv4 header that the filter reads.
#[derive(Debug, Clone, Copy, PartialEq, Eq, Structural)]
pub struct IPHeader {
    pub source_address: u32,
    pub destination_address: u32,
    pub packet_len: usize,
    pub calculated_checksum: u16,
    pub expected_checksum: u16,
}

/// The four fields of an 8-byte UDP header.
#[derive(Debug, Clone, Copy, PartialEq, Eq, Structural)]
pub struct UDPHeader {
    pub source_port: u16,
    pub destination_port: u16,
    pub datagram_len: u16,
    pub expected_checksum: u16,
}

/// The big-endian 16-bit word at `i`.
pub open spec fn be16(s: Seq<u8>, i: int) -> u16 {
    (s[i] as int * 256 + s[i + 1] as int) as u16
}

/// The big-endian 32-bit word at `i`.
pub open spec fn be32(s: Seq<u8>, i: int) -> u32 {
    (s[i] as int * 16777216 + s[i + 1] as int * 65536 + s[i + 2] as int * 256 + s[i
        + 3] as int) as u32
}

/// The plain sum of the words.
pub open spec fn word_sum(ws: Seq<u16>) -> nat
    decreases ws.len(),
{
    if ws.len() == 0 {
        0
    } else {
        word_sum(ws.drop_last()) + ws.last() as nat
    }
}

/// Adds the carry above bit 16 back into the low 16 bits.
pub open spec fn fold16(x: int) -> int {
    x / 65536 + x % 65536
}

/// The 16-bit one's complement of the one's complement sum of the words.
pub open spec fn checksum_of(ws: Seq<u16>) -> u16 {
    (65535 - fold16(fold16(word_sum(ws) as int))) as u16
}

/// The nine header words that the IPv4 checksum covers (all but the checksum field).
pub open spec fn ip_words(h: Seq<u8>) -> Seq<u16> {
    seq![be16(h, 0), be16(h, 2), be16(h, 4), be16(h, 6), be16(h, 8), be16(h, 12), be16(h, 14),
        be16(h, 16), be16(h, 18)]
}

/// The IPv4 header that `h` starts with.
pub open spec fn ip_header_of(h: Seq<u8>) -> IPHeader {
    IPHeader {
        source_address: be32(h, 12),
        destination_address: be32(h, 16),
        packet_len: be16(h, 2) as usize,
        calculated_checksum: checksum_of(ip_words(h)),
        expected_checksum: be16(h, 10),
    }
}

/// The UDP header that `h` starts with.
pub open spec fn udp_header_of(h: Seq<u8>) -> UDPHeader {
    UDPHeader {
        source_port: be16(h, 0),
        destination_port: be16(h, 2),
        datagram_len: be16(h, 4),
        expected_checksum: be16(h, 6),
    }
}

/// The high half of `n`.
pub open spec fn hi16(n: u32) -> u16 {
    (n / 65536) as u16
}

/// The low half of `n`.
pub open spec fn lo16(n: u32) -> u16 {
    (n % 65536) as u16
}

/// The big-endian word at `i`, with a zero byte standing in past the end.
pub open spec fn padded_be16(b: Seq<u8>, i: int) -> u16 {
    (b[i] as int * 256 + if i + 1 < b.len() {
        b[i + 1] as int
    } else {
        0
    }) as u16
}

/// `b` as big-endian words, padded with a zero byte when its length is odd.
pub open spec fn body_words(b: Seq<u8>) -> Seq<u16> {
    Seq::new(((b.len() + 1) / 2) as nat, |k: int| padded_be16(b, 2 * k))
}

/// The words the UDP checksum is taken over: the pseudo-header, then source
/// port, destination port and length twice, then the payload.
pub open spec fn udp_words(ip: IPHeader, udp: UDPHeader, datagram: Seq<u8>) -> Seq<u16> {
    seq![hi16(ip.source_address), lo16(ip.source_address), hi16(ip.destination_address),
        lo16(ip.destination_address), 0x0011u16, udp.datagram_len, udp.source_port,
        udp.destination_port, udp.datagram_len] + body_words(
        datagram.subrange(8, datagram.len() as int),
    )
}

/// The packet passes the checksum, address and port filter.
pub open spec fn admits(ip: IPHeader, udp: UDPHeader, datagram: Seq<u8>) -> bool {
    &&& ip.calculated_checksum == ip.expected_checksum
    &&& ip.source_address == WANTED_SOURCE
    &&& ip.destination_address == WANTED_DESTINATION
    &&& udp.destination_port == WANTED_PORT
    &&& checksum_of(udp_words(ip, udp, datagram)) == udp.expected_checksum
}

/// The whole packet `pkt` (at least 28 bytes) passes the filter.
pub open spec fn accepted(pkt: Seq<u8>) -> bool {
    admits(
        ip_header_of(pkt.subrange(0, 20)),
        udp_header_of(pkt.subrange(20, 28)),
        pkt.subrange(20, pkt.len() as int),
    )
}

/// What the packet layer decodes the stream `s` to: the UDP payloads of the
/// accepted packets, in stream order, or the first error met.
pub open spec fn reassembled(s: Seq<u8>) -> Result<Seq<u8>, PeelError>
    decreases s.len(),
{
    if s.len() == 0 {
        Ok(Seq::empty())
    } else if s.len() < 20 {
        Err(PeelError::TruncatedStream)
    } else if s[0] != 0x45 {
        Err(PeelError::UnsupportedPacket)
    } else {
        let l = be16(s, 2) as int;
        if l < 28 || l > s.len() {
            Err(PeelError::TruncatedStream)
        } else {
            match reassembled(s.subrange(l, s.len() as int)) {
                Ok(rest) => Ok(
                    if accepted(s.subrange(0, l)) {
                        s.subrange(28, l)
                    } else {
                        Seq::empty()
                    } + rest,
                ),
                Err(e) => Err(e),
            }
        }
    }
}

/// `r` with `front` put before what it holds, if it holds bytes.
pub open spec fn prepend(front: Seq<u8>, r: Result<Seq<u8>, PeelError>) -> Result<
    Seq<u8>,
    PeelError,
> {
    match r {
        Ok(v) => Ok(front + v),
        Err(e) => Err(e),
    }
}

fn read_be16(b: &[u8], i: usize) -> (r: u16)
    requires
        i + 1 < b@.len(),
    ensures
        r == be16(b@, i as int),
{
    (b[i] as u16) * 256 + (b[i + 1] as u16)
}

fn read_be32(b: &[u8], i: usize) -> (r: u32)
    requires
        i + 3 < b@.len(),
    ensures
        r == be32(b@, i as int),
{
    (b[i] as u32) * 16777216 + (b[i + 1] as u32) * 65536 + (b[i + 2] as u32) * 256 + (b[i
        + 3] as u32)
}

proof fn lemma_word_sum_bound(ws: Seq<u16>)
    ensures
        word_sum(ws) <= 65535 * ws.len(),
    decreases ws.len(),
{
    if ws.len() > 0 {
        lemma_word_sum_bound(ws.drop_last());
    }
}

/// The 16-bit one's complement of the one's complement sum of `words`.
pub fn calculate_checksum(words: &Vec<u16>) -> (r: u16)
    requires
        words@.len() <= 65537,
    ensures
        r == checksum_of(words@),
{
    let n = words.len();
    let mut sum: u32 = 0;
    let mut i: usize = 0;
    while i < n
        invariant
            n == words@.len(),
            n <= 65537,
            i <= n,
            sum == word_sum(words@.subrange(0, i as int)),
        decreases n - i,
    {
        proof {
            assert(words@.subrange(0, i + 1).drop_last() =~= words@.subrange(0, i as int));
            lemma_word_sum_bound(words@.subrange(0, i + 1));
        }
        sum = sum + words[i] as u32;
        i = i + 1;
    }
    assert(words@.subrange(0, n as int) =~= words@);
    let once = sum / 65536 + sum % 65536;
    let twice = once / 65536 + once % 65536;
    assert(twice <= 65535) by {
        if once >= 65536 {
            assert(once / 65536 == 1);
            assert(once % 65536 == once - 65536);
        } else {
            assert(once / 65536 == 0);
            assert(once % 65536 == once);
        }
    }
    (65535 - twice) as u16
}

/// The two halves of `n`, high first.
pub fn split_u32(n: u32) -> (r: (u16, u16))
    ensures
        r.0 == hi16(n),
        r.1 == lo16(n),
{
    ((n / 65536) as u16, (n % 65536) as u16)
}

impl IPHeader {
    /// Reads the fields of the IPv4 header that `header` starts with and
    /// computes its checksum.
    pub fn parse(header: &[u8]) -> (r: IPHeader)
        requires
            header@.len() >= 20,
        ensures
            r == ip_header_of(header@),
    {
        let words: Vec<u16> = vec![
            read_be16(header, 0),
            read_be16(header, 2),
            read_be16(header, 4),
            read_be16(header, 6),
            read_be16(header, 8),
            read_be16(header, 12),
            read_be16(header, 14),
            read_be16(header, 16),
            read_be16(header, 18),
        ];
        assert(words@ =~= ip_words(header@));
        IPHeader {
            source_address: read_be32(header, 12),
            destination_address: read_be32(header, 16),
            packet_len: read_be16(header, 2) as usize,
            calculated_checksum: calculate_checksum(&words),
            expected_checksum: read_be16(header, 10),
        }
    }
}

impl UDPHeader {
    /// Reads the UDP header that `header` starts with.
    pub fn parse(header: &[u8]) -> (r: UDPHeader)
        requires
            header@.len() >= 8,
        ensures
            r == udp_header_of(header@),
    {
        UDPHeader {
            source_port: read_be16(header, 0),
            destination_port: read_be16(header, 2),
            datagram_len: read_be16(header, 4),
            expected_checksum: read_be16(header, 6),
        }
    }
}

/// Whether a packet with these headers and this datagram (UDP header and
/// payload) passes the checksum, address and port filter.
pub fn should_include(ip_header: IPHeader, udp_header: UDPHeader, datagram: &[u8]) -> (r: bool)
    requires
        8 <= datagram@.len() <= 65535,
    ensures
        r == admits(ip_header, udp_header, datagram@),
{
    if !(ip_header.calculated_checksum == ip_header.expected_checksum
        && ip_header.source_address == WANTED_SOURCE && ip_header.destination_address
        == WANTED_DESTINATION && udp_header.destination_port == WANTED_PORT) {
        return false;
    }
    let (src_hi, src_lo) = split_u32(ip_header.source_address);
    let (dst_hi, dst_lo) = split_u32(ip_header.destination_address);
    let mut words: Vec<u16> = vec![
        src_hi,
        src_lo,
        dst_hi,
        dst_lo,
        0x0011u16,
        udp_header.datagram_len,
        udp_header.source_port,
        udp_header.destination_port,
        udp_header.datagram_len,
    ];
    let ghost head = words@;
    let ghost body = datagram@.subrange(8, datagram@.len() as int);
    let n = datagram.len();
    let count = (n - 8 + 1) / 2;
    let mut k: usize = 0;
    while k < count
        invariant
            n == datagram@.len(),
            8 <= n <= 65535,
            count == (body.len() + 1) / 2,
            body == datagram@.subrange(8, n as int),
            k <= count,
            words@ == head + body_words(body).subrange(0, k as int),
        decreases count - k,
    {
        let i = 8 + 2 * k;
        let lo: u8 = if i + 1 < n {
            datagram[i + 1]
        } else {
            0
        };
        let w = (datagram[i] as u16) * 256 + (lo as u16);
        proof {
            assert(w == padded_be16(body, 2 * k));
            assert(body_words(body).subrange(0, k + 1) =~= body_words(body).subrange(
                0,
                k as int,
            ).push(w));
        }
        words.push(w);
        k = k + 1;
    }
    assert(body_words(body).subrange(0, count as int) =~= body_words(body));
    assert(words@ =~= udp_words(ip_header, udp_header, datagram@));
    calculate_checksum(&words) == udp_header.expected_checksum
}

fn extend_from(out: &mut Vec<u8>, src: &[u8], from: usize)
    requires
        from <= src@.len(),
    ensures
        final(out)@ == old(out)@ + src@.subrange(from as int, src@.len() as int),
{
    let ghost before = out@;
    let mut k: usize = from;
    while k < src.len()
        invariant
            from <= k <= src@.len(),
            out@ == before + src@.subrange(from as int, k as int),
        decreases src@.len() - k,
    {
        out.push(src[k]);
        proof {
            assert(src@.subrange(from as int, k + 1) =~= src@.subrange(from as int, k as int).push(
                src@[k as int],
            ));
        }
        k = k + 1;
    }
}

/// Walks the stream of IPv4/UDP packets and concatenates the UDP payloads of
/// those that pass the filter, in stream order.
#[verifier::rlimit(40)]
pub fn solve(payload: Vec<u8>) -> (r: Result<Vec<u8>, PeelError>)
    ensures
        result_view(r) == reassembled(payload@),
{
    let n = payload.len();
    let mut out: Vec<u8> = Vec::new();
    let mut offset: usize = 0;
    assert(payload@.subrange(0, n as int) =~= payload@);
    assert(out@ + Seq::<u8>::empty() =~= out@);
    while offset < n
        invariant
            n == payload@.len(),
            offset <= n,
            reassembled(payload@) == prepend(out@, reassembled(payload@.subrange(offset as int, n as int))),
        decreases n - offset,
    {
        let ghost tail = payload@.subrange(offset as int, n as int);
        if n - offset < 20 {
            return Err(PeelError::TruncatedStream);
        }
        if payload[offset] != 0x45 {
            return Err(PeelError::UnsupportedPacket);
        }
        let header = slice_subrange(payload.as_slice(), offset, offset + 20);
        assert(header@ =~= tail.subrange(0, 20));
        let ip_header = IPHeader::parse(header);
        let len = ip_header.packet_len;
        assert(len == be16(tail, 2));
        if len < 28 || len > n - offset {
            return Err(PeelError::TruncatedStream);
        }
        let datagram = slice_subrange(payload.as_slice(), offset + 20, offset + len);
        let udp_header = UDPHeader::parse(slice_subrange(datagram, 0, 8));
        let ghost pkt = tail.subrange(0, len as int);
        proof {
            assert(pkt.subrange(0, 20) =~= header@);
            assert(pkt.subrange(20, 28) =~= datagram@.subrange(0, 8));
            assert(pkt.subrange(20, len as int) =~= datagram@);
        }
        let ghost before = out@;
        if should_include(ip_header, udp_header, datagram) {
            extend_from(&mut out, datagram, 8);
            assert(out@ =~= before + tail.subrange(28, len as int));
        } else {
            assert(out@ =~= before + Seq::<u8>::empty());
        }
        proof {
            let next = payload@.subrange(offset + len, n as int);
            assert(tail.subrange(len as int, tail.len() as int) =~= next);
            let piece = if accepted(pkt) {
                tail.subrange(28, len as int)
            } else {
                Seq::empty()
            };
            assert(out@ == before + piece);
            match reassembled(next) {
                Ok(rest) => {
                    assert(before + (piece + rest) =~= out@ + rest);
                },
                Err(e) => {},
            }
        }
        offset = offset + len;
    }
    Ok(out)
}

/// Every accepted packet of the stream `s` carries a UDP payload of `m` bytes.
pub open spec fn accepted_payloads_have_len(s: Seq<u8>, m: int) -> bool
    decreases s.len(),
{
    if s.len() < 20 || s[0] != 0x45 {
        true
    } else {
        let l = be16(s, 2) as int;
        if l < 28 || l > s.len() {
            true
        } else {
            (accepted(s.subrange(0, l)) ==> l - 28 == m) && accepted_payloads_have_len(
                s.subrange(l, s.len() as int),
                m,
            )
        }
    }
}

/// When every accepted packet carries a payload of the same length `m`, the
/// output's length is a multiple of `m`.
pub proof fn lemma_uniform_payloads(s: Seq<u8>, m: int)
    requires
        m > 0,
        reassembled(s) is Ok,
        accepted_payloads_have_len(s, m),
    ensures
        (reassembled(s)->Ok_0.len() as int) % m == 0,
    decreases s.len(),
{
    if s.len() == 0 {
        vstd::arithmetic::div_mod::lemma_small_mod(0, m as nat);
    } else {
        let l = be16(s, 2) as int;
        let tail = s.subrange(l, s.len() as int);
        lemma_uniform_payloads(tail, m);
        let rest = reassembled(tail)->Ok_0;
        if accepted(s.subrange(0, l)) {
            vstd::arithmetic::div_mod::lemma_mod_add_multiples_vanish(rest.len() as int, m);
        }
    }
}

} // verus!
