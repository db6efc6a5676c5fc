//! OSPF packets as bytes: the IPv4 envelope, the fixed header, and a stream of
//! packets laid end to end.

use vstd::prelude::*;
use vstd::slice::slice_subrange;

verus! {

/// The 16-bit big-endian number at `i`.
pub open spec fn be16(s: Seq<u8>, i: int) -> u16 {
    (s[i] * 0x100 + s[i + 1]) as u16
}

/// The 32-bit big-endian number at `i`.
pub open spec fn be32(s: Seq<u8>, i: int) -> u32 {
    (s[i] * 0x100_0000 + s[i + 1] * 0x1_0000 + s[i + 2] * 0x100 + s[i + 3]) as u32
}

/// Reads [`be16`].
pub fn read_be16(b: &[u8], i: usize) -> (n: u16)
    requires
        i + 2 <= b@.len(),
    ensures
        n == be16(b@, i as int),
{
    (b[i] as u16) * 0x100 + (b[i + 1] as u16)
}

/// Reads [`be32`].
pub fn read_be32(b: &[u8], i: usize) -> (n: u32)
    requires
        i + 4 <= b@.len(),
    ensures
        n == be32(b@, i as int),
{
    (b[i] as u32) * 0x100_0000 + (b[i + 1] as u32) * 0x1_0000 + (b[i + 2] as u32) * 0x100 + (b[i
        + 3] as u32)
}

/// The IP protocol number of OSPF.
pub const OSPF_PROTOCOL: u8 = 89;

/// The length of an OSPFv2 packet header.
pub const V2_HEADER_LEN: usize = 24;

/// The length of an OSPFv3 packet header.
pub const V3_HEADER_LEN: usize = 16;

/// The packet type of a Hello.
pub const HELLO: u8 = 1;

/// The packet type of a Database Description.
pub const DATABASE_DESCRIPTION: u8 = 2;

/// The packet type of a Link State Request.
pub const LINK_STATE_REQUEST: u8 = 3;

/// The packet type of a Link State Update.
pub const LINK_STATE_UPDATE: u8 = 4;

/// The length of the IPv4 header that `s` starts with, in bytes.
pub open spec fn ipv4_header_len(s: Seq<u8>) -> int {
    (s[0] % 16) * 4
}

/// The OSPF packet inside an IPv4 datagram.
pub open spec fn ospf_payload(s: Seq<u8>) -> Option<Seq<u8>> {
    if s.len() >= 20 && s[0] / 16 == 4 && 20 <= ipv4_header_len(s) <= s.len() && s[9]
        == OSPF_PROTOCOL {
        Some(s.subrange(ipv4_header_len(s), s.len() as int))
    } else {
        None
    }
}

/// Strips the IPv4 header of a raw-socket datagram, verifying that it carries
/// OSPF. Gives the OSPF packet bytes.
pub fn strip_ipv4_header(bytes: &[u8]) -> (r: Option<&[u8]>)
    ensures
        match r {
            Some(p) => ospf_payload(bytes@) == Some(p@),
            None => ospf_payload(bytes@) is None,
        },
{
    if bytes.len() < 20 {
        return None;
    }
    if bytes[0] / 16 != 4 {
        return None;
    }
    let ihl: usize = (bytes[0] % 16) as usize * 4;
    if ihl < 20 || bytes.len() < ihl {
        return None;
    }
    if bytes[9] != OSPF_PROTOCOL {
        return None;
    }
    Some(slice_subrange(bytes, ihl, bytes.len()))
}

/// Router-id, area and length of an OSPFv2 packet: at least a header long, of
/// version 2, with a length field that covers the header and fits the bytes.
pub open spec fn v2_header(s: Seq<u8>) -> Option<(u32, u32, u16)> {
    if s.len() >= V2_HEADER_LEN && s[0] == 2 && V2_HEADER_LEN <= be16(s, 2) <= s.len() {
        Some((be32(s, 4), be32(s, 8), be16(s, 2)))
    } else {
        None
    }
}

/// Router-id, area and length of a raw OSPFv2 datagram, without a full decode.
pub fn demux_header(bytes: &[u8]) -> (r: Option<(u32, u32, u16)>)
    ensures
        r == v2_header(bytes@),
{
    if bytes.len() < V2_HEADER_LEN {
        return None;
    }
    if bytes[0] != 2 {
        return None;
    }
    let len: u16 = read_be16(bytes, 2);
    if (len as usize) < V2_HEADER_LEN || (len as usize) > bytes.len() {
        return None;
    }
    Some((read_be32(bytes, 4), read_be32(bytes, 8), len))
}

/// Router-id, area and length of an OSPFv3 packet: at least a header long, of
/// version 3, with a length field that fits the bytes.
pub open spec fn v3_header(s: Seq<u8>) -> Option<(u32, u32, u16)> {
    if s.len() >= V3_HEADER_LEN && s[0] == 3 && be16(s, 2) <= s.len() {
        Some((be32(s, 4), be32(s, 8), be16(s, 2)))
    } else {
        None
    }
}

/// Router-id, area and length of an OSPFv3 packet, without a full decode.
pub fn demux_header_v3(bytes: &[u8]) -> (r: Option<(u32, u32, u16)>)
    ensures
        r == v3_header(bytes@),
{
    if bytes.len() < V3_HEADER_LEN {
        return None;
    }
    if bytes[0] != 3 {
        return None;
    }
    let len: u16 = read_be16(bytes, 2);
    if bytes.len() < len as usize {
        return None;
    }
    Some((read_be32(bytes, 4), read_be32(bytes, 8), len))
}

/// The router-id of a Hello that belongs in an interface's neighbor table: a
/// Hello of the interface's area, from another router.
pub open spec fn foreign_hello(s: Seq<u8>, our_rid: u32, area: u32) -> Option<u32> {
    if s.len() >= 12 && s[1] == HELLO && be32(s, 4) != our_rid && be32(s, 8) == area {
        Some(be32(s, 4))
    } else {
        None
    }
}

/// Which router's table entry a received packet updates, if any.
pub fn hello_sender(bytes: &[u8], our_rid: u32, area: u32) -> (r: Option<u32>)
    ensures
        r == foreign_hello(bytes@, our_rid, area),
{
    if bytes.len() >= 12 && bytes[1] == HELLO {
        let rid: u32 = read_be32(bytes, 4);
        if rid != our_rid && read_be32(bytes, 8) == area {
            return Some(rid);
        }
    }
    None
}

/// The packets from `off` on: each is as long as its length field says. The
/// first that is shorter than a header, or runs past the end, stops the walk.
pub open spec fn packets_from(s: Seq<u8>, off: int, header: nat) -> Seq<Seq<u8>>
    decreases s.len() - off,
{
    if off < 0 || header < 4 || off + header > s.len() {
        Seq::empty()
    } else {
        let n = be16(s, off + 2);
        if n < header || off + n > s.len() {
            Seq::empty()
        } else {
            seq![s.subrange(off, off + n)] + packets_from(s, off + n, header)
        }
    }
}

/// The bytes of each packet.
pub open spec fn bytes_of(v: Seq<Vec<u8>>) -> Seq<Seq<u8>> {
    v.map_values(|p: Vec<u8>| p@)
}

/// Copies `b[from..to]`.
pub fn copy_range(b: &[u8], from: usize, to: usize) -> (v: Vec<u8>)
    requires
        from <= to <= b@.len(),
    ensures
        v@ == b@.subrange(from as int, to as int),
{
    let mut v: Vec<u8> = Vec::new();
    let mut i: usize = from;
    while i < to
        invariant
            from <= i <= to <= b@.len(),
            v@ == b@.subrange(from as int, i as int),
        decreases to - i,
    {
        v.push(b[i]);
        i += 1;
        assert(b@.subrange(from as int, i as int) =~= b@.subrange(from as int, i - 1).push(
            b@[i - 1],
        ));
    }
    v
}

/// Cuts a drained stream into packets, one per datagram.
pub fn split_stream(stream: &[u8], header: usize) -> (r: Vec<Vec<u8>>)
    requires
        header >= 4,
    ensures
        bytes_of(r@) == packets_from(stream@, 0, header as nat),
{
    let mut out: Vec<Vec<u8>> = Vec::new();
    let mut off: usize = 0;
    assert(packets_from(stream@, 0, header as nat) =~= bytes_of(out@) + packets_from(
        stream@,
        0,
        header as nat,
    ));
    while header <= stream.len() && off <= stream.len() - header
        invariant
            header >= 4,
            off <= stream@.len(),
            packets_from(stream@, 0, header as nat) == bytes_of(out@) + packets_from(
                stream@,
                off as int,
                header as nat,
            ),
        decreases stream.len() - off,
    {
        let n: usize = read_be16(stream, off + 2) as usize;
        if n < header || n > stream.len() - off {
            assert(bytes_of(out@) =~= packets_from(stream@, 0, header as nat));
            return out;
        }
        let p = copy_range(stream, off, off + n);
        let ghost before = bytes_of(out@);
        let ghost pv = p@;
        out.push(p);
        proof {
            assert(bytes_of(out@) =~= before.push(pv));
        }
        off += n;
        assert(packets_from(stream@, 0, header as nat) =~= bytes_of(out@) + packets_from(
            stream@,
            off as int,
            header as nat,
        ));
    }
    assert(bytes_of(out@) =~= packets_from(stream@, 0, header as nat));
    out
}

/// Packets laid end to end.
pub open spec fn joined(p: Seq<Seq<u8>>) -> Seq<u8>
    decreases p.len(),
{
    if p.len() == 0 {
        Seq::empty()
    } else {
        p[0] + joined(p.subrange(1, p.len() as int))
    }
}

/// The packets of a stream, laid end to end, are the start of the stream:
/// nothing is lost, doubled or reordered before the point where the walk stops.
pub proof fn packets_tile_the_stream(s: Seq<u8>, off: int, header: nat)
    requires
        0 <= off <= s.len(),
    ensures
        joined(packets_from(s, off, header)).len() <= s.len() - off,
        joined(packets_from(s, off, header)) == s.subrange(
            off,
            off + joined(packets_from(s, off, header)).len(),
        ),
    decreases s.len() - off,
{
    let p = packets_from(s, off, header);
    if p.len() == 0 {
        assert(joined(p) =~= s.subrange(off, off));
    } else {
        let n = be16(s, off + 2);
        packets_tile_the_stream(s, off + n, header);
        let rest = packets_from(s, off + n, header);
        assert(p.subrange(1, p.len() as int) =~= rest);
        assert(joined(p) =~= s.subrange(off, off + joined(p).len()));
    }
}

} // verus!
