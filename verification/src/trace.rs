//! The wire trace of the OSPF daemons: a line for each packet sent, received
//! or dropped.

use crate::hex::{hex8, write_hex8};
use crate::text::{cat, decimal, no_items, own, push_view, views, write_number};
use crate::wire::{be16, be32, demux_header, read_be16, read_be32, v2_header};
use vstd::prelude::*;
use vstd::string::*;

verus! {

/// What a trace says of a packet.
pub open spec fn packet_text(kind: u8, len: u16, rid: u32) -> Seq<char> {
    "kind="@ + decimal(kind as nat) + " len="@ + decimal(len as nat) + " rid="@ + hex8(rid)
}

fn write_packet(kind: u8, len: u16, rid: u32) -> (s: String)
    ensures
        s@ == packet_text(kind, len, rid),
{
    let mut s = own("kind=");
    s.append(write_number(kind as u64).as_str());
    s.append(" len=");
    s.append(write_number(len as u64).as_str());
    s.append(" rid=");
    s.append(write_hex8(rid).as_str());
    s
}

/// The lines of a stream from `off` on, one for each packet. The walk stops
/// where no header of `header` bytes is left, at a packet of fewer than `least`
/// bytes, or at one that runs past the end.
pub open spec fn sent_lines(s: Seq<u8>, off: int, header: nat, least: nat) -> Seq<Seq<char>>
    decreases s.len() - off,
{
    if off < 0 || header < 8 || least < 1 || off + header > s.len() {
        Seq::empty()
    } else {
        let n = be16(s, off + 2);
        if n < least || off + n > s.len() {
            Seq::empty()
        } else {
            seq!["dbg-send "@ + packet_text(s[off + 1], n, be32(s, off + 4))] + sent_lines(
                s,
                off + n,
                header,
                least,
            )
        }
    }
}

/// The trace of a stream that is sent.
pub fn trace_sent(stream: &[u8], header: usize, least: usize) -> (r: Vec<String>)
    requires
        header >= 8,
        least >= 1,
    ensures
        views(r@) == sent_lines(stream@, 0, header as nat, least as nat),
{
    let ghost all = sent_lines(stream@, 0, header as nat, least as nat);
    let mut out: Vec<String> = no_items();
    let mut off: usize = 0;
    assert(views(out@) + all =~= all);
    while header <= stream.len() && off <= stream.len() - header
        invariant
            header >= 8,
            least >= 1,
            off <= stream@.len(),
            all == sent_lines(stream@, 0, header as nat, least as nat),
            all == views(out@) + sent_lines(stream@, off as int, header as nat, least as nat),
        decreases stream.len() - off,
    {
        let len: u16 = read_be16(stream, off + 2);
        let n: usize = len as usize;
        if n < least || n > stream.len() - off {
            assert(views(out@) =~= all);
            return out;
        }
        let ghost before = views(out@);
        let line = cat(
            "dbg-send ",
            write_packet(stream[off + 1], len, read_be32(stream, off + 4)).as_str(),
        );
        let ghost lv = line@;
        push_view(&mut out, line);
        off += n;
        assert(before + (seq![lv] + sent_lines(stream@, off as int, header as nat, least as nat))
            =~= views(out@) + sent_lines(stream@, off as int, header as nat, least as nat));
    }
    assert(views(out@) =~= all);
    out
}

/// The line of a packet that arrived, with the address it came from where that
/// is traced.
pub open spec fn received_line(s: Seq<u8>, src: Option<Seq<char>>) -> Seq<char> {
    let head = "dbg-recv "@ + packet_text(s[1], be16(s, 2), be32(s, 4));
    match src {
        Some(a) => head + " src="@ + a,
        None => head,
    }
}

/// The trace of a packet that arrived.
pub fn trace_received(bytes: &[u8], src: Option<&str>) -> (r: String)
    requires
        bytes@.len() >= 8,
    ensures
        r@ == received_line(
            bytes@,
            match src {
                Some(a) => Some(a@),
                None => None,
            },
        ),
{
    let mut s = cat(
        "dbg-recv ",
        write_packet(bytes[1], read_be16(bytes, 2), read_be32(bytes, 4)).as_str(),
    );
    match src {
        Some(a) => {
            s.append(" src=");
            s.append(a);
        },
        None => {},
    }
    s
}

/// The line of a version 2 packet that is dropped, if its drop is traced: a
/// broken header, or a wrong checksum. Packets of another area and our own go
/// untraced.
pub open spec fn dropped_line(
    s: Seq<u8>,
    our_rid: u32,
    area: u32,
    checksum_ok: bool,
) -> Option<Seq<char>> {
    match v2_header(s) {
        None => Some("dbg-drop demux"@),
        Some((rid, in_area, len)) => if in_area == area && rid != our_rid && !checksum_ok {
            Some(
                "dbg-drop checksum kind="@ + decimal(s[1] as nat) + " len="@ + decimal(len as nat),
            )
        } else {
            None
        },
    }
}

/// The trace of a version 2 packet, if it is dropped.
pub fn trace_dropped(bytes: &[u8], our_rid: u32, area: u32, checksum_ok: bool) -> (r: Option<
    String,
>)
    ensures
        match dropped_line(bytes@, our_rid, area, checksum_ok) {
            Some(t) => r is Some && r->0@ == t,
            None => r is None,
        },
{
    match demux_header(bytes) {
        None => Some(own("dbg-drop demux")),
        Some((rid, in_area, len)) => {
            if in_area == area && rid != our_rid && !checksum_ok {
                let mut s = own("dbg-drop checksum kind=");
                s.append(write_number(bytes[1] as u64).as_str());
                s.append(" len=");
                s.append(write_number(len as u64).as_str());
                Some(s)
            } else {
                None
            }
        },
    }
}

} // verus!
