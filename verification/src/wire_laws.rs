//! What is read of packets, of hexadecimal text and of captures.

use crate::capture::{chosen, field_of, records_of, selected, RecordModel};
use crate::hex::{
    argument_bytes, decoded, hex8, hex_char, hex_text, hex_text_digits, hex_text_is_plain,
    nibble_of, pair_value, pairs_from, without_0x,
};
use crate::text::{decimal, is_space, starts, trim_of};
use crate::text_laws::{parts_stand_in_texts, trimmed_texts_stay};
use crate::trace::{dropped_line, received_line, sent_lines};
use crate::wire::{be16, be32, foreign_hello, ospf_payload, packets_from, v2_header, v3_header};
use vstd::prelude::*;
use vstd::string::*;
use vstd::utf8::*;

verus! {

/// Numbers on the wire have their highest byte first.
pub proof fn numbers_are_big_endian(s: Seq<u8>, i: int)
    requires
        0 <= i,
        i + 4 <= s.len(),
    ensures
        be16(s, i) as int == s[i] * 256 + s[i + 1],
        be32(s, i) as int == ((s[i] * 256 + s[i + 1]) * 256 + s[i + 2]) * 256 + s[i + 3],
{
}

/// An IPv4 datagram carries an OSPF packet if it is of version 4 and protocol
/// 89 and its header fits; the packet is what stands behind the header.
pub proof fn datagrams_carry_packets(s: Seq<u8>)
    requires
        s.len() >= 20,
    ensures
        ({
            let words = s[0] % 16;
            let sound = s[0] / 16 == 4 && words >= 5 && words * 4 <= s.len() && s[9] == 89;
            &&& ospf_payload(s) is Some <==> sound
            &&& sound ==> s == s.subrange(0, words * 4) + ospf_payload(s)->0
        }),
{
    let n = (s[0] % 16) * 4;
    if ospf_payload(s) is Some {
        assert(s =~= s.subrange(0, n) + s.subrange(n, s.len() as int));
    }
}

/// A short datagram carries none.
pub proof fn short_datagrams_carry_none(s: Seq<u8>)
    requires
        s.len() < 20,
    ensures
        ospf_payload(s) is None,
{
}

/// A header is read if its version is right and its length field fits the bytes;
/// it then gives the sender, the area and the length.
pub proof fn headers_name_sender_and_area(s: Seq<u8>)
    ensures
        v2_header(s) is Some <==> s.len() >= 24 && s[0] == 2 && 24 <= be16(s, 2) && be16(s, 2)
            <= s.len(),
        v2_header(s) is Some ==> {
            let (rid, area, len) = v2_header(s)->0;
            rid == be32(s, 4) && area == be32(s, 8) && len == be16(s, 2)
        },
        v3_header(s) is Some <==> s.len() >= 16 && s[0] == 3 && be16(s, 2) <= s.len(),
        v3_header(s) is Some ==> {
            let (rid, area, len) = v3_header(s)->0;
            rid == be32(s, 4) && area == be32(s, 8) && len == be16(s, 2)
        },
{
}

/// A Hello counts if it is one, is of our area, and is not our own.
pub proof fn hellos_come_from_others(s: Seq<u8>, our_rid: u32, area: u32)
    ensures
        foreign_hello(s, our_rid, area) is Some <==> s.len() >= 12 && s[1] == 1 && be32(s, 8) == area
            && be32(s, 4) != our_rid,
        foreign_hello(s, our_rid, area) is Some ==> foreign_hello(s, our_rid, area)->0 == be32(s, 4),
{
}

/// Every packet of a stream is as long as its own length field says, and no
/// shorter than a header.
pub proof fn packets_have_their_length(s: Seq<u8>, off: int, header: nat, k: int)
    requires
        0 <= off <= s.len(),
        header >= 4,
        0 <= k < packets_from(s, off, header).len(),
    ensures
        ({
            let p = packets_from(s, off, header)[k];
            p.len() >= header && be16(p, 2) == p.len()
        }),
    decreases s.len() - off,
{
    let n = be16(s, off + 2) as int;
    let p = s.subrange(off, off + n);
    let rest = packets_from(s, off + n, header);
    assert(packets_from(s, off, header) == seq![p] + rest);
    if k == 0 {
        assert(p[2] == s[off + 2] && p[3] == s[off + 3]);
    } else {
        packets_have_their_length(s, off + n, header, k - 1);
    }
}

/// A stream is left off only where no whole packet follows.
pub proof fn streams_are_read_on(s: Seq<u8>, off: int, header: nat)
    requires
        0 <= off <= s.len(),
        header >= 4,
    ensures
        packets_from(s, off, header).len() == 0 <==> off + header > s.len() || be16(s, off + 2)
            < header || off + be16(s, off + 2) > s.len(),
        packets_from(s, off, header).len() > 0 ==> packets_from(s, off, header)[0] == s.subrange(
            off,
            off + be16(s, off + 2),
        ) && packets_from(s, off, header).drop_first() == packets_from(s, off + be16(s, off + 2), header),
{
    if packets_from(s, off, header).len() > 0 {
        let n = be16(s, off + 2) as int;
        assert(packets_from(s, off, header).drop_first() =~= packets_from(s, off + n, header));
    }
}

/// What is traced of packets that go out, come in, or are dropped.
pub proof fn traces_tell_kind_length_and_sender(
    s: Seq<u8>,
    off: int,
    header: nat,
    least: nat,
    src: Seq<char>,
    our_rid: u32,
    area: u32,
    ok: bool,
)
    requires
        0 <= off,
        header >= 8,
        least >= 1,
        off + header <= s.len(),
    ensures
        ({
            let n = be16(s, off + 2);
            let line = "dbg-send "@ + ("kind="@ + decimal(s[off + 1] as nat) + " len="@ + decimal(
                n as nat,
            ) + " rid="@ + hex8(be32(s, off + 4)));
            &&& n >= least && off + n <= s.len() ==> sent_lines(s, off, header, least) == seq![line]
                + sent_lines(s, off + n, header, least)
            &&& n < least || off + n > s.len() ==> sent_lines(s, off, header, least).len() == 0
        }),
        received_line(s, None) == "dbg-recv "@ + ("kind="@ + decimal(s[1] as nat) + " len="@ + decimal(
            be16(s, 2) as nat,
        ) + " rid="@ + hex8(be32(s, 4))),
        received_line(s, Some(src)) == received_line(s, None) + " src="@ + src,
        v2_header(s) is None ==> dropped_line(s, our_rid, area, ok) == Some("dbg-drop demux"@),
        v2_header(s) is Some ==> {
            let (rid, its_area, len) = v2_header(s)->0;
            let bad = its_area == area && rid != our_rid && !ok;
            &&& bad ==> dropped_line(s, our_rid, area, ok) == Some(
                "dbg-drop checksum kind="@ + decimal(s[1] as nat) + " len="@ + decimal(len as nat),
            )
            &&& !bad ==> dropped_line(s, our_rid, area, ok) is None
        },
{
}

/// The eight digits of a number are those of its four bytes, the highest first.
pub proof fn words_are_written_by_byte(a: u8, b: u8, c: u8, d: u8, n: u32)
    requires
        n == ((a * 256 + b) * 256 + c) * 256 + d,
    ensures
        hex8(n) == hex_text(seq![a, b, c, d]),
{
    assert(n / 0x1_0000 == a * 256 + b && n % 0x1_0000 == c * 256 + d) by (nonlinear_arith)
        requires
            n == ((a * 256 + b) * 256 + c) * 256 + d,
            a < 256,
            b < 256,
            c < 256,
            d < 256,
    ;
    let hi = (n / 0x1_0000) as u16;
    let lo = (n % 0x1_0000) as u16;
    assert(hi / 256 == a && hi % 256 == b && lo / 256 == c && lo % 256 == d);
    hex_text_digits(seq![a, b]);
    hex_text_digits(seq![c, d]);
    hex_text_digits(seq![a, b, c, d]);
    let x = hex_text(seq![a, b]);
    let y = hex_text(seq![c, d]);
    let z = hex_text(seq![a, b, c, d]);
    assert(seq![a, b][0] == a && seq![a, b][1] == b);
    assert(seq![c, d][0] == c && seq![c, d][1] == d);
    let q = seq![a, b, c, d];
    assert(q[0] == a && q[1] == b && q[2] == c && q[3] == d);
    assert(x[0] == z[0] && x[1] == z[1] && x[2] == z[2] && x[3] == z[3]);
    assert(y[0] == z[4] && y[1] == z[5] && y[2] == z[6] && y[3] == z[7]);
    assert(x + y =~= z);
}

proof fn pairs_read_back(bs: Seq<u8>, i: int)
    requires
        0 <= i <= bs.len(),
    ensures
        pairs_from(encode_utf8(hex_text(bs)), 2 * i) == Ok::<Seq<u8>, Seq<char>>(
            bs.subrange(i, bs.len() as int),
        ),
    decreases bs.len() - i,
{
    hex_text_digits(bs);
    let t = hex_text(bs);
    is_ascii_chars_encode_utf8(t);
    let e = encode_utf8(t);
    if i < bs.len() {
        pairs_read_back(bs, i + 1);
        assert(t[2 * i] == hex_char(bs[i] as nat / 16));
        assert(e[2 * i] == t[2 * i] as u8);
        assert(e[2 * i + 1] == t[2 * i + 1] as u8);
        assert(pair_value(e[2 * i], e[2 * i + 1]) == Some(bs[i]));
        assert(2 * i + 2 == 2 * (i + 1));
        assert(bs.subrange(i, bs.len() as int) =~= seq![bs[i]] + bs.subrange(i + 1, bs.len() as int));
    } else {
        assert(bs.subrange(i, bs.len() as int) =~= Seq::empty());
    }
}

/// Bytes on a command line are read back from their digits, with or without
/// `0x` before them.
pub proof fn arguments_read_back(bs: Seq<u8>)
    requires
        bs.len() > 0,
    ensures
        argument_bytes(hex_text(bs)) == Ok::<Seq<u8>, Seq<char>>(bs),
        argument_bytes("0x"@ + hex_text(bs)) == Ok::<Seq<u8>, Seq<char>>(bs),
{
    reveal_strlit("0x");
    let t = hex_text(bs);
    hex_text_digits(bs);
    hex_text_is_plain(bs);
    is_ascii_chars_encode_utf8(t);
    pairs_read_back(bs, 0);
    assert(bs.subrange(0, bs.len() as int) =~= bs);
    assert(!is_space(t[0]) && !is_space(t[t.len() - 1]));
    trimmed_texts_stay(t);
    assert(!starts(t, "0x"@)) by {
        if starts(t, "0x"@) {
            assert(t.subrange(0, 2)[1] == t[1]);
            assert("0x"@[1] == 'x');
        }
    }
    assert(without_0x(t) == t);
    let u = "0x"@ + t;
    assert(u[0] == '0' && u.last() == t.last());
    trimmed_texts_stay(u);
    parts_stand_in_texts(u, "0x"@, t);
    assert(u.subrange(2, u.len() as int) =~= t);
    assert(without_0x(u) == without_0x(t));
}

/// Digits that do not pair up, or are none, are refused.
pub proof fn bad_digits_are_refused(s: Seq<char>, bs: Seq<u8>)
    ensures
        encode_utf8(without_0x(trim_of(s))).len() % 2 == 1 ==> argument_bytes(s) is Err,
        bs.len() % 2 == 1 ==> decoded(bs) is Err,
        (exists|i: int| 0 <= i < bs.len() && nibble_of(#[trigger] bs[i]) is None) ==> decoded(bs)
            is Err,
        decoded(bs) is Ok ==> decoded(bs)->Ok_0.len() * 2 == bs.len(),
{
}

/// A line of a capture adds the record it holds; a blank line or a comment adds
/// none, and a line that lacks a key refuses the file.
pub proof fn lines_add_their_record(path: Seq<char>, ls: Seq<Seq<char>>, l: Seq<char>)
    ensures
        ({
            let a = records_of(path, ls);
            let b = records_of(path, ls.push(l));
            let t = trim_of(l);
            let skipped = t.len() == 0 || starts(t, "#"@);
            let dir = field_of(t, "dir"@);
            let hex = field_of(t, "hex"@);
            &&& b is Ok <==> a is Ok && (skipped || (dir is Some && hex is Some))
            &&& b is Ok && skipped ==> b->Ok_0 == a->Ok_0
            &&& b is Ok && !skipped ==> b->Ok_0 == a->Ok_0.push(
                RecordModel { dir: dir->0, hex: hex->0 },
            )
            &&& a is Err ==> b == a
        }),
        records_of(path, Seq::empty()) == Ok::<Seq<RecordModel>, Seq<char>>(Seq::empty()),
{
    assert(ls.push(l).drop_last() =~= ls);
}

/// A replay takes the messages of its direction, in order and decoded; the
/// others do not matter, one that does not decode refuses the replay, and so does
/// the lack of any.
pub proof fn replays_take_their_direction(
    ms: Seq<RecordModel>,
    m: RecordModel,
    dir: Seq<char>,
    path: Seq<char>,
)
    ensures
        ({
            let a = chosen(ms, dir);
            let b = chosen(ms.push(m), dir);
            let d = decoded(encode_utf8(m.hex));
            &&& m.dir != dir ==> b == a
            &&& m.dir == dir ==> (b is Ok <==> a is Ok && d is Ok)
            &&& m.dir == dir && b is Ok ==> b->Ok_0 == a->Ok_0.push(d->Ok_0)
        }),
        chosen(Seq::empty(), dir) == Ok::<Seq<Seq<u8>>, Seq<char>>(Seq::empty()),
        selected(ms, dir, path) is Ok <==> chosen(ms, dir) is Ok && chosen(ms, dir)->Ok_0.len() > 0,
        selected(ms, dir, path) is Ok ==> selected(ms, dir, path)->Ok_0 == chosen(ms, dir)->Ok_0,
{
    assert(ms.push(m).drop_last() =~= ms);
}

} // verus!
