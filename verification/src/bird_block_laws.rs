//! What the blocks of a BIRD configuration become: Babel interfaces, origin
//! authorisations, constants, captured filters, and the attachments of filters
//! to peers.

use crate::babel::{
    decimal_ms, finished, interface_line, is_noise, parameter_statement, protocol_line, quoted_name,
    seconds_ms, thousandths, time_ms, with_hops, words_ms, BabelProtoModel,
};
use crate::bird::{
    babel_done, bird_statement, capture_done, start_of, started, statement_of, trim_braces,
    BirdModel, Start,
};
use crate::bird_config::{
    attach_one, filter_names, other_after, peer_boundary, peer_named, static_boundary,
    with_directive,
};
use crate::bird_filter::Translated;
use crate::bird_scan::{
    capture_absorbed, capture_closed, define_of, dir_text, inked, inner_of, roa_bounds, roa_of,
    roa_statement, roa_statements, statements_of, table_statements, CaptureKindModel, CaptureModel,
    PendingModel, RoaRead,
};
use crate::conf::{BabelModel, ConfigModel, NamedModel, PeerModel};
use crate::directives::{attached, directive_of, marker_body};
use crate::text::{
    all_digits, char_is, contains_text, count_of, decimal, decimal_digits, digits_value, ends,
    is_digit, is_identifier, is_space, is_word_char, lines_of, next_char, next_where_is,
    number_of_decimal, pieces_of, starts, trim_end_char_of, trim_of, trim_start_of, u16_of, u32_of,
    u8_of, words_of,
};
use crate::text_laws::{
    one_space_is_trimmed, parts_stand_in_texts, trimmed_texts_stay, trimming_takes_one_character,
};
use vstd::prelude::*;
use vstd::string::*;

verus! {

proof fn parameter_words_differ()
    ensures
        "type"@ != "rxcost"@,
        "type"@ != "rtt"@,
        "type"@ != "hello"@,
        "type"@ != "update"@,
        "type"@ != "check"@,
        "type"@ != "extended"@,
        "type"@ != "port"@,
        "rxcost"@ != "rtt"@,
        "rxcost"@ != "hello"@,
        "rxcost"@ != "update"@,
        "rxcost"@ != "check"@,
        "rxcost"@ != "extended"@,
        "rxcost"@ != "port"@,
        "rtt"@ != "hello"@,
        "rtt"@ != "update"@,
        "rtt"@ != "check"@,
        "rtt"@ != "extended"@,
        "rtt"@ != "port"@,
        "hello"@ != "update"@,
        "hello"@ != "check"@,
        "hello"@ != "extended"@,
        "hello"@ != "port"@,
        "update"@ != "check"@,
        "update"@ != "extended"@,
        "update"@ != "port"@,
        "check"@ != "extended"@,
        "check"@ != "port"@,
        "extended"@ != "port"@,
        "cost"@ != "min"@,
        "cost"@ != "max"@,
        "min"@ != "max"@,
{
    reveal_strlit("type");
    reveal_strlit("rxcost");
    reveal_strlit("rtt");
    reveal_strlit("hello");
    reveal_strlit("update");
    reveal_strlit("check");
    reveal_strlit("extended");
    reveal_strlit("port");
    reveal_strlit("cost");
    reveal_strlit("min");
    reveal_strlit("max");
    assert("type"@.len() == 4 && "rxcost"@.len() == 6 && "rtt"@.len() == 3 && "hello"@.len() == 5);
    assert("update"@.len() == 6 && "check"@.len() == 5 && "extended"@.len() == 8);
    assert("port"@.len() == 4 && "cost"@.len() == 4 && "min"@.len() == 3 && "max"@.len() == 3);
    assert("type"@[0] == 't' && "port"@[0] == 'p');
    assert("rxcost"@[0] == 'r' && "update"@[0] == 'u');
    assert("hello"@[0] == 'h' && "check"@[0] == 'c');
    assert("min"@[1] == 'i' && "max"@[1] == 'a');
}

/// A parameter of a Babel interface sets the value it names and no other; one
/// that is understood leaves no note.
pub proof fn babel_parameters_set_their_value(p: BabelProtoModel, stmt: Seq<char>)
    requires
        p.iface is Some,
        words_of(stmt).len() >= 2,
    ensures
        ({
            let ws = words_of(stmt);
            let b = p.iface->0;
            let q = parameter_statement(p, stmt);
            let c = q.iface->0;
            &&& q.iface is Some
            &&& q.ifaces == p.ifaces
            &&& q.next_hop_v4 == p.next_hop_v4
            &&& q.next_hop_v6 == p.next_hop_v6
            &&& ws[0] == "type"@ ==> c == (BabelModel {
                kind: Some(trim_end_char_of(ws[1], ';')),
                ..b
            })
            &&& ws[0] == "rxcost"@ ==> {
                &&& c == (BabelModel { rxcost: u16_of(trim_end_char_of(ws[1], ';')), ..b })
                &&& c.rxcost is Some ==> q.iface_notes == p.iface_notes
            }
            &&& ws[0] == "port"@ ==> {
                &&& c == (BabelModel { port: u16_of(trim_end_char_of(ws[1], ';')), ..b })
                &&& c.port is Some ==> q.iface_notes == p.iface_notes
            }
            &&& ws[0] == "rtt"@ && ws[1] == "cost"@ ==> {
                &&& c == (BabelModel { rtt_cost: c.rtt_cost, ..b })
                &&& ws.len() > 2 ==> c.rtt_cost == u16_of(trim_end_char_of(ws[2], ';'))
                &&& ws.len() == 2 ==> c.rtt_cost is None
                &&& c.rtt_cost is Some ==> q.iface_notes == p.iface_notes
            }
            &&& ws[0] == "rtt"@ && ws[1] == "min"@ ==> {
                &&& c == (BabelModel { rtt_min_us: c.rtt_min_us, ..b })
                &&& c.rtt_min_us is Some ==> {
                    &&& words_ms(ws, 2) is Some
                    &&& c.rtt_min_us->0 == words_ms(ws, 2)->0 * 1000
                    &&& q.iface_notes == p.iface_notes
                }
                &&& words_ms(ws, 2) is Some && words_ms(ws, 2)->0 * 1000 <= u32::MAX
                    ==> c.rtt_min_us is Some
            }
            &&& ws[0] == "rtt"@ && ws[1] == "max"@ ==> {
                &&& c == (BabelModel { rtt_max_us: c.rtt_max_us, ..b })
                &&& c.rtt_max_us is Some ==> {
                    &&& words_ms(ws, 2) is Some
                    &&& c.rtt_max_us->0 == words_ms(ws, 2)->0 * 1000
                    &&& q.iface_notes == p.iface_notes
                }
                &&& words_ms(ws, 2) is Some && words_ms(ws, 2)->0 * 1000 <= u32::MAX
                    ==> c.rtt_max_us is Some
            }
            &&& ws[0] == "hello"@ && contains_text(stmt, "interval"@) ==> {
                &&& c == (BabelModel { hello_interval_ms: c.hello_interval_ms, ..b })
                &&& c.hello_interval_ms is Some ==> q.iface_notes == p.iface_notes
            }
            &&& ws[0] == "update"@ && contains_text(stmt, "interval"@) ==> {
                &&& c == (BabelModel { update_interval_ms: c.update_interval_ms, ..b })
                &&& c.update_interval_ms is Some ==> q.iface_notes == p.iface_notes
            }
            &&& ws[0] == "check"@ && contains_text(stmt, "link"@) ==> {
                &&& c == (BabelModel { check_link: Some(contains_text(stmt, "yes"@)), ..b })
                &&& q.iface_notes == p.iface_notes
            }
            &&& ws[0] == "extended"@ && contains_text(stmt, "next hop"@) ==> {
                &&& c == (BabelModel { extended_next_hop: Some(contains_text(stmt, "yes"@)), ..b })
                &&& q.iface_notes == p.iface_notes
            }
        }),
{
    parameter_words_differ();
}

/// The hello and the update interval are what stands behind the word `interval`.
pub proof fn babel_intervals_are_behind_their_word(
    p: BabelProtoModel,
    stmt: Seq<char>,
    rest: Seq<char>,
)
    requires
        p.iface is Some,
        words_of(stmt).len() >= 2,
        crate::text::second_piece(stmt, "interval"@) == Some(rest),
    ensures
        words_of(stmt)[0] == "hello"@ ==> parameter_statement(p, stmt).iface->0.hello_interval_ms
            == words_ms(words_of(rest), 0),
        words_of(stmt)[0] == "update"@ ==> parameter_statement(p, stmt).iface->0.update_interval_ms
            == words_ms(words_of(rest), 0),
{
    parameter_words_differ();
    crate::text_laws::second_pieces_lie_between(stmt, "interval"@);
}

proof fn digits_have_no_point(d: Seq<char>)
    requires
        all_digits(d),
    ensures
        forall|k: int| 0 <= k < d.len() ==> !char_is('.')(#[trigger] d[k]),
{
    assert forall|k: int| 0 <= k < d.len() implies !char_is('.')(#[trigger] d[k]) by {
        assert(is_digit(d[k]));
    }
}

/// Seconds count a thousand milliseconds each, and the first three digits of a
/// fraction the milliseconds below; the fourth rounds. More than 32 bits hold
/// counts as the most they hold, and less than nothing as nothing.
pub proof fn seconds_are_a_thousand_milliseconds(w: Seq<char>, f: Seq<char>)
    requires
        w.len() > 0,
        all_digits(w),
        all_digits(f),
    ensures
        ({
            let whole = 1000 * digits_value(w);
            let ms = seconds_ms(w + "."@ + f);
            &&& digits_value(w) * 1000 <= u32::MAX ==> seconds_ms(w) == Some(whole as u32)
            &&& digits_value(w) * 1000 > u32::MAX ==> seconds_ms(w) == Some(u32::MAX)
            &&& seconds_ms("-"@ + w) == Some(0u32)
            &&& seconds_ms("+"@ + w) == seconds_ms(w)
            &&& whole + 1000 <= u32::MAX ==> {
                &&& ms is Some
                &&& f.len() == 0 ==> ms->0 == whole
                &&& f.len() == 1 ==> ms->0 == whole + 100 * digits_value(f)
                &&& f.len() == 2 ==> ms->0 == whole + 10 * digits_value(f)
                &&& f.len() == 3 ==> ms->0 == whole + digits_value(f)
                &&& f.len() > 3 ==> ms->0 == whole + digits_value(f.subrange(0, 3)) + (if f[3] >= '5' {
                    1int
                } else {
                    0
                })
            }
        }),
{
    reveal_strlit(".");
    reveal_strlit("-");
    reveal_strlit("+");
    let point = char_is('.');
    digits_have_no_point(w);
    digits_have_no_point(f);
    assert(is_digit(w[0]));
    next_where_is(w, 0, point, w.len() as int);
    assert(w.subrange(0, w.len() as int) =~= w);
    assert(all_digits(Seq::empty()));
    assert(thousandths(Seq::empty()) =~= seq!['0', '0', '0']);
    three_digits('0', '0', '0');
    assert(decimal_ms(w, Seq::empty()) == 1000 * digits_value(w));
    let m = "-"@ + w;
    assert(m.subrange(1, m.len() as int) =~= w);
    let u = "+"@ + w;
    assert(u.subrange(1, u.len() as int) =~= w);
    let s = w + "."@ + f;
    assert(s[0] == w[0]);
    assert forall|k: int| 0 <= k < w.len() implies !point(#[trigger] s[k]) by {
        assert(s[k] == w[k]);
    }
    assert(s[w.len() as int] == '.');
    next_where_is(s, 0, point, w.len() as int);
    assert(s.subrange(0, w.len() as int) =~= w);
    assert(s.subrange(w.len() as int + 1, s.len() as int) =~= f);
    let t = thousandths(f);
    let a = if f.len() > 0 {
        f[0]
    } else {
        '0'
    };
    let b = if f.len() > 1 {
        f[1]
    } else {
        '0'
    };
    let c = if f.len() > 2 {
        f[2]
    } else {
        '0'
    };
    assert(t =~= seq![a, b, c]);
    assert(is_digit(a) && is_digit(b) && is_digit(c));
    three_digits(a, b, c);
    if f.len() == 1 {
        assert(f =~= seq![a]);
    } else if f.len() == 2 {
        assert(f =~= seq![a, b]);
    } else if f.len() == 3 {
        assert(f =~= seq![a, b, c]);
    } else if f.len() > 3 {
        assert(f.subrange(0, 3) =~= seq![a, b, c]);
    }
}

proof fn three_digits(a: char, b: char, c: char)
    requires
        is_digit(a),
        is_digit(b),
        is_digit(c),
    ensures
        digits_value(seq![a]) == a as int - '0' as int,
        digits_value(seq![a, b]) == 10 * (a as int - '0' as int) + (b as int - '0' as int),
        digits_value(seq![a, b, c]) == 100 * (a as int - '0' as int) + 10 * (b as int - '0' as int) + (
        c as int - '0' as int),
        digits_value(seq![a, b, c]) <= 999,
{
    assert(seq![a].drop_last() =~= Seq::<char>::empty());
    assert(digits_value(Seq::empty()) == 0);
    assert(seq![a, b].drop_last() =~= seq![a]);
    assert(digits_value(seq![a]) == a as int - '0' as int);
    assert(digits_value(seq![a, b]) == 10 * digits_value(seq![a]) + (b as int - '0' as int));
    let abc = seq![a, b, c];
    assert(abc.drop_last() =~= seq![a, b]);
    assert(abc.last() == c);
    assert(digits_value(abc) == 10 * digits_value(seq![a, b]) + (c as int - '0' as int));
}

/// A number before `ms` counts milliseconds.
pub proof fn milliseconds_are_taken_as_they_stand(n: u32)
    ensures
        time_ms(decimal(n as nat) + "ms"@) == Some(n),
{
    reveal_strlit("ms");
    decimal_digits(n as nat);
    let d = decimal(n as nat);
    let t = d + "ms"@;
    assert(is_digit(d[0]));
    assert(is_digit(d[d.len() - 1]));
    assert(t[0] == d[0]);
    assert(t.last() == 's');
    trimmed_texts_stay(t);
    trimming_takes_one_character(t, ';');
    let u = trim_end_char_of(t, ';');
    assert(u.len() == t.len()) by {
        if u.len() < t.len() {
            assert(t[t.len() - 1] == ';');
        }
    }
    assert(u =~= t);
    parts_stand_in_texts(t, "ms"@, d);
    trimmed_texts_stay(d);
    number_of_decimal(n as nat, u32::MAX as nat);
}

/// A number and its unit, as two words, are a time.
pub proof fn times_are_a_number_and_its_unit(ws: Seq<Seq<char>>, i: int)
    requires
        0 <= i < ws.len(),
    ensures
        i + 1 < ws.len() ==> words_ms(ws, i) == time_ms(
            trim_end_char_of(ws[i], ';') + " "@ + trim_end_char_of(ws[i + 1], ';'),
        ),
        i + 1 == ws.len() ==> words_ms(ws, i) == time_ms(
            trim_end_char_of(ws[i], ';') + " "@ + trim_end_char_of("s"@, ';'),
        ),
{
}

/// An interface takes the next hops of its protocol only where it has none of
/// its own.
pub proof fn own_next_hops_come_first(
    b: BabelModel,
    v4: Option<Seq<char>>,
    v6: Option<Seq<char>>,
)
    ensures
        ({
            let q = with_hops(b, v4, v6);
            &&& q == (BabelModel {
                next_hop_ipv4: q.next_hop_ipv4,
                next_hop_ipv6: q.next_hop_ipv6,
                ..b
            })
            &&& b.next_hop_ipv4 is Some ==> q.next_hop_ipv4 == b.next_hop_ipv4
            &&& b.next_hop_ipv4 is None ==> q.next_hop_ipv4 == v4
            &&& b.next_hop_ipv6 is Some ==> q.next_hop_ipv6 == b.next_hop_ipv6
            &&& b.next_hop_ipv6 is None ==> q.next_hop_ipv6 == v6
        }),
{
}

/// A finished interface stands behind those before it, with its own notes and
/// next hops; nothing else of the stanza changes.
pub proof fn finished_interfaces_are_kept(p: BabelProtoModel)
    ensures
        p.iface is None ==> finished(p) == p,
        p.iface is Some ==> {
            let q = finished(p);
            &&& q.iface is None
            &&& q.iface_notes.len() == 0
            &&& q.next_hop_v4 == p.next_hop_v4
            &&& q.next_hop_v6 == p.next_hop_v6
            &&& q.ifaces.len() == p.ifaces.len() + 1
            &&& q.ifaces.drop_last() == p.ifaces
            &&& q.ifaces.last().notes == p.iface_notes
            &&& q.ifaces.last().spec == with_hops(p.iface->0, p.next_hop_v4, p.next_hop_v6)
        },
{
    if p.iface is Some {
        assert(finished(p).ifaces.drop_last() =~= p.ifaces);
    }
}

/// An interface is named by what stands in its quotes.
pub proof fn interfaces_are_named_in_quotes(a: Seq<char>, name: Seq<char>, b: Seq<char>)
    requires
        !a.contains('"'),
        !name.contains('"'),
    ensures
        quoted_name(a + seq!['"'] + name + seq!['"'] + b) == name,
{
    let c = '"';
    let q = char_is(c);
    let s = a + seq![c] + name + seq![c] + b;
    assert forall|k: int| 0 <= k < a.len() implies !q(#[trigger] s[k]) by {
        assert(s[k] == a[k]);
        assert(a.contains(a[k]));
    }
    let i = a.len() as int;
    assert(s[i] == c);
    next_where_is(s, 0, q, i);
    assert(next_char(s, 0, c) == i);
    let j = i + 1 + name.len();
    assert forall|k: int| i + 1 <= k < j implies !q(#[trigger] s[k]) by {
        assert(s[k] == name[k - i - 1]);
        assert(name.contains(name[k - i - 1]));
    }
    assert(s[j] == c);
    next_where_is(s, i + 1, q, j);
    assert(next_char(s, i + 1, c) == j);
    assert(s.subrange(i + 1, j) =~= name);
    let rest = crate::text::pieces_from(s, i + 1, c);
    assert(rest[0] == s.subrange(i + 1, j));
    assert(pieces_of(s, c) == seq![s.subrange(0, i)] + rest);
    assert(pieces_of(s, c)[1] == rest[0]);
}

/// An `interface` line closes the block before it and starts a new interface by
/// its name; without braces and with a `;` the interface is complete.
pub proof fn interface_lines_start_theirs(p: BabelProtoModel, line: Seq<char>)
    requires
        !line.contains('{'),
    ensures
        ({
            let before = finished(p);
            let q = interface_line(p, line);
            &&& q.next_hop_v4 == p.next_hop_v4
            &&& q.next_hop_v6 == p.next_hop_v6
            &&& q.iface_notes == before.iface_notes
            &&& ends(line, ";"@) ==> {
                &&& q.iface == before.iface
                &&& q.ifaces.len() == before.ifaces.len() + 1
                &&& q.ifaces.drop_last() == before.ifaces
                &&& q.ifaces.last().notes.len() == 0
                &&& q.ifaces.last().spec.name == Some(quoted_name(line))
                &&& q.ifaces.last().spec.next_hop_ipv4 == p.next_hop_v4
                &&& q.ifaces.last().spec.next_hop_ipv6 == p.next_hop_v6
                &&& q.ifaces.last().spec.kind is None
                &&& q.ifaces.last().spec.hello_interval_ms is None
                &&& q.ifaces.last().spec.update_interval_ms is None
                &&& q.ifaces.last().spec.rxcost is None
                &&& q.ifaces.last().spec.rtt_cost is None
                &&& q.ifaces.last().spec.rtt_min_us is None
                &&& q.ifaces.last().spec.rtt_max_us is None
                &&& q.ifaces.last().spec.extended_next_hop is None
                &&& q.ifaces.last().spec.check_link is None
                &&& q.ifaces.last().spec.port is None
            }
            &&& !ends(line, ";"@) ==> {
                &&& q.ifaces == before.ifaces
                &&& q.iface is Some
                &&& q.iface->0.name == Some(quoted_name(line))
                &&& q.iface->0.kind is None
                &&& q.iface->0.rxcost is None
                &&& q.iface->0.next_hop_ipv4 is None
                &&& q.iface->0.next_hop_ipv6 is None
            }
        }),
{
    crate::text_laws::splits_are_at_the_first(line, '{');
    let q = interface_line(p, line);
    if ends(line, ";"@) {
        assert(q.ifaces.drop_last() =~= finished(p).ifaces);
    }
}

/// The next hops of a whole protocol are those behind its statement, each for
/// its family; any other statement outside the interfaces changes none of them.
pub proof fn protocol_next_hops_are_by_family(p: BabelProtoModel, t0: Seq<char>, line: Seq<char>)
    ensures
        ({
            let q = protocol_line(p, t0, line);
            let v4 = t0 == "next"@ && contains_text(line, "hop ipv4 "@);
            let v6 = t0 == "next"@ && contains_text(line, "hop ipv6 "@);
            &&& q.iface == p.iface
            &&& q.ifaces == p.ifaces
            &&& v4 ==> q.next_hop_v6 == p.next_hop_v6 && q.next_hop_v4 == Some(
                trim_of(trim_end_char_of(crate::text::second_piece(line, "hop ipv4 "@)->0, ';')),
            )
            &&& !v4 ==> q.next_hop_v4 == p.next_hop_v4
            &&& v6 && !v4 ==> q.next_hop_v6 == Some(
                trim_of(trim_end_char_of(crate::text::second_piece(line, "hop ipv6 "@)->0, ';')),
            )
            &&& !v6 ==> q.next_hop_v6 == p.next_hop_v6
            &&& v4 || v6 ==> q.iface_notes == p.iface_notes
        }),
{
    crate::text_laws::second_pieces_lie_between(line, "hop ipv4 "@);
    crate::text_laws::second_pieces_lie_between(line, "hop ipv6 "@);
}

/// The interfaces of a finished stanza are added to the configuration in their
/// order, with the next hops of the protocol where they have none.
pub proof fn babel_stanzas_add_their_interfaces(c: ConfigModel, p: BabelProtoModel, i: int)
    requires
        0 <= i < finished(p).ifaces.len(),
    ensures
        ({
            let q = finished(p);
            let d = babel_done(c, p);
            let r = d.babel_ifaces[c.babel_ifaces.len() + i];
            &&& d == (ConfigModel {
                unmapped_global: d.unmapped_global,
                babel_ifaces: d.babel_ifaces,
                ..c
            })
            &&& d.babel_ifaces.len() == c.babel_ifaces.len() + q.ifaces.len()
            &&& d.babel_ifaces.subrange(0, c.babel_ifaces.len() as int) == c.babel_ifaces
            &&& r.notes == q.ifaces[i].notes
            &&& r.spec == (BabelModel {
                next_hop_ipv4: r.spec.next_hop_ipv4,
                next_hop_ipv6: r.spec.next_hop_ipv6,
                ..q.ifaces[i].spec
            })
            &&& q.ifaces[i].spec.next_hop_ipv4 is Some ==> r.spec.next_hop_ipv4
                == q.ifaces[i].spec.next_hop_ipv4
            &&& q.ifaces[i].spec.next_hop_ipv4 is None ==> r.spec.next_hop_ipv4 == p.next_hop_v4
            &&& q.ifaces[i].spec.next_hop_ipv6 is Some ==> r.spec.next_hop_ipv6
                == q.ifaces[i].spec.next_hop_ipv6
            &&& q.ifaces[i].spec.next_hop_ipv6 is None ==> r.spec.next_hop_ipv6 == p.next_hop_v6
        }),
{
    let d = babel_done(c, p);
    assert(d.babel_ifaces.subrange(0, c.babel_ifaces.len() as int) =~= c.babel_ifaces);
}

/// An origin authorisation is read by its keywords, in either order: the AS
/// behind `as`, the length behind `max`.
pub proof fn roa_bounds_follow_their_word(
    p: Seq<char>,
    m: Seq<char>,
    a: Seq<char>,
)
    requires
        m != "as"@,
        a != "max"@,
    ensures
        roa_bounds(seq![p], 1, None, None) == (None::<u8>, None::<u32>),
        roa_bounds(seq![p, "as"@, a], 1, None, None) == (
            None::<u8>,
            u32_of(trim_end_char_of(a, ';')),
        ),
        roa_bounds(seq![p, "max"@, m, "as"@, a], 1, None, None) == (
            u8_of(m),
            u32_of(trim_end_char_of(a, ';')),
        ),
        roa_bounds(seq![p, "as"@, a, "max"@, m], 1, None, None) == (
            u8_of(m),
            u32_of(trim_end_char_of(a, ';')),
        ),
{
    reveal_strlit("as");
    reveal_strlit("max");
    assert("as"@.len() != "max"@.len());
    reveal_with_fuel(roa_bounds, 4);
}

/// The row of an origin authorisation has the prefix behind `roa` and the bounds
/// behind it; without an AS there is no row.
pub proof fn roas_are_read(rest: Seq<char>)
    requires
        rest.len() > 0,
        !is_space(rest[0]),
        !is_space(rest.last()),
        words_of(rest).len() > 0,
        !starts(rest, "table"@),
    ensures
        ({
            let ts = words_of(rest);
            let b = roa_bounds(ts, 1, None, None);
            let r = roa_of("roa "@ + rest);
            &&& r is Some <==> b.1 is Some
            &&& r is Some ==> r->0.prefix == ts[0] && r->0.max_length == b.0 && Some(r->0.asn) == b.1
        }),
{
    reveal_strlit("roa ");
    reveal_strlit("roa");
    let line = "roa "@ + rest;
    assert(line[0] == 'r');
    assert(line.last() == rest.last());
    trimmed_texts_stay(line);
    let r = seq![' '] + rest;
    assert(line =~= "roa"@ + r);
    parts_stand_in_texts(line, "roa"@, r);
    starts_without_space(rest);
}

/// A statement of a ROA table adds the row it is read as, and a note exactly if
/// it is not understood as a whole.
pub proof fn roa_statements_add_their_row(r: RoaRead, stmt: Seq<char>)
    requires
        words_of(stmt).len() > 0,
        !is_noise(trim_of(stmt)),
    ensures
        ({
            let q = roa_statement(r, stmt);
            let row = roa_of(stmt);
            &&& row is Some ==> q.rows == r.rows.push(row->0)
            &&& row is None ==> q.rows == r.rows && q.notes == r.notes.push(trim_of(stmt))
            &&& row is Some && row->0.max_length is Some ==> q.notes == r.notes
            &&& row is Some && !words_of(stmt).contains("max"@) ==> q.notes == r.notes
            &&& row is Some && row->0.max_length is None && words_of(stmt).contains("max"@)
                ==> q.notes == r.notes.push(trim_of(stmt))
        }),
{
}

proof fn starts_without_space(rest: Seq<char>)
    requires
        rest.len() > 0,
        !is_space(rest[0]),
    ensures
        trim_start_of(seq![' '] + rest) == rest,
{
    let r = seq![' '] + rest;
    let t = trim_start_of(r);
    let a = crate::text_laws::trimming_takes_the_space_around(r);
    assert(r[0] == ' ' && r[1] == rest[0]);
    assert(t.len() == rest.len()) by {
        if t.len() == r.len() {
            assert(t[0] == r[0]);
        }
        if t.len() < rest.len() {
            assert(is_space(r[1]));
        }
    }
    assert(t =~= rest);
}

proof fn constants_split(name: Seq<char>, v: Seq<char>, rest: Seq<char>)
    requires
        name.len() > 0,
        is_identifier(name),
        v.len() > 0,
        !is_space(v[0]),
        !is_space(v.last()),
        rest == name + seq![' ', '=', ' '] + v,
    ensures
        ({
            let i = name.len() as int + 1;
            &&& next_char(rest, 0, '=') == i
            &&& i < rest.len()
            &&& trim_of(rest.subrange(0, i)) == name
            &&& trim_of(rest.subrange(i + 1, rest.len() as int)) == v
        }),
{
    let i = name.len() as int + 1;
    let eq = char_is('=');
    assert forall|k: int| 0 <= k < i implies !eq(#[trigger] rest[k]) by {
        if k < name.len() {
            assert(rest[k] == name[k]);
            assert(is_word_char(name[k]));
        } else {
            assert(rest[k] == ' ');
        }
    }
    assert(rest[i] == '=');
    next_where_is(rest, 0, eq, i);
    assert(rest.subrange(0, i) =~= name + seq![' ']);
    assert(is_word_char(name[0]) && is_word_char(name[name.len() - 1]));
    one_space_is_trimmed(name);
    assert(rest.subrange(i + 1, rest.len() as int) =~= seq![' '] + v);
    one_space_is_trimmed(v);
}

/// A constant is read by the name before its `=` and the value behind it.
pub proof fn constants_are_read(name: Seq<char>, value: Seq<char>)
    requires
        name.len() > 0,
        is_identifier(name),
        value.len() > 0,
        !is_space(value[0]),
        !is_space(value.last()),
        value.last() != ';',
    ensures
        define_of("define"@ + seq![' '] + (name + seq![' ', '=', ' '] + (value + ";"@))) == Some(
            (name, value),
        ),
{
    reveal_strlit(";");
    let v = value + ";"@;
    let rest = name + seq![' ', '=', ' '] + v;
    let r = seq![' '] + rest;
    let line = "define"@ + seq![' '] + rest;
    assert(line =~= "define"@ + r);
    parts_stand_in_texts(line, "define"@, r);
    assert(is_word_char(name[0]));
    assert(rest[0] == name[0]);
    starts_without_space(rest);
    assert(v[0] == value[0] && v.last() == ';');
    constants_split(name, v, rest);
    parts_stand_in_texts(v, ";"@, value);
    trimmed_texts_stay(value);
}

/// A line starts the block that its first words name.
pub proof fn blocks_start_by_their_word(ts: Seq<Seq<char>>, line: Seq<char>)
    requires
        ts.len() >= 3,
    ensures
        ts[0] == "filter"@ && line.contains('{') ==> start_of(ts, line) == Start::Block(
            CaptureKindModel::Filter(trim_end_char_of(ts[1], '{')),
        ),
        ts[0] == "function"@ ==> start_of(ts, line) == Start::Block(
            CaptureKindModel::Function(pieces_of(ts[1], '(')[0]),
        ),
        ts[0] == "roa"@ && ts[1] == "table"@ ==> start_of(ts, line) == (if line.contains('{') {
            Start::Block(CaptureKindModel::RoaTable)
        } else {
            Start::EmptyTable
        }),
        ts[0] == "define"@ ==> start_of(ts, line) == Start::Define,
        ts[0] == "protocol"@ && ts[1] == "babel"@ ==> {
            &&& start_of(ts, line) is Block
            &&& start_of(ts, line)->0 is Babel
            &&& start_of(ts, line)->0->Babel_0.iface is None
            &&& start_of(ts, line)->0->Babel_0.ifaces.len() == 0
            &&& start_of(ts, line)->0->Babel_0.iface_notes.len() == 0
            &&& start_of(ts, line)->0->Babel_0.next_hop_v4 is None
            &&& start_of(ts, line)->0->Babel_0.next_hop_v6 is None
        },
        ts[0] == "protocol"@ && ts[1] != "babel"@ ==> start_of(ts, line) is Nothing,
{
    crate::text_laws::splits_are_at_the_first(line, '{');
    reveal_strlit("filter");
    reveal_strlit("function");
    reveal_strlit("roa");
    reveal_strlit("define");
    reveal_strlit("protocol");
    assert("filter"@.len() == 6 && "function"@.len() == 8 && "roa"@.len() == 3);
    assert("define"@.len() == 6 && "protocol"@.len() == 8);
    assert("filter"@[0] == 'f' && "define"@[0] == 'd');
    assert("function"@[0] == 'f' && "protocol"@[0] == 'p');
}

/// A constant is added to the constants, an empty table to the tables; nothing
/// else of the scan changes.
pub proof fn constants_are_kept(st: BirdModel, ts: Seq<Seq<char>>, line: Seq<char>)
    ensures
        start_of(ts, line) is Define && define_of(trim_of(line)) is Some ==> {
            let q = started(st, ts, line)->0;
            let d = define_of(trim_of(line))->0;
            &&& started(st, ts, line) is Some
            &&& q.src.defines == st.src.defines.push(NamedModel { name: d.0, text: d.1 })
            &&& q.src.functions == st.src.functions
            &&& q.src.filters == st.src.filters
            &&& q.src.roa_tables == st.src.roa_tables
            &&& q == (BirdModel { src: q.src, ..st })
        },
        start_of(ts, line) is EmptyTable ==> {
            let q = started(st, ts, line)->0;
            &&& started(st, ts, line) is Some
            &&& q.src.roa_tables == st.src.roa_tables.push(Seq::empty())
            &&& q.src.functions == st.src.functions
            &&& q.src.filters == st.src.filters
            &&& q.src.defines == st.src.defines
            &&& q == (BirdModel { src: q.src, ..st })
        },
        start_of(ts, line) is Nothing ==> started(st, ts, line) is None,
{
}

/// A closed block is kept as what it is: a filter by its lines, a function by
/// its text, a table by its rows.
pub proof fn closed_blocks_are_kept(st: BirdModel, c: CaptureModel)
    ensures
        ({
            let q = capture_done(st, c);
            &&& q.capture is None
            &&& q.current == st.current
            &&& q.pending == st.pending
            &&& q.src.defines == st.src.defines
            &&& q.out.peers == st.out.peers
            &&& c.kind is Filter ==> {
                &&& q.src.filters.len() == st.src.filters.len() + 1
                &&& q.src.filters.drop_last() == st.src.filters
                &&& q.src.filters.last().name == c.kind->Filter_0
                &&& q.src.filters.last().lines == inked(lines_of(inner_of(c.text)))
                &&& q == (BirdModel { capture: None, src: q.src, ..st })
            }
            &&& !(c.kind is Filter) ==> q.src.filters == st.src.filters
            &&& c.kind is Function ==> {
                &&& q.src.functions == st.src.functions.push(
                    NamedModel { name: c.kind->Function_0, text: c.text },
                )
                &&& q == (BirdModel { capture: None, src: q.src, ..st })
            }
            &&& !(c.kind is Function) ==> q.src.functions == st.src.functions
            &&& c.kind is RoaTable ==> {
                &&& q.src.roa_tables == st.src.roa_tables.push(c.rows)
                &&& q.out == (ConfigModel {
                    unmapped_global: st.out.unmapped_global + c.notes,
                    ..st.out
                })
            }
            &&& !(c.kind is RoaTable) ==> q.src.roa_tables == st.src.roa_tables
            &&& c.kind is Babel ==> q.out == babel_done(st.out, c.kind->Babel_0) && q.src == st.src
        }),
{
    let q = capture_done(st, c);
    if c.kind is Filter {
        assert(q.src.filters.drop_last() =~= st.src.filters);
    }
}

/// What stands in the braces of a text is its inside.
pub proof fn insides_are_between_the_braces(a: Seq<char>, x: Seq<char>, b: Seq<char>)
    requires
        !a.contains('{'),
        !b.contains('}'),
    ensures
        inner_of(a + seq!['{'] + x + seq!['}'] + b) == x,
{
    let s = a + seq!['{'] + x + seq!['}'] + b;
    let i = a.len() as int;
    let open = char_is('{');
    assert forall|k: int| 0 <= k < i implies !open(#[trigger] s[k]) by {
        assert(s[k] == a[k]);
        assert(a.contains(a[k]));
    }
    assert(s[i] == '{');
    next_where_is(s, 0, open, i);
    let j = i + 1 + x.len();
    assert(s[j] == '}');
    crate::text_laws::last_places_are_last(s, s.len() as int, '}');
    let l = crate::text::last_at(s, s.len() as int, '}');
    assert(l == j) by {
        if l > j {
            assert(s[l] == b[l - j - 1]);
            assert(b.contains(b[l - j - 1]));
        }
    }
    assert(s.subrange(i + 1, j) =~= x);
}

/// Inked lines are the trimmed lines, without the blank ones.
pub proof fn blank_lines_do_not_count(ls: Seq<Seq<char>>, l: Seq<char>)
    ensures
        inked(Seq::empty()).len() == 0,
        inked(ls.push(l)) == (if trim_of(l).len() == 0 {
            inked(ls)
        } else {
            inked(ls).push(trim_of(l))
        }),
{
    assert(ls.push(l).drop_last() =~= ls);
}

/// A captured block takes in its lines whole, counts their braces, and ends
/// where as many have closed as have opened.
pub proof fn captures_count_their_braces(c: CaptureModel, line: Seq<char>, opens: nat, closes: nat)
    ensures
        ({
            let q = capture_absorbed(c, line, opens, closes);
            &&& q.text == c.text + line + "\n"@
            &&& c.opened + opens <= usize::MAX ==> q.opened == c.opened + opens
            &&& c.closed + closes <= usize::MAX ==> q.closed == c.closed + closes
            &&& q.seen_brace <==> c.seen_brace || q.text.contains('{')
            &&& c.kind is Filter || c.kind is Function || c.kind is RoaTable ==> q.kind == c.kind
            &&& !(c.kind is RoaTable) ==> q.rows == c.rows && q.notes == c.notes
            &&& capture_closed(q) <==> q.seen_brace && q.opened <= q.closed
        }),
{
    crate::text_laws::splits_are_at_the_first(c.text + line + "\n"@, '{');
}

/// A stanza ends on the line that closes its last brace, and its peer is then
/// kept behind those before it.
pub proof fn stanzas_end_with_their_braces(st: BirdModel, opens: nat, closes: nat)
    requires
        st.depth_in_peer + opens <= usize::MAX,
        st.static_depth + opens <= usize::MAX,
    ensures
        ({
            let q = peer_boundary(st, opens, closes);
            let over = closes > 0 && closes >= st.depth_in_peer + opens;
            &&& st.current is None ==> q == st
            &&& st.current is Some && over ==> {
                &&& q.current is None
                &&& q.depth_in_peer == 0
                &&& q.out.peers == st.out.peers.push(st.current->0)
                &&& q.out == (ConfigModel { peers: q.out.peers, ..st.out })
            }
            &&& st.current is Some && !over ==> {
                &&& q.current == st.current
                &&& q.out == st.out
                &&& q.depth_in_peer == st.depth_in_peer + opens - closes
            }
            &&& q.pending == st.pending
            &&& q.src == st.src
        }),
        ({
            let q = static_boundary(st, opens, closes);
            let over = closes > 0 && closes >= st.static_depth + opens;
            &&& !st.in_static ==> q == st
            &&& st.in_static ==> (q.in_static <==> !over)
            &&& st.in_static && !over ==> q.static_depth == st.static_depth + opens - closes
            &&& q == (BirdModel { in_static: q.in_static, static_depth: q.static_depth, ..st })
        }),
{
}

proof fn named_peers_are_first(peers: Seq<PeerModel>, i: int, name: Seq<char>)
    requires
        0 <= i <= peers.len(),
    ensures
        i <= peer_named(peers, i, name) <= peers.len(),
        peer_named(peers, i, name) < peers.len() ==> peers[peer_named(peers, i, name)].name == Some(
            name,
        ),
        forall|k: int| i <= k < peer_named(peers, i, name) ==> (#[trigger] peers[k]).name != Some(name),
    decreases peers.len() - i,
{
    if i < peers.len() && peers[i].name != Some(name) {
        named_peers_are_first(peers, i + 1, name);
    }
}

/// A filter that waited is attached to its own peer in its own direction, under
/// its name if it is known, and noted there if it is not. No other peer changes.
pub proof fn filters_are_attached_where_they_belong(
    c: ConfigModel,
    p: PendingModel,
    body: Translated,
    i: int,
)
    requires
        0 <= i < c.peers.len(),
        c.peers[i].name == Some(p.peer),
        forall|k: int| 0 <= k < i ==> (#[trigger] c.peers[k]).name != Some(p.peer),
    ensures
        ({
            let d = attach_one(c, p, body);
            let a = c.peers[i];
            let b = d.peers[i];
            let known = exists|k: int| 0 <= k < c.filters.len() && (#[trigger] c.filters[k]).name == p.text;
            let attached = if p.inline {
                body is Text
            } else {
                known
            };
            &&& d == (ConfigModel { peers: d.peers, filters: d.filters, ..c })
            &&& d.peers == c.peers.update(i, b)
            &&& b == (PeerModel {
                import_filter: b.import_filter,
                export_filter: b.export_filter,
                unmapped: b.unmapped,
                ..a
            })
            &&& attached && p.import ==> b.import_filter is Some && b.export_filter
                == a.export_filter && b.unmapped == a.unmapped
            &&& attached && !p.import ==> b.export_filter is Some && b.import_filter
                == a.import_filter && b.unmapped == a.unmapped
            &&& !attached ==> {
                &&& b.import_filter == a.import_filter
                &&& b.export_filter == a.export_filter
                &&& b.unmapped.len() == a.unmapped.len() + 1
                &&& b.unmapped.drop_last() == a.unmapped
                &&& starts(b.unmapped.last(), if p.import {
                    "import"@
                } else {
                    "export"@
                })
            }
            &&& !p.inline ==> d.filters == c.filters
            &&& !p.inline && known && p.import ==> b.import_filter == Some(p.text)
            &&& !p.inline && known && !p.import ==> b.export_filter == Some(p.text)
            &&& p.inline && attached ==> {
                let name = if p.import {
                    b.import_filter->0
                } else {
                    b.export_filter->0
                };
                &&& d.filters == c.filters.push(NamedModel { name, text: body->Text_0 })
            }
            &&& p.inline && !attached ==> d.filters == c.filters
        }),
{
    named_peers_are_first(c.peers, 0, p.peer);
    assert(peer_named(c.peers, 0, p.peer) == i);
    let names = filter_names(c.filters);
    let d = attach_one(c, p, body);
    if names.contains(p.text) {
        let k = choose|k: int| 0 <= k < names.len() && names[k] == p.text;
        assert(c.filters[k].name == p.text);
    }
    if exists|k: int| 0 <= k < c.filters.len() && (#[trigger] c.filters[k]).name == p.text {
        let k = choose|k: int| 0 <= k < c.filters.len() && (#[trigger] c.filters[k]).name == p.text;
        assert(names[k] == p.text);
    }
    assert(d.peers =~= c.peers.update(i, d.peers[i]));
    let a = c.peers[i].unmapped;
    let b = d.peers[i].unmapped;
    if b.len() > a.len() {
        assert(b.drop_last() =~= a);
        let dir = dir_text(p.import);
        assert(b.last().subrange(0, dir.len() as int) =~= dir);
    }
}

/// A filter that belongs to no peer changes nothing.
pub proof fn strays_are_not_attached(c: ConfigModel, p: PendingModel, body: Translated)
    requires
        forall|k: int| 0 <= k < c.peers.len() ==> (#[trigger] c.peers[k]).name != Some(p.peer),
    ensures
        attach_one(c, p, body) == c,
{
    named_peers_are_first(c.peers, 0, p.peer);
}

/// A comment directive belongs to the open stanza, or to the whole configuration
/// if none is open; a line without one changes nothing.
pub proof fn directives_belong_to_the_open_stanza(st: BirdModel, raw: Seq<char>)
    ensures
        ({
            let q = with_directive(st, raw);
            let body = marker_body(raw, false);
            &&& body is None ==> q == st
            &&& body is Some && st.current is Some ==> q == (BirdModel {
                current: Some(attached(st.current->0, directive_of(body->0))),
                ..st
            })
            &&& body is Some && st.current is None ==> {
                &&& q == (BirdModel { out: q.out, ..st })
                &&& q.out == (ConfigModel { ext_global: q.out.ext_global, ..st.out })
                &&& q.out.ext_global == st.out.ext_global.push(directive_of(body->0))
            }
        }),
{
}

/// Punctuation and blank statements of a ROA table add nothing.
pub proof fn punctuation_adds_no_row(r: RoaRead, stmts: Seq<Seq<char>>, stmt: Seq<char>)
    ensures
        words_of(stmt).len() == 0 || is_noise(trim_of(stmt)) ==> roa_statement(r, stmt) == r,
        roa_statements(r, Seq::empty()) == r,
        roa_statements(r, stmts.push(stmt)) == roa_statement(roa_statements(r, stmts), stmt),
{
    assert(stmts.push(stmt).drop_last() =~= stmts);
}

/// A line is punctuation if it has characters and all are braces and semicolons.
pub proof fn punctuation_is_braces_and_semicolons(s: Seq<char>)
    ensures
        is_noise(s) <==> s.len() > 0 && forall|i: int|
            0 <= i < s.len() ==> #[trigger] s[i] == '{' || s[i] == '}' || s[i] == ';',
{
}

/// Of the header of a table only what stands in its braces counts.
pub proof fn tables_are_read_inside_their_braces(line: Seq<char>)
    requires
        words_of(line).len() >= 2,
    ensures
        ({
            let ts = words_of(line);
            let head = ts[0] == "roa"@ && ts[1] == "table"@;
            &&& head ==> table_statements(line) == inked(pieces_of(inner_of(line), ';'))
            &&& !head ==> table_statements(line) == statements_of(line)
        }),
{
}

/// Another protocol is listed as ignored by its kind and name, but for the device
/// protocol, which every configuration has.
pub proof fn other_protocols_are_listed(st: BirdModel, ts: Seq<Seq<char>>, line: Seq<char>)
    requires
        statement_of(ts, line, st.in_static, st.current is Some) is OtherProtocol,
    ensures
        ts[1] == "device"@ ==> bird_statement(st, ts, line) == st,
        ts[1] != "device"@ ==> ({
            let q = bird_statement(st, ts, line);
            &&& q == (BirdModel { out: q.out, ..st })
            &&& q.out == (ConfigModel { ignored_protocols: q.out.ignored_protocols, ..st.out })
            &&& q.out.ignored_protocols == st.out.ignored_protocols.push(
                "protocol "@ + ts[1] + " "@ + trim_braces(ts[2]),
            )
        }),
{
}

/// The scan stands in the stanza of another protocol from its line on until its
/// braces close or another protocol starts.
pub proof fn other_stanzas_end_with_their_braces(st: BirdModel, ts: Seq<Seq<char>>, line: Seq<char>)
    requires
        ts.len() >= 1,
        st.other_depth + count_of(line, '{') <= usize::MAX,
    ensures
        ({
            let o = count_of(line, '{');
            let c = count_of(line, '}');
            let d = other_after(st, ts, line);
            let other = ts.len() >= 3 && ts[1] != "bgp"@ && ts[1] != "static"@ && ts[1] != "babel"@;
            let left = |n: int|
                if n > 0 {
                    n
                } else {
                    0
                };
            &&& ts[0] == "protocol"@ && other ==> d == left(o - c)
            &&& ts[0] == "protocol"@ && !other ==> d == 0
            &&& ts[0] != "protocol"@ && st.other_depth == 0 ==> d == 0
            &&& ts[0] != "protocol"@ && st.other_depth > 0 ==> d == left(st.other_depth + o - c)
        }),
{
}

} // verus!
