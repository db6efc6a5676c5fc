//! BIRD `protocol babel` stanzas: interface blocks and their parameters.

use crate::bird_scan::{inked, inked_lines, inner, inner_of, split_statements, statements_of};
use crate::conf::{blank_babel, BabelInterfaceSpec, BabelModel, BabelRow, BabelRowModel};
use crate::table::take_step;
use crate::text::{
    all_digits, before_suffix, between, cat, chars_of, contains, contains_char, contains_text,
    digits_value, ends, ends_with, is_blank, is_digit, is_word, next_char, no_items, opt_view, own,
    own_opt, parse_number, pieces_of, push_view, read_u16, read_u32, same, second_piece, seek_char,
    split_char, strip_suffix, text_of, trim, trim_end_char, trim_end_char_of, trim_of, u16_of,
    u32_of, unsigned_part, views, word, words, words_of,
};
use vstd::prelude::*;
use vstd::string::*;

verus! {

/// A line made of block punctuation alone.
pub open spec fn is_noise(s: Seq<char>) -> bool {
    s.len() > 0 && forall|i: int|
        0 <= i < s.len() ==> (#[trigger] s[i] == '{' || s[i] == '}' || s[i] == ';')
}

/// Whether a line is made of block punctuation alone.
pub fn is_brace_noise(s: &str) -> (b: bool)
    ensures
        b == is_noise(s@),
{
    let v = chars_of(s);
    let mut i: usize = 0;
    while i < v.len()
        invariant
            i <= v@.len(),
            v@ == s@,
            forall|k: int|
                0 <= k < i ==> (#[trigger] s@[k] == '{' || s@[k] == '}' || s@[k] == ';'),
        decreases v@.len() - i,
    {
        let c = v[i];
        if !(c == '{' || c == '}' || c == ';') {
            assert(s@[i as int] == c);
            return false;
        }
        i += 1;
    }
    v.len() > 0
}

/// The first three digits of a fraction, filled up with zeros.
pub open spec fn thousandths(f: Seq<char>) -> Seq<char> {
    Seq::new(
        3,
        |i: int|
            if i < f.len() {
                f[i]
            } else {
                '0'
            },
    )
}

/// Milliseconds of a decimal number of seconds, given by its whole part and its
/// fraction, rounded to the nearest; half rounds up.
pub open spec fn decimal_ms(whole: Seq<char>, fraction: Seq<char>) -> nat {
    digits_value(whole) * 1000 + digits_value(thousandths(fraction)) + (if fraction.len() > 3
        && fraction[3] >= '5' {
        1nat
    } else {
        0nat
    })
}

/// A value held inside 32 bits.
pub open spec fn capped32(n: nat) -> u32 {
    if n > u32::MAX {
        u32::MAX
    } else {
        n as u32
    }
}

/// A number without its sign.
pub open spec fn without_sign(s: Seq<char>) -> Seq<char> {
    if s.len() > 0 && (s[0] == '+' || s[0] == '-') {
        s.subrange(1, s.len() as int)
    } else {
        s
    }
}

/// Milliseconds of a number of seconds: decimal digits with at most one point
/// among them, which a sign may precede. A negative time counts as none.
pub open spec fn seconds_ms(s: Seq<char>) -> Option<u32> {
    let d = without_sign(s);
    let p = next_char(d, 0, '.');
    let whole = d.subrange(0, p);
    let fraction = if p < d.len() {
        d.subrange(p + 1, d.len() as int)
    } else {
        Seq::empty()
    };
    if all_digits(whole) && all_digits(fraction) && whole.len() + fraction.len() > 0 {
        Some(
            if s.len() > 0 && s[0] == '-' {
                0
            } else {
                capped32(decimal_ms(whole, fraction))
            },
        )
    } else {
        None
    }
}

/// Milliseconds of a time: whole milliseconds before `ms`, seconds otherwise.
pub open spec fn time_ms(text: Seq<char>) -> Option<u32> {
    let t = trim_end_char_of(trim_of(text), ';');
    match before_suffix(t, "ms"@) {
        Some(m) => u32_of(trim_of(m)),
        None => seconds_ms(trim_of(trim_end_char_of(t, 's'))),
    }
}

fn digits_only(v: &Vec<char>, from: usize, to: usize) -> (b: bool)
    requires
        from <= to <= v@.len(),
    ensures
        b == all_digits(v@.subrange(from as int, to as int)),
{
    let ghost s = v@.subrange(from as int, to as int);
    let mut i: usize = from;
    while i < to
        invariant
            from <= i <= to <= v@.len(),
            s == v@.subrange(from as int, to as int),
            forall|k: int| 0 <= k < i - from ==> is_digit(#[trigger] s[k]),
        decreases to - i,
    {
        let c = v[i];
        assert(s[i - from] == c);
        if !('0' <= c && c <= '9') {
            return false;
        }
        i += 1;
    }
    true
}

fn digit_at(v: &Vec<char>, i: usize, end: usize) -> (d: u64)
    requires
        end <= v@.len(),
        i < end ==> is_digit(v@[i as int]),
    ensures
        d <= 9,
        d == (if i < end {
            v@[i as int] as nat - '0' as nat
        } else {
            0
        }),
{
    if i < end {
        (v[i] as u32 - '0' as u32) as u64
    } else {
        0
    }
}

/// The thousandths of a fraction, rounded.
fn read_fraction(w: &Vec<char>, f: usize, n: usize) -> (r: u64)
    requires
        f <= n <= w@.len(),
        all_digits(w@.subrange(f as int, n as int)),
    ensures
        r <= 1000,
        ({
            let fraction = w@.subrange(f as int, n as int);
            r == digits_value(thousandths(fraction)) + (if fraction.len() > 3 && fraction[3]
                >= '5' {
                1nat
            } else {
                0nat
            })
        }),
{
    let ghost fraction = w@.subrange(f as int, n as int);
    proof {
        assert forall|k: int| 0 <= k < fraction.len() implies is_digit(
            #[trigger] w@[f + k],
        ) by {
            assert(w@[f + k] == fraction[k]);
        }
        if n > f {
            assert(is_digit(w@[f + 0]));
        }
        if n > f + 1 {
            assert(is_digit(w@[f + 1]));
        }
        if n > f + 2 {
            assert(is_digit(w@[f + 2]));
        }
    }
    let left: usize = n - f;
    let d0: u64 = digit_at(&w, f, n);
    let d1: u64 = if left > 1 {
        digit_at(&w, f + 1, n)
    } else {
        0
    };
    let d2: u64 = if left > 2 {
        digit_at(&w, f + 2, n)
    } else {
        0
    };
    let up: u64 = if left > 3 && w[f + 3] >= '5' {
        1
    } else {
        0
    };
    proof {
        let t = thousandths(fraction);
        reveal_with_fuel(digits_value, 4);
        assert(t.drop_last().drop_last().drop_last() =~= Seq::<char>::empty());
        assert(digits_value(t) == 100 * d0 + 10 * d1 + d2);
    }
    d0 * 100 + d1 * 10 + d2 + up
}

fn read_seconds(s: &str) -> (r: Option<u32>)
    ensures
        r == seconds_ms(s@),
{
    let v = chars_of(s);
    let negative = v.len() > 0 && v[0] == '-';
    let signed = v.len() > 0 && (v[0] == '+' || v[0] == '-');
    let d = if signed {
        text_of(&v, 1, v.len())
    } else {
        text_of(&v, 0, v.len())
    };
    let w = chars_of(d.as_str());
    let n: usize = w.len();
    proof {
        assert(v@.subrange(0, v@.len() as int) =~= v@);
        assert(w@ == without_sign(s@));
    }
    let p: usize = seek_char(&w, 0, '.');
    let f: usize = if p < n {
        p + 1
    } else {
        n
    };
    let ghost whole = w@.subrange(0, p as int);
    let ghost fraction = w@.subrange(f as int, n as int);
    proof {
        if p >= n {
            assert(fraction =~= Seq::<char>::empty());
        }
    }
    if !digits_only(&w, 0, p) || !digits_only(&w, f, n) || p + (n - f) == 0 {
        return None;
    }
    if negative {
        return Some(0);
    }
    let mut seconds: u64 = 0;
    if p > 0 {
        let whole_text = text_of(&w, 0, p);
        proof {
            assert(is_digit(whole[0]));
            assert(unsigned_part(whole) == whole);
        }
        match parse_number(whole_text.as_str(), 0xffff_ffff) {
            Some(x) => {
                seconds = x;
            },
            None => {
                return Some(0xffff_ffff);
            },
        }
    } else {
        assert(whole =~= Seq::<char>::empty());
    }
    assert(seconds == digits_value(whole));
    let part: u64 = read_fraction(&w, f, n);
    let total: u64 = seconds * 1000 + part;
    if total > 0xffff_ffff {
        Some(0xffff_ffff)
    } else {
        Some(total as u32)
    }
}

/// Reads a time (`4`, `4 s`, `4000 ms`) in milliseconds. Bare numbers are
/// seconds.
pub fn parse_time_ms(text: &str) -> (r: Option<u32>)
    ensures
        r == time_ms(text@),
{
    let t = trim_end_char(trim(text).as_str(), ';');
    match strip_suffix(t.as_str(), "ms") {
        Some(m) => read_u32(trim(m.as_str()).as_str()),
        None => read_seconds(trim(trim_end_char(t.as_str(), 's').as_str()).as_str()),
    }
}

/// A time given by a value word and a unit word; the unit defaults to seconds.
pub open spec fn words_ms(ws: Seq<Seq<char>>, i: int) -> Option<u32> {
    let unit = if i + 1 < ws.len() {
        ws[i + 1]
    } else {
        "s"@
    };
    time_ms(trim_end_char_of(word(ws, i), ';') + " "@ + trim_end_char_of(unit, ';'))
}

fn read_words_ms(ws: &Vec<String>, i: usize) -> (r: Option<u32>)
    requires
        i < usize::MAX,
    ensures
        r == words_ms(views(ws@), i as int),
{
    let mut s = if i < ws.len() {
        trim_end_char(ws[i].as_str(), ';')
    } else {
        trim_end_char("", ';')
    };
    proof {
        reveal_strlit("");
        assert(""@ =~= Seq::<char>::empty());
        assert(s@ == trim_end_char_of(word(views(ws@), i as int), ';'));
    }
    s.append(" ");
    if i + 1 < ws.len() {
        s.append(trim_end_char(ws[i + 1].as_str(), ';').as_str());
    } else {
        s.append(trim_end_char("s", ';').as_str());
    }
    parse_time_ms(s.as_str())
}

/// Microseconds of milliseconds, if they fit 32 bits.
pub open spec fn micros(ms: Option<u32>) -> Option<u32> {
    match ms {
        Some(n) if n * 1000 <= u32::MAX => Some((n * 1000) as u32),
        _ => None,
    }
}

fn to_micros(ms: Option<u32>) -> (r: Option<u32>)
    ensures
        r == micros(ms),
{
    match ms {
        Some(n) => n.checked_mul(1000),
        None => None,
    }
}

/// What is known while a `protocol babel` stanza is read.
pub struct BabelProto {
    /// The interface block that is open.
    pub iface: Option<BabelInterfaceSpec>,
    pub iface_notes: Vec<String>,
    /// Next hops of the whole protocol.
    pub next_hop_v4: Option<String>,
    pub next_hop_v6: Option<String>,
    /// The interfaces finished so far.
    pub ifaces: Vec<BabelRow>,
}

/// The same over text.
#[verifier::ext_equal]
pub struct BabelProtoModel {
    pub iface: Option<BabelModel>,
    pub iface_notes: Seq<Seq<char>>,
    pub next_hop_v4: Option<Seq<char>>,
    pub next_hop_v6: Option<Seq<char>>,
    pub ifaces: Seq<BabelRowModel>,
}

impl View for BabelProto {
    type V = BabelProtoModel;

    open spec fn view(&self) -> BabelProtoModel {
        BabelProtoModel {
            iface: opt_view(self.iface),
            iface_notes: views(self.iface_notes@),
            next_hop_v4: opt_view(self.next_hop_v4),
            next_hop_v6: opt_view(self.next_hop_v6),
            ifaces: views(self.ifaces@),
        }
    }
}

/// A stanza of which nothing was read.
pub open spec fn blank_proto() -> BabelProtoModel {
    BabelProtoModel {
        iface: None,
        iface_notes: Seq::empty(),
        next_hop_v4: None,
        next_hop_v6: None,
        ifaces: Seq::empty(),
    }
}

impl Default for BabelProto {
    fn default() -> (p: BabelProto)
        ensures
            p@ == blank_proto(),
    {
        BabelProto {
            iface: None,
            iface_notes: no_items(),
            next_hop_v4: None,
            next_hop_v6: None,
            ifaces: no_items(),
        }
    }
}

/// An interface with the protocol's next hops where it has none of its own.
pub open spec fn with_hops(b: BabelModel, v4: Option<Seq<char>>, v6: Option<Seq<char>>) -> BabelModel {
    BabelModel {
        next_hop_ipv4: if b.next_hop_ipv4 is None {
            v4
        } else {
            b.next_hop_ipv4
        },
        next_hop_ipv6: if b.next_hop_ipv6 is None {
            v6
        } else {
            b.next_hop_ipv6
        },
        ..b
    }
}

pub(crate) fn fill_hops(b: &mut BabelInterfaceSpec, v4: &Option<String>, v6: &Option<String>)
    ensures
        final(b)@ == with_hops(old(b)@, opt_view(*v4), opt_view(*v6)),
{
    if b.next_hop_ipv4.is_none() {
        b.next_hop_ipv4 = own_opt(v4);
    }
    if b.next_hop_ipv6.is_none() {
        b.next_hop_ipv6 = own_opt(v6);
    }
}

/// The stanza with its open interface block closed.
pub open spec fn finished(p: BabelProtoModel) -> BabelProtoModel {
    match p.iface {
        Some(b) => BabelProtoModel {
            iface: None,
            iface_notes: Seq::empty(),
            ifaces: p.ifaces.push(
                BabelRowModel {
                    spec: with_hops(b, p.next_hop_v4, p.next_hop_v6),
                    notes: p.iface_notes,
                },
            ),
            ..p
        },
        None => p,
    }
}

/// Closes the open interface block, if there is one.
pub fn finish_babel_iface(p: &mut BabelProto)
    ensures
        final(p)@ == finished(old(p)@),
{
    let open = p.iface.take();
    match open {
        Some(b) => {
            let mut spec = b;
            let mut notes: Vec<String> = no_items();
            notes.append(&mut p.iface_notes);
            assert(views(notes@) =~= old(p)@.iface_notes);
            assert(views(p.iface_notes@) =~= Seq::<Seq<char>>::empty());
            fill_hops(&mut spec, &p.next_hop_v4, &p.next_hop_v6);
            push_view(&mut p.ifaces, BabelRow { spec, notes });
        },
        None => {},
    }
}

/// The name between the first two quotes.
pub open spec fn quoted_name(s: Seq<char>) -> Seq<char> {
    word(pieces_of(s, '"'), 1)
}

/// The address of a `next hop` statement.
pub open spec fn hop_of(line: Seq<char>, marker: Seq<char>) -> Seq<char> {
    trim_of(
        trim_end_char_of(
            match second_piece(line, marker) {
                Some(t) => t,
                None => Seq::empty(),
            },
            ';',
        ),
    )
}

fn read_hop(line: &str, marker: &str) -> (r: String)
    ensures
        r@ == hop_of(line@, marker@),
{
    let t = match between(line, marker) {
        Some(t) => t,
        None => String::new(),
    };
    proof {
        if second_piece(line@, marker@) is None {
            assert(t@ =~= Seq::<char>::empty());
        }
    }
    trim(trim_end_char(t.as_str(), ';').as_str())
}

/// The note on a statement of the whole protocol.
pub open spec fn protocol_note(t0: Seq<char>) -> Seq<char> {
    "protocol-level babel statement `"@ + t0 + "` — lr carries it per [[babel.interface]]"@
}

/// The stanza with one more note.
pub open spec fn noted(p: BabelProtoModel, note: Seq<char>) -> BabelProtoModel {
    BabelProtoModel { iface_notes: p.iface_notes.push(note), ..p }
}

/// What a statement outside any interface block does.
pub open spec fn protocol_line(p: BabelProtoModel, t0: Seq<char>, line: Seq<char>) -> BabelProtoModel {
    if t0 == "next"@ && contains_text(line, "hop ipv4 "@) {
        BabelProtoModel { next_hop_v4: Some(hop_of(line, "hop ipv4 "@)), ..p }
    } else if t0 == "next"@ && contains_text(line, "hop ipv6 "@) {
        BabelProtoModel { next_hop_v6: Some(hop_of(line, "hop ipv6 "@)), ..p }
    } else if t0.len() > 0 && !is_noise(line) {
        noted(p, protocol_note(t0))
    } else {
        p
    }
}

fn absorb_protocol(p: &mut BabelProto, t0: &str, line: &str)
    ensures
        final(p)@ == protocol_line(old(p)@, t0@, line@),
{
    if same(t0, "next") && contains(line, "hop ipv4 ") {
        p.next_hop_v4 = Some(read_hop(line, "hop ipv4 "));
    } else if same(t0, "next") && contains(line, "hop ipv6 ") {
        p.next_hop_v6 = Some(read_hop(line, "hop ipv6 "));
    } else if !t0.is_empty() && !is_brace_noise(line) {
        let mut s = own("protocol-level babel statement `");
        s.append(t0);
        s.append("` — lr carries it per [[babel.interface]]");
        push_view(&mut p.iface_notes, s);
    }
}

/// A number behind a parameter's name.
pub open spec fn number_at(ws: Seq<Seq<char>>, i: int) -> Option<u16> {
    if i < ws.len() {
        u16_of(trim_end_char_of(ws[i], ';'))
    } else {
        None
    }
}

fn read_number_at(ws: &Vec<String>, i: usize) -> (r: Option<u16>)
    ensures
        r == number_at(views(ws@), i as int),
{
    if i < ws.len() {
        assert(views(ws@)[i as int] == ws@[i as int]@);
        read_u16(trim_end_char(ws[i].as_str(), ';').as_str())
    } else {
        None
    }
}

/// What an `rtt` parameter sets, and whether it is understood.
pub open spec fn rtt_line(b: BabelModel, ws: Seq<Seq<char>>) -> (BabelModel, bool) {
    if word(ws, 1) == "cost"@ {
        let n = number_at(ws, 2);
        (BabelModel { rtt_cost: n, ..b }, n is Some)
    } else if word(ws, 1) == "min"@ {
        let n = micros(words_ms(ws, 2));
        (BabelModel { rtt_min_us: n, ..b }, n is Some)
    } else if word(ws, 1) == "max"@ {
        let n = micros(words_ms(ws, 2));
        (BabelModel { rtt_max_us: n, ..b }, n is Some)
    } else {
        (b, false)
    }
}

/// The time behind the word `interval`.
pub open spec fn interval_of(line: Seq<char>) -> Option<u32> {
    words_ms(
        words_of(
            match second_piece(line, "interval"@) {
                Some(t) => t,
                None => Seq::empty(),
            },
        ),
        0,
    )
}

fn read_interval(line: &str) -> (r: Option<u32>)
    ensures
        r == interval_of(line@),
{
    let t = match between(line, "interval") {
        Some(t) => t,
        None => String::new(),
    };
    proof {
        if second_piece(line@, "interval"@) is None {
            assert(t@ =~= Seq::<char>::empty());
        }
    }
    let ws = words(t.as_str());
    read_words_ms(&ws, 0)
}

/// What a parameter statement sets, and whether its value is understood; none
/// if there is no such parameter.
pub open spec fn parameter_line(b: BabelModel, ws: Seq<Seq<char>>, line: Seq<char>) -> Option<
    (BabelModel, bool),
> {
    let t0 = word(ws, 0);
    if t0 == "type"@ {
        let kind = trim_end_char_of(word(ws, 1), ';');
        Some((BabelModel { kind: Some(kind), ..b }, kind.len() > 0))
    } else if t0 == "rxcost"@ {
        let n = number_at(ws, 1);
        Some((BabelModel { rxcost: n, ..b }, n is Some))
    } else if t0 == "rtt"@ {
        Some(rtt_line(b, ws))
    } else if t0 == "hello"@ && contains_text(line, "interval"@) {
        let n = interval_of(line);
        Some((BabelModel { hello_interval_ms: n, ..b }, n is Some))
    } else if t0 == "update"@ && contains_text(line, "interval"@) {
        let n = interval_of(line);
        Some((BabelModel { update_interval_ms: n, ..b }, n is Some))
    } else if t0 == "check"@ && contains_text(line, "link"@) {
        Some((BabelModel { check_link: Some(contains_text(line, "yes"@)), ..b }, true))
    } else if t0 == "extended"@ && contains_text(line, "next hop"@) {
        Some((BabelModel { extended_next_hop: Some(contains_text(line, "yes"@)), ..b }, true))
    } else if t0 == "port"@ {
        let n = number_at(ws, 1);
        Some((BabelModel { port: n, ..b }, n is Some))
    } else {
        None
    }
}

fn absorb_rtt(b: &mut BabelInterfaceSpec, ws: &Vec<String>) -> (ok: bool)
    requires
        ws@.len() > 0,
    ensures
        (final(b)@, ok) == rtt_line(old(b)@, views(ws@)),
{
    let ghost wv = views(ws@);
    assert(forall|i: int| 0 <= i < ws@.len() ==> wv[i] == (#[trigger] ws@[i])@);
    proof {
        reveal_strlit("cost");
        reveal_strlit("min");
        reveal_strlit("max");
    }
    if is_word(ws, 1, "cost") {
        b.rtt_cost = read_number_at(ws, 2);
        b.rtt_cost.is_some()
    } else if is_word(ws, 1, "min") {
        b.rtt_min_us = to_micros(read_words_ms(ws, 2));
        b.rtt_min_us.is_some()
    } else if is_word(ws, 1, "max") {
        b.rtt_max_us = to_micros(read_words_ms(ws, 2));
        b.rtt_max_us.is_some()
    } else {
        false
    }
}

fn absorb_parameter(b: &mut BabelInterfaceSpec, ws: &Vec<String>, line: &str) -> (r: Option<bool>)
    requires
        ws@.len() > 0,
    ensures
        match r {
            Some(ok) => parameter_line(old(b)@, views(ws@), line@) == Some((final(b)@, ok)),
            None => parameter_line(old(b)@, views(ws@), line@) is None && final(b)@ == old(b)@,
        },
{
    let ghost wv = views(ws@);
    assert(forall|i: int| 0 <= i < ws@.len() ==> wv[i] == (#[trigger] ws@[i])@);
    let t0 = ws[0].as_str();
    if same(t0, "type") {
        let k = if ws.len() > 1 {
            trim_end_char(ws[1].as_str(), ';')
        } else {
            trim_end_char("", ';')
        };
        proof {
            reveal_strlit("");
            assert(""@ =~= Seq::<char>::empty());
        }
        let ok = !is_blank(&k);
        b.kind = Some(k);
        Some(ok)
    } else if same(t0, "rxcost") {
        b.rxcost = read_number_at(ws, 1);
        Some(b.rxcost.is_some())
    } else if same(t0, "rtt") {
        Some(absorb_rtt(b, ws))
    } else if same(t0, "hello") && contains(line, "interval") {
        b.hello_interval_ms = read_interval(line);
        Some(b.hello_interval_ms.is_some())
    } else if same(t0, "update") && contains(line, "interval") {
        b.update_interval_ms = read_interval(line);
        Some(b.update_interval_ms.is_some())
    } else if same(t0, "check") && contains(line, "link") {
        b.check_link = Some(contains(line, "yes"));
        Some(true)
    } else if same(t0, "extended") && contains(line, "next hop") {
        b.extended_next_hop = Some(contains(line, "yes"));
        Some(true)
    } else if same(t0, "port") {
        b.port = read_number_at(ws, 1);
        Some(b.port.is_some())
    } else {
        None
    }
}

/// The note on a parameter, by what is written of it.
pub open spec fn parameter_note(text: Seq<char>) -> Seq<char> {
    "babel interface parameter `"@ + text + "` — no lr equivalent"@
}

/// What a parameter statement does to the open interface. One that there is no
/// parameter for, or whose value is not understood, is noted.
pub open spec fn parameter_statement(p: BabelProtoModel, stmt: Seq<char>) -> BabelProtoModel {
    let ws = words_of(stmt);
    match p.iface {
        Some(b) if ws.len() > 0 => match parameter_line(b, ws, stmt) {
            Some((m, ok)) => {
                let q = BabelProtoModel { iface: Some(m), ..p };
                if ok {
                    q
                } else {
                    noted(q, parameter_note(trim_end_char_of(stmt, ';')))
                }
            },
            None => noted(p, parameter_note(word(ws, 0))),
        },
        _ => p,
    }
}

fn note_parameter(p: &mut BabelProto, text: &str)
    ensures
        final(p)@ == noted(old(p)@, parameter_note(text@)),
{
    let mut s = own("babel interface parameter `");
    s.append(text);
    s.append("` — no lr equivalent");
    push_view(&mut p.iface_notes, s);
}

fn take_parameter(p: &mut BabelProto, stmt: &str)
    ensures
        final(p)@ == parameter_statement(old(p)@, stmt@),
{
    let ws = words(stmt);
    assert(views(ws@).len() == ws@.len());
    if ws.len() == 0 {
        return;
    }
    assert(views(ws@)[0] == ws@[0]@);
    let open = p.iface.take();
    match open {
        Some(b0) => {
            let mut b = b0;
            let known = absorb_parameter(&mut b, &ws, stmt);
            p.iface = Some(b);
            match known {
                Some(ok) => {
                    if !ok {
                        note_parameter(p, trim_end_char(stmt, ';').as_str());
                    }
                },
                None => {
                    note_parameter(p, ws[0].as_str());
                },
            }
        },
        None => {},
    }
}

/// What the statements in the braces of an `interface` line do.
pub open spec fn inline_parameters(p: BabelProtoModel, stmts: Seq<Seq<char>>) -> BabelProtoModel
    decreases stmts.len(),
{
    if stmts.len() == 0 {
        p
    } else {
        parameter_statement(inline_parameters(p, stmts.drop_last()), stmts.last())
    }
}

/// What an `interface` line does. One with braces opens a block, takes the
/// statements in them, and closes it if they close; one without is complete if
/// it ends in `;`. Notes on the whole protocol stay.
pub open spec fn interface_line(p: BabelProtoModel, line: Seq<char>) -> BabelProtoModel {
    let q = finished(p);
    let b = blank_babel(quoted_name(line));
    let opened = BabelProtoModel { iface: Some(b), ..q };
    if next_char(line, 0, '{') < line.len() {
        let r = inline_parameters(opened, inked(pieces_of(inner_of(line), ';')));
        if next_char(line, 0, '}') < line.len() {
            finished(r)
        } else {
            r
        }
    } else if ends(line, ";"@) {
        BabelProtoModel {
            ifaces: q.ifaces.push(
                BabelRowModel {
                    spec: with_hops(b, q.next_hop_v4, q.next_hop_v6),
                    notes: Seq::empty(),
                },
            ),
            ..q
        }
    } else {
        opened
    }
}

fn absorb_interface(p: &mut BabelProto, line: &str)
    ensures
        final(p)@ == interface_line(old(p)@, line@),
{
    finish_babel_iface(p);
    let parts = split_char(line, '"');
    let name = if parts.len() > 1 {
        own(parts[1].as_str())
    } else {
        String::new()
    };
    assert(name@ =~= quoted_name(line@));
    let spec = BabelInterfaceSpec::named(name);
    if contains_char(line, '{') {
        p.iface = Some(spec);
        let stmts = inked_lines(&split_char(inner(line).as_str(), ';'));
        let ghost sv = views(stmts@);
        let ghost start = p@;
        let mut i: usize = 0;
        while i < stmts.len()
            invariant
                i <= stmts@.len(),
                sv == views(stmts@),
                p@ == inline_parameters(start, sv.take(i as int)),
            decreases stmts@.len() - i,
        {
            proof {
                take_step(sv, i as int);
            }
            assert(sv[i as int] == stmts@[i as int]@);
            take_parameter(p, stmts[i].as_str());
            i += 1;
        }
        assert(sv.take(i as int) =~= sv);
        if contains_char(line, '}') {
            finish_babel_iface(p);
        }
    } else if ends_with(line, ";") {
        let mut b = spec;
        fill_hops(&mut b, &p.next_hop_v4, &p.next_hop_v6);
        push_view(&mut p.ifaces, BabelRow { spec: b, notes: no_items() });
    } else {
        p.iface = Some(spec);
    }
}

/// What one statement of a stanza does.
pub open spec fn babel_statement(p: BabelProtoModel, stmt: Seq<char>) -> BabelProtoModel {
    let t0 = word(words_of(stmt), 0);
    if t0 == "interface"@ {
        interface_line(p, stmt + ";"@)
    } else {
        match p.iface {
            None => protocol_line(p, t0, stmt),
            Some(_) => if is_noise(stmt) {
                finished(p)
            } else {
                parameter_statement(p, stmt)
            },
        }
    }
}

/// What statements of a stanza do, in turn.
pub open spec fn babel_statements(p: BabelProtoModel, stmts: Seq<Seq<char>>) -> BabelProtoModel
    decreases stmts.len(),
{
    if stmts.len() == 0 {
        p
    } else {
        babel_statement(babel_statements(p, stmts.drop_last()), stmts.last())
    }
}

/// What one line of a stanza does. Of the stanza's own header only what stands
/// in its braces counts.
pub open spec fn babel_line(p: BabelProtoModel, raw: Seq<char>) -> BabelProtoModel {
    let line = trim_of(raw);
    let t0 = word(words_of(line), 0);
    if t0 == "interface"@ {
        interface_line(p, line)
    } else if t0 == "protocol"@ && p.iface is None {
        if next_char(line, 0, '{') < line.len() {
            babel_statements(p, inked(pieces_of(inner_of(line), ';')))
        } else {
            p
        }
    } else {
        babel_statements(p, statements_of(line))
    }
}

fn take_statement(p: &mut BabelProto, stmt: &str)
    ensures
        final(p)@ == babel_statement(old(p)@, stmt@),
{
    let ws = words(stmt);
    let ghost wv = views(ws@);
    let t0 = if ws.len() > 0 {
        own(ws[0].as_str())
    } else {
        String::new()
    };
    assert(t0@ =~= word(wv, 0));
    if same(t0.as_str(), "interface") {
        absorb_interface(p, cat(stmt, ";").as_str());
    } else if p.iface.is_none() {
        absorb_protocol(p, t0.as_str(), stmt);
    } else if is_brace_noise(stmt) {
        finish_babel_iface(p);
    } else {
        take_parameter(p, stmt);
    }
}

fn take_statements(p: &mut BabelProto, stmts: &Vec<String>)
    ensures
        final(p)@ == babel_statements(old(p)@, views(stmts@)),
{
    let ghost sv = views(stmts@);
    let mut i: usize = 0;
    while i < stmts.len()
        invariant
            i <= stmts@.len(),
            sv == views(stmts@),
            p@ == babel_statements(old(p)@, sv.take(i as int)),
        decreases stmts@.len() - i,
    {
        proof {
            take_step(sv, i as int);
        }
        assert(sv[i as int] == stmts@[i as int]@);
        take_statement(p, stmts[i].as_str());
        i += 1;
    }
    assert(sv.take(i as int) =~= sv);
}

/// Reads one line of a `protocol babel` stanza: the lifecycle of interface
/// blocks, and the parameters that have an equivalent.
pub fn absorb_babel_line(p: &mut BabelProto, raw: &str)
    ensures
        final(p)@ == babel_line(old(p)@, raw@),
{
    let line = trim(raw);
    let ws = words(line.as_str());
    let ghost wv = views(ws@);
    let t0 = if ws.len() > 0 {
        own(ws[0].as_str())
    } else {
        String::new()
    };
    assert(t0@ =~= word(wv, 0));
    if same(t0.as_str(), "interface") {
        absorb_interface(p, line.as_str());
    } else if same(t0.as_str(), "protocol") && p.iface.is_none() {
        if contains_char(line.as_str(), '{') {
            let stmts = inked_lines(&split_char(inner(line.as_str()).as_str(), ';'));
            take_statements(p, &stmts);
        }
    } else {
        take_statements(p, &split_statements(line.as_str()));
    }
}

} // verus!
