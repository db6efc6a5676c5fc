//! YANG instance data of the Babel part of a configuration: `ietf-babel` and
//! `ietf-key-chain`.

use crate::table::take_step;
use crate::text::{
    cat, cat3, chars_of, decimal, lines, lines_of, opt_view, own, same, views, write_number,
};
use vstd::arithmetic::div_mod::lemma_div_denominator;
use vstd::prelude::*;
use vstd::string::*;
use vstd::utf8::encode_utf8;

verus! {

/// Which model to render.
#[derive(Clone, Copy, Debug, PartialEq, Eq, Structural)]
pub enum YangModel {
    Babel,
    Keychain,
    /// Both, in a NETCONF `config` element.
    All,
}

/// The model of a name.
pub open spec fn model_of(s: Seq<char>) -> Option<YangModel> {
    if s == "babel"@ {
        Some(YangModel::Babel)
    } else if s == "keychain"@ {
        Some(YangModel::Keychain)
    } else if s == "all"@ {
        Some(YangModel::All)
    } else {
        None
    }
}

/// Reads the name of a model.
pub fn parse_model(s: &str) -> (r: Option<YangModel>)
    ensures
        r == model_of(s@),
{
    if same(s, "babel") {
        Some(YangModel::Babel)
    } else if same(s, "keychain") {
        Some(YangModel::Keychain)
    } else if same(s, "all") {
        Some(YangModel::All)
    } else {
        None
    }
}

/// A Babel key of the configuration.
pub struct BabelKey {
    pub secret: Option<String>,
    pub algorithm: Option<String>,
}

/// The same over text.
pub struct KeyModel {
    pub secret: Option<Seq<char>>,
    pub algorithm: Option<Seq<char>>,
}

impl View for BabelKey {
    type V = KeyModel;

    open spec fn view(&self) -> KeyModel {
        KeyModel { secret: opt_view(self.secret), algorithm: opt_view(self.algorithm) }
    }
}

/// The Babel part of a configuration.
pub struct BabelConfig {
    pub port: u16,
    /// The multicast group, and whether it is an address.
    pub group: Option<String>,
    pub group_is_address: bool,
    pub keys: Vec<BabelKey>,
}

/// The same over text.
pub struct BabelConfigModel {
    pub port: u16,
    pub group: Option<Seq<char>>,
    pub group_is_address: bool,
    pub keys: Seq<KeyModel>,
}

impl View for BabelConfig {
    type V = BabelConfigModel;

    open spec fn view(&self) -> BabelConfigModel {
        BabelConfigModel {
            port: self.port,
            group: opt_view(self.group),
            group_is_address: self.group_is_address,
            keys: views(self.keys@),
        }
    }
}

/// The multicast group that is used: the configured one if it is an address.
pub open spec fn group_of(c: BabelConfigModel) -> Seq<char> {
    match c.group {
        Some(g) => if c.group_is_address {
            g
        } else {
            "ff02::1:6"@
        },
        None => "ff02::1:6"@,
    }
}

/// The multicast group that is used.
pub fn effective_group(c: &BabelConfig) -> (r: String)
    ensures
        r@ == group_of(c@),
{
    match &c.group {
        Some(g) => if c.group_is_address {
            own(g.as_str())
        } else {
            own("ff02::1:6")
        },
        None => own("ff02::1:6"),
    }
}

/// A character of an XML text.
pub open spec fn xml_char(c: char) -> Seq<char> {
    if c == '&' {
        "&amp;"@
    } else if c == '<' {
        "&lt;"@
    } else if c == '>' {
        "&gt;"@
    } else if c == '"' {
        "&quot;"@
    } else if c == '\'' {
        "&apos;"@
    } else {
        seq![c]
    }
}

/// A text as XML.
pub open spec fn xml_text(s: Seq<char>) -> Seq<char>
    decreases s.len(),
{
    if s.len() == 0 {
        Seq::empty()
    } else {
        xml_text(s.drop_last()) + xml_char(s.last())
    }
}

/// Escapes a text for XML.
pub fn xml_escape(s: &str) -> (r: String)
    ensures
        r@ == xml_text(s@),
{
    let v = chars_of(s);
    let mut out = String::new();
    assert(out@ =~= Seq::<char>::empty());
    let mut i: usize = 0;
    while i < v.len()
        invariant
            i <= v@.len(),
            out@ == xml_text(v@.take(i as int)),
        decreases v@.len() - i,
    {
        proof {
            take_step(v@, i as int);
        }
        let c = v[i];
        if c == '&' {
            out.append("&amp;");
        } else if c == '<' {
            out.append("&lt;");
        } else if c == '>' {
            out.append("&gt;");
        } else if c == '"' {
            out.append("&quot;");
        } else if c == '\'' {
            out.append("&apos;");
        } else {
            let ghost o = out@;
            out.push(c);
            assert(out@ =~= o + seq![c]);
        }
        i += 1;
    }
    assert(v@.take(i as int) =~= v@);
    out
}

/// An escaped text holds none of the characters that start or end markup.
pub proof fn escaped_xml_is_text(s: Seq<char>, i: int)
    requires
        0 <= i < xml_text(s).len(),
    ensures
        xml_text(s)[i] != '<',
        xml_text(s)[i] != '>',
        xml_text(s)[i] != '"',
        xml_text(s)[i] != '\'',
    decreases s.len(),
{
    reveal_strlit("&amp;");
    reveal_strlit("&lt;");
    reveal_strlit("&gt;");
    reveal_strlit("&quot;");
    reveal_strlit("&apos;");
    let before = xml_text(s.drop_last());
    if i < before.len() {
        escaped_xml_is_text(s.drop_last(), i);
    } else {
        let e = xml_char(s.last());
        assert(xml_text(s)[i] == e[i - before.len()]);
    }
}

/// The digit of a base64 value.
pub open spec fn base64_char(n: nat) -> char {
    if n < 26 {
        ('A' as u32 + n) as char
    } else if n < 52 {
        ('a' as u32 + n - 26) as char
    } else if n < 62 {
        ('0' as u32 + n - 52) as char
    } else if n == 62 {
        '+'
    } else {
        '/'
    }
}

fn base64_digit(n: u32) -> (c: char)
    requires
        n < 64,
    ensures
        c == base64_char(n as nat),
{
    let b: u8 = if n < 26 {
        65 + n as u8
    } else if n < 52 {
        71 + n as u8
    } else if n < 62 {
        n as u8 - 4
    } else if n == 62 {
        43
    } else {
        47
    };
    b as char
}

/// The number of up to three bytes; missing ones are zero.
pub open spec fn triple(bs: Seq<u8>, i: int) -> nat {
    let at = |k: int|
        if k < bs.len() {
            bs[k] as nat
        } else {
            0
        };
    at(i) * 0x1_0000 + at(i + 1) * 0x100 + at(i + 2)
}

/// The base64 text of the bytes from `i` on: four digits for three bytes, with
/// padding at the end.
pub open spec fn base64_from(bs: Seq<u8>, i: int) -> Seq<char>
    decreases bs.len() + 3 - i,
{
    if i < 0 || i >= bs.len() {
        Seq::empty()
    } else {
        let n = triple(bs, i);
        seq![
            base64_char(n / 0x4_0000),
            base64_char(n / 0x1000 % 64),
            if i + 1 < bs.len() {
                base64_char(n / 64 % 64)
            } else {
                '='
            },
            if i + 2 < bs.len() {
                base64_char(n % 64)
            } else {
                '='
            },
        ] + base64_from(bs, i + 3)
    }
}

/// The base64 text of bytes.
pub open spec fn base64_text(bs: Seq<u8>) -> Seq<char> {
    base64_from(bs, 0)
}

/// Writes bytes in base64, with padding.
pub fn base64(bs: &[u8]) -> (r: String)
    ensures
        r@ == base64_text(bs@),
{
    let mut out = String::new();
    let ghost all = bs@;
    let mut i: usize = 0;
    assert(bs.len() == bs@.len());
    assert(out@ + base64_from(all, 0) =~= base64_text(all));
    while i < bs.len()
        invariant
            i <= bs@.len(),
            bs@.len() <= usize::MAX,
            all == bs@,
            out@ + base64_from(all, i as int) == base64_text(all),
        decreases bs@.len() - i,
    {
        let ghost start = i as int;
        let a: u32 = bs[i] as u32;
        let mut b: u32 = 0;
        let mut c: u32 = 0;
        let left: usize = bs.len() - i;
        if left > 1 {
            b = bs[i + 1] as u32;
        }
        if left > 2 {
            c = bs[i + 2] as u32;
        }
        let n: u32 = a * 0x1_0000 + b * 0x100 + c;
        assert(n == triple(all, start));
        let ghost before = out@;
        out.push(base64_digit(n / 0x4_0000));
        out.push(base64_digit(n / 0x1000 % 64));
        if left > 1 {
            out.push(base64_digit(n / 64 % 64));
        } else {
            out.push('=');
        }
        if left > 2 {
            out.push(base64_digit(n % 64));
        } else {
            out.push('=');
        }
        if left > 3 {
            i += 3;
        } else {
            i = bs.len();
            assert(base64_from(all, start + 3) =~= Seq::empty());
        }
        proof {
            let four = seq![
                base64_char(n as nat / 0x4_0000),
                base64_char(n as nat / 0x1000 % 64),
                if start + 1 < all.len() {
                    base64_char(n as nat / 64 % 64)
                } else {
                    '='
                },
                if start + 2 < all.len() {
                    base64_char(n as nat % 64)
                } else {
                    '='
                },
            ];
            assert(out@ =~= before + four);
            assert(before + (four + base64_from(all, start + 3)) =~= out@ + base64_from(
                all,
                start + 3,
            ));
        }
    }
    assert(out@ + Seq::<char>::empty() =~= out@);
    out
}

/// The length of a base64 text is a multiple of four: four for every three
/// bytes begun.
pub proof fn base64_length(bs: Seq<u8>, i: int)
    requires
        0 <= i <= bs.len(),
    ensures
        base64_from(bs, i).len() == (bs.len() - i + 2) / 3 * 4,
    decreases bs.len() - i,
{
    if i < bs.len() {
        if i + 3 <= bs.len() {
            base64_length(bs, i + 3);
        } else {
            assert(base64_from(bs, i + 3) =~= Seq::empty());
        }
    }
}

/// The value of a base64 digit; zero for the padding.
pub open spec fn base64_value(c: char) -> nat {
    if 'A' <= c <= 'Z' {
        (c as u32 - 65) as nat
    } else if 'a' <= c <= 'z' {
        (c as u32 - 71) as nat
    } else if '0' <= c <= '9' {
        (c as u32 + 4) as nat
    } else if c == '+' {
        62
    } else if c == '/' {
        63
    } else {
        0
    }
}

/// The number that four digits stand for.
pub open spec fn base64_group(t: Seq<char>) -> nat {
    base64_value(t[0]) * 0x4_0000 + base64_value(t[1]) * 0x1000 + base64_value(t[2]) * 64
        + base64_value(t[3])
}

/// The bytes that a base64 text stands for: three for four digits, less one for
/// each padding sign.
pub open spec fn base64_bytes(t: Seq<char>) -> Seq<u8>
    decreases t.len(),
{
    if t.len() < 4 {
        Seq::empty()
    } else {
        let n = base64_group(t);
        let three = seq![(n / 0x1_0000) as u8, (n / 0x100 % 256) as u8, (n % 256) as u8];
        three.take(
            if t[2] == '=' {
                1
            } else if t[3] == '=' {
                2
            } else {
                3
            },
        ) + base64_bytes(t.skip(4))
    }
}

proof fn digits_have_their_value(n: nat)
    requires
        n < 64,
    ensures
        base64_value(base64_char(n)) == n,
        base64_char(n) != '=',
{
}

proof fn group_has_its_digits(n: nat)
    requires
        n < 0x100_0000,
    ensures
        n / 0x4_0000 < 64,
        n == (n / 0x4_0000) * 0x4_0000 + (n / 0x1000 % 64) * 0x1000 + (n / 64 % 64) * 64 + n % 64,
{
    lemma_div_denominator(n as int, 64, 64);
    lemma_div_denominator(n as int, 0x1000, 64);
    let x = n / 64;
    let y = n / 0x1000;
    let z = n / 0x4_0000;
    assert(y == x / 64);
    assert(z == y / 64);
    assert(n == x * 64 + n % 64);
    assert(x == y * 64 + x % 64);
    assert(y == z * 64 + y % 64);
}

proof fn group_has_its_bytes(a: nat, b: nat, c: nat)
    requires
        a < 256,
        b < 256,
        c < 256,
    ensures
        ({
            let n = a * 0x1_0000 + b * 0x100 + c;
            &&& n / 0x1_0000 == a
            &&& n / 0x100 % 256 == b
            &&& n % 256 == c
            &&& c == 0 ==> n % 64 == 0
            &&& b == 0 && c == 0 ==> n / 64 % 64 == 0
        }),
{
    let n = a * 0x1_0000 + b * 0x100 + c;
    assert(n / 0x100 == a * 256 + b);
    assert(n / 0x1_0000 == a);
}

proof fn group_reads_back(bs: Seq<u8>, i: int)
    requires
        0 <= i < bs.len(),
    ensures
        ({
            let t = base64_from(bs, i);
            &&& t.len() >= 4
            &&& base64_group(t) == triple(bs, i)
            &&& t[2] == '=' <==> i + 1 >= bs.len()
            &&& t[3] == '=' <==> i + 2 >= bs.len()
        }),
{
    let at = |k: int|
        if k < bs.len() {
            bs[k] as nat
        } else {
            0
        };
    let n = triple(bs, i);
    group_has_its_bytes(at(i), at(i + 1), at(i + 2));
    group_has_its_digits(n);
    digits_have_their_value(n / 0x4_0000);
    digits_have_their_value(n / 0x1000 % 64);
    digits_have_their_value(n / 64 % 64);
    digits_have_their_value(n % 64);
    assert(base64_value('=') == 0);
}

proof fn base64_reads_back_from(bs: Seq<u8>, i: int)
    requires
        0 <= i <= bs.len(),
    ensures
        base64_bytes(base64_from(bs, i)) == bs.skip(i),
    decreases bs.len() - i,
{
    let t = base64_from(bs, i);
    if i < bs.len() {
        let at = |k: int|
            if k < bs.len() {
                bs[k] as nat
            } else {
                0
            };
        group_reads_back(bs, i);
        group_has_its_bytes(at(i), at(i + 1), at(i + 2));
        let rest = base64_from(bs, i + 3);
        assert(t.skip(4) =~= rest);
        let three = seq![at(i) as u8, at(i + 1) as u8, at(i + 2) as u8];
        if i + 3 <= bs.len() {
            base64_reads_back_from(bs, i + 3);
            assert(three.take(3) + bs.skip(i + 3) =~= bs.skip(i));
        } else {
            assert(rest =~= Seq::empty());
            assert(base64_bytes(rest) =~= Seq::empty());
            assert(three.take(bs.len() - i) + Seq::<u8>::empty() =~= bs.skip(i));
        }
    } else {
        assert(bs.skip(i) =~= Seq::empty());
    }
}

/// A base64 text stands for the bytes it was written from.
pub proof fn base64_reads_back(bs: Seq<u8>)
    ensures
        base64_bytes(base64_text(bs)) == bs,
{
    base64_reads_back_from(bs, 0);
    assert(bs.skip(0) =~= bs);
}

/// The identity of an algorithm in a model. A key without an algorithm uses
/// HMAC-SHA256. The key-chain model has none for BLAKE2s.
pub open spec fn identity_of(algorithm: Option<Seq<char>>, keychain: bool) -> Option<Seq<char>> {
    let name = match algorithm {
        Some(a) => a,
        None => "hmac-sha256"@,
    };
    if name == "hmac-sha256"@ {
        Some(
            if keychain {
                "key-chain:hmac-sha-256"@
            } else {
                "babel:hmac-sha256"@
            },
        )
    } else if name == "blake2s"@ && !keychain {
        Some("babel:blake2s"@)
    } else {
        None
    }
}

/// Names an algorithm in a model.
pub fn algorithm_identity(algorithm: &Option<String>, keychain: bool) -> (r: Option<String>)
    ensures
        opt_view(r) == identity_of(opt_view(*algorithm), keychain),
{
    let name = match algorithm {
        Some(a) => own(a.as_str()),
        None => own("hmac-sha256"),
    };
    if same(name.as_str(), "hmac-sha256") {
        if keychain {
            Some(own("key-chain:hmac-sha-256"))
        } else {
            Some(own("babel:hmac-sha256"))
        }
    } else if same(name.as_str(), "blake2s") && !keychain {
        Some(own("babel:blake2s"))
    } else {
        None
    }
}

/// Why a key cannot be rendered in a model.
pub open spec fn key_fault(k: KeyModel, i: nat, keychain: bool) -> Option<Seq<char>> {
    if k.secret is None {
        Some("babel key "@ + decimal(i) + ": no secret configured"@)
    } else if identity_of(k.algorithm, keychain) is None {
        Some(
            if keychain {
                "babel key "@ + decimal(i)
                    + ": algorithm 'blake2s' has no RFC 8177 crypto-algorithm identity; render it with --model babel"@
            } else {
                "babel key "@ + decimal(i) + ": algorithm '"@ + (match k.algorithm {
                    Some(a) => a,
                    None => Seq::empty(),
                }) + "' has no ietf-babel identity"@
            },
        )
    } else {
        None
    }
}

/// The first key that cannot be rendered in a model.
pub open spec fn keys_fault(ks: Seq<KeyModel>, keychain: bool) -> Option<Seq<char>>
    decreases ks.len(),
{
    if ks.len() == 0 {
        None
    } else {
        match keys_fault(ks.drop_last(), keychain) {
            Some(e) => Some(e),
            None => key_fault(ks.last(), (ks.len() - 1) as nat, keychain),
        }
    }
}

fn find_key_fault(ks: &Vec<BabelKey>, keychain: bool) -> (r: Option<String>)
    ensures
        opt_view(r) == keys_fault(views(ks@), keychain),
{
    let ghost kv = views(ks@);
    let mut fault: Option<String> = None;
    let mut i: usize = 0;
    while i < ks.len()
        invariant
            i <= ks@.len(),
            kv == views(ks@),
            opt_view(fault) == keys_fault(kv.take(i as int), keychain),
        decreases ks@.len() - i,
    {
        proof {
            take_step(kv, i as int);
            assert(kv.take(i + 1).len() == i + 1);
        }
        if fault.is_none() {
            let mut m = cat("babel key ", write_number(i as u64).as_str());
            if ks[i].secret.is_none() {
                m.append(": no secret configured");
                fault = Some(m);
            } else if algorithm_identity(&ks[i].algorithm, keychain).is_none() {
                if keychain {
                    m.append(
                        ": algorithm 'blake2s' has no RFC 8177 crypto-algorithm identity; render it with --model babel",
                    );
                } else {
                    m.append(": algorithm '");
                    let ghost h = m@;
                    match &ks[i].algorithm {
                        Some(a) => {
                            m.append(a.as_str());
                        },
                        None => {
                            assert(h + Seq::<char>::empty() =~= h);
                        },
                    }
                    m.append("' has no ietf-babel identity");
                }
                fault = Some(m);
            }
        }
        i += 1;
    }
    assert(kv.take(i as int) =~= kv);
    fault
}

/// A text, or nothing.
pub open spec fn or_blank(o: Option<Seq<char>>) -> Seq<char> {
    match o {
        Some(s) => s,
        None => Seq::empty(),
    }
}

fn text_or_blank(o: &Option<String>) -> (r: String)
    ensures
        r@ == or_blank(opt_view(*o)),
{
    match o {
        Some(s) => own(s.as_str()),
        None => {
            let r = String::new();
            assert(r@ =~= Seq::<char>::empty());
            r
        },
    }
}

/// The elements of the keys in `ietf-babel`.
pub open spec fn babel_keys(ks: Seq<KeyModel>) -> Seq<char>
    decreases ks.len(),
{
    if ks.len() == 0 {
        Seq::empty()
    } else {
        let k = ks.last();
        babel_keys(ks.drop_last()) + "    <keys>\n      <name>key-"@ + decimal(
            (ks.len() - 1) as nat,
        )
            + "</name>\n      <use-send>true</use-send>\n      <use-verify>true</use-verify>\n      <value>"@
            + base64_text(encode_utf8(or_blank(k.secret)))
            + "</value>\n      <algorithm>"@ + xml_text(or_blank(identity_of(k.algorithm, false)))
            + "</algorithm>\n    </keys>\n"@
    }
}

/// The `babel` container.
pub open spec fn babel_container(c: BabelConfigModel) -> Seq<char> {
    "<babel xmlns=\"urn:ietf:params:xml:ns:yang:ietf-babel\">\n  <enable>true</enable>\n  <constants>\n    <udp-port>"@
        + decimal(c.port as nat) + "</udp-port>\n    <mcast-group>"@ + xml_text(group_of(c))
        + "</mcast-group>\n  </constants>\n"@ + (if c.keys.len() == 0 {
        Seq::empty()
    } else {
        "  <mac-key-set>\n    <name>lr</name>\n    <default-apply>true</default-apply>\n"@
            + babel_keys(c.keys) + "  </mac-key-set>\n"@
    }) + "</babel>\n"@
}

/// Lines, each indented.
pub open spec fn indented(ls: Seq<Seq<char>>) -> Seq<char>
    decreases ls.len(),
{
    if ls.len() == 0 {
        Seq::empty()
    } else {
        indented(ls.drop_last()) + "      "@ + ls.last() + "\n"@
    }
}

/// The `ietf-babel` document: the container in its routing envelope.
pub open spec fn babel_document(c: BabelConfigModel) -> Seq<char> {
    "<routing xmlns=\"urn:ietf:params:xml:ns:yang:ietf-routing\" xmlns:babel=\"urn:ietf:params:xml:ns:yang:ietf-babel\">\n  <control-plane-protocols>\n    <control-plane-protocol>\n      <type>babel:babel</type>\n      <name>lr-babel</name>\n"@
        + indented(lines_of(babel_container(c)))
        + "    </control-plane-protocol>\n  </control-plane-protocols>\n</routing>\n"@
}

fn write_babel_keys(ks: &Vec<BabelKey>) -> (r: String)
    ensures
        r@ == babel_keys(views(ks@)),
{
    let ghost kv = views(ks@);
    let mut out = String::new();
    assert(out@ =~= Seq::<char>::empty());
    let mut i: usize = 0;
    while i < ks.len()
        invariant
            i <= ks@.len(),
            kv == views(ks@),
            out@ == babel_keys(kv.take(i as int)),
        decreases ks@.len() - i,
    {
        proof {
            take_step(kv, i as int);
            assert(kv.take(i + 1).len() == i + 1);
        }
        let secret = text_or_blank(&ks[i].secret);
        let algo = text_or_blank(&algorithm_identity(&ks[i].algorithm, false));
        out.append("    <keys>\n      <name>key-");
        out.append(write_number(i as u64).as_str());
        out.append(
            "</name>\n      <use-send>true</use-send>\n      <use-verify>true</use-verify>\n      <value>",
        );
        out.append(base64(secret.as_str().as_bytes()).as_str());
        out.append("</value>\n      <algorithm>");
        out.append(xml_escape(algo.as_str()).as_str());
        out.append("</algorithm>\n    </keys>\n");
        i += 1;
    }
    assert(kv.take(i as int) =~= kv);
    out
}

fn write_container(c: &BabelConfig) -> (r: String)
    ensures
        r@ == babel_container(c@),
{
    assert(views(c.keys@).len() == c.keys@.len());
    let mut s = cat3(
        "<babel xmlns=\"urn:ietf:params:xml:ns:yang:ietf-babel\">\n  <enable>true</enable>\n  <constants>\n    <udp-port>",
        write_number(c.port as u64).as_str(),
        "</udp-port>\n    <mcast-group>",
    );
    s.append(xml_escape(effective_group(c).as_str()).as_str());
    s.append("</mcast-group>\n  </constants>\n");
    let ghost h = s@;
    if c.keys.len() > 0 {
        let set = cat3(
            "  <mac-key-set>\n    <name>lr</name>\n    <default-apply>true</default-apply>\n",
            write_babel_keys(&c.keys).as_str(),
            "  </mac-key-set>\n",
        );
        s.append(set.as_str());
    } else {
        assert(h + Seq::<char>::empty() =~= h);
    }
    s.append("</babel>\n");
    s
}

fn indent(text: &str) -> (r: String)
    ensures
        r@ == indented(lines_of(text@)),
{
    let ls = lines(text);
    let ghost lv = views(ls@);
    let mut out = String::new();
    assert(out@ =~= Seq::<char>::empty());
    let mut i: usize = 0;
    while i < ls.len()
        invariant
            i <= ls@.len(),
            lv == views(ls@),
            out@ == indented(lv.take(i as int)),
        decreases ls@.len() - i,
    {
        proof {
            take_step(lv, i as int);
        }
        out.append("      ");
        out.append(ls[i].as_str());
        out.append("\n");
        i += 1;
    }
    assert(lv.take(i as int) =~= lv);
    out
}

/// Writes the `ietf-babel` document. A key that the model cannot express is an
/// error.
pub fn render_babel(c: &BabelConfig) -> (r: Result<String, String>)
    ensures
        match keys_fault(c@.keys, false) {
            Some(e) => r is Err && (r->Err_0)@ == e,
            None => r is Ok && (r->Ok_0)@ == babel_document(c@),
        },
{
    match find_key_fault(&c.keys, false) {
        Some(m) => Err(m),
        None => Ok(
            cat3(
                "<routing xmlns=\"urn:ietf:params:xml:ns:yang:ietf-routing\" xmlns:babel=\"urn:ietf:params:xml:ns:yang:ietf-babel\">\n  <control-plane-protocols>\n    <control-plane-protocol>\n      <type>babel:babel</type>\n      <name>lr-babel</name>\n",
                indent(write_container(c).as_str()).as_str(),
                "    </control-plane-protocol>\n  </control-plane-protocols>\n</routing>\n",
            ),
        ),
    }
}

/// The elements of the keys in `ietf-key-chain`.
pub open spec fn chain_keys(ks: Seq<KeyModel>) -> Seq<char>
    decreases ks.len(),
{
    if ks.len() == 0 {
        Seq::empty()
    } else {
        let k = ks.last();
        chain_keys(ks.drop_last()) + "    <key>\n      <key-id>"@ + decimal((ks.len() - 1) as nat)
            + "</key-id>\n      <crypto-algorithm>"@ + xml_text(
            or_blank(identity_of(k.algorithm, true)),
        ) + "</crypto-algorithm>\n      <key-string>\n        <keystring>"@ + xml_text(
            or_blank(k.secret),
        )
            + "</keystring>\n      </key-string>\n      <lifetime>\n        <send-accept-lifetime>\n          <always/>\n        </send-accept-lifetime>\n      </lifetime>\n    </key>\n"@
    }
}

/// The `ietf-key-chain` document; nothing if there are no keys.
pub open spec fn keychain_document(c: BabelConfigModel) -> Seq<char> {
    if c.keys.len() == 0 {
        Seq::empty()
    } else {
        "<key-chains xmlns=\"urn:ietf:params:xml:ns:yang:ietf-key-chain\" xmlns:key-chain=\"urn:ietf:params:xml:ns:yang:ietf-key-chain\">\n  <key-chain>\n    <name>lr-babel</name>\n"@
            + chain_keys(c.keys) + "  </key-chain>\n</key-chains>\n"@
    }
}

fn write_chain_keys(ks: &Vec<BabelKey>) -> (r: String)
    ensures
        r@ == chain_keys(views(ks@)),
{
    let ghost kv = views(ks@);
    let mut out = String::new();
    assert(out@ =~= Seq::<char>::empty());
    let mut i: usize = 0;
    while i < ks.len()
        invariant
            i <= ks@.len(),
            kv == views(ks@),
            out@ == chain_keys(kv.take(i as int)),
        decreases ks@.len() - i,
    {
        proof {
            take_step(kv, i as int);
            assert(kv.take(i + 1).len() == i + 1);
        }
        let secret = text_or_blank(&ks[i].secret);
        let algo = text_or_blank(&algorithm_identity(&ks[i].algorithm, true));
        out.append("    <key>\n      <key-id>");
        out.append(write_number(i as u64).as_str());
        out.append("</key-id>\n      <crypto-algorithm>");
        out.append(xml_escape(algo.as_str()).as_str());
        out.append("</crypto-algorithm>\n      <key-string>\n        <keystring>");
        out.append(xml_escape(secret.as_str()).as_str());
        out.append(
            "</keystring>\n      </key-string>\n      <lifetime>\n        <send-accept-lifetime>\n          <always/>\n        </send-accept-lifetime>\n      </lifetime>\n    </key>\n",
        );
        i += 1;
    }
    assert(kv.take(i as int) =~= kv);
    out
}

/// Writes the `ietf-key-chain` document. A BLAKE2s key is an error: the model
/// has no identity for it.
pub fn render_keychain(c: &BabelConfig) -> (r: Result<String, String>)
    ensures
        match keys_fault(c@.keys, true) {
            Some(e) => r is Err && (r->Err_0)@ == e,
            None => r is Ok && (r->Ok_0)@ == keychain_document(c@),
        },
{
    assert(views(c.keys@).len() == c.keys@.len());
    match find_key_fault(&c.keys, true) {
        Some(m) => Err(m),
        None => {
            if c.keys.len() == 0 {
                let s = String::new();
                assert(s@ =~= Seq::<char>::empty());
                return Ok(s);
            }
            Ok(
                cat3(
                    "<key-chains xmlns=\"urn:ietf:params:xml:ns:yang:ietf-key-chain\" xmlns:key-chain=\"urn:ietf:params:xml:ns:yang:ietf-key-chain\">\n  <key-chain>\n    <name>lr-babel</name>\n",
                    write_chain_keys(&c.keys).as_str(),
                    "  </key-chain>\n</key-chains>\n",
                ),
            )
        },
    }
}

/// The documents of a model, or why it cannot be rendered.
pub open spec fn rendering(c: BabelConfigModel, m: YangModel) -> Result<Seq<char>, Seq<char>> {
    let babel = m != YangModel::Keychain;
    let chain = m != YangModel::Babel;
    if babel && keys_fault(c.keys, false) is Some {
        Err(keys_fault(c.keys, false)->0)
    } else if chain && keys_fault(c.keys, true) is Some {
        Err(keys_fault(c.keys, true)->0)
    } else if m == YangModel::Babel {
        Ok(babel_document(c))
    } else if m == YangModel::Keychain {
        Ok(keychain_document(c))
    } else {
        Ok(
            "<config xmlns:babel=\"urn:ietf:params:xml:ns:yang:ietf-babel\" xmlns:key-chain=\"urn:ietf:params:xml:ns:yang:ietf-key-chain\">\n"@
                + (if c.keys.len() == 0 {
                babel_document(c)
            } else {
                babel_document(c) + "\n"@ + keychain_document(c)
            }) + "</config>\n"@,
        )
    }
}

/// Writes the documents of a model. Both together stand in a NETCONF `config`
/// element; a document with nothing in it is left out.
pub fn render(c: &BabelConfig, m: YangModel) -> (r: Result<String, String>)
    ensures
        rendering(c@, m) == (match r {
            Ok(s) => Ok(s@),
            Err(e) => Err(e@),
        }),
{
    assert(views(c.keys@).len() == c.keys@.len());
    match m {
        YangModel::Babel => render_babel(c),
        YangModel::Keychain => render_keychain(c),
        YangModel::All => {
            let b = match render_babel(c) {
                Ok(s) => s,
                Err(e) => {
                    return Err(e);
                },
            };
            let k = match render_keychain(c) {
                Ok(s) => s,
                Err(e) => {
                    return Err(e);
                },
            };
            let inner = if c.keys.len() == 0 {
                b
            } else {
                cat3(b.as_str(), "\n", k.as_str())
            };
            Ok(
                cat3(
                    "<config xmlns:babel=\"urn:ietf:params:xml:ns:yang:ietf-babel\" xmlns:key-chain=\"urn:ietf:params:xml:ns:yang:ietf-key-chain\">\n",
                    inner.as_str(),
                    "</config>\n",
                ),
            )
        },
    }
}

/// A key without a secret is never rendered, in any model.
pub proof fn keys_need_secrets(ks: Seq<KeyModel>, i: int, keychain: bool)
    requires
        0 <= i < ks.len(),
        ks[i].secret is None,
    ensures
        keys_fault(ks, keychain) is Some,
    decreases ks.len(),
{
    if i < ks.len() - 1 {
        assert(ks.drop_last()[i] == ks[i]);
        keys_need_secrets(ks.drop_last(), i, keychain);
    }
}

/// A BLAKE2s key is never rendered in the key-chain model.
pub proof fn blake2s_fails_closed(ks: Seq<KeyModel>, i: int)
    requires
        0 <= i < ks.len(),
        ks[i].algorithm == Some("blake2s"@),
    ensures
        keys_fault(ks, true) is Some,
    decreases ks.len(),
{
    reveal_strlit("blake2s");
    reveal_strlit("hmac-sha256");
    assert("blake2s"@.len() != "hmac-sha256"@.len());
    if i < ks.len() - 1 {
        assert(ks.drop_last()[i] == ks[i]);
        blake2s_fails_closed(ks.drop_last(), i);
    }
}

/// What a command line of the renderer asks for.
pub enum YangRequest {
    Render { path: String, model: YangModel },
    Help,
    /// Print a message and, if asked to, the usage; end with code 2.
    Refused { message: String, usage: bool },
}

/// The same over text.
pub enum RequestModel {
    Render { path: Seq<char>, model: YangModel },
    Help,
    Refused { message: Seq<char>, usage: bool },
}

impl View for YangRequest {
    type V = RequestModel;

    open spec fn view(&self) -> RequestModel {
        match self {
            YangRequest::Render { path, model } => RequestModel::Render {
                path: path@,
                model: *model,
            },
            YangRequest::Help => RequestModel::Help,
            YangRequest::Refused { message, usage } => RequestModel::Refused {
                message: message@,
                usage: *usage,
            },
        }
    }
}

/// What the arguments from `i` on ask for.
pub open spec fn request_from(
    args: Seq<Seq<char>>,
    i: int,
    path: Option<Seq<char>>,
    model: YangModel,
) -> RequestModel
    decreases args.len() + 1 - i,
{
    if i < 0 || i >= args.len() {
        match path {
            Some(p) => RequestModel::Render { path: p, model },
            None => RequestModel::Refused {
                message: "error: missing <config.toml>"@,
                usage: true,
            },
        }
    } else if args[i] == "--model"@ {
        if i + 1 < args.len() && model_of(args[i + 1]) is Some {
            request_from(args, i + 2, path, model_of(args[i + 1])->0)
        } else {
            RequestModel::Refused {
                message: "error: --model expects babel|keychain|all"@,
                usage: false,
            }
        }
    } else if args[i] == "--help"@ || args[i] == "-h"@ {
        RequestModel::Help
    } else if path is None {
        request_from(args, i + 1, Some(args[i]), model)
    } else {
        RequestModel::Refused {
            message: "error: unexpected argument '"@ + args[i] + "'"@,
            usage: true,
        }
    }
}

/// What the arguments ask for; a leading `render` may be left out.
pub open spec fn request_of(args: Seq<Seq<char>>) -> RequestModel {
    request_from(
        args,
        if args.len() > 0 && args[0] == "render"@ {
            1
        } else {
            0
        },
        None,
        YangModel::All,
    )
}

/// Reads what the arguments ask for.
pub fn parse_request(args: &Vec<String>) -> (r: YangRequest)
    ensures
        r@ == request_of(views(args@)),
{
    let ghost av = views(args@);
    assert(av.len() == args@.len());
    let mut i: usize = 0;
    if args.len() > 0 {
        assert(av[0] == args@[0]@);
        if same(args[0].as_str(), "render") {
            i = 1;
        }
    }
    let mut path: Option<String> = None;
    let mut model = YangModel::All;
    while i < args.len()
        invariant
            i <= args@.len(),
            av == views(args@),
            av.len() == args@.len(),
            request_of(av) == request_from(av, i as int, opt_view(path), model),
        decreases args@.len() - i,
    {
        assert(av[i as int] == args@[i as int]@);
        if same(args[i].as_str(), "--model") {
            i += 1;
            let mut chosen: Option<YangModel> = None;
            if i < args.len() {
                assert(av[i as int] == args@[i as int]@);
                chosen = parse_model(args[i].as_str());
            }
            match chosen {
                Some(m) => {
                    model = m;
                },
                None => {
                    return YangRequest::Refused {
                        message: own("error: --model expects babel|keychain|all"),
                        usage: false,
                    };
                },
            }
        } else if same(args[i].as_str(), "--help") || same(args[i].as_str(), "-h") {
            return YangRequest::Help;
        } else if path.is_none() {
            path = Some(own(args[i].as_str()));
        } else {
            return YangRequest::Refused {
                message: cat3("error: unexpected argument '", args[i].as_str(), "'"),
                usage: true,
            };
        }
        i += 1;
    }
    match path {
        Some(path) => YangRequest::Render { path, model },
        None => YangRequest::Refused {
            message: own("error: missing <config.toml>"),
            usage: true,
        },
    }
}

} // verus!
