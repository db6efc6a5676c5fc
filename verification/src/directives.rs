//! `lr:` comment directives: settings that ride in the comments of a BIRD or
//! FRR configuration, invisible to both.

use crate::conf::{DirectiveModel, LrDirective, PeerModel, PeerOut};
use crate::text::{
    after_prefix, chars_of, contains_char, decimal, join_from, joined_by, lists_text, lower,
    lower_of, next_char, number_of, opt_view, own, parse_number, push_view, replace_char, replaced,
    same, seek_char, strip_prefix, text_of, trim, trim_char, trim_char_of, trim_end_char,
    trim_end_char_of, trim_of, trim_start, trim_start_of, views, words, words_of, write_number,
};
use vstd::prelude::*;
use vstd::string::*;

verus! {

/// A text as a TOML basic string: backslashes and quotes are escaped.
pub open spec fn toml_text(s: Seq<char>) -> Seq<char> {
    "\""@ + replaced(replaced(s, '\\', "\\\\"@), '"', "\\\""@) + "\""@
}

/// Writes a text as a TOML basic string.
pub fn toml_str(s: &str) -> (r: String)
    ensures
        r@ == toml_text(s@),
{
    let a = replace_char(s, '\\', "\\\\");
    let b = replace_char(a.as_str(), '"', "\\\"");
    let mut r = own("\"");
    r.append(b.as_str());
    r.append("\"");
    r
}

/// What stands between the quotes of a TOML string.
pub open spec fn toml_body(s: Seq<char>) -> Seq<char> {
    replaced(replaced(s, '\\', "\\\\"@), '"', "\\\""@)
}

/// Reads what stands between the quotes of a TOML string, where a backslash
/// escapes itself and a quote; none if a quote or a backslash stands alone.
pub open spec fn toml_read(s: Seq<char>) -> Option<Seq<char>>
    decreases s.len(),
{
    if s.len() == 0 {
        Some(Seq::empty())
    } else if s[0] == '"' {
        None
    } else if s[0] != '\\' {
        read_on(s[0], toml_read(s.skip(1)))
    } else if s.len() > 1 && (s[1] == '\\' || s[1] == '"') {
        read_on(s[1], toml_read(s.skip(2)))
    } else {
        None
    }
}

/// A character before what is read behind it.
pub open spec fn read_on(c: char, rest: Option<Seq<char>>) -> Option<Seq<char>> {
    match rest {
        Some(t) => Some(seq![c] + t),
        None => None,
    }
}

proof fn replaced_parts(a: Seq<char>, b: Seq<char>, from: char, to: Seq<char>)
    ensures
        replaced(a + b, from, to) == replaced(a, from, to) + replaced(b, from, to),
    decreases b.len(),
{
    if b.len() == 0 {
        assert(a + b =~= a);
        assert(replaced(a, from, to) + replaced(b, from, to) =~= replaced(a, from, to));
    } else {
        assert((a + b).drop_last() =~= a + b.drop_last());
        replaced_parts(a, b.drop_last(), from, to);
        assert(replaced(a + b, from, to) =~= replaced(a, from, to) + replaced(b, from, to));
    }
}

proof fn body_parts(c: char, t: Seq<char>)
    ensures
        toml_body(seq![c] + t) == (if c == '\\' {
            seq!['\\', '\\']
        } else if c == '"' {
            seq!['\\', '"']
        } else {
            seq![c]
        }) + toml_body(t),
{
    reveal_strlit("\\\\");
    reveal_strlit("\\\"");
    let one = seq![c];
    let two = seq!['\\', '\\'];
    assert("\\\\"@ =~= two);
    assert("\\\""@ =~= seq!['\\', '"']);
    assert(one.drop_last() =~= Seq::empty());
    assert(replaced(one.drop_last(), '\\', two) =~= Seq::empty());
    let first = replaced(one, '\\', two);
    assert(first =~= (if c == '\\' {
        two
    } else {
        one
    }));
    replaced_parts(one, t, '\\', two);
    replaced_parts(first, replaced(t, '\\', two), '"', seq!['\\', '"']);
    if c == '\\' {
        assert(two.drop_last() =~= seq!['\\']);
        assert(two.drop_last().drop_last() =~= Seq::empty());
        assert(replaced(two.drop_last().drop_last(), '"', seq!['\\', '"']) =~= Seq::empty());
        assert(replaced(two.drop_last(), '"', seq!['\\', '"']) =~= seq!['\\']);
        assert(replaced(two, '"', seq!['\\', '"']) =~= two);
    } else {
        assert(replaced(one.drop_last(), '"', seq!['\\', '"']) =~= Seq::empty());
        assert(replaced(one, '"', seq!['\\', '"']) =~= (if c == '"' {
            seq!['\\', '"']
        } else {
            one
        }));
    }
}

/// A text reads back from the TOML string that is written for it, whatever
/// quotes and backslashes it holds: none can end the string early.
pub proof fn toml_strings_read_back(s: Seq<char>)
    ensures
        toml_text(s) == "\""@ + toml_body(s) + "\""@,
        toml_read(toml_body(s)) == Some(s),
    decreases s.len(),
{
    if s.len() == 0 {
        assert(toml_body(s) =~= Seq::empty());
        assert(s =~= Seq::empty());
    } else {
        let c = s[0];
        let t = s.skip(1);
        assert(s =~= seq![c] + t);
        toml_strings_read_back(t);
        body_parts(c, t);
        let b = toml_body(s);
        if c == '\\' || c == '"' {
            assert(b[0] == '\\' && b[1] == c);
            assert(b.skip(2) =~= toml_body(t));
        } else {
            assert(b[0] == c);
            assert(b.skip(1) =~= toml_body(t));
        }
    }
}

/// The text without surrounding double quotes.
pub fn unquote(s: &str) -> (r: String)
    ensures
        r@ == trim_char_of(s@, '"'),
{
    trim_char(s, '"')
}

/// The first character of a comment: `#`, and in FRR also `!`.
pub open spec fn comment_start(s: Seq<char>, bang: bool) -> int {
    let a = next_char(s, 0, '#');
    let b = next_char(s, 0, '!');
    if bang && b < a {
        b
    } else {
        a
    }
}

/// What follows the `lr:` marker of a line's comment, if it is not blank.
pub open spec fn marker_body(raw: Seq<char>, bang: bool) -> Option<Seq<char>> {
    let i = comment_start(raw, bang);
    if i >= raw.len() {
        None
    } else {
        match after_prefix(trim_start_of(raw.subrange(i + 1, raw.len() as int)), "lr:"@) {
            Some(rest) => if trim_of(rest).len() > 0 {
                Some(trim_of(rest))
            } else {
                None
            },
            None => None,
        }
    }
}

/// The directive text of a raw line, if its comment carries one. A directive
/// may stand on its own comment line or trail real code.
pub fn lr_marker_body(raw: &str, bang: bool) -> (r: Option<String>)
    ensures
        opt_view(r) == marker_body(raw@, bang),
{
    let v = chars_of(raw);
    let a: usize = seek_char(&v, 0, '#');
    let b: usize = seek_char(&v, 0, '!');
    let i: usize = if bang && b < a {
        b
    } else {
        a
    };
    if i >= v.len() {
        return None;
    }
    let comment = trim_start(text_of(&v, i + 1, v.len()).as_str());
    match strip_prefix(comment.as_str(), "lr:") {
        Some(rest) => {
            let body = trim(rest.as_str());
            if body.as_str().is_empty() {
                None
            } else {
                Some(body)
            }
        },
        None => None,
    }
}

/// The first word of a list, or nothing.
pub open spec fn first_word(ws: Seq<Seq<char>>) -> Seq<char> {
    if ws.len() > 0 {
        ws[0]
    } else {
        Seq::empty()
    }
}

/// The words after the first, with single spaces between.
pub open spec fn rest_words(ws: Seq<Seq<char>>) -> Seq<char> {
    if ws.len() > 0 {
        joined_by(ws.subrange(1, ws.len() as int), " "@)
    } else {
        Seq::empty()
    }
}

/// The key and the value of a directive, before they are normalised. Both
/// `key value` and `key = value` are read.
pub open spec fn raw_directive(body: Seq<char>) -> (Seq<char>, Seq<char>) {
    let b = trim_of(body);
    let i = next_char(b, 0, '=');
    if 0 < i < b.len() {
        (
            first_word(words_of(trim_of(b.subrange(0, i)))),
            trim_of(b.subrange(i + 1, b.len() as int)),
        )
    } else {
        (first_word(words_of(b)), rest_words(words_of(b)))
    }
}

/// The directive of a directive text.
pub open spec fn directive_of(body: Seq<char>) -> DirectiveModel {
    let (key, value) = raw_directive(body);
    DirectiveModel {
        key: replaced(lower_of(trim_end_char_of(key, ';')), '-', "_"@),
        value: if value.len() == 0 {
            None
        } else {
            Some(trim_char_of(trim_of(trim_end_char_of(value, ';')), '"'))
        },
    }
}

/// Reads a directive text.
pub fn parse_lr_body(body: &str) -> (d: LrDirective)
    ensures
        d@ == directive_of(body@),
{
    let b = trim(body);
    let v = chars_of(b.as_str());
    let i: usize = seek_char(&v, 0, '=');
    let assigned = 0 < i && i < v.len();
    let key_part = if assigned {
        trim(text_of(&v, 0, i).as_str())
    } else {
        own(b.as_str())
    };
    let ws = words(key_part.as_str());
    let key_raw = if ws.len() > 0 {
        own(ws[0].as_str())
    } else {
        String::new()
    };
    let value_raw = if assigned {
        trim(text_of(&v, i + 1, v.len()).as_str())
    } else if ws.len() > 0 {
        join_from(&ws, 1, " ")
    } else {
        String::new()
    };
    proof {
        if ws@.len() > 0 {
            assert(views(ws@)[0] == ws@[0]@);
        }
        assert(key_raw@ =~= raw_directive(body@).0);
        assert(value_raw@ =~= raw_directive(body@).1);
    }
    let key = replace_char(
        lower(trim_end_char(key_raw.as_str(), ';').as_str()).as_str(),
        '-',
        "_",
    );
    let value = if value_raw.as_str().is_empty() {
        None
    } else {
        Some(unquote(trim(trim_end_char(value_raw.as_str(), ';').as_str()).as_str()))
    };
    LrDirective { key, value }
}

/// Reads the directive of a BIRD line.
pub fn extract_lr_directive(raw: &str) -> (r: Option<LrDirective>)
    ensures
        opt_view(r) == (match marker_body(raw@, false) {
            Some(b) => Some(directive_of(b)),
            None => None,
        }),
{
    match lr_marker_body(raw, false) {
        Some(b) => Some(parse_lr_body(b.as_str())),
        None => None,
    }
}

/// Where a directive was found.
#[derive(Clone, Copy, Debug, PartialEq, Eq, Structural)]
pub enum DirScope {
    Global,
    Peer,
}

/// What a directive's value looks like.
#[derive(Clone, Copy, Debug, PartialEq, Eq, Structural)]
pub enum Shape {
    /// True unless it says otherwise.
    Bool,
    /// Any text.
    Text,
    /// An integer of this range.
    Number { min: u64, max: u64 },
    /// `warn`, `teardown` or `restart`.
    Action,
    /// Bare, or an integer of 1..=255.
    Gtsm,
    /// `rfc8212` or `accept-all`.
    Policy,
    /// Bare, `any`, or an integer.
    LocalAs,
}

/// The key that a directive sets, and the shape of its value.
pub open spec fn shape_of(scope: DirScope, key: Seq<char>) -> Option<(Seq<char>, Shape)> {
    let global = scope == DirScope::Global;
    if global && key == "install_kernel"@ {
        Some(("install_kernel"@, Shape::Bool))
    } else if global && key == "api_socket"@ {
        Some(("api_socket"@, Shape::Text))
    } else if global && key == "user"@ {
        Some(("user"@, Shape::Text))
    } else if global && key == "group"@ {
        Some(("group"@, Shape::Text))
    } else if global && key == "listen"@ {
        Some(("listen_addr"@, Shape::Text))
    } else if global && key == "bmp_target"@ {
        Some(("bmp_target"@, Shape::Text))
    } else if global && key == "graceful_restart"@ {
        Some(("graceful_restart_time"@, Shape::Number { min: 0, max: 4095 }))
    } else if global && key == "llgr"@ {
        Some(("llgr_stale_time"@, Shape::Number { min: 0, max: 65535 }))
    } else if global && key == "llgr_max_stale"@ {
        Some(("llgr_max_stale_time"@, Shape::Number { min: 0, max: 65535 }))
    } else if global && key == "ebgp_policy"@ {
        Some(("ebgp_policy"@, Shape::Policy))
    } else if !global && key == "max_prefix_threshold"@ {
        Some(("max_prefix_threshold"@, Shape::Number { min: 0, max: 100 }))
    } else if !global && key == "extended_next_hop"@ {
        Some(("extended_next_hop"@, Shape::Bool))
    } else if !global && key == "allow_local_as"@ {
        Some(("allow_local_as"@, Shape::LocalAs))
    } else if !global && key == "local_address"@ {
        Some(("local_address"@, Shape::Text))
    } else if key == "add_path"@ {
        Some(("add_path"@, Shape::Bool))
    } else if key == "add_path_max"@ {
        Some(("add_path_max_paths"@, Shape::Number { min: 1, max: 255 }))
    } else if key == "max_prefixes"@ {
        Some(("max_prefixes"@, Shape::Number { min: 1, max: 0xffff_ffff }))
    } else if key == "max_prefix_action"@ {
        Some(("max_prefix_action"@, Shape::Action))
    } else if key == "gtsm"@ {
        Some(("gtsm"@, Shape::Gtsm))
    } else if key == "soft_reconfig_inbound"@ {
        Some(("soft_reconfig_inbound"@, Shape::Bool))
    } else {
        None
    }
}

fn shape(scope: DirScope, key: &str) -> (r: Option<(String, Shape)>)
    ensures
        (match r {
            Some((k, s)) => Some((k@, s)),
            None => None,
        }) == shape_of(scope, key@),
{
    let global = scope == DirScope::Global;
    if global && same(key, "install_kernel") {
        Some((own("install_kernel"), Shape::Bool))
    } else if global && same(key, "api_socket") {
        Some((own("api_socket"), Shape::Text))
    } else if global && same(key, "user") {
        Some((own("user"), Shape::Text))
    } else if global && same(key, "group") {
        Some((own("group"), Shape::Text))
    } else if global && same(key, "listen") {
        Some((own("listen_addr"), Shape::Text))
    } else if global && same(key, "bmp_target") {
        Some((own("bmp_target"), Shape::Text))
    } else if global && same(key, "graceful_restart") {
        Some((own("graceful_restart_time"), Shape::Number { min: 0, max: 4095 }))
    } else if global && same(key, "llgr") {
        Some((own("llgr_stale_time"), Shape::Number { min: 0, max: 65535 }))
    } else if global && same(key, "llgr_max_stale") {
        Some((own("llgr_max_stale_time"), Shape::Number { min: 0, max: 65535 }))
    } else if global && same(key, "ebgp_policy") {
        Some((own("ebgp_policy"), Shape::Policy))
    } else if !global && same(key, "max_prefix_threshold") {
        Some((own("max_prefix_threshold"), Shape::Number { min: 0, max: 100 }))
    } else if !global && same(key, "extended_next_hop") {
        Some((own("extended_next_hop"), Shape::Bool))
    } else if !global && same(key, "allow_local_as") {
        Some((own("allow_local_as"), Shape::LocalAs))
    } else if !global && same(key, "local_address") {
        Some((own("local_address"), Shape::Text))
    } else if same(key, "add_path") {
        Some((own("add_path"), Shape::Bool))
    } else if same(key, "add_path_max") {
        Some((own("add_path_max_paths"), Shape::Number { min: 1, max: 255 }))
    } else if same(key, "max_prefixes") {
        Some((own("max_prefixes"), Shape::Number { min: 1, max: 0xffff_ffff }))
    } else if same(key, "max_prefix_action") {
        Some((own("max_prefix_action"), Shape::Action))
    } else if same(key, "gtsm") {
        Some((own("gtsm"), Shape::Gtsm))
    } else if same(key, "soft_reconfig_inbound") {
        Some((own("soft_reconfig_inbound"), Shape::Bool))
    } else {
        None
    }
}

/// A resolved directive: a TOML key with its literal, or a note on why there
/// is none.
pub enum Resolved {
    Entry { key: Seq<char>, literal: Seq<char> },
    Note(Seq<char>),
}

/// A literal, or a note.
pub enum Literal {
    Is(Seq<char>),
    Bad(Seq<char>),
}

/// An integer of the range `min..=max`, possibly signed.
pub open spec fn integer_in(s: Seq<char>, min: nat, max: nat) -> Option<nat> {
    match number_of(s, max) {
        Some(n) => if n >= min {
            Some(n)
        } else {
            None
        },
        None => if s.len() > 1 && s[0] == '-' && s[1] != '+' && min == 0 {
            number_of(s.subrange(1, s.len() as int), 0)
        } else {
            None
        },
    }
}

fn read_integer(s: &str, min: u64, max: u64) -> (r: Option<u64>)
    ensures
        match r {
            Some(n) => integer_in(s@, min as nat, max as nat) == Some(n as nat),
            None => integer_in(s@, min as nat, max as nat) is None,
        },
{
    match parse_number(s, max) {
        Some(n) => if n >= min {
            Some(n)
        } else {
            None
        },
        None => {
            let v = chars_of(s);
            if v.len() > 1 && v[0] == '-' && v[1] != '+' && min == 0 {
                parse_number(text_of(&v, 1, v.len()).as_str(), 0)
            } else {
                None
            }
        },
    }
}

/// The note on a value that is not an integer of the range.
pub open spec fn number_note(value: Seq<char>, key: Seq<char>, min: nat, max: nat) -> Seq<char> {
    "lr: bad value '"@ + value + "' for "@ + key + " (expected integer "@ + decimal(min) + "..="@
        + decimal(max) + ")"@
}

/// An integer literal.
pub open spec fn number_literal(value: Option<Seq<char>>, key: Seq<char>, min: nat, max: nat) -> Literal {
    let text = match value {
        Some(v) => v,
        None => Seq::empty(),
    };
    match value {
        Some(v) => match integer_in(v, min, max) {
            Some(n) => Literal::Is(decimal(n)),
            None => Literal::Bad(number_note(text, key, min, max)),
        },
        None => Literal::Bad(number_note(text, key, min, max)),
    }
}

/// The note on a directive without a value.
pub open spec fn value_note(key: Seq<char>) -> Seq<char> {
    "lr: "@ + key + " needs a value"@
}

/// The literal of a directive's value.
pub open spec fn literal_of(d: DirectiveModel, shape: Shape) -> Literal {
    match shape {
        Shape::Bool => match d.value {
            None => Literal::Is("true"@),
            Some(v) => if v == "true"@ {
                Literal::Is("true"@)
            } else if v == "false"@ {
                Literal::Is("false"@)
            } else {
                Literal::Bad("lr: bad bool value '"@ + v + "' for "@ + d.key)
            },
        },
        Shape::Text => match d.value {
            Some(v) => Literal::Is(toml_text(v)),
            None => Literal::Bad(value_note(d.key)),
        },
        Shape::Number { min, max } => number_literal(d.value, d.key, min as nat, max as nat),
        Shape::Action => match d.value {
            None => Literal::Bad(value_note(d.key)),
            Some(v) => if v == "warn"@ || v == "teardown"@ || v == "restart"@ {
                Literal::Is(toml_text(v))
            } else {
                Literal::Bad("lr: bad max_prefix_action '"@ + v + "' (warn|teardown|restart)"@)
            },
        },
        Shape::Gtsm => match d.value {
            None => Literal::Is("true"@),
            Some(_) => number_literal(d.value, d.key, 1, 255),
        },
        Shape::Policy => match d.value {
            None => Literal::Bad(value_note(d.key)),
            Some(v) => if v == "rfc8212"@ || v == "accept-all"@ {
                Literal::Is(toml_text(v))
            } else {
                Literal::Bad("lr: bad ebgp_policy '"@ + v + "' (rfc8212|accept-all)"@)
            },
        },
        Shape::LocalAs => match d.value {
            None => Literal::Is("1"@),
            Some(v) => if v == "any"@ {
                Literal::Is("\"any\""@)
            } else {
                number_literal(d.value, d.key, 0, 0xffff_ffff)
            },
        },
    }
}

/// The note on a directive that the scope does not know.
pub open spec fn unknown_note(scope: DirScope, key: Seq<char>) -> Seq<char> {
    (match scope {
        DirScope::Global => "lr: unknown global directive '"@,
        DirScope::Peer => "lr: unknown peer directive '"@,
    }) + key + "' (see docs/COMPAT.md for the vocabulary)"@
}

/// What a directive resolves to in its scope.
pub open spec fn resolved(d: DirectiveModel, scope: DirScope) -> Resolved {
    match shape_of(scope, d.key) {
        Some((key, shape)) => match literal_of(d, shape) {
            Literal::Is(literal) => Resolved::Entry { key, literal },
            Literal::Bad(note) => Resolved::Note(note),
        },
        None => Resolved::Note(unknown_note(scope, d.key)),
    }
}

/// A result as a [`Literal`].
pub open spec fn literal_view(r: Result<String, String>) -> Literal {
    match r {
        Ok(s) => Literal::Is(s@),
        Err(e) => Literal::Bad(e@),
    }
}

fn number_value(value: &Option<String>, key: &str, min: u64, max: u64) -> (r: Result<String, String>)
    ensures
        literal_view(r) == number_literal(opt_view(*value), key@, min as nat, max as nat),
{
    let mut e = own("lr: bad value '");
    match value {
        Some(v) => {
            match read_integer(v.as_str(), min, max) {
                Some(n) => {
                    return Ok(write_number(n));
                },
                None => {},
            }
            e.append(v.as_str());
        },
        None => {
            e.append("");
        },
    }
    proof {
        reveal_strlit("");
        assert(""@ =~= Seq::<char>::empty());
    }
    e.append("' for ");
    e.append(key);
    e.append(" (expected integer ");
    e.append(write_number(min).as_str());
    e.append("..=");
    e.append(write_number(max).as_str());
    e.append(")");
    Err(e)
}

fn needs_value(key: &str) -> (s: String)
    ensures
        s@ == value_note(key@),
{
    let mut s = own("lr: ");
    s.append(key);
    s.append(" needs a value");
    s
}

fn literal(d: &LrDirective, shape: Shape) -> (r: Result<String, String>)
    ensures
        literal_view(r) == literal_of(d@, shape),
{
    let key = d.key.as_str();
    match shape {
        Shape::Bool => match &d.value {
            None => Ok(own("true")),
            Some(v) => if same(v.as_str(), "true") {
                Ok(own("true"))
            } else if same(v.as_str(), "false") {
                Ok(own("false"))
            } else {
                let mut e = own("lr: bad bool value '");
                e.append(v.as_str());
                e.append("' for ");
                e.append(key);
                Err(e)
            },
        },
        Shape::Text => match &d.value {
            Some(v) => Ok(toml_str(v.as_str())),
            None => Err(needs_value(key)),
        },
        Shape::Number { min, max } => number_value(&d.value, key, min, max),
        Shape::Action => match &d.value {
            None => Err(needs_value(key)),
            Some(v) => if same(v.as_str(), "warn") || same(v.as_str(), "teardown") || same(
                v.as_str(),
                "restart",
            ) {
                Ok(toml_str(v.as_str()))
            } else {
                let mut e = own("lr: bad max_prefix_action '");
                e.append(v.as_str());
                e.append("' (warn|teardown|restart)");
                Err(e)
            },
        },
        Shape::Gtsm => match &d.value {
            None => Ok(own("true")),
            Some(_) => number_value(&d.value, key, 1, 255),
        },
        Shape::Policy => match &d.value {
            None => Err(needs_value(key)),
            Some(v) => if same(v.as_str(), "rfc8212") || same(v.as_str(), "accept-all") {
                Ok(toml_str(v.as_str()))
            } else {
                let mut e = own("lr: bad ebgp_policy '");
                e.append(v.as_str());
                e.append("' (rfc8212|accept-all)");
                Err(e)
            },
        },
        Shape::LocalAs => match &d.value {
            None => Ok(own("1")),
            Some(v) => if same(v.as_str(), "any") {
                Ok(own("\"any\""))
            } else {
                number_value(&d.value, key, 0, 0xffff_ffff)
            },
        },
    }
}

/// A result as a [`Resolved`].
pub open spec fn resolved_view(r: Result<(String, String), String>) -> Resolved {
    match r {
        Ok((k, v)) => Resolved::Entry { key: k@, literal: v@ },
        Err(e) => Resolved::Note(e@),
    }
}

/// Resolves one directive to a TOML key and literal. List-shaped directives
/// are not handled here. An error carries a note.
pub fn directive_toml(d: &LrDirective, scope: DirScope) -> (r: Result<(String, String), String>)
    ensures
        resolved_view(r) == resolved(d@, scope),
{
    match shape(scope, d.key.as_str()) {
        Some((key, s)) => match literal(d, s) {
            Ok(v) => Ok((key, v)),
            Err(e) => Err(e),
        },
        None => {
            let mut e = own(
                match scope {
                    DirScope::Global => "lr: unknown global directive '",
                    DirScope::Peer => "lr: unknown peer directive '",
                },
            );
            e.append(d.key.as_str());
            e.append("' (see docs/COMPAT.md for the vocabulary)");
            Err(e)
        },
    }
}

/// The peer after a list-shaped directive, or a note on why it is not one.
pub enum Folded {
    Into(PeerModel),
    Not(Seq<char>),
}

/// What a list-shaped directive does to a peer.
pub open spec fn folded(p: PeerModel, d: DirectiveModel) -> Folded {
    if d.key == "mp_family"@ {
        match d.value {
            None => Folded::Not("lr: mp-family needs a family name"@),
            Some(f) => if f != "ipv4-unicast"@ && f != "ipv6-unicast"@ {
                Folded::Not("lr: unknown mp-family '"@ + f + "' (ipv4-unicast|ipv6-unicast)"@)
            } else if p.families.contains(f) {
                Folded::Into(p)
            } else {
                Folded::Into(PeerModel { families: p.families.push(f), ..p })
            },
        }
    } else if d.key == "tcp_ao_key"@ {
        match d.value {
            None => Folded::Not("lr: tcp-ao-key needs ID:SECRET"@),
            Some(k) => if next_char(k, 0, ':') < k.len() {
                Folded::Into(PeerModel { tcp_ao_keys: p.tcp_ao_keys.push(k), ..p })
            } else {
                Folded::Not("lr: tcp-ao-key '"@ + k + "' is not ID:SECRET"@)
            },
        }
    } else {
        Folded::Not("lr: directive '"@ + d.key + "' not list-shaped"@)
    }
}

/// Applies a list-shaped peer directive. An error says why it is none.
pub fn fold_peer_list_directive(peer: &mut PeerOut, d: &LrDirective) -> (r: Result<(), String>)
    ensures
        match r {
            Ok(()) => folded(old(peer)@, d@) == Folded::Into(final(peer)@),
            Err(e) => folded(old(peer)@, d@) == Folded::Not(e@) && final(peer)@ == old(peer)@,
        },
{
    if same(d.key.as_str(), "mp_family") {
        match &d.value {
            None => Err(own("lr: mp-family needs a family name")),
            Some(f) => {
                if !same(f.as_str(), "ipv4-unicast") && !same(f.as_str(), "ipv6-unicast") {
                    let mut e = own("lr: unknown mp-family '");
                    e.append(f.as_str());
                    e.append("' (ipv4-unicast|ipv6-unicast)");
                    return Err(e);
                }
                if !lists_text(&peer.families, f.as_str()) {
                    push_view(&mut peer.families, own(f.as_str()));
                }
                Ok(())
            },
        }
    } else if same(d.key.as_str(), "tcp_ao_key") {
        match &d.value {
            None => Err(own("lr: tcp-ao-key needs ID:SECRET")),
            Some(k) => {
                if !contains_char(k.as_str(), ':') {
                    let mut e = own("lr: tcp-ao-key '");
                    e.append(k.as_str());
                    e.append("' is not ID:SECRET");
                    return Err(e);
                }
                push_view(&mut peer.tcp_ao_keys, own(k.as_str()));
                Ok(())
            },
        }
    } else {
        let mut e = own("lr: directive '");
        e.append(d.key.as_str());
        e.append("' not list-shaped");
        Err(e)
    }
}

/// The peer with a directive attached: a list-shaped one takes effect at once,
/// any other is kept until the peer is rendered.
pub open spec fn attached(p: PeerModel, d: DirectiveModel) -> PeerModel {
    match folded(p, d) {
        Folded::Into(q) => q,
        Folded::Not(_) => PeerModel { ext: p.ext.push(d), ..p },
    }
}

/// Attaches a peer-scoped directive.
pub fn attach_peer_directive(peer: &mut PeerOut, d: LrDirective)
    ensures
        final(peer)@ == attached(old(peer)@, d@),
{
    match fold_peer_list_directive(peer, &d) {
        Ok(()) => {},
        Err(_) => {
            push_view(&mut peer.ext, d);
        },
    }
}

} // verus!
