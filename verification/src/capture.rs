//! Capture files of BGP messages, and the choice of what is replayed.

use crate::hex::{decoded, hex_decode, hex_encode, hex_reads_back, hex_text, hex_text_is_plain};
use crate::table::take_step;
use crate::text::{
    after_prefix, at, cat3, char_is, chars_of, decimal, find_at, find_from, is_blank, is_space,
    join, joined_by, lines, lines_from, lines_of, next_char, next_where_is, no_items, opt_view, own,
    push_view, same, seek_char, starts, starts_with, strip_prefix, text_of, trim, trim_of,
    trim_start, trim_start_of, views, write_wide,
};
use vstd::prelude::*;
use vstd::string::*;
use vstd::utf8::encode_utf8;

verus! {

/// One recorded message.
pub struct CaptureRecord {
    /// Which way it went: `up` or `down`.
    pub dir: String,
    /// The whole message in hexadecimal.
    pub hex: String,
}

/// The same over text.
pub struct RecordModel {
    pub dir: Seq<char>,
    pub hex: Seq<char>,
}

impl View for CaptureRecord {
    type V = RecordModel;

    open spec fn view(&self) -> RecordModel {
        RecordModel { dir: self.dir@, hex: self.hex@ }
    }
}

/// The string value of a key of a flat JSON object.
pub open spec fn field_of(line: Seq<char>, key: Seq<char>) -> Option<Seq<char>> {
    let needle = "\""@ + key + "\":"@;
    let i = find_from(line, 0, needle);
    if i < 0 {
        None
    } else {
        match after_prefix(
            trim_start_of(line.subrange(i + needle.len(), line.len() as int)),
            "\""@,
        ) {
            None => None,
            Some(rest) => {
                let e = next_char(rest, 0, '"');
                if e < rest.len() {
                    Some(rest.subrange(0, e))
                } else {
                    None
                }
            },
        }
    }
}

/// Reads the string value of a key of a flat JSON object.
pub fn json_string_field(line: &str, key: &str) -> (r: Option<String>)
    ensures
        opt_view(r) == field_of(line@, key@),
{
    let needle = cat3("\"", key, "\":");
    let v = chars_of(line);
    let n = chars_of(needle.as_str());
    match find_at(&v, 0, &n) {
        None => None,
        Some(i) => {
            let end: usize = v.len();
            let rest = text_of(&v, i + n.len(), end);
            match strip_prefix(trim_start(rest.as_str()).as_str(), "\"") {
                None => None,
                Some(rest) => {
                    let w = chars_of(rest.as_str());
                    let e: usize = seek_char(&w, 0, '"');
                    if e < w.len() {
                        Some(text_of(&w, 0, e))
                    } else {
                        None
                    }
                },
            }
        },
    }
}

/// The line of a message in a capture file.
pub open spec fn record_line(dir: Seq<char>, msg: Seq<u8>) -> Seq<char> {
    "{\"dir\":\""@ + dir + "\",\"hex\":\""@ + hex_text(msg) + "\"}\n"@
}

/// Writes the line of a message in a capture file.
pub fn append_capture(dir: &str, msg: &[u8]) -> (r: String)
    ensures
        r@ == record_line(dir@, msg@),
{
    let mut s = cat3("{\"dir\":\"", dir, "\",\"hex\":\"");
    s.append(hex_encode(msg).as_str());
    s.append("\"}\n");
    s
}

/// Whether a line of a capture file is a record.
pub open spec fn is_record(line: Seq<char>) -> bool {
    let t = trim_of(line);
    t.len() > 0 && !starts(t, "#"@)
}

/// The message on a missing key.
pub open spec fn missing(path: Seq<char>, n: nat, key: Seq<char>) -> Seq<char> {
    "capture "@ + path + ": line "@ + decimal(n) + ": missing \""@ + key + "\""@
}

/// The records of lines, or the first that lacks a key. Blank lines and those
/// that start with `#` are skipped.
pub open spec fn records_of(path: Seq<char>, ls: Seq<Seq<char>>) -> Result<
    Seq<RecordModel>,
    Seq<char>,
>
    decreases ls.len(),
{
    if ls.len() == 0 {
        Ok(Seq::empty())
    } else {
        match records_of(path, ls.drop_last()) {
            Err(e) => Err(e),
            Ok(before) => if !is_record(ls.last()) {
                Ok(before)
            } else {
                let line = trim_of(ls.last());
                match (field_of(line, "dir"@), field_of(line, "hex"@)) {
                    (Some(dir), Some(hex)) => Ok(before.push(RecordModel { dir, hex })),
                    (None, _) => Err(missing(path, ls.len(), "dir"@)),
                    (Some(_), None) => Err(missing(path, ls.len(), "hex"@)),
                }
            },
        }
    }
}

fn write_missing(path: &str, n: u128, key: &str) -> (r: String)
    ensures
        r@ == missing(path@, n as nat, key@),
{
    let mut m = cat3("capture ", path, ": line ");
    m.append(write_wide(n).as_str());
    m.append(": missing \"");
    m.append(key);
    m.append("\"");
    m
}

/// Reads the text of a capture file. `path` is what errors call it.
pub fn read_capture(path: &str, text: &str) -> (r: Result<Vec<CaptureRecord>, String>)
    ensures
        records_of(path@, lines_of(text@)) == (match r {
            Ok(v) => Ok(views(v@)),
            Err(m) => Err(m@),
        }),
{
    let ls = lines(text);
    let ghost lv = views(ls@);
    let mut out: Vec<CaptureRecord> = no_items();
    let mut fault: Option<String> = None;
    let mut i: usize = 0;
    while i < ls.len()
        invariant
            i <= ls@.len(),
            lv == views(ls@),
            records_of(path@, lv.take(i as int)) == (match fault {
                Some(m) => Err(m@),
                None => Ok(views(out@)),
            }),
        decreases ls@.len() - i,
    {
        proof {
            take_step(lv, i as int);
            assert(lv.take(i + 1).len() == i + 1);
        }
        let line = trim(ls[i].as_str());
        let blank = is_blank(&line);
        if fault.is_none() && !blank && !starts_with(line.as_str(), "#") {
            let dir = json_string_field(line.as_str(), "dir");
            let hex = json_string_field(line.as_str(), "hex");
            match (dir, hex) {
                (Some(dir), Some(hex)) => {
                    push_view(&mut out, CaptureRecord { dir, hex });
                },
                (None, _) => {
                    fault = Some(write_missing(path, i as u128 + 1, "dir"));
                },
                (Some(_), None) => {
                    fault = Some(write_missing(path, i as u128 + 1, "hex"));
                },
            }
        }
        i += 1;
    }
    assert(lv.take(i as int) =~= lv);
    match fault {
        Some(m) => Err(m),
        None => Ok(out),
    }
}

/// The form in which messages quote a text: `str`'s `Debug` output, in double
/// quotes and with escapes.
pub uninterp spec fn quoted(s: Seq<char>) -> Seq<char>;

/// Quotes a text by `str`'s implementation of `std::fmt::Debug`. The result is
/// named, not described: which characters are escaped is left unsaid.
#[verifier::external_body]
pub(crate) fn quote(s: &str) -> (r: String)
    ensures
        r@ == quoted(s@),
{
    format!("{:?}", s)
}

/// Texts, each quoted.
pub open spec fn quoted_all(ts: Seq<Seq<char>>) -> Seq<Seq<char>> {
    ts.map_values(|t: Seq<char>| quoted(t))
}

/// A list of quoted texts, in brackets.
pub open spec fn quoted_list(ts: Seq<Seq<char>>) -> Seq<char> {
    "["@ + joined_by(quoted_all(ts), ", "@) + "]"@
}

/// Writes a list of quoted texts.
pub fn quote_list(ts: &Vec<String>) -> (r: String)
    ensures
        r@ == quoted_list(views(ts@)),
{
    let ghost tv = views(ts@);
    let mut out: Vec<String> = no_items();
    let mut i: usize = 0;
    assert(quoted_all(tv.take(0)) =~= Seq::empty());
    while i < ts.len()
        invariant
            i <= ts@.len(),
            tv == views(ts@),
            views(out@) == quoted_all(tv.take(i as int)),
        decreases ts@.len() - i,
    {
        push_view(&mut out, quote(ts[i].as_str()));
        i += 1;
        assert(views(out@) =~= quoted_all(tv.take(i as int)));
    }
    assert(tv.take(i as int) =~= tv);
    cat3("[", join(&out, ", ").as_str(), "]")
}

/// The directions of records.
pub open spec fn dirs_of(ms: Seq<RecordModel>) -> Seq<Seq<char>> {
    ms.map_values(|m: RecordModel| m.dir)
}

/// The messages of one direction, or the first that does not decode.
pub open spec fn chosen(ms: Seq<RecordModel>, dir: Seq<char>) -> Result<Seq<Seq<u8>>, Seq<char>>
    decreases ms.len(),
{
    if ms.len() == 0 {
        Ok(Seq::empty())
    } else {
        match chosen(ms.drop_last(), dir) {
            Err(e) => Err(e),
            Ok(before) => if ms.last().dir != dir {
                Ok(before)
            } else {
                match decoded(encode_utf8(ms.last().hex)) {
                    Ok(b) => Ok(before.push(b)),
                    Err(e) => Err(e),
                }
            },
        }
    }
}

/// The messages to replay, or why there are none.
pub open spec fn selected(ms: Seq<RecordModel>, dir: Seq<char>, capture: Seq<char>) -> Result<
    Seq<Seq<u8>>,
    Seq<char>,
> {
    match chosen(ms, dir) {
        Err(e) => Err(e),
        Ok(list) => if list.len() == 0 {
            Err(
                "capture "@ + capture + ": no messages in direction \""@ + dir
                    + "\" (have directions: "@ + quoted_list(dirs_of(ms)) + ")"@,
            )
        } else {
            Ok(list)
        },
    }
}

fn list_dirs(ms: &Vec<CaptureRecord>) -> (r: Vec<String>)
    ensures
        views(r@) == dirs_of(views(ms@)),
{
    let ghost mv = views(ms@);
    let mut out: Vec<String> = no_items();
    let mut i: usize = 0;
    assert(dirs_of(mv.take(0)) =~= Seq::empty());
    while i < ms.len()
        invariant
            i <= ms@.len(),
            mv == views(ms@),
            views(out@) == dirs_of(mv.take(i as int)),
        decreases ms@.len() - i,
    {
        push_view(&mut out, own(ms[i].dir.as_str()));
        i += 1;
        assert(views(out@) =~= dirs_of(mv.take(i as int)));
    }
    assert(mv.take(i as int) =~= mv);
    out
}

/// Chooses the messages of one direction, decoded. `capture` is what errors
/// call the file.
pub fn select_direction(ms: &Vec<CaptureRecord>, dir: &str, capture: &str) -> (r: Result<
    Vec<Vec<u8>>,
    String,
>)
    ensures
        selected(views(ms@), dir@, capture@) == (match r {
            Ok(v) => Ok(views(v@)),
            Err(m) => Err(m@),
        }),
{
    let ghost mv = views(ms@);
    let mut out: Vec<Vec<u8>> = no_items();
    let mut fault: Option<String> = None;
    let mut i: usize = 0;
    while i < ms.len()
        invariant
            i <= ms@.len(),
            mv == views(ms@),
            chosen(mv.take(i as int), dir@) == (match fault {
                Some(m) => Err(m@),
                None => Ok(views(out@)),
            }),
        decreases ms@.len() - i,
    {
        proof {
            take_step(mv, i as int);
        }
        if fault.is_none() && same(ms[i].dir.as_str(), dir) {
            match hex_decode(ms[i].hex.as_str()) {
                Ok(b) => {
                    push_view(&mut out, b);
                },
                Err(m) => {
                    fault = Some(m);
                },
            }
        }
        i += 1;
    }
    assert(mv.take(i as int) =~= mv);
    match fault {
        Some(m) => Err(m),
        None => {
            assert(views(out@).len() == out@.len());
            if out.len() == 0 {
                let mut m = cat3("capture ", capture, ": no messages in direction \"");
                m.append(dir);
                m.append("\" (have directions: ");
                m.append(quote_list(&list_dirs(ms)).as_str());
                m.append(")");
                Err(m)
            } else {
                Ok(out)
            }
        },
    }
}

proof fn find_first(s: Seq<char>, i: int, p: Seq<char>, j: int)
    requires
        0 <= i <= j,
        at(s, j, p),
        forall|k: int| i <= k < j ==> !#[trigger] at(s, k, p),
    ensures
        find_from(s, i, p) == j,
    decreases j - i,
{
    if i < j {
        assert(!at(s, i, p));
        find_first(s, i + 1, p, j);
    }
}

/// A line as [`append_capture`] writes it, without its line feed.
spec fn body_line(dir: Seq<char>, hex: Seq<char>) -> Seq<char> {
    "{\"dir\":\""@ + dir + "\",\"hex\":\""@ + hex + "\"}"@
}

proof fn value_behind(line: Seq<char>, key: Seq<char>, i: int, value: Seq<char>)
    requires
        find_from(line, 0, "\""@ + key + "\":"@) == i,
        i >= 0,
        i + key.len() + 4 + value.len() < line.len(),
        line[i + key.len() + 3] == '"',
        line.subrange(i + key.len() + 4, i + key.len() + 4 + value.len()) == value,
        line[i + key.len() + 4 + value.len()] == '"',
        forall|k: int| 0 <= k < value.len() ==> #[trigger] value[k] != '"',
    ensures
        field_of(line, key) == Some(value),
{
    reveal_strlit("\"");
    reveal_strlit("\":");
    let needle = "\""@ + key + "\":"@;
    let r = line.subrange(i + needle.len(), line.len() as int);
    next_where_is(r, 0, |c: char| !is_space(c), 0);
    assert(trim_start_of(r) =~= r);
    assert(r.subrange(0, 1) =~= "\""@);
    let rest = r.subrange(1, r.len() as int);
    assert(after_prefix(r, "\""@) == Some(rest));
    let n = value.len() as int;
    assert forall|k: int| 0 <= k < n implies !char_is('"')(#[trigger] rest[k]) by {
        assert(rest[k] == line[i + key.len() + 4 + k]);
        assert(value[k] == line.subrange(
            i + key.len() + 4,
            i + key.len() + 4 + value.len(),
        )[k]);
    }
    next_where_is(rest, 0, char_is('"'), n);
    assert(rest.subrange(0, n) =~= value);
}

proof fn fields_read_back(dir: Seq<char>, hex: Seq<char>)
    requires
        forall|k: int| 0 <= k < dir.len() ==> #[trigger] dir[k] != '"',
        forall|k: int| 0 <= k < hex.len() ==> #[trigger] hex[k] != '"',
    ensures
        field_of(body_line(dir, hex), "dir"@) == Some(dir),
        field_of(body_line(dir, hex), "hex"@) == Some(hex),
{
    reveal_strlit("{\"dir\":\"");
    reveal_strlit("\",\"hex\":\"");
    reveal_strlit("\"}");
    reveal_strlit("\"");
    reveal_strlit("\":");
    reveal_strlit("dir");
    reveal_strlit("hex");
    let line = body_line(dir, hex);
    let d = dir.len() as int;
    let a = "\""@ + "dir"@ + "\":"@;
    let b = "\""@ + "hex"@ + "\":"@;
    assert(line.subrange(1, 7) =~= a);
    assert forall|k: int| 0 <= k < 1 implies !#[trigger] at(line, k, a) by {
        assert(line[0] == '{');
        if at(line, 0, a) {
            assert(line.subrange(0, a.len() as int)[0] == a[0]);
        }
    }
    find_first(line, 0, a, 1);
    assert(line.subrange(8, 8 + d) =~= dir);
    value_behind(line, "dir"@, 1, dir);
    let p = 10 + d;
    assert(line.subrange(p, p + 6) =~= b);
    assert forall|k: int| 0 <= k < p implies !#[trigger] at(line, k, b) by {
        if at(line, k, b) {
            let w = line.subrange(k, k + 6);
            assert(w == b);
            assert(line[k] == w[0] && line[k + 1] == w[1] && line[k + 2] == w[2] && line[k + 3]
                == w[3] && line[k + 4] == w[4] && line[k + 5] == w[5]);
            assert(b[0] == '"' && b[1] == 'h' && b[2] == 'e' && b[3] == 'x' && b[4] == '"' && b[5]
                == ':');
            if 8 <= k < 8 + d {
                assert(line[k] == dir[k - 8]);
            }
            assert(line[8 + d] == '"' && line[9 + d] == ',');
            if k == 7 {
                if d > 3 {
                    assert(line[11] == dir[3]);
                }
            }
        }
    }
    find_first(line, 0, b, p);
    assert(line.subrange(p + 7, p + 7 + hex.len()) =~= hex);
    value_behind(line, "hex"@, p, hex);
}

/// A message written to a capture is read back, direction and bytes.
pub proof fn captures_read_back(path: Seq<char>, dir: Seq<char>, msg: Seq<u8>)
    requires
        forall|k: int| 0 <= k < dir.len() ==> #[trigger] dir[k] != '"' && dir[k] != '\n',
    ensures
        records_of(path, lines_of(record_line(dir, msg))) == Ok::<Seq<RecordModel>, Seq<char>>(
            seq![RecordModel { dir, hex: hex_text(msg) }],
        ),
        chosen(seq![RecordModel { dir, hex: hex_text(msg) }], dir) == Ok::<
            Seq<Seq<u8>>,
            Seq<char>,
        >(seq![msg]),
{
    let hex = hex_text(msg);
    hex_text_is_plain(msg);
    hex_reads_back(msg);
    reveal_strlit("{\"dir\":\"");
    reveal_strlit("\",\"hex\":\"");
    reveal_strlit("\"}");
    reveal_strlit("\"}\n");
    reveal_strlit("#");
    let line = body_line(dir, hex);
    let full = record_line(dir, msg);
    let n = line.len() as int;
    fields_read_back(dir, hex);
    assert(full =~= line.push('\n'));
    assert forall|k: int| 0 <= k < n implies !char_is('\n')(#[trigger] full[k]) by {
        let d = dir.len() as int;
        if 8 <= k < 8 + d {
            assert(full[k] == dir[k - 8]);
        } else if 17 + d <= k < 17 + d + hex.len() {
            assert(full[k] == hex[k - 17 - d]);
        }
    }
    next_where_is(full, 0, char_is('\n'), n);
    assert(full.subrange(0, n) =~= line);
    assert(line.last() == '}');
    assert(lines_from(full, n + 1) =~= Seq::empty());
    assert(lines_of(full) =~= seq![line]);
    next_where_is(line, 0, |c: char| !is_space(c), 0);
    assert(trim_start_of(line) =~= line);
    assert(line.subrange(0, n) =~= line);
    assert(trim_of(line) =~= line);
    if starts(line, "#"@) {
        assert(line.subrange(0, 1)[0] == '{');
    }
    let ls = seq![line];
    assert(ls.drop_last() =~= Seq::empty());
    assert(records_of(path, ls.drop_last()) == Ok::<Seq<RecordModel>, Seq<char>>(Seq::empty()));
    let one = RecordModel { dir, hex };
    assert(Seq::<RecordModel>::empty().push(one) =~= seq![one]);
    let ms = seq![one];
    assert(ms.drop_last() =~= Seq::empty());
    assert(chosen(ms.drop_last(), dir) == Ok::<Seq<Seq<u8>>, Seq<char>>(Seq::empty()));
    assert(Seq::<Seq<u8>>::empty().push(msg) =~= seq![msg]);
}

} // verus!
