//! What the translation of filters keeps, renames and refuses.

use crate::bird_filter::{
    body_of, body_run, body_step, body_translation, called, calls_to, closed_text, constant,
    decl_at, decl_step, emptied, function_translation, header_of, header_run, is_ip_tail, is_type,
    is_unmappable, renamed, replacement, roa_step, sym_at, type_run, word_at, CtxModel, Decl,
    Progress, Translated,
};
use crate::bird_set::{
    added, all_roas, blocked, closure, ctx_of, decl_of, decls_text, drafts_of, failed_function,
    failed_of, filter_draft, function_draft, function_drafts, insert_text, names_of,
    scope_grows_expr, settle_all, sorted_texts, text_rank, unknown_names, walk_expr, walk_stmt,
    walk_stmts, where_draft, where_result, CompileOutcome, DraftModel, Expr, FiltersModel,
    FunctionModel, SourceModel, Stmt, Walk,
};
use crate::bird_tokens::{
    emit_to, emitted, is_blank, is_pair, not_word, starts_word, string_end, string_end_bounds,
    sym_end, tok_text, tokens_from, tokens_of, word_end, Tok, TokKind,
};
use crate::conf::{NamedLinesModel, NamedModel, RoaModel};
use crate::text::{
    is_word_char, joined_by, last_at, next_char, next_where_splits, starts, text_before,
    text_order_is_total, text_order_is_transitive, trim_end_of,
};
use vstd::prelude::*;
use vstd::string::*;

verus! {

/// Whether token `k` covers place `j`.
pub open spec fn covers(t: Tok, j: int) -> bool {
    t.start <= j < t.end
}

/// Whether a token is what its kind says: a word is made of word characters and
/// goes as far as they go, a string starts with a quote, and a symbol is one mark
/// or a pair of them.
pub open spec fn is_of_its_kind(s: Seq<char>, t: Tok) -> bool {
    let a = s[t.start];
    match t.kind {
        TokKind::Word => {
            &&& starts_word(a)
            &&& forall|j: int| t.start <= j < t.end ==> is_word_char(#[trigger] s[j])
            &&& t.end < s.len() ==> !is_word_char(s[t.end])
        },
        TokKind::Str => a == '"',
        TokKind::Sym => {
            &&& a != '"' && !starts_word(a) && !is_blank(a)
            &&& t.end == t.start + 1 || (t.end == t.start + 2 && is_pair(a, s[t.start + 1]))
            &&& t.end == t.start + 1 && t.end < s.len() ==> !is_pair(a, s[t.end])
        },
    }
}

proof fn tokens_cover(s: Seq<char>, i: int)
    requires
        0 <= i <= s.len(),
    ensures
        forall|k: int|
            0 <= k < tokens_from(s, i).len() ==> {
                let t = #[trigger] tokens_from(s, i)[k];
                i <= t.start < t.end <= s.len() && is_of_its_kind(s, t)
            },
        forall|j: int|
            i <= j < s.len() && !is_blank(#[trigger] s[j]) ==> exists|k: int|
                0 <= k < tokens_from(s, i).len() && covers(#[trigger] tokens_from(s, i)[k], j),
        forall|k: int, m: int|
            0 <= k < m < tokens_from(s, i).len() ==> (#[trigger] tokens_from(s, i)[k]).end <= (
            #[trigger] tokens_from(s, i)[m]).start,
    decreases s.len() - i,
{
    if i < s.len() {
        if is_blank(s[i]) && s[i] != '"' && !starts_word(s[i]) {
            tokens_cover(s, i + 1);
            assert(tokens_from(s, i) == tokens_from(s, i + 1));
        } else {
            string_end_bounds(s, i + 1);
            next_where_splits(s, i, not_word());
            let e = if s[i] == '"' {
                string_end(s, i + 1)
            } else if starts_word(s[i]) {
                word_end(s, i)
            } else {
                sym_end(s, i)
            };
            let kind = if s[i] == '"' {
                TokKind::Str
            } else if starts_word(s[i]) {
                TokKind::Word
            } else {
                TokKind::Sym
            };
            let t = Tok { kind, start: i, end: e };
            if kind is Word {
                assert(!not_word()(s[i]));
                assert forall|j: int| i <= j < e implies is_word_char(#[trigger] s[j]) by {
                    assert(!not_word()(s[j]));
                }
            }
            assert(i < e <= s.len());
            assert(is_of_its_kind(s, t));
            tokens_cover(s, e);
            let rest = tokens_from(s, e);
            let all = tokens_from(s, i);
            assert(all == seq![t] + rest);
            assert forall|k: int| 0 <= k < all.len() implies {
                let x = #[trigger] all[k];
                i <= x.start < x.end <= s.len() && is_of_its_kind(s, x)
            } by {
                if k > 0 {
                    assert(all[k] == rest[k - 1]);
                }
            }
            assert forall|k: int, m: int| 0 <= k < m < all.len() implies (#[trigger] all[k]).end <= (
            #[trigger] all[m]).start by {
                assert(all[m] == rest[m - 1]);
                if k > 0 {
                    assert(all[k] == rest[k - 1]);
                }
            }
            assert forall|j: int| i <= j < s.len() && !is_blank(#[trigger] s[j]) implies exists|k: int|
                0 <= k < all.len() && covers(#[trigger] all[k], j) by {
                if j < e {
                    assert(covers(all[0], j));
                } else {
                    let k = choose|k: int| 0 <= k < rest.len() && covers(#[trigger] rest[k], j);
                    assert(covers(all[k + 1], j));
                }
            }
        }
    }
}

/// The tokens of a text stand in order and are what their kinds say, and nothing
/// but white space stands outside them.
pub proof fn tokens_cover_the_text(s: Seq<char>)
    ensures
        forall|k: int|
            0 <= k < tokens_of(s).len() ==> {
                let t = #[trigger] tokens_of(s)[k];
                0 <= t.start < t.end <= s.len() && is_of_its_kind(s, t)
            },
        forall|j: int|
            0 <= j < s.len() && !is_blank(#[trigger] s[j]) ==> exists|k: int|
                0 <= k < tokens_of(s).len() && covers(#[trigger] tokens_of(s)[k], j),
        forall|k: int, m: int|
            0 <= k < m < tokens_of(s).len() ==> (#[trigger] tokens_of(s)[k]).end <= (
            #[trigger] tokens_of(s)[m]).start,
{
    tokens_cover(s, 0);
}

/// The pairs of marks that are one operator, the letters that start a word, and
/// the space between tokens.
pub proof fn marks_pair_up(a: char, b: char)
    ensures
        is_pair(a, b) <==> seq![
            seq!['&', '&'],
            seq!['|', '|'],
            seq!['!', '='],
            seq!['!', '~'],
            seq!['=', '='],
            seq!['<', '='],
            seq!['>', '='],
            seq!['-', '>'],
            seq!['+', '+'],
            seq![':', '='],
        ].contains(seq![a, b]),
        starts_word(a) <==> is_word_char(a) && !('0' <= a <= '9'),
        is_blank(a) <==> seq![' ', '\t', '\n', '\r', '\u{c}'].contains(a),
{
    let l = seq![
        seq!['&', '&'],
        seq!['|', '|'],
        seq!['!', '='],
        seq!['!', '~'],
        seq!['=', '='],
        seq!['<', '='],
        seq!['>', '='],
        seq!['-', '>'],
        seq!['+', '+'],
        seq![':', '='],
    ];
    let p = seq![a, b];
    assert(p[0] == a && p[1] == b);
    assert(l[0] == seq!['&', '&'] && l[1] == seq!['|', '|'] && l[2] == seq!['!', '='] && l[3]
        == seq!['!', '~'] && l[4] == seq!['=', '='] && l[5] == seq!['<', '='] && l[6] == seq![
        '>',
        '=',
    ] && l[7] == seq!['-', '>'] && l[8] == seq!['+', '+'] && l[9] == seq![':', '=']);
    if is_pair(a, b) {
        assert(exists|k: int| 0 <= k < 10 && #[trigger] l[k] == p);
    }
    if l.contains(p) {
        let k = choose|k: int| 0 <= k < l.len() && l[k] == p;
        assert(l[k][0] == a && l[k][1] == b);
    }
    let w = seq![' ', '\t', '\n', '\r', '\u{c}'];
    assert(w[0] == ' ' && w[1] == '\t' && w[2] == '\n' && w[3] == '\r' && w[4] == '\u{c}');
}

/// A string literal ends behind the first quote that no backslash precedes.
pub proof fn strings_end_at_their_quote(s: Seq<char>, i: int)
    requires
        0 <= i < s.len(),
    ensures
        s[i] == '"' ==> string_end(s, i) == i + 1,
        s[i] == '\\' && i + 1 < s.len() ==> string_end(s, i) == string_end(s, i + 2),
        s[i] != '"' && s[i] != '\\' ==> string_end(s, i) == string_end(s, i + 1),
        string_end(s, s.len() as int) == s.len(),
{
}

/// The rebuilt text takes each token in turn: one that is kept with the gap
/// before it, one that is replaced by its replacement, one that is emptied not at
/// all.
pub proof fn tokens_are_rebuilt_in_turn(
    s: Seq<char>,
    ts: Seq<Tok>,
    rw: Seq<Option<Seq<char>>>,
    n: int,
)
    requires
        0 <= n < ts.len(),
    ensures
        ({
            let a = emit_to(s, ts, rw, n);
            let b = emit_to(s, ts, rw, n + 1);
            let from = if n == 0 {
                0
            } else {
                ts[n - 1].end
            };
            let gap = s.subrange(from, ts[n].start);
            &&& rw[n] is None ==> b == a + gap + s.subrange(ts[n].start, ts[n].end)
            &&& rw[n] is Some && rw[n]->0.len() > 0 ==> b == a + gap + rw[n]->0
            &&& rw[n] is Some && rw[n]->0.len() == 0 ==> b == a
        }),
        emit_to(s, ts, rw, 0).len() == 0,
        emitted(s, ts, rw) == emit_to(s, ts, rw, ts.len() as int) + s.subrange(
            ts.last().end,
            s.len() as int,
        ),
{
}

/// The words that name a type.
pub proof fn types_are_these_words(w: Seq<char>)
    ensures
        is_type(w) <==> seq![
            "int"@, "bool"@, "ip"@, "prefix"@, "pair"@, "quad"@, "ec"@, "lc"@, "string"@,
            "bytestring"@, "bgppath"@, "bgpmask"@, "clist"@, "eclist"@, "lclist"@, "enum"@,
            "rd"@, "mac"@,
        ].contains(w),
        is_ip_tail(w) <==> seq!["prefix"@, "pair"@, "quad"@, "ec"@, "lc"@].contains(w),
{
    let l = seq![
        "int"@, "bool"@, "ip"@, "prefix"@, "pair"@, "quad"@, "ec"@, "lc"@, "string"@,
        "bytestring"@, "bgppath"@, "bgpmask"@, "clist"@, "eclist"@, "lclist"@, "enum"@, "rd"@,
        "mac"@,
    ];
    assert(l[0] == "int"@);
    assert(l[1] == "bool"@);
    assert(l[2] == "ip"@);
    assert(l[3] == "prefix"@);
    assert(l[4] == "pair"@);
    assert(l[5] == "quad"@);
    assert(l[6] == "ec"@);
    assert(l[7] == "lc"@);
    assert(l[8] == "string"@);
    assert(l[9] == "bytestring"@);
    assert(l[10] == "bgppath"@);
    assert(l[11] == "bgpmask"@);
    assert(l[12] == "clist"@);
    assert(l[13] == "eclist"@);
    assert(l[14] == "lclist"@);
    assert(l[15] == "enum"@);
    assert(l[16] == "rd"@);
    assert(l[17] == "mac"@);
    let l = seq!["prefix"@, "pair"@, "quad"@, "ec"@, "lc"@];
    assert(l[0] == "prefix"@);
    assert(l[1] == "pair"@);
    assert(l[2] == "quad"@);
    assert(l[3] == "ec"@);
    assert(l[4] == "lc"@);
}

/// The words without a faithful equivalent.
pub proof fn words_without_equivalent_are_these(w: Seq<char>)
    ensures
        is_unmappable(w) <==> seq![
            "from"@, "gw"@, "scope"@, "dest"@, "ifname"@, "ifindex"@, "weight"@, "preference"@,
            "proto"@, "print"@, "printn"@, "putn"@, "case"@, "eval"@, "bt_assert"@,
            "bt_test_suite"@, "bt_test_same"@, "bt_check_assign"@,
        ].contains(w) || exists|p: Seq<char>|
            #![trigger starts(w, p)]
            seq![
                "krt_"@, "ospf_"@, "rip_"@, "babel_"@, "static_"@, "direct_"@, "device_"@,
                "pipe_"@, "aggregated_"@, "RTS_"@,
            ].contains(p) && starts(w, p),
{
    let l = seq![
            "from"@, "gw"@, "scope"@, "dest"@, "ifname"@, "ifindex"@, "weight"@, "preference"@,
            "proto"@, "print"@, "printn"@, "putn"@, "case"@, "eval"@, "bt_assert"@,
            "bt_test_suite"@, "bt_test_same"@, "bt_check_assign"@,
    ];
    assert(l[0] == "from"@);
    assert(l[1] == "gw"@);
    assert(l[2] == "scope"@);
    assert(l[3] == "dest"@);
    assert(l[4] == "ifname"@);
    assert(l[5] == "ifindex"@);
    assert(l[6] == "weight"@);
    assert(l[7] == "preference"@);
    assert(l[8] == "proto"@);
    assert(l[9] == "print"@);
    assert(l[10] == "printn"@);
    assert(l[11] == "putn"@);
    assert(l[12] == "case"@);
    assert(l[13] == "eval"@);
    assert(l[14] == "bt_assert"@);
    assert(l[15] == "bt_test_suite"@);
    assert(l[16] == "bt_test_same"@);
    assert(l[17] == "bt_check_assign"@);
    let f = l;
    let l = seq![
                "krt_"@, "ospf_"@, "rip_"@, "babel_"@, "static_"@, "direct_"@, "device_"@,
                "pipe_"@, "aggregated_"@, "RTS_"@,
    ];
    assert(l[0] == "krt_"@);
    assert(l[1] == "ospf_"@);
    assert(l[2] == "rip_"@);
    assert(l[3] == "babel_"@);
    assert(l[4] == "static_"@);
    assert(l[5] == "direct_"@);
    assert(l[6] == "device_"@);
    assert(l[7] == "pipe_"@);
    assert(l[8] == "aggregated_"@);
    assert(l[9] == "RTS_"@);
}

proof fn renamed_words_differ()
    ensures
        "bgp_path"@ != "bgp_local_pref"@,
        "bgp_path"@ != "bgp_med"@,
        "bgp_path"@ != "bgp_next_hop"@,
        "bgp_path"@ != "bgp_origin"@,
        "bgp_path"@ != "bgp_community"@,
        "bgp_path"@ != "bgp_ext_community"@,
        "bgp_path"@ != "bgp_large_community"@,
        "bgp_path"@ != "ROA_VALID"@,
        "bgp_path"@ != "ROA_UNKNOWN"@,
        "bgp_path"@ != "ROA_INVALID"@,
        "bgp_path"@ != "ORIGIN_IGP"@,
        "bgp_path"@ != "ORIGIN_EGP"@,
        "bgp_path"@ != "ORIGIN_INCOMPLETE"@,
        "bgp_local_pref"@ != "bgp_med"@,
        "bgp_local_pref"@ != "bgp_next_hop"@,
        "bgp_local_pref"@ != "bgp_origin"@,
        "bgp_local_pref"@ != "bgp_community"@,
        "bgp_local_pref"@ != "bgp_ext_community"@,
        "bgp_local_pref"@ != "bgp_large_community"@,
        "bgp_local_pref"@ != "ROA_VALID"@,
        "bgp_local_pref"@ != "ROA_UNKNOWN"@,
        "bgp_local_pref"@ != "ROA_INVALID"@,
        "bgp_local_pref"@ != "ORIGIN_IGP"@,
        "bgp_local_pref"@ != "ORIGIN_EGP"@,
        "bgp_local_pref"@ != "ORIGIN_INCOMPLETE"@,
        "bgp_med"@ != "bgp_next_hop"@,
        "bgp_med"@ != "bgp_origin"@,
        "bgp_med"@ != "bgp_community"@,
        "bgp_med"@ != "bgp_ext_community"@,
        "bgp_med"@ != "bgp_large_community"@,
        "bgp_med"@ != "ROA_VALID"@,
        "bgp_med"@ != "ROA_UNKNOWN"@,
        "bgp_med"@ != "ROA_INVALID"@,
        "bgp_med"@ != "ORIGIN_IGP"@,
        "bgp_med"@ != "ORIGIN_EGP"@,
        "bgp_med"@ != "ORIGIN_INCOMPLETE"@,
        "bgp_next_hop"@ != "bgp_origin"@,
        "bgp_next_hop"@ != "bgp_community"@,
        "bgp_next_hop"@ != "bgp_ext_community"@,
        "bgp_next_hop"@ != "bgp_large_community"@,
        "bgp_next_hop"@ != "ROA_VALID"@,
        "bgp_next_hop"@ != "ROA_UNKNOWN"@,
        "bgp_next_hop"@ != "ROA_INVALID"@,
        "bgp_next_hop"@ != "ORIGIN_IGP"@,
        "bgp_next_hop"@ != "ORIGIN_EGP"@,
        "bgp_next_hop"@ != "ORIGIN_INCOMPLETE"@,
        "bgp_origin"@ != "bgp_community"@,
        "bgp_origin"@ != "bgp_ext_community"@,
        "bgp_origin"@ != "bgp_large_community"@,
        "bgp_origin"@ != "ROA_VALID"@,
        "bgp_origin"@ != "ROA_UNKNOWN"@,
        "bgp_origin"@ != "ROA_INVALID"@,
        "bgp_origin"@ != "ORIGIN_IGP"@,
        "bgp_origin"@ != "ORIGIN_EGP"@,
        "bgp_origin"@ != "ORIGIN_INCOMPLETE"@,
        "bgp_community"@ != "bgp_ext_community"@,
        "bgp_community"@ != "bgp_large_community"@,
        "bgp_community"@ != "ROA_VALID"@,
        "bgp_community"@ != "ROA_UNKNOWN"@,
        "bgp_community"@ != "ROA_INVALID"@,
        "bgp_community"@ != "ORIGIN_IGP"@,
        "bgp_community"@ != "ORIGIN_EGP"@,
        "bgp_community"@ != "ORIGIN_INCOMPLETE"@,
        "bgp_ext_community"@ != "bgp_large_community"@,
        "bgp_ext_community"@ != "ROA_VALID"@,
        "bgp_ext_community"@ != "ROA_UNKNOWN"@,
        "bgp_ext_community"@ != "ROA_INVALID"@,
        "bgp_ext_community"@ != "ORIGIN_IGP"@,
        "bgp_ext_community"@ != "ORIGIN_EGP"@,
        "bgp_ext_community"@ != "ORIGIN_INCOMPLETE"@,
        "bgp_large_community"@ != "ROA_VALID"@,
        "bgp_large_community"@ != "ROA_UNKNOWN"@,
        "bgp_large_community"@ != "ROA_INVALID"@,
        "bgp_large_community"@ != "ORIGIN_IGP"@,
        "bgp_large_community"@ != "ORIGIN_EGP"@,
        "bgp_large_community"@ != "ORIGIN_INCOMPLETE"@,
        "ROA_VALID"@ != "ROA_UNKNOWN"@,
        "ROA_VALID"@ != "ROA_INVALID"@,
        "ROA_VALID"@ != "ORIGIN_IGP"@,
        "ROA_VALID"@ != "ORIGIN_EGP"@,
        "ROA_VALID"@ != "ORIGIN_INCOMPLETE"@,
        "ROA_UNKNOWN"@ != "ROA_INVALID"@,
        "ROA_UNKNOWN"@ != "ORIGIN_IGP"@,
        "ROA_UNKNOWN"@ != "ORIGIN_EGP"@,
        "ROA_UNKNOWN"@ != "ORIGIN_INCOMPLETE"@,
        "ROA_INVALID"@ != "ORIGIN_IGP"@,
        "ROA_INVALID"@ != "ORIGIN_EGP"@,
        "ROA_INVALID"@ != "ORIGIN_INCOMPLETE"@,
        "ORIGIN_IGP"@ != "ORIGIN_EGP"@,
        "ORIGIN_IGP"@ != "ORIGIN_INCOMPLETE"@,
        "ORIGIN_EGP"@ != "ORIGIN_INCOMPLETE"@,
{
    reveal_strlit("bgp_path");
    reveal_strlit("bgp_local_pref");
    reveal_strlit("bgp_med");
    reveal_strlit("bgp_next_hop");
    reveal_strlit("bgp_origin");
    reveal_strlit("bgp_community");
    reveal_strlit("bgp_ext_community");
    reveal_strlit("bgp_large_community");
    reveal_strlit("ROA_VALID");
    reveal_strlit("ROA_UNKNOWN");
    reveal_strlit("ROA_INVALID");
    reveal_strlit("ORIGIN_IGP");
    reveal_strlit("ORIGIN_EGP");
    reveal_strlit("ORIGIN_INCOMPLETE");
    assert("bgp_path"@.len() == 8);
    assert("bgp_local_pref"@.len() == 14);
    assert("bgp_med"@.len() == 7);
    assert("bgp_next_hop"@.len() == 12);
    assert("bgp_origin"@.len() == 10);
    assert("bgp_community"@.len() == 13);
    assert("bgp_ext_community"@.len() == 17);
    assert("bgp_large_community"@.len() == 19);
    assert("ROA_VALID"@.len() == 9);
    assert("ROA_UNKNOWN"@.len() == 11);
    assert("ROA_INVALID"@.len() == 11);
    assert("ORIGIN_IGP"@.len() == 10);
    assert("ORIGIN_EGP"@.len() == 10);
    assert("ORIGIN_INCOMPLETE"@.len() == 17);
    assert("ROA_UNKNOWN"@[4] == 'U' && "ROA_INVALID"@[4] == 'I');
    assert("ORIGIN_IGP"@[7] == 'I' && "ORIGIN_EGP"@[7] == 'E' && "bgp_origin"@[0] == 'b');
    assert("ORIGIN_IGP"@[0] == 'O' && "ORIGIN_EGP"@[0] == 'O');
    assert("bgp_ext_community"@[0] == 'b' && "ORIGIN_INCOMPLETE"@[0] == 'O');
}

/// What the words of a filter are called in the daemon's language; any other word
/// keeps its name.
pub proof fn words_are_renamed(w: Seq<char>)
    ensures
        w == "bgp_path"@ ==> renamed(w) == Some("bgp.as_path"@),
        w == "bgp_local_pref"@ ==> renamed(w) == Some("bgp.local_pref"@),
        w == "bgp_med"@ ==> renamed(w) == Some("bgp.med"@),
        w == "bgp_next_hop"@ ==> renamed(w) == Some("bgp.next_hop"@),
        w == "bgp_origin"@ ==> renamed(w) == Some("bgp.origin"@),
        w == "bgp_community"@ ==> renamed(w) == Some("bgp.communities"@),
        w == "bgp_ext_community"@ ==> renamed(w) == Some("bgp.ext_communities"@),
        w == "bgp_large_community"@ ==> renamed(w) == Some("bgp.large_communities"@),
        w == "ROA_VALID"@ ==> renamed(w) == Some("\"valid\""@),
        w == "ROA_UNKNOWN"@ ==> renamed(w) == Some("\"not-found\""@),
        w == "ROA_INVALID"@ ==> renamed(w) == Some("\"invalid\""@),
        w == "ORIGIN_IGP"@ ==> renamed(w) == Some("0"@),
        w == "ORIGIN_EGP"@ ==> renamed(w) == Some("1"@),
        w == "ORIGIN_INCOMPLETE"@ ==> renamed(w) == Some("2"@),
        renamed(w) is Some ==> seq![
            "bgp_path"@, "bgp_local_pref"@, "bgp_med"@, "bgp_next_hop"@, "bgp_origin"@,
            "bgp_community"@, "bgp_ext_community"@, "bgp_large_community"@, "ROA_VALID"@,
            "ROA_UNKNOWN"@, "ROA_INVALID"@, "ORIGIN_IGP"@, "ORIGIN_EGP"@, "ORIGIN_INCOMPLETE"@,
        ].contains(w),
{
    renamed_words_differ();
    let l = seq![
            "bgp_path"@, "bgp_local_pref"@, "bgp_med"@, "bgp_next_hop"@, "bgp_origin"@,
            "bgp_community"@, "bgp_ext_community"@, "bgp_large_community"@, "ROA_VALID"@,
            "ROA_UNKNOWN"@, "ROA_INVALID"@, "ORIGIN_IGP"@, "ORIGIN_EGP"@, "ORIGIN_INCOMPLETE"@,
    ];
    assert(l[0] == "bgp_path"@);
    assert(l[1] == "bgp_local_pref"@);
    assert(l[2] == "bgp_med"@);
    assert(l[3] == "bgp_next_hop"@);
    assert(l[4] == "bgp_origin"@);
    assert(l[5] == "bgp_community"@);
    assert(l[6] == "bgp_ext_community"@);
    assert(l[7] == "bgp_large_community"@);
    assert(l[8] == "ROA_VALID"@);
    assert(l[9] == "ROA_UNKNOWN"@);
    assert(l[10] == "ROA_INVALID"@);
    assert(l[11] == "ORIGIN_IGP"@);
    assert(l[12] == "ORIGIN_EGP"@);
    assert(l[13] == "ORIGIN_INCOMPLETE"@);
}

/// A symbol keeps its place: `=` compares, `:=` assigns, `!~` is refused, and any
/// other stays as it is.
pub proof fn symbols_carry_over(s: Seq<char>, ts: Seq<Tok>, c: CtxModel, p: Progress)
    requires
        0 <= p.at < ts.len(),
        p.rw.len() == ts.len(),
        ts[p.at].kind == TokKind::Sym,
    ensures
        ({
            let x = tok_text(s, ts[p.at]);
            let q = body_step(s, ts, c, p);
            &&& q.at == p.at + 1
            &&& x == "="@ ==> q.rw == p.rw.update(p.at, Some("=="@)) && q.notes == p.notes
            &&& x == ":="@ ==> q.rw == p.rw.update(p.at, Some("="@)) && q.notes == p.notes
            &&& x != "="@ && x != ":="@ ==> q.rw == p.rw
            &&& x == "!~"@ ==> q.notes.len() == p.notes.len() + 1
            &&& x != "!~"@ ==> q.notes == p.notes
            &&& q.dot <==> x == "."@
        }),
{
    reveal_strlit("=");
    reveal_strlit(":=");
    reveal_strlit("!~");
    assert("="@.len() == 1 && ":="@.len() == 2 && "!~"@.len() == 2);
    assert(":="@[0] == ':' && "!~"@[0] == '!');
}

/// A string literal stays as it is.
pub proof fn strings_carry_over(s: Seq<char>, ts: Seq<Tok>, c: CtxModel, p: Progress)
    requires
        0 <= p.at < ts.len(),
        ts[p.at].kind == TokKind::Str,
    ensures
        body_step(s, ts, c, p) == (Progress { at: p.at + 1, dot: false, ..p }),
{
}

/// A word is refused if it has no faithful equivalent, or if it reads an
/// attribute of another value by a dot; renamed if it is known by another name;
/// and kept otherwise.
pub proof fn words_carry_over(s: Seq<char>, ts: Seq<Tok>, c: CtxModel, p: Progress)
    requires
        0 <= p.at < ts.len(),
        p.rw.len() == ts.len(),
        ts[p.at].kind == TokKind::Word,
    ensures
        ({
            let w = tok_text(s, ts[p.at]);
            let q = body_step(s, ts, c, p);
            let plain = !is_unmappable(w) && w != "roa_check"@ && decl_at(s, ts, p.at) is None;
            &&& is_unmappable(w) ==> {
                &&& q.at == p.at + 1
                &&& q.rw == p.rw
                &&& q.notes.len() == p.notes.len() + 1
            }
            &&& plain ==> {
                &&& q.at == p.at + 1
                &&& renamed(w) is Some ==> q.rw == p.rw.update(p.at, Some(renamed(w)->0))
                &&& renamed(w) is None ==> q.rw == p.rw
                &&& (q.notes.len() > p.notes.len() <==> p.dot && w != "prepend"@ && w != "delete"@ && w
                    != "filter"@ && w != "add"@)
                &&& q.notes.len() == p.notes.len() ==> q.notes == p.notes
            }
            &&& !q.dot || q.at > p.at + 1
        }),
{
}

/// A declaration becomes `let`, its type goes, and a variable without a value
/// starts at nothing: zero, false or no text. Where its type has no such value
/// the declaration is refused.
pub proof fn declarations_become_let(s: Seq<char>, ts: Seq<Tok>, p: Progress, d: Decl)
    requires
        0 <= p.at < d.name,
        d.name < d.sep < ts.len(),
        p.rw.len() == ts.len(),
    ensures
        ({
            let q = decl_step(s, ts, p, d);
            let name = tok_text(s, ts[d.name]);
            let ty = tok_text(s, ts[p.at]);
            &&& q.at == d.sep
            &&& q.rw[p.at] == Some("let"@)
            &&& forall|k: int| p.at < k < d.name ==> #[trigger] q.rw[k] == Some(Seq::<char>::empty())
            &&& forall|k: int|
                0 <= k < p.at || d.name < k < ts.len() ==> #[trigger] q.rw[k] == p.rw[k]
            &&& d.init ==> q.rw[d.name] == p.rw[d.name] && q.notes == p.notes
            &&& !d.init && (ty == "int"@ || ty == "enum"@) ==> q.rw[d.name] == Some(
                name + " = "@ + "0"@,
            ) && q.notes == p.notes
            &&& !d.init && ty == "bool"@ ==> q.rw[d.name] == Some(name + " = "@ + "false"@) && q.notes
                == p.notes
            &&& !d.init && ty == "string"@ ==> q.rw[d.name] == Some(name + " = "@ + "\"\""@) && q.notes
                == p.notes
            &&& !d.init && ty != "int"@ && ty != "enum"@ && ty != "bool"@ && ty != "string"@ ==> {
                &&& q.rw[d.name] == p.rw[d.name]
                &&& q.notes.len() == p.notes.len() + 1
            }
        }),
{
    reveal_strlit("int");
    reveal_strlit("enum");
    reveal_strlit("bool");
    reveal_strlit("string");
    assert("int"@.len() == 3 && "enum"@.len() == 4 && "bool"@.len() == 4 && "string"@.len() == 6);
    assert("enum"@[0] == 'e' && "bool"@[0] == 'b');
}

/// An origin check on the only table asks for the route's state; with more
/// tables, with none, or with further arguments it is refused.
pub proof fn origin_checks_ask_the_only_table(
    s: Seq<char>,
    ts: Seq<Tok>,
    c: CtxModel,
    p: Progress,
)
    requires
        0 <= p.at < ts.len(),
        p.rw.len() == ts.len(),
    ensures
        ({
            let q = roa_step(s, ts, c, p);
            let plain = sym_at(s, ts, p.at + 1, "("@) && word_at(ts, p.at + 2) && sym_at(
                s,
                ts,
                p.at + 3,
                ")"@,
            );
            &&& plain && c.roa_tables == 1 ==> {
                &&& q.at == p.at + 4
                &&& q.notes == p.notes
                &&& q.rw[p.at] == Some("roa.state"@)
                &&& forall|k: int|
                    p.at < k < p.at + 4 ==> #[trigger] q.rw[k] == Some(Seq::<char>::empty())
                &&& forall|k: int|
                    0 <= k < p.at || p.at + 4 <= k < ts.len() ==> #[trigger] q.rw[k] == p.rw[k]
            }
            &&& !(plain && c.roa_tables == 1) ==> {
                &&& q.at == p.at + 1
                &&& q.rw == p.rw
                &&& q.notes.len() == p.notes.len() + 1
            }
        }),
{
}

/// A declaration is a type, a name, and `:=` or `;`. Two words may make up the
/// type.
pub proof fn declarations_are_a_type_and_a_name(s: Seq<char>, ts: Seq<Tok>, i: int)
    requires
        0 <= i < ts.len(),
    ensures
        ({
            let d = decl_at(s, ts, i);
            let two = tok_text(s, ts[i]) == "ip"@ && word_at(ts, i + 1) && is_ip_tail(
                tok_text(s, ts[i + 1]),
            );
            &&& d is Some ==> {
                &&& ts[i].kind == TokKind::Word && is_type(tok_text(s, ts[i]))
                &&& d->0.name == (if two {
                    i + 2
                } else {
                    i + 1
                })
                &&& word_at(ts, d->0.name)
                &&& d->0.sep == d->0.name + 1
                &&& d->0.init ==> sym_at(s, ts, d->0.sep, ":="@)
                &&& !d->0.init ==> sym_at(s, ts, d->0.sep, ";"@)
            }
            &&& ts[i].kind == TokKind::Word && is_type(tok_text(s, ts[i])) && !two && word_at(
                ts,
                i + 1,
            ) && (sym_at(s, ts, i + 2, ":="@) || sym_at(s, ts, i + 2, ";"@)) ==> d is Some
        }),
{
    reveal_strlit(":=");
    reveal_strlit(";");
}

proof fn notes_stay(s: Seq<char>, ts: Seq<Tok>, c: CtxModel, p: Progress)
    requires
        0 <= p.at,
    ensures
        body_run(s, ts, c, p).notes.len() >= p.notes.len(),
    decreases ts.len() - p.at,
{
    if p.at < ts.len() {
        let q = body_step(s, ts, c, p);
        if q.at > p.at {
            notes_stay(s, ts, c, q);
        }
    }
}

/// What was refused stays refused: a translation with one refusal has no text.
pub proof fn refusals_stay(s: Seq<char>, ts: Seq<Tok>, c: CtxModel, p: Progress)
    requires
        0 <= p.at,
    ensures
        body_run(s, ts, c, p).notes.len() >= p.notes.len(),
        body_translation(s, c) is Text <==> body_of(s, c).1.len() == 0,
        body_translation(s, c) is Text ==> body_translation(s, c)->Text_0 == body_of(s, c).0,
        body_translation(s, c) is Notes ==> body_translation(s, c)->Notes_0 == body_of(s, c).1,
{
    notes_stay(s, ts, c, p);
}

/// A constant is the first one defined under its name, and replaces its name
/// unless it leaves a string open.
pub proof fn constants_replace_their_names(defines: Seq<NamedModel>, w: Seq<char>)
    ensures
        constant(defines, w) is None <==> forall|i: int|
            0 <= i < defines.len() ==> (#[trigger] defines[i]).name != w,
        forall|i: int|
            0 <= i < defines.len() && (#[trigger] defines[i]).name == w && (forall|j: int|
                0 <= j < i ==> (#[trigger] defines[j]).name != w) ==> constant(defines, w) == Some(
                defines[i].text,
            ),
        replacement(defines, w) is Some ==> replacement(defines, w) == constant(defines, w)
            && closed_text(constant(defines, w)->0),
        constant(defines, w) is Some && closed_text(constant(defines, w)->0) ==> replacement(
            defines,
            w,
        ) == constant(defines, w),
    decreases defines.len(),
{
    if defines.len() > 0 && defines[0].name != w {
        let t = defines.subrange(1, defines.len() as int);
        constants_replace_their_names(t, w);
        assert forall|i: int|
            0 <= i < defines.len() && (#[trigger] defines[i]).name == w && (forall|j: int|
                0 <= j < i ==> (#[trigger] defines[j]).name != w) implies constant(defines, w) == Some(
            defines[i].text,
        ) by {
            assert(t[i - 1] == defines[i]);
            assert forall|j: int| 0 <= j < i - 1 implies (#[trigger] t[j]).name != w by {
                assert(t[j] == defines[j + 1]);
            }
        }
        if constant(defines, w) is None {
            assert forall|i: int| 0 <= i < defines.len() implies (#[trigger] defines[i]).name != w by {
                if i > 0 {
                    assert(t[i - 1] == defines[i]);
                }
            }
        } else {
            assert(!(forall|i: int| 0 <= i < t.len() ==> (#[trigger] t[i]).name != w));
            let i = choose|i: int| 0 <= i < t.len() && (#[trigger] t[i]).name == w;
            assert(defines[i + 1].name == w);
        }
    }
}

proof fn calls_are(s: Seq<char>, ts: Seq<Tok>, known: Seq<Seq<char>>, n: int, w: Seq<char>)
    requires
        0 <= n <= ts.len(),
    ensures
        calls_to(s, ts, known, n).contains(w) <==> known.contains(w) && exists|k: int|
            0 <= k < n && #[trigger] word_at(ts, k) && tok_text(s, ts[k]) == w && sym_at(
                s,
                ts,
                k + 1,
                "("@,
            ),
        calls_to(s, ts, known, n).no_duplicates(),
    decreases n,
{
    if n > 0 {
        calls_are(s, ts, known, n - 1, w);
        let b = calls_to(s, ts, known, n - 1);
        let a = calls_to(s, ts, known, n);
        let x = tok_text(s, ts[n - 1]);
        calls_are(s, ts, known, n - 1, x);
        if a != b {
            assert(a == b.push(x));
            assert(a[b.len() as int] == x);
            assert(word_at(ts, n - 1));
            if b.contains(w) {
                let i = choose|i: int| 0 <= i < b.len() && b[i] == w;
                assert(a[i] == w);
            }
        }
        if known.contains(w) && exists|k: int|
            0 <= k < n && #[trigger] word_at(ts, k) && tok_text(s, ts[k]) == w && sym_at(
                s,
                ts,
                k + 1,
                "("@,
            ) {
            let k = choose|k: int|
                0 <= k < n && #[trigger] word_at(ts, k) && tok_text(s, ts[k]) == w && sym_at(
                    s,
                    ts,
                    k + 1,
                    "("@,
                );
            if k < n - 1 {
                assert(b.contains(w));
            }
            if b.contains(w) {
                let i = choose|i: int| 0 <= i < b.len() && b[i] == w;
                assert(a[i] == w);
            }
        }
    }
}

/// The functions that a body calls are the known names before a parenthesis,
/// each once.
pub proof fn calls_are_names_before_parentheses(s: Seq<char>, known: Seq<Seq<char>>, w: Seq<char>)
    ensures
        called(s, known).contains(w) <==> known.contains(w) && exists|k: int|
            0 <= k < tokens_of(s).len() && #[trigger] word_at(tokens_of(s), k) && tok_text(
                s,
                tokens_of(s)[k],
            ) == w && sym_at(s, tokens_of(s), k + 1, "("@),
        called(s, known).no_duplicates(),
{
    calls_are(s, tokens_of(s), known, tokens_of(s).len() as int, w);
}

/// A function is translated as a header without types, its body, and what closes
/// it; without braces, or with a refused construct in its body, it is not.
pub proof fn functions_are_header_and_body(text: Seq<char>, c: CtxModel)
    ensures
        ({
            let t = function_translation(text, c);
            let brace = next_char(text, 0, '{');
            let rest = trim_end_of(text.subrange(brace, text.len() as int));
            let close = last_at(rest, rest.len() as int, '}');
            let b = body_of(rest.subrange(0, close), c);
            &&& t is Text <==> brace < text.len() && close >= 0 && b.1.len() == 0
            &&& t is Text ==> t->Text_0 == trim_end_of(header_of(text.subrange(0, brace))) + " "@ + b.0
                + rest.subrange(close, rest.len() as int)
            &&& brace < text.len() && close >= 0 && b.1.len() > 0 ==> t == Translated::Notes(b.1)
        }),
{
}

/// A parameter of a function keeps its name and loses its type, of one word or of
/// two; what is no parameter stays.
pub proof fn headers_lose_their_types(
    s: Seq<char>,
    ts: Seq<Tok>,
    i: int,
    rw: Seq<Option<Seq<char>>>,
)
    requires
        0 <= i < ts.len(),
        rw.len() == ts.len(),
    ensures
        ({
            let typed = |k: int| word_at(ts, k) && is_type(tok_text(s, ts[k]));
            let open = tok_text(s, ts[i]) != "function"@;
            &&& !typed(i) ==> header_run(s, ts, i, rw) == header_run(s, ts, i + 1, rw)
            &&& open && typed(i) && !typed(i + 1) && word_at(ts, i + 1) ==> header_run(s, ts, i, rw)
                == header_run(
                s,
                ts,
                i + 2,
                rw.update(i, Some(tok_text(s, ts[i + 1]))).update(i + 1, Some(Seq::empty())),
            )
            &&& open && typed(i) && typed(i + 1) && word_at(ts, i + 2) ==> header_run(s, ts, i, rw)
                == header_run(
                s,
                ts,
                i + 3,
                rw.update(i, Some(tok_text(s, ts[i + 2]))).update(i + 1, Some(Seq::empty())).update(
                    i + 2,
                    Some(Seq::empty()),
                ),
            )
        }),
{
    reveal_with_fuel(type_run, 4);
    if word_at(ts, i + 1) {
        let a = rw.update(i, Some(tok_text(s, ts[i + 1])));
        assert(emptied(a, i + 1, i + 2) =~= a.update(i + 1, Some(Seq::empty())));
    }
    if word_at(ts, i + 1) && word_at(ts, i + 2) {
        let a = rw.update(i, Some(tok_text(s, ts[i + 2])));
        assert(emptied(a, i + 1, i + 3) =~= a.update(i + 1, Some(Seq::empty())).update(
            i + 2,
            Some(Seq::empty()),
        ));
    }
}

/// A name in scope is known, any other is noted; a `let` brings its name into
/// scope behind its value, and a block's names end with it.
pub proof fn names_are_known_in_their_scope(
    x: String,
    e: Expr,
    w: Walk,
    u: Expr,
    l: Stmt,
    a: Stmt,
    b: Stmt,
)
    requires
        u == Expr::Var(x),
        l == (Stmt::Let { name: x, value: e }),
        a == (Stmt::Assign { name: x, value: e }),
        b is Block,
    ensures
        w.scope.contains(x@) ==> walk_expr(u, w) == w,
        !w.scope.contains(x@) ==> {
            &&& walk_expr(u, w).scope == w.scope
            &&& walk_expr(u, w).unknown.len() == w.unknown.len() + 1
            &&& walk_expr(u, w).unknown.drop_last() == w.unknown
        },
        walk_stmt(l, w).scope == w.scope.push(x@),
        walk_stmt(l, w).unknown == walk_expr(e, w).unknown,
        walk_stmt(a, w).scope == w.scope,
        w.scope.contains(x@) ==> walk_stmt(a, w).unknown == walk_expr(e, w).unknown,
        !w.scope.contains(x@) ==> walk_stmt(a, w).unknown.len() == walk_expr(e, w).unknown.len() + 1,
        walk_stmt(b, w).scope == w.scope,
        walk_stmt(b, w).unknown == walk_stmts(b->Block_0, b->Block_0@.len(), w).unknown,
{
    scope_grows_expr(e, w);
    if !w.scope.contains(x@) {
        assert(walk_expr(u, w).unknown.drop_last() =~= w.unknown);
    }
}

/// Both branches of a condition and all statements of a list are looked at, in
/// their order.
pub proof fn statements_are_looked_at_in_turn(v: Vec<Stmt>, n: nat, w: Walk, i: Stmt)
    requires
        n < v@.len(),
        i is If,
    ensures
        walk_stmts(v, 0, w) == w,
        walk_stmts(v, n + 1, w) == walk_stmt(v[n as int], walk_stmts(v, n, w)),
        i->no is None ==> walk_stmt(i, w) == walk_stmt(*i->yes, walk_expr(i->cond, w)),
        i->no is Some ==> walk_stmt(i, w) == walk_stmt(
            *i->no->0,
            walk_stmt(*i->yes, walk_expr(i->cond, w)),
        ),
        walk_stmt(Stmt::Use(i->cond), w) == walk_expr(i->cond, w),
        walk_stmt(Stmt::Plain, w) == w,
{
}

/// Whether texts ascend.
pub open spec fn texts_ascend(s: Seq<Seq<char>>) -> bool {
    forall|i: int, j: int| 0 <= i < j < s.len() ==> text_before(#[trigger] s[i], #[trigger] s[j])
}

proof fn rank_splits(s: Seq<Seq<char>>, x: Seq<char>)
    requires
        texts_ascend(s),
    ensures
        text_rank(s, x) <= s.len(),
        forall|i: int| 0 <= i < text_rank(s, x) ==> text_before(#[trigger] s[i], x),
        forall|i: int| text_rank(s, x) <= i < s.len() ==> !text_before(#[trigger] s[i], x),
    decreases s.len(),
{
    if s.len() > 0 {
        let t = s.subrange(1, s.len() as int);
        if text_before(s[0], x) {
            assert(texts_ascend(t)) by {
                assert forall|i: int, j: int| 0 <= i < j < t.len() implies text_before(
                    #[trigger] t[i],
                    #[trigger] t[j],
                ) by {
                    assert(t[i] == s[i + 1] && t[j] == s[j + 1]);
                }
            }
            rank_splits(t, x);
            let r = text_rank(s, x) as int;
            assert forall|i: int| 0 <= i < r implies text_before(#[trigger] s[i], x) by {
                if i > 0 {
                    assert(t[i - 1] == s[i]);
                }
            }
            assert forall|i: int| r <= i < s.len() implies !text_before(#[trigger] s[i], x) by {
                assert(t[i - 1] == s[i]);
            }
        } else {
            assert forall|i: int| 0 <= i < s.len() implies !text_before(#[trigger] s[i], x) by {
                if i > 0 && text_before(s[i], x) {
                    assert(text_before(s[0], s[i]));
                    text_order_is_transitive(s[0], s[i], x);
                }
            }
        }
    }
}

/// Sorting keeps every text, once, in ascending order.
pub proof fn sorted_notes_are_the_notes(s: Seq<Seq<char>>)
    ensures
        texts_ascend(sorted_texts(s)),
        forall|x: Seq<char>| #[trigger] sorted_texts(s).contains(x) <==> s.contains(x),
    decreases s.len(),
{
    if s.len() > 0 {
        let t = s.drop_last();
        let x = s.last();
        sorted_notes_are_the_notes(t);
        let a = sorted_texts(t);
        let b = sorted_texts(s);
        rank_splits(a, x);
        let r = text_rank(a, x) as int;
        assert(b == insert_text(a, x));
        let same = r < a.len() && a[r] == x;
        if !same {
            assert(b == a.insert(r, x));
            assert forall|i: int, j: int| 0 <= i < j < b.len() implies text_before(
                #[trigger] b[i],
                #[trigger] b[j],
            ) by {
                if i == r {
                    assert(b[j] == a[j - 1]);
                    text_order_is_total(x, a[j - 1]);
                    if a[j - 1] == x {
                        if j - 1 > r {
                            assert(text_before(a[r], a[j - 1]));
                        }
                    }
                } else if j == r {
                    assert(b[i] == a[i]);
                } else {
                    let i0 = if i < r {
                        i
                    } else {
                        i - 1
                    };
                    let j0 = if j < r {
                        j
                    } else {
                        j - 1
                    };
                    assert(b[i] == a[i0] && b[j] == a[j0]);
                }
            }
        }
        assert forall|y: Seq<char>| #[trigger] b.contains(y) <==> s.contains(y) by {
            assert(t.contains(y) == a.contains(y));
            if s.contains(y) {
                let i = choose|i: int| 0 <= i < s.len() && s[i] == y;
                if i < t.len() {
                    assert(t[i] == y);
                    let k = choose|k: int| 0 <= k < a.len() && a[k] == y;
                    if !same {
                        let k0 = if k < r {
                            k
                        } else {
                            k + 1
                        };
                        assert(b[k0] == y);
                    }
                } else {
                    assert(b[r] == y);
                }
            }
            if b.contains(y) {
                let k = choose|k: int| 0 <= k < b.len() && b[k] == y;
                if same {
                    assert(a[k] == y);
                } else if k == r {
                    assert(s[s.len() - 1] == y);
                } else {
                    let k0 = if k < r {
                        k
                    } else {
                        k - 1
                    };
                    assert(a[k0] == y);
                }
                if a.contains(y) {
                    let i = choose|i: int| 0 <= i < t.len() && t[i] == y;
                    assert(s[i] == y);
                }
            }
        }
    }
}

/// A filter is emitted under its name with its text exactly if it was translated,
/// compiles, and uses no unknown name; otherwise it is reported under its name.
pub proof fn filters_are_emitted_or_reported(
    f: FiltersModel,
    ds: Seq<DraftModel>,
    os: Seq<CompileOutcome>,
    d: DraftModel,
    o: CompileOutcome,
)
    requires
        os.len() == ds.len(),
    ensures
        ({
            let a = settle_all(f, ds, os);
            let b = settle_all(f, ds.push(d), os.push(o));
            let sound = d.draft is Text && o is Parsed && unknown_names(o->Parsed_0).len() == 0;
            &&& sound ==> b.failed == a.failed && b.ok == a.ok.push(
                NamedModel { name: d.name, text: d.draft->Text_0 },
            )
            &&& !sound ==> {
                &&& b.ok == a.ok
                &&& b.failed.len() == a.failed.len() + 1
                &&& b.failed.drop_last() == a.failed
                &&& b.failed.last().name == d.name
                &&& b.failed.last().lines.len() > 0 || d.draft is Notes
                &&& d.draft is Notes ==> b.failed.last().lines == d.draft->Notes_0
                &&& d.draft is Text && o is Parsed ==> b.failed.last().lines == unknown_names(
                    o->Parsed_0,
                )
            }
        }),
        settle_all(f, Seq::empty(), Seq::empty()) == f,
{
    assert(ds.push(d).drop_last() =~= ds);
    assert(os.push(o).drop_last() =~= os);
    let a = settle_all(f, ds, os);
    let b = settle_all(f, ds.push(d), os.push(o));
    if b.failed.len() > a.failed.len() {
        assert(b.failed.drop_last() =~= a.failed);
    }
}

/// Every filter of a source is drafted under its name, in order; every function
/// that could not be translated is reported.
pub proof fn filters_are_drafted_in_order(src: SourceModel, i: int)
    requires
        0 <= i < src.filters.len(),
    ensures
        drafts_of(src).len() == src.filters.len(),
        drafts_of(src)[i].name == src.filters[i].name,
        drafts_of(src)[i].draft == filter_draft(
            src.filters[i],
            function_drafts(src.functions, ctx_of(src)),
            ctx_of(src),
        ),
        ctx_of(src).defines == src.defines,
        ctx_of(src).roa_tables == src.roa_tables.len(),
{
}

/// A function keeps its name; one that could not be translated is reported with
/// its reasons, each with the function's name before it.
pub proof fn functions_are_drafted(fs: Seq<FunctionModel>, x: FunctionModel, f: NamedModel, c: CtxModel)
    ensures
        ({
            let d = function_draft(f, c);
            let t = function_translation(f.text, c);
            &&& d.name == f.name
            &&& t is Text ==> d.decl == Some(t->Text_0) && d.notes.len() == 0
            &&& t is Notes ==> {
                &&& d.decl is None
                &&& d.notes.len() == t->Notes_0.len()
                &&& forall|i: int|
                    0 <= i < d.notes.len() ==> #[trigger] d.notes[i] == "function "@ + f.name + ": "@
                        + t->Notes_0[i]
            }
        }),
        failed_of(Seq::empty()).len() == 0,
        failed_of(fs.push(x)) == (if x.decl is None {
            failed_of(fs).push(NamedLinesModel { name: x.name, lines: x.notes })
        } else {
            failed_of(fs)
        }),
{
    assert(fs.push(x).drop_last() =~= fs);
}

/// A filter that needs a function without a translation has none itself;
/// otherwise its text is the declarations it needs and then its own body.
pub proof fn filters_bring_their_functions(
    f: NamedLinesModel,
    fs: Seq<FunctionModel>,
    c: CtxModel,
)
    ensures
        ({
            let body = joined_by(f.lines, "\n"@);
            let needed = closure(fs, Seq::empty(), called(body, names_of(fs)));
            let stuck = exists|i: int, k: int|
                0 <= i < needed.len() && 0 <= k < fs.len() && #[trigger] fs[k].name
                    == #[trigger] needed[i] && fs[k].decl is None;
            let d = filter_draft(f, fs, c);
            &&& stuck ==> d is Notes
            &&& d is Text <==> !stuck && body_translation(body, c) is Text
            &&& d is Text ==> d->Text_0 == decls_text(fs, needed) + body_translation(body, c)->Text_0
        }),
{
    let body = joined_by(f.lines, "\n"@);
    let needed = closure(fs, Seq::empty(), called(body, names_of(fs)));
    if blocked(fs, needed) {
        let i = choose|i: int| 0 <= i < needed.len() && failed_function(fs, #[trigger] needed[i]);
        let k = choose|k: int|
            0 <= k < fs.len() && (#[trigger] fs[k]).name == needed[i] && fs[k].decl is None;
        assert(fs[k].name == needed[i]);
    }
    if exists|i: int, k: int|
        0 <= i < needed.len() && 0 <= k < fs.len() && #[trigger] fs[k].name == #[trigger] needed[i]
            && fs[k].decl is None {
        let (i, k) = choose|i: int, k: int|
            0 <= i < needed.len() && 0 <= k < fs.len() && #[trigger] fs[k].name
                == #[trigger] needed[i] && fs[k].decl is None;
        assert(failed_function(fs, needed[i]));
    }
}

/// The declarations stand in order, a line each.
pub proof fn declarations_stand_in_order(fs: Seq<FunctionModel>, needed: Seq<Seq<char>>, x: Seq<char>)
    ensures
        decls_text(fs, Seq::empty()).len() == 0,
        decl_of(fs, x) is Some ==> decls_text(fs, needed.push(x)) == decls_text(fs, needed) + decl_of(
            fs,
            x,
        )->0 + "\n"@,
{
    assert(needed.push(x).drop_last() =~= needed);
}

/// The declaration of a function is the first translated one under its name.
pub proof fn declarations_go_by_name(fs: Seq<FunctionModel>, name: Seq<char>, i: int)
    requires
        0 <= i < fs.len(),
        fs[i].name == name,
        fs[i].decl is Some,
        forall|j: int| 0 <= j < i ==> (#[trigger] fs[j]).name != name || fs[j].decl is None,
    ensures
        decl_of(fs, name) == fs[i].decl,
    decreases fs.len(),
{
    if i > 0 {
        let t = fs.subrange(1, fs.len() as int);
        assert(fs[0].name != name || fs[0].decl is None);
        assert(t[i - 1] == fs[i]);
        assert forall|j: int| 0 <= j < i - 1 implies (#[trigger] t[j]).name != name || t[j].decl
            is None by {
            assert(t[j] == fs[j + 1]);
        }
        declarations_go_by_name(t, name, i - 1);
    }
}

proof fn added_are(frontier: Seq<Seq<char>>, deps: Seq<Seq<char>>, needed: Seq<Seq<char>>)
    ensures
        forall|x: Seq<char>|
            #[trigger] added(frontier, deps, needed).contains(x) <==> frontier.contains(x) || (
            deps.contains(x) && !needed.contains(x)),
    decreases deps.len(),
{
    if deps.len() > 0 {
        let d = deps.drop_last();
        let y = deps.last();
        added_are(frontier, d, needed);
        let b = added(frontier, d, needed);
        let a = added(frontier, deps, needed);
        assert forall|x: Seq<char>| #[trigger] a.contains(x) <==> frontier.contains(x) || (
        deps.contains(x) && !needed.contains(x)) by {
            assert(b.contains(x) <==> frontier.contains(x) || (d.contains(x) && !needed.contains(x)));
            if deps.contains(x) {
                let i = choose|i: int| 0 <= i < deps.len() && deps[i] == x;
                if i < d.len() {
                    assert(d[i] == x);
                }
            }
            if d.contains(x) {
                let i = choose|i: int| 0 <= i < d.len() && d[i] == x;
                assert(deps[i] == x);
            }
            assert(deps[deps.len() - 1] == y);
            if a != b {
                assert(a == b.push(y));
                assert(a[b.len() as int] == y);
                if b.contains(x) {
                    let i = choose|i: int| 0 <= i < b.len() && b[i] == x;
                    assert(a[i] == x);
                }
                if a.contains(x) {
                    let i = choose|i: int| 0 <= i < a.len() && a[i] == x;
                    if i < b.len() {
                        assert(b[i] == x);
                    }
                }
            }
        }
    }
}

/// The functions that a translated function calls.
pub open spec fn callees(fs: Seq<FunctionModel>, f: Seq<char>) -> Seq<Seq<char>> {
    if decl_of(fs, f) is Some {
        called(decl_of(fs, f)->0, names_of(fs))
    } else {
        Seq::empty()
    }
}

/// What a filter needs holds what it calls and all that those call in turn,
/// unless it holds as many names as there are functions.
pub proof fn needed_functions_are_closed(
    fs: Seq<FunctionModel>,
    needed: Seq<Seq<char>>,
    frontier: Seq<Seq<char>>,
)
    ensures
        ({
            let r = closure(fs, needed, frontier);
            &&& forall|x: Seq<char>| needed.contains(x) ==> #[trigger] r.contains(x)
            &&& r.len() < fs.len() ==> {
                &&& forall|x: Seq<char>| frontier.contains(x) ==> #[trigger] r.contains(x)
                &&& forall|x: Seq<char>, y: Seq<char>|
                    #[trigger] r.contains(x) && !needed.contains(x) && #[trigger] callees(fs, x).contains(
                        y,
                    ) ==> r.contains(y)
            }
        }),
    decreases fs.len() - needed.len(), frontier.len(),
{
    if !(frontier.len() == 0 || needed.len() >= fs.len()) {
        let f = frontier.last();
        let rest = frontier.drop_last();
        let r = closure(fs, needed, frontier);
        if needed.contains(f) {
            needed_functions_are_closed(fs, needed, rest);
            assert forall|x: Seq<char>| r.len() < fs.len() && frontier.contains(x) implies #[trigger] r.contains(
                x,
            ) by {
                let i = choose|i: int| 0 <= i < frontier.len() && frontier[i] == x;
                if i < rest.len() {
                    assert(rest[i] == x);
                    assert(rest.contains(x));
                } else {
                    assert(needed.contains(x));
                }
            }
        } else {
            let more = needed.push(f);
            let deps = callees(fs, f);
            added_are(rest, deps, more);
            let next = added(rest, deps, more);
            needed_functions_are_closed(fs, more, next);
            assert(r == closure(fs, more, next));
            assert(more[needed.len() as int] == f);
            assert(more.contains(f));
            assert forall|x: Seq<char>| needed.contains(x) implies #[trigger] r.contains(x) by {
                let i = choose|i: int| 0 <= i < needed.len() && needed[i] == x;
                assert(more[i] == x);
                assert(more.contains(x));
            }
            if r.len() < fs.len() {
                assert forall|x: Seq<char>| frontier.contains(x) implies #[trigger] r.contains(x) by {
                    let i = choose|i: int| 0 <= i < frontier.len() && frontier[i] == x;
                    if i < rest.len() {
                        assert(rest[i] == x);
                        assert(rest.contains(x));
                        assert(next.contains(x));
                    }
                }
                assert forall|x: Seq<char>, y: Seq<char>|
                    #[trigger] r.contains(x) && !needed.contains(x) && #[trigger] callees(fs, x).contains(
                        y,
                    ) implies r.contains(y) by {
                    if x == f {
                        if more.contains(y) {
                        } else {
                            assert(next.contains(y));
                        }
                    } else {
                        assert(!more.contains(x)) by {
                            if more.contains(x) {
                                let i = choose|i: int| 0 <= i < more.len() && more[i] == x;
                                assert(needed[i] == x);
                            }
                        }
                    }
                }
            }
        }
    }
}

/// The rows of the tables stand one table after another.
pub proof fn roa_rows_stand_in_order(tables: Seq<Seq<RoaModel>>, t: Seq<RoaModel>)
    ensures
        all_roas(Seq::empty()).len() == 0,
        all_roas(tables.push(t)) == all_roas(tables) + t,
{
    assert(tables.push(t).drop_last() =~= tables);
}

/// A `where` clause accepts what its expression holds of and rejects the rest; it
/// is kept only if it translates and compiles.
pub proof fn where_clauses_accept_what_they_hold_of(
    expr: Seq<char>,
    c: CtxModel,
    o: CompileOutcome,
)
    ensures
        ({
            let t = body_translation(expr, c);
            let d = where_draft(expr, c);
            let r = where_result(d, o);
            &&& d is Text <==> t is Text
            &&& d is Text ==> d->Text_0 == "if "@ + t->Text_0 + " then accept;\nreject;"@
            &&& r is Text <==> t is Text && o is Parsed
            &&& r is Text ==> r->Text_0 == d->Text_0
            &&& t is Notes ==> r == Translated::Notes(t->Notes_0)
        }),
{
}

} // verus!
