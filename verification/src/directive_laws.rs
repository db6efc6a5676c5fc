//! What comment directives say, and what they set.

use crate::conf::{DirectiveModel, PeerModel};
use crate::directives::{
    attached, directive_of, integer_in, literal_of, marker_body, resolved, shape_of, toml_text,
    DirScope, Literal, Shape,
};
use crate::text::{
    after_prefix, char_is, decimal, is_space, joined_by, lower_of, next_char, next_where_is,
    replaced, trim_char_of, trim_end_char_of, trim_of, trim_start_of, words_of,
};
use crate::text_laws::{
    numbers_are_read_by_their_digits, one_space_is_trimmed, splits_are_at_the_first,
    trimmed_texts_stay, trimming_takes_one_character, words_are_between_spaces,
};
use vstd::prelude::*;
use vstd::string::*;

verus! {

proof fn first_is(a: Seq<char>, c: char, b: Seq<char>)
    requires
        !a.contains(c),
    ensures
        next_char(a + seq![c] + b, 0, c) == a.len(),
{
    let s = a + seq![c] + b;
    assert forall|k: int| 0 <= k < a.len() implies !char_is(c)(#[trigger] s[k]) by {
        assert(s[k] == a[k]);
        assert(a.contains(a[k]));
    }
    assert(s[a.len() as int] == c);
    next_where_is(s, 0, char_is(c), a.len() as int);
}

/// A directive is what stands behind `lr:` in a comment. A hash starts a comment,
/// and where it does so in the dialect an exclamation mark.
pub proof fn directives_stand_in_comments(a: Seq<char>, b: Seq<char>, r: Seq<char>, bang: bool)
    requires
        !a.contains('#'),
        !a.contains('!'),
        after_prefix(trim_start_of(b), "lr:"@) == Some(r),
    ensures
        marker_body(a, bang) is None,
        trim_of(r).len() > 0 ==> {
            &&& marker_body(a + seq!['#'] + b, bang) == Some(trim_of(r))
            &&& marker_body(a + seq!['!'] + b, true) == Some(trim_of(r))
        },
        trim_of(r).len() == 0 ==> {
            &&& marker_body(a + seq!['#'] + b, bang) is None
            &&& marker_body(a + seq!['!'] + b, true) is None
        },
        !b.contains('#') ==> marker_body(a + seq!['!'] + b, false) is None,
{
    splits_are_at_the_first(a, '#');
    splits_are_at_the_first(a, '!');
    let h = a + seq!['#'] + b;
    let x = a + seq!['!'] + b;
    first_is(a, '#', b);
    first_is(a, '!', b);
    let n = a.len() as int;
    assert(h.subrange(n + 1, h.len() as int) =~= b);
    assert(x.subrange(n + 1, x.len() as int) =~= b);
    crate::text::next_where_splits(h, 0, char_is('!'));
    crate::text::next_where_splits(x, 0, char_is('#'));
    let i = next_char(h, 0, '!');
    if i < n {
        assert(char_is('!')(h[i]));
        assert(h[i] == a[i]);
        assert(a.contains(a[i]));
    }
    if i == n {
        assert(char_is('!')(h[n]));
        assert(h[n] == '#');
    }
    let j = next_char(x, 0, '#');
    if j < n {
        assert(char_is('#')(x[j]));
        assert(x[j] == a[j]);
        assert(a.contains(a[j]));
    }
    if j == n {
        assert(char_is('#')(x[n]));
        assert(x[n] == '!');
    }
    if !b.contains('#') && j < x.len() {
        assert(char_is('#')(x[j]));
        assert(x[j] == b[j - n - 1]);
        assert(b.contains(b[j - n - 1]));
    }
}

proof fn keeps(s: Seq<char>, c: char)
    requires
        s.len() > 0,
        s.last() != c,
    ensures
        trim_end_char_of(s, c) == s,
        s[0] != c ==> trim_char_of(s, c) == s,
{
    let a = trimming_takes_one_character(s, c);
    let t = trim_end_char_of(s, c);
    assert(t.len() == s.len()) by {
        if t.len() < s.len() {
            assert(s[s.len() - 1] == c);
        }
    }
    assert(t =~= s);
    if s[0] != c {
        let u = trim_char_of(s, c);
        assert(a == 0) by {
            if a > 0 {
                assert(s[0] == c);
            }
        }
        assert(u.len() == s.len()) by {
            if u.len() < s.len() {
                assert(s[s.len() - 1] == c);
            }
        }
        assert(u =~= s);
    }
}

/// A directive reads the same with and without an equals sign: its key, in lower
/// case with underscores, and its value.
pub proof fn directives_are_key_and_value(k: Seq<char>, v: Seq<char>)
    requires
        k.len() > 0,
        v.len() > 0,
        forall|i: int| 0 <= i < k.len() ==> !is_space(#[trigger] k[i]) && k[i] != '=',
        forall|i: int| 0 <= i < v.len() ==> !is_space(#[trigger] v[i]) && v[i] != '=',
        k.last() != ';',
        v.last() != ';',
        v[0] != '"',
        v.last() != '"',
    ensures
        directive_of(k + " = "@ + v).key == replaced(lower_of(k), '-', "_"@),
        directive_of(k + " = "@ + v).value == Some(v),
        directive_of(k + " "@ + v).key == replaced(lower_of(k), '-', "_"@),
        directive_of(k + " "@ + v).value == Some(v),
        directive_of(k).key == replaced(lower_of(k), '-', "_"@),
        directive_of(k).value is None,
{
    reveal_strlit(" = ");
    reveal_strlit(" ");
    assert(!is_space(k[0]) && !is_space(k[k.len() - 1]));
    assert(!is_space(v[0]) && !is_space(v[v.len() - 1]));
    keeps(k, ';');
    keeps(v, ';');
    keeps(v, '"');
    trimmed_texts_stay(k);
    trimmed_texts_stay(v);
    words_are_between_spaces(k, ' ', v);
    words_are_between_spaces(v, ' ', v);
    words_are_between_spaces(k, ' ', Seq::empty());
    // With the sign.
    let s = k + " = "@ + v;
    assert(s[0] == k[0] && s.last() == v.last());
    trimmed_texts_stay(s);
    let a = k + seq![' '];
    let b = seq![' '] + v;
    assert(s =~= a + seq!['='] + b);
    assert(!a.contains('=')) by {
        if a.contains('=') {
            let i = choose|i: int| 0 <= i < a.len() && a[i] == '=';
            if i < k.len() {
                assert(k[i] == '=');
            }
        }
    }
    first_is(a, '=', b);
    let n = a.len() as int;
    assert(s.subrange(0, n) =~= a);
    assert(s.subrange(n + 1, s.len() as int) =~= b);
    one_space_is_trimmed(k);
    one_space_is_trimmed(v);
    assert(words_of(k)[0] == k);
    // Without it.
    let t = k + " "@ + v;
    assert(t[0] == k[0] && t.last() == v.last());
    trimmed_texts_stay(t);
    assert(t =~= k + seq![' '] + v);
    no_sign(t, k, v);
    let ws = words_of(t);
    assert(ws =~= seq![k, v]);
    assert(ws.subrange(1, 2) =~= seq![v]);
    assert(joined_by(seq![v], " "@) == v);
    // Alone.
    no_sign(k, k, Seq::empty());
    assert(words_of(k).subrange(1, 1) =~= Seq::empty());
    assert(joined_by(Seq::empty(), " "@).len() == 0);
}

proof fn no_sign(t: Seq<char>, k: Seq<char>, v: Seq<char>)
    requires
        forall|i: int| 0 <= i < k.len() ==> !is_space(#[trigger] k[i]) && k[i] != '=',
        forall|i: int| 0 <= i < v.len() ==> !is_space(#[trigger] v[i]) && v[i] != '=',
        t == k + seq![' '] + v || t == k,
    ensures
        next_char(t, 0, '=') == t.len(),
{
    assert forall|i: int| 0 <= i < t.len() implies !char_is('=')(#[trigger] t[i]) by {
        if i < k.len() {
            assert(t[i] == k[i]);
        } else if i > k.len() {
            assert(t[i] == v[i - k.len() - 1]);
        }
    }
    next_where_is(t, 0, char_is('='), t.len() as int);
}

proof fn keys_differ()
    ensures
        "install_kernel"@ != "api_socket"@,
        "install_kernel"@ != "user"@,
        "install_kernel"@ != "group"@,
        "install_kernel"@ != "listen"@,
        "install_kernel"@ != "bmp_target"@,
        "install_kernel"@ != "graceful_restart"@,
        "install_kernel"@ != "llgr"@,
        "install_kernel"@ != "llgr_max_stale"@,
        "install_kernel"@ != "ebgp_policy"@,
        "install_kernel"@ != "max_prefix_threshold"@,
        "install_kernel"@ != "extended_next_hop"@,
        "install_kernel"@ != "allow_local_as"@,
        "install_kernel"@ != "local_address"@,
        "install_kernel"@ != "add_path"@,
        "install_kernel"@ != "add_path_max"@,
        "install_kernel"@ != "max_prefixes"@,
        "install_kernel"@ != "max_prefix_action"@,
        "install_kernel"@ != "gtsm"@,
        "install_kernel"@ != "soft_reconfig_inbound"@,
        "api_socket"@ != "user"@,
        "api_socket"@ != "group"@,
        "api_socket"@ != "listen"@,
        "api_socket"@ != "bmp_target"@,
        "api_socket"@ != "graceful_restart"@,
        "api_socket"@ != "llgr"@,
        "api_socket"@ != "llgr_max_stale"@,
        "api_socket"@ != "ebgp_policy"@,
        "api_socket"@ != "max_prefix_threshold"@,
        "api_socket"@ != "extended_next_hop"@,
        "api_socket"@ != "allow_local_as"@,
        "api_socket"@ != "local_address"@,
        "api_socket"@ != "add_path"@,
        "api_socket"@ != "add_path_max"@,
        "api_socket"@ != "max_prefixes"@,
        "api_socket"@ != "max_prefix_action"@,
        "api_socket"@ != "gtsm"@,
        "api_socket"@ != "soft_reconfig_inbound"@,
        "user"@ != "group"@,
        "user"@ != "listen"@,
        "user"@ != "bmp_target"@,
        "user"@ != "graceful_restart"@,
        "user"@ != "llgr"@,
        "user"@ != "llgr_max_stale"@,
        "user"@ != "ebgp_policy"@,
        "user"@ != "max_prefix_threshold"@,
        "user"@ != "extended_next_hop"@,
        "user"@ != "allow_local_as"@,
        "user"@ != "local_address"@,
        "user"@ != "add_path"@,
        "user"@ != "add_path_max"@,
        "user"@ != "max_prefixes"@,
        "user"@ != "max_prefix_action"@,
        "user"@ != "gtsm"@,
        "user"@ != "soft_reconfig_inbound"@,
        "group"@ != "listen"@,
        "group"@ != "bmp_target"@,
        "group"@ != "graceful_restart"@,
        "group"@ != "llgr"@,
        "group"@ != "llgr_max_stale"@,
        "group"@ != "ebgp_policy"@,
        "group"@ != "max_prefix_threshold"@,
        "group"@ != "extended_next_hop"@,
        "group"@ != "allow_local_as"@,
        "group"@ != "local_address"@,
        "group"@ != "add_path"@,
        "group"@ != "add_path_max"@,
        "group"@ != "max_prefixes"@,
        "group"@ != "max_prefix_action"@,
        "group"@ != "gtsm"@,
        "group"@ != "soft_reconfig_inbound"@,
        "listen"@ != "bmp_target"@,
        "listen"@ != "graceful_restart"@,
        "listen"@ != "llgr"@,
        "listen"@ != "llgr_max_stale"@,
        "listen"@ != "ebgp_policy"@,
        "listen"@ != "max_prefix_threshold"@,
        "listen"@ != "extended_next_hop"@,
        "listen"@ != "allow_local_as"@,
        "listen"@ != "local_address"@,
        "listen"@ != "add_path"@,
        "listen"@ != "add_path_max"@,
        "listen"@ != "max_prefixes"@,
        "listen"@ != "max_prefix_action"@,
        "listen"@ != "gtsm"@,
        "listen"@ != "soft_reconfig_inbound"@,
        "bmp_target"@ != "graceful_restart"@,
        "bmp_target"@ != "llgr"@,
        "bmp_target"@ != "llgr_max_stale"@,
        "bmp_target"@ != "ebgp_policy"@,
        "bmp_target"@ != "max_prefix_threshold"@,
        "bmp_target"@ != "extended_next_hop"@,
        "bmp_target"@ != "allow_local_as"@,
        "bmp_target"@ != "local_address"@,
        "bmp_target"@ != "add_path"@,
        "bmp_target"@ != "add_path_max"@,
        "bmp_target"@ != "max_prefixes"@,
        "bmp_target"@ != "max_prefix_action"@,
        "bmp_target"@ != "gtsm"@,
        "bmp_target"@ != "soft_reconfig_inbound"@,
        "graceful_restart"@ != "llgr"@,
        "graceful_restart"@ != "llgr_max_stale"@,
        "graceful_restart"@ != "ebgp_policy"@,
        "graceful_restart"@ != "max_prefix_threshold"@,
        "graceful_restart"@ != "extended_next_hop"@,
        "graceful_restart"@ != "allow_local_as"@,
        "graceful_restart"@ != "local_address"@,
        "graceful_restart"@ != "add_path"@,
        "graceful_restart"@ != "add_path_max"@,
        "graceful_restart"@ != "max_prefixes"@,
        "graceful_restart"@ != "max_prefix_action"@,
        "graceful_restart"@ != "gtsm"@,
        "graceful_restart"@ != "soft_reconfig_inbound"@,
        "llgr"@ != "llgr_max_stale"@,
        "llgr"@ != "ebgp_policy"@,
        "llgr"@ != "max_prefix_threshold"@,
        "llgr"@ != "extended_next_hop"@,
        "llgr"@ != "allow_local_as"@,
        "llgr"@ != "local_address"@,
        "llgr"@ != "add_path"@,
        "llgr"@ != "add_path_max"@,
        "llgr"@ != "max_prefixes"@,
        "llgr"@ != "max_prefix_action"@,
        "llgr"@ != "gtsm"@,
        "llgr"@ != "soft_reconfig_inbound"@,
        "llgr_max_stale"@ != "ebgp_policy"@,
        "llgr_max_stale"@ != "max_prefix_threshold"@,
        "llgr_max_stale"@ != "extended_next_hop"@,
        "llgr_max_stale"@ != "allow_local_as"@,
        "llgr_max_stale"@ != "local_address"@,
        "llgr_max_stale"@ != "add_path"@,
        "llgr_max_stale"@ != "add_path_max"@,
        "llgr_max_stale"@ != "max_prefixes"@,
        "llgr_max_stale"@ != "max_prefix_action"@,
        "llgr_max_stale"@ != "gtsm"@,
        "llgr_max_stale"@ != "soft_reconfig_inbound"@,
        "ebgp_policy"@ != "max_prefix_threshold"@,
        "ebgp_policy"@ != "extended_next_hop"@,
        "ebgp_policy"@ != "allow_local_as"@,
        "ebgp_policy"@ != "local_address"@,
        "ebgp_policy"@ != "add_path"@,
        "ebgp_policy"@ != "add_path_max"@,
        "ebgp_policy"@ != "max_prefixes"@,
        "ebgp_policy"@ != "max_prefix_action"@,
        "ebgp_policy"@ != "gtsm"@,
        "ebgp_policy"@ != "soft_reconfig_inbound"@,
        "max_prefix_threshold"@ != "extended_next_hop"@,
        "max_prefix_threshold"@ != "allow_local_as"@,
        "max_prefix_threshold"@ != "local_address"@,
        "max_prefix_threshold"@ != "add_path"@,
        "max_prefix_threshold"@ != "add_path_max"@,
        "max_prefix_threshold"@ != "max_prefixes"@,
        "max_prefix_threshold"@ != "max_prefix_action"@,
        "max_prefix_threshold"@ != "gtsm"@,
        "max_prefix_threshold"@ != "soft_reconfig_inbound"@,
        "extended_next_hop"@ != "allow_local_as"@,
        "extended_next_hop"@ != "local_address"@,
        "extended_next_hop"@ != "add_path"@,
        "extended_next_hop"@ != "add_path_max"@,
        "extended_next_hop"@ != "max_prefixes"@,
        "extended_next_hop"@ != "max_prefix_action"@,
        "extended_next_hop"@ != "gtsm"@,
        "extended_next_hop"@ != "soft_reconfig_inbound"@,
        "allow_local_as"@ != "local_address"@,
        "allow_local_as"@ != "add_path"@,
        "allow_local_as"@ != "add_path_max"@,
        "allow_local_as"@ != "max_prefixes"@,
        "allow_local_as"@ != "max_prefix_action"@,
        "allow_local_as"@ != "gtsm"@,
        "allow_local_as"@ != "soft_reconfig_inbound"@,
        "local_address"@ != "add_path"@,
        "local_address"@ != "add_path_max"@,
        "local_address"@ != "max_prefixes"@,
        "local_address"@ != "max_prefix_action"@,
        "local_address"@ != "gtsm"@,
        "local_address"@ != "soft_reconfig_inbound"@,
        "add_path"@ != "add_path_max"@,
        "add_path"@ != "max_prefixes"@,
        "add_path"@ != "max_prefix_action"@,
        "add_path"@ != "gtsm"@,
        "add_path"@ != "soft_reconfig_inbound"@,
        "add_path_max"@ != "max_prefixes"@,
        "add_path_max"@ != "max_prefix_action"@,
        "add_path_max"@ != "gtsm"@,
        "add_path_max"@ != "soft_reconfig_inbound"@,
        "max_prefixes"@ != "max_prefix_action"@,
        "max_prefixes"@ != "gtsm"@,
        "max_prefixes"@ != "soft_reconfig_inbound"@,
        "max_prefix_action"@ != "gtsm"@,
        "max_prefix_action"@ != "soft_reconfig_inbound"@,
        "gtsm"@ != "soft_reconfig_inbound"@,
{
    reveal_strlit("install_kernel");
    reveal_strlit("api_socket");
    reveal_strlit("user");
    reveal_strlit("group");
    reveal_strlit("listen");
    reveal_strlit("bmp_target");
    reveal_strlit("graceful_restart");
    reveal_strlit("llgr");
    reveal_strlit("llgr_max_stale");
    reveal_strlit("ebgp_policy");
    reveal_strlit("max_prefix_threshold");
    reveal_strlit("extended_next_hop");
    reveal_strlit("allow_local_as");
    reveal_strlit("local_address");
    reveal_strlit("add_path");
    reveal_strlit("add_path_max");
    reveal_strlit("max_prefixes");
    reveal_strlit("max_prefix_action");
    reveal_strlit("gtsm");
    reveal_strlit("soft_reconfig_inbound");
    assert("install_kernel"@.len() == 14);
    assert("api_socket"@.len() == 10);
    assert("user"@.len() == 4);
    assert("group"@.len() == 5);
    assert("listen"@.len() == 6);
    assert("bmp_target"@.len() == 10);
    assert("graceful_restart"@.len() == 16);
    assert("llgr"@.len() == 4);
    assert("llgr_max_stale"@.len() == 14);
    assert("ebgp_policy"@.len() == 11);
    assert("max_prefix_threshold"@.len() == 20);
    assert("extended_next_hop"@.len() == 17);
    assert("allow_local_as"@.len() == 14);
    assert("local_address"@.len() == 13);
    assert("add_path"@.len() == 8);
    assert("add_path_max"@.len() == 12);
    assert("max_prefixes"@.len() == 12);
    assert("max_prefix_action"@.len() == 17);
    assert("gtsm"@.len() == 4);
    assert("soft_reconfig_inbound"@.len() == 21);
    assert("install_kernel"@[0] == 'i');
    assert("llgr_max_stale"@[0] == 'l');
    assert("allow_local_as"@[0] == 'a');
    assert("api_socket"@[0] == 'a');
    assert("bmp_target"@[0] == 'b');
    assert("user"@[0] == 'u');
    assert("llgr"@[0] == 'l');
    assert("gtsm"@[0] == 'g');
    assert("extended_next_hop"@[0] == 'e');
    assert("max_prefix_action"@[0] == 'm');
    assert("add_path_max"@[0] == 'a');
    assert("max_prefixes"@[0] == 'm');
}

/// What each directive of the whole configuration sets, and in which form; there
/// are no others.
pub proof fn global_directives_are_these(key: Seq<char>)
    ensures
        key == "install_kernel"@ ==> shape_of(DirScope::Global, key) == Some(("install_kernel"@, Shape::Bool)),
        key == "api_socket"@ ==> shape_of(DirScope::Global, key) == Some(("api_socket"@, Shape::Text)),
        key == "user"@ ==> shape_of(DirScope::Global, key) == Some(("user"@, Shape::Text)),
        key == "group"@ ==> shape_of(DirScope::Global, key) == Some(("group"@, Shape::Text)),
        key == "listen"@ ==> shape_of(DirScope::Global, key) == Some(("listen_addr"@, Shape::Text)),
        key == "bmp_target"@ ==> shape_of(DirScope::Global, key) == Some(("bmp_target"@, Shape::Text)),
        key == "graceful_restart"@ ==> shape_of(DirScope::Global, key) == Some(("graceful_restart_time"@, Shape::Number { min: 0, max: 4095 })),
        key == "llgr"@ ==> shape_of(DirScope::Global, key) == Some(("llgr_stale_time"@, Shape::Number { min: 0, max: 65535 })),
        key == "llgr_max_stale"@ ==> shape_of(DirScope::Global, key) == Some(("llgr_max_stale_time"@, Shape::Number { min: 0, max: 65535 })),
        key == "ebgp_policy"@ ==> shape_of(DirScope::Global, key) == Some(("ebgp_policy"@, Shape::Policy)),
        key == "add_path"@ ==> shape_of(DirScope::Global, key) == Some(("add_path"@, Shape::Bool)),
        key == "add_path_max"@ ==> shape_of(DirScope::Global, key) == Some(("add_path_max_paths"@, Shape::Number { min: 1, max: 255 })),
        key == "max_prefixes"@ ==> shape_of(DirScope::Global, key) == Some(("max_prefixes"@, Shape::Number { min: 1, max: 0xffff_ffff })),
        key == "max_prefix_action"@ ==> shape_of(DirScope::Global, key) == Some(("max_prefix_action"@, Shape::Action)),
        key == "gtsm"@ ==> shape_of(DirScope::Global, key) == Some(("gtsm"@, Shape::Gtsm)),
        key == "soft_reconfig_inbound"@ ==> shape_of(DirScope::Global, key) == Some(("soft_reconfig_inbound"@, Shape::Bool)),
        shape_of(DirScope::Global, key) is Some ==> seq![
            "install_kernel"@, "api_socket"@, "user"@, "group"@, "listen"@, "bmp_target"@,
            "graceful_restart"@, "llgr"@, "llgr_max_stale"@, "ebgp_policy"@, "add_path"@,
            "add_path_max"@, "max_prefixes"@, "max_prefix_action"@, "gtsm"@,
            "soft_reconfig_inbound"@,
        ].contains(key),
{
    keys_differ();
    let l = seq![
            "install_kernel"@, "api_socket"@, "user"@, "group"@, "listen"@, "bmp_target"@,
            "graceful_restart"@, "llgr"@, "llgr_max_stale"@, "ebgp_policy"@, "add_path"@,
            "add_path_max"@, "max_prefixes"@, "max_prefix_action"@, "gtsm"@,
            "soft_reconfig_inbound"@,
    ];
    assert(l[0] == "install_kernel"@);
    assert(l[1] == "api_socket"@);
    assert(l[2] == "user"@);
    assert(l[3] == "group"@);
    assert(l[4] == "listen"@);
    assert(l[5] == "bmp_target"@);
    assert(l[6] == "graceful_restart"@);
    assert(l[7] == "llgr"@);
    assert(l[8] == "llgr_max_stale"@);
    assert(l[9] == "ebgp_policy"@);
    assert(l[10] == "add_path"@);
    assert(l[11] == "add_path_max"@);
    assert(l[12] == "max_prefixes"@);
    assert(l[13] == "max_prefix_action"@);
    assert(l[14] == "gtsm"@);
    assert(l[15] == "soft_reconfig_inbound"@);
}

/// What each directive of a peer sets, and in which form; there are no others.
pub proof fn peer_directives_are_these(key: Seq<char>)
    ensures
        key == "max_prefix_threshold"@ ==> shape_of(DirScope::Peer, key) == Some(("max_prefix_threshold"@, Shape::Number { min: 0, max: 100 })),
        key == "extended_next_hop"@ ==> shape_of(DirScope::Peer, key) == Some(("extended_next_hop"@, Shape::Bool)),
        key == "allow_local_as"@ ==> shape_of(DirScope::Peer, key) == Some(("allow_local_as"@, Shape::LocalAs)),
        key == "local_address"@ ==> shape_of(DirScope::Peer, key) == Some(("local_address"@, Shape::Text)),
        key == "add_path"@ ==> shape_of(DirScope::Peer, key) == Some(("add_path"@, Shape::Bool)),
        key == "add_path_max"@ ==> shape_of(DirScope::Peer, key) == Some(("add_path_max_paths"@, Shape::Number { min: 1, max: 255 })),
        key == "max_prefixes"@ ==> shape_of(DirScope::Peer, key) == Some(("max_prefixes"@, Shape::Number { min: 1, max: 0xffff_ffff })),
        key == "max_prefix_action"@ ==> shape_of(DirScope::Peer, key) == Some(("max_prefix_action"@, Shape::Action)),
        key == "gtsm"@ ==> shape_of(DirScope::Peer, key) == Some(("gtsm"@, Shape::Gtsm)),
        key == "soft_reconfig_inbound"@ ==> shape_of(DirScope::Peer, key) == Some(("soft_reconfig_inbound"@, Shape::Bool)),
        shape_of(DirScope::Peer, key) is Some ==> seq![
            "max_prefix_threshold"@, "extended_next_hop"@, "allow_local_as"@, "local_address"@,
            "add_path"@, "add_path_max"@, "max_prefixes"@, "max_prefix_action"@, "gtsm"@,
            "soft_reconfig_inbound"@,
        ].contains(key),
{
    keys_differ();
    let l = seq![
            "max_prefix_threshold"@, "extended_next_hop"@, "allow_local_as"@, "local_address"@,
            "add_path"@, "add_path_max"@, "max_prefixes"@, "max_prefix_action"@, "gtsm"@,
            "soft_reconfig_inbound"@,
    ];
    assert(l[0] == "max_prefix_threshold"@);
    assert(l[1] == "extended_next_hop"@);
    assert(l[2] == "allow_local_as"@);
    assert(l[3] == "local_address"@);
    assert(l[4] == "add_path"@);
    assert(l[5] == "add_path_max"@);
    assert(l[6] == "max_prefixes"@);
    assert(l[7] == "max_prefix_action"@);
    assert(l[8] == "gtsm"@);
    assert(l[9] == "soft_reconfig_inbound"@);
}

/// An integer is taken if it lies in its range, and not otherwise.
pub proof fn integers_keep_to_their_range(n: nat, min: nat, max: nat, s: Seq<char>)
    ensures
        integer_in(decimal(n), min, max) == (if min <= n <= max {
            Some(n)
        } else {
            None
        }),
        integer_in(s, min, max) is Some ==> min <= integer_in(s, min, max)->0 <= max,
{
    numbers_are_read_by_their_digits(decimal(n), '0', n, max);
    crate::text::decimal_digits(n);
    assert(crate::text::is_digit(decimal(n)[0]));
}

/// The literal that a directive sets: a switch is on unless it says `false`, a
/// text is quoted, a number keeps its value, and a word is one of those allowed.
/// Anything else is refused.
pub proof fn directives_set_what_they_say(d: DirectiveModel, n: nat, min: u64, max: u64)
    ensures
        d.value is None ==> {
            &&& literal_of(d, Shape::Bool) == Literal::Is("true"@)
            &&& literal_of(d, Shape::Text) is Bad
            &&& literal_of(d, Shape::Number { min, max }) is Bad
            &&& literal_of(d, Shape::Action) is Bad
            &&& literal_of(d, Shape::Gtsm) == Literal::Is("true"@)
            &&& literal_of(d, Shape::Policy) is Bad
            &&& literal_of(d, Shape::LocalAs) == Literal::Is("1"@)
        },
        d.value == Some("true"@) ==> literal_of(d, Shape::Bool) == Literal::Is("true"@),
        d.value == Some("false"@) ==> literal_of(d, Shape::Bool) == Literal::Is("false"@),
        d.value is Some ==> {
            let v = d.value->0;
            &&& v != "true"@ && v != "false"@ ==> literal_of(d, Shape::Bool) is Bad
            &&& literal_of(d, Shape::Text) == Literal::Is(toml_text(v))
            &&& literal_of(d, Shape::Action) == Literal::Is(toml_text(v)) <==> v == "warn"@ || v
                == "teardown"@ || v == "restart"@
            &&& literal_of(d, Shape::Action) is Is ==> v == "warn"@ || v == "teardown"@ || v
                == "restart"@
            &&& literal_of(d, Shape::Policy) == Literal::Is(toml_text(v)) <==> v == "rfc8212"@ || v
                == "accept-all"@
            &&& literal_of(d, Shape::Policy) is Is ==> v == "rfc8212"@ || v == "accept-all"@
            &&& v == "any"@ ==> literal_of(d, Shape::LocalAs) == Literal::Is("\"any\""@)
        },
        d.value == Some(decimal(n)) ==> {
            &&& min <= n <= max ==> literal_of(d, Shape::Number { min, max }) == Literal::Is(decimal(n))
            &&& !(min <= n <= max) ==> literal_of(d, Shape::Number { min, max }) is Bad
            &&& 1 <= n <= 255 ==> literal_of(d, Shape::Gtsm) == Literal::Is(decimal(n))
            &&& !(1 <= n <= 255) ==> literal_of(d, Shape::Gtsm) is Bad
            &&& n <= u32::MAX ==> literal_of(d, Shape::LocalAs) == Literal::Is(decimal(n))
            &&& n > u32::MAX ==> literal_of(d, Shape::LocalAs) is Bad
        },
{
    integers_keep_to_their_range(n, min as nat, max as nat, decimal(n));
    integers_keep_to_their_range(n, 1, 255, decimal(n));
    integers_keep_to_their_range(n, 0, 0xffff_ffff, decimal(n));
    crate::text::decimal_digits(n);
    assert(crate::text::is_digit(decimal(n)[0]));
    reveal_strlit("any");
    assert("any"@[0] == 'a');
    reveal_strlit("true");
    reveal_strlit("false");
    assert("true"@.len() == 4 && "false"@.len() == 5);
}

/// A directive sets its key to its literal; one that its scope does not know, or
/// whose value is refused, sets nothing.
pub proof fn directives_set_their_key(d: DirectiveModel, scope: DirScope)
    ensures
        shape_of(scope, d.key) is None ==> resolved(d, scope) is Note,
        shape_of(scope, d.key) is Some ==> {
            let (key, shape) = shape_of(scope, d.key)->Some_0;
            let r = resolved(d, scope);
            let literal = literal_of(d, shape);
            &&& r is Entry <==> literal is Is
            &&& r is Entry ==> r->key == key && Literal::Is(r->literal) == literal
            &&& r is Note ==> Literal::Bad(r->Note_0) == literal
        },
{
}

/// A family is listed once and a key of the TCP authentication option is added;
/// any other directive waits until the peer is rendered.
pub proof fn list_directives_extend_their_list(p: PeerModel, d: DirectiveModel)
    ensures
        ({
            let q = attached(p, d);
            let family = d.key == "mp_family"@ && (d.value == Some("ipv4-unicast"@) || d.value == Some(
                "ipv6-unicast"@,
            ));
            let key = d.key == "tcp_ao_key"@ && d.value is Some && d.value->0.contains(':');
            &&& q == (PeerModel {
                families: q.families,
                tcp_ao_keys: q.tcp_ao_keys,
                ext: q.ext,
                ..p
            })
            &&& family ==> {
                &&& q.families.contains(d.value->0)
                &&& p.families.contains(d.value->0) ==> q.families == p.families
                &&& !p.families.contains(d.value->0) ==> q.families == p.families.push(d.value->0)
                &&& q.ext == p.ext
                &&& q.tcp_ao_keys == p.tcp_ao_keys
            }
            &&& key ==> {
                &&& q.tcp_ao_keys == p.tcp_ao_keys.push(d.value->0)
                &&& q.ext == p.ext
                &&& q.families == p.families
            }
            &&& !family && !key ==> {
                &&& q.ext == p.ext.push(d)
                &&& q.families == p.families
                &&& q.tcp_ao_keys == p.tcp_ao_keys
            }
        }),
{
    reveal_strlit("mp_family");
    reveal_strlit("tcp_ao_key");
    assert("mp_family"@.len() != "tcp_ao_key"@.len());
    if d.value is Some {
        let v = d.value->0;
        splits_are_at_the_first(v, ':');
        if !p.families.contains(v) {
            assert(p.families.push(v)[p.families.len() as int] == v);
        }
    }
}

} // verus!
