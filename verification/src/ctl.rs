//! The operational command line: what its arguments ask for, and what is made
//! of the daemon's reply.

use crate::table::take_step;
use crate::text::{
    after_prefix, cat, cat3, decimal, ends, ends_with, is_word, join, joined_by, lines, lines_of,
    no_items, opt_view, own, push_view, same, starts, starts_with, strip_prefix, views, word, words,
    words_of, words_tail, write_number,
};
use vstd::prelude::*;
use vstd::string::*;

verus! {

/// Arguments with the socket option taken out.
#[verifier::ext_equal]
pub struct SocketSplit {
    pub socket: Option<Seq<char>>,
    pub rest: Seq<Seq<char>>,
}

/// The socket named first.
pub open spec fn first_socket(old: Option<Seq<char>>, new: Seq<char>) -> Option<Seq<char>> {
    match old {
        Some(s) => Some(s),
        None => Some(new),
    }
}

/// The arguments from `i` on with the socket option taken out; none if the
/// option lacks its value. The first occurrence counts.
pub open spec fn socket_from(args: Seq<Seq<char>>, i: int, s: SocketSplit) -> Option<SocketSplit>
    decreases args.len() + 1 - i,
{
    if i < 0 || i >= args.len() {
        Some(s)
    } else if args[i] == "--socket"@ || args[i] == "-s"@ {
        if i + 1 < args.len() {
            socket_from(
                args,
                i + 2,
                SocketSplit { socket: first_socket(s.socket, args[i + 1]), ..s },
            )
        } else {
            None
        }
    } else {
        match after_prefix(args[i], "--socket="@) {
            Some(v) => socket_from(
                args,
                i + 1,
                SocketSplit { socket: first_socket(s.socket, v), ..s },
            ),
            None => socket_from(args, i + 1, SocketSplit { rest: s.rest.push(args[i]), ..s }),
        }
    }
}

/// The arguments with the socket option taken out.
pub open spec fn socket_split(args: Seq<Seq<char>>) -> Option<SocketSplit> {
    socket_from(args, 0, SocketSplit { socket: None, rest: Seq::empty() })
}

/// An argument that is no socket option.
pub open spec fn is_plain(a: Seq<char>) -> bool {
    a != "--socket"@ && a != "-s"@ && after_prefix(a, "--socket="@) is None
}

/// Plain arguments are kept as they are.
proof fn plain_run(args: Seq<Seq<char>>, i: int, n: int, s: SocketSplit)
    requires
        0 <= i <= n <= args.len(),
        forall|j: int| i <= j < n ==> is_plain(#[trigger] args[j]),
    ensures
        socket_from(args, i, s) == socket_from(
            args,
            n,
            SocketSplit { rest: s.rest + args.subrange(i, n), ..s },
        ),
    decreases n - i,
{
    if i < n {
        let t = SocketSplit { rest: s.rest.push(args[i]), ..s };
        plain_run(args, i + 1, n, t);
        assert(is_plain(args[i]));
        assert(t.rest + args.subrange(i + 1, n) =~= s.rest + args.subrange(i, n));
    } else {
        assert(s.rest + args.subrange(i, n) =~= s.rest);
    }
}

/// The socket option may stand anywhere, in either form: what is left are the
/// other arguments, in their order.
pub proof fn socket_option_stands_anywhere(a: Seq<Seq<char>>, path: Seq<char>, b: Seq<Seq<char>>)
    requires
        forall|j: int| 0 <= j < a.len() ==> is_plain(#[trigger] a[j]),
        forall|j: int| 0 <= j < b.len() ==> is_plain(#[trigger] b[j]),
    ensures
        socket_split(a + seq!["--socket"@, path] + b) == Some(
            (SocketSplit { socket: Some(path), rest: a + b }),
        ),
        socket_split(a.push("--socket="@ + path) + b) == Some(
            (SocketSplit { socket: Some(path), rest: a + b }),
        ),
{
    let none = SocketSplit { socket: None, rest: Seq::empty() };
    let n = a.len() as int;
    let x = a + seq!["--socket"@, path] + b;
    assert forall|j: int| 0 <= j < n implies is_plain(#[trigger] x[j]) by {
        assert(x[j] == a[j]);
    }
    plain_run(x, 0, n, none);
    assert(none.rest + x.subrange(0, n) =~= a);
    assert(x[n] == "--socket"@ && x[n + 1] == path);
    assert forall|j: int| n + 2 <= j < x.len() implies is_plain(#[trigger] x[j]) by {
        assert(x[j] == b[j - n - 2]);
    }
    plain_run(x, n + 2, x.len() as int, SocketSplit { socket: Some(path), rest: a });
    assert(a + x.subrange(n + 2, x.len() as int) =~= a + b);
    let y = a.push("--socket="@ + path) + b;
    assert forall|j: int| 0 <= j < n implies is_plain(#[trigger] y[j]) by {
        assert(y[j] == a[j]);
    }
    plain_run(y, 0, n, none);
    assert(none.rest + y.subrange(0, n) =~= a);
    let o = "--socket="@ + path;
    assert(y[n] == o);
    reveal_strlit("--socket");
    reveal_strlit("-s");
    reveal_strlit("--socket=");
    assert(o[1] == '-' && "-s"@[1] == 's');
    assert(o.len() > "--socket"@.len());
    assert(o.subrange(0, "--socket="@.len() as int) =~= "--socket="@);
    assert(o.subrange("--socket="@.len() as int, o.len() as int) =~= path);
    assert forall|j: int| n + 1 <= j < y.len() implies is_plain(#[trigger] y[j]) by {
        assert(y[j] == b[j - n - 1]);
    }
    plain_run(y, n + 1, y.len() as int, SocketSplit { socket: Some(path), rest: a });
    assert(a + y.subrange(n + 1, y.len() as int) =~= a + b);
}

/// Takes the socket option out of the arguments, wherever it stands; an error
/// if it lacks its value.
pub fn extract_socket_flag(args: &Vec<String>) -> (r: Result<(Option<String>, Vec<String>), String>)
    ensures
        match r {
            Ok(p) => socket_split(views(args@)) == Some(
                (SocketSplit { socket: opt_view(p.0), rest: views(p.1@) }),
            ),
            Err(m) => socket_split(views(args@)) is None && m@
                == "error: --socket requires a path argument"@,
        },
{
    let ghost av = views(args@);
    let ghost none = SocketSplit { socket: None, rest: Seq::empty() };
    let mut socket: Option<String> = None;
    let mut rest: Vec<String> = no_items();
    let mut i: usize = 0;
    while i < args.len()
        invariant
            i <= args@.len(),
            av == views(args@),
            av.len() == args@.len(),
            none == (SocketSplit { socket: None, rest: Seq::empty() }),
            socket_from(av, 0, none) == socket_from(
                av,
                i as int,
                SocketSplit { socket: opt_view(socket), rest: views(rest@) },
            ),
        decreases args@.len() - i,
    {
        assert(av[i as int] == args@[i as int]@);
        if same(args[i].as_str(), "--socket") || same(args[i].as_str(), "-s") {
            i += 1;
            if i >= args.len() {
                return Err(own("error: --socket requires a path argument"));
            }
            assert(av[i as int] == args@[i as int]@);
            if socket.is_none() {
                socket = Some(own(args[i].as_str()));
            }
        } else {
            match strip_prefix(args[i].as_str(), "--socket=") {
                Some(v) => {
                    if socket.is_none() {
                        socket = Some(v);
                    }
                },
                None => {
                    push_view(&mut rest, own(args[i].as_str()));
                },
            }
        }
        i += 1;
    }
    Ok((socket, rest))
}

/// What a command line asks for.
pub enum CtlCommand {
    Version,
    Help,
    /// Hand a command to the daemon and print its reply.
    Proxy(String),
    /// Show the routes, or those of one prefix.
    Show(Option<String>),
    /// Compile a filter body here.
    Compile(String),
    /// Print a message and, if asked to, the usage; end with a code.
    Stop { message: String, usage: bool, code: u8 },
}

/// The same over text.
pub enum CtlModel {
    Version,
    Help,
    Proxy(Seq<char>),
    Show(Option<Seq<char>>),
    Compile(Seq<char>),
    Stop { message: Seq<char>, usage: bool, code: u8 },
}

impl View for CtlCommand {
    type V = CtlModel;

    open spec fn view(&self) -> CtlModel {
        match self {
            CtlCommand::Version => CtlModel::Version,
            CtlCommand::Help => CtlModel::Help,
            CtlCommand::Proxy(c) => CtlModel::Proxy(c@),
            CtlCommand::Show(p) => CtlModel::Show(opt_view(*p)),
            CtlCommand::Compile(b) => CtlModel::Compile(b@),
            CtlCommand::Stop { message, usage, code } => CtlModel::Stop {
                message: message@,
                usage: *usage,
                code: *code,
            },
        }
    }
}

/// A refusal with a message.
pub open spec fn refusal(message: Seq<char>) -> CtlModel {
    CtlModel::Stop { message, usage: false, code: 2 }
}

/// What the arguments behind `routes` ask for.
pub open spec fn routes_command(rest: Seq<Seq<char>>) -> CtlModel {
    if rest.len() == 0 {
        refusal("usage: lrctl routes <show [prefix] | dump <path>>"@)
    } else if rest[0] == "show"@ {
        CtlModel::Show(
            if rest.len() > 1 {
                Some(rest[1])
            } else {
                None
            },
        )
    } else if rest[0] == "dump"@ {
        if rest.len() < 2 {
            refusal("usage: lrctl routes dump <path>"@)
        } else {
            CtlModel::Proxy("mrt "@ + rest[1])
        }
    } else {
        refusal("error: unknown routes subcommand '"@ + rest[0] + "'"@)
    }
}

/// What the arguments behind `filter` ask for. The words of a body are joined
/// again.
pub open spec fn filter_command(rest: Seq<Seq<char>>) -> CtlModel {
    if rest.len() == 0 {
        refusal("usage: lrctl filter compile <body>"@)
    } else if rest[0] == "compile"@ {
        if rest.len() < 2 {
            refusal("usage: lrctl filter compile <body>"@)
        } else {
            CtlModel::Compile(joined_by(rest.subrange(1, rest.len() as int), " "@))
        }
    } else {
        refusal(
            "error: unknown filter subcommand '"@ + rest[0]
                + "'\nusage: lrctl filter compile <body>"@,
        )
    }
}

/// What the arguments ask for, once the socket option is taken out.
pub open spec fn command_of(args: Seq<Seq<char>>) -> CtlModel {
    if args.len() == 0 {
        CtlModel::Stop { message: Seq::empty(), usage: true, code: 1 }
    } else {
        let c = args[0];
        let rest = args.subrange(1, args.len() as int);
        if c == "version"@ || c == "--version"@ || c == "-v"@ {
            CtlModel::Version
        } else if c == "help"@ || c == "--help"@ || c == "-h"@ {
            CtlModel::Help
        } else if c == "status"@ || c == "reload"@ || c == "shutdown"@ {
            CtlModel::Proxy(c)
        } else if c == "sessions"@ {
            if rest.len() == 0 || (rest.len() == 1 && rest[0] == "list"@) {
                CtlModel::Proxy(c)
            } else {
                refusal("usage: lrctl sessions [list]"@)
            }
        } else if c == "routes"@ {
            routes_command(rest)
        } else if c == "filter"@ {
            filter_command(rest)
        } else {
            CtlModel::Stop {
                message: "error: unknown command '"@ + c + "'"@,
                usage: true,
                code: 2,
            }
        }
    }
}

fn refuse(message: String) -> (c: CtlCommand)
    ensures
        c@ == refusal(message@),
{
    CtlCommand::Stop { message, usage: false, code: 2 }
}

fn routes(rest: &Vec<String>) -> (c: CtlCommand)
    ensures
        c@ == routes_command(views(rest@)),
{
    let ghost rv = views(rest@);
    assert(rv.len() == rest@.len());
    assert(forall|i: int| 0 <= i < rest@.len() ==> rv[i] == (#[trigger] rest@[i])@);
    if rest.len() == 0 {
        return refuse(own("usage: lrctl routes <show [prefix] | dump <path>>"));
    }
    if same(rest[0].as_str(), "show") {
        if rest.len() > 1 {
            CtlCommand::Show(Some(own(rest[1].as_str())))
        } else {
            CtlCommand::Show(None)
        }
    } else if same(rest[0].as_str(), "dump") {
        if rest.len() < 2 {
            refuse(own("usage: lrctl routes dump <path>"))
        } else {
            CtlCommand::Proxy(cat("mrt ", rest[1].as_str()))
        }
    } else {
        refuse(cat3("error: unknown routes subcommand '", rest[0].as_str(), "'"))
    }
}

fn filter(rest: &Vec<String>) -> (c: CtlCommand)
    ensures
        c@ == filter_command(views(rest@)),
{
    let ghost rv = views(rest@);
    assert(rv.len() == rest@.len());
    assert(forall|i: int| 0 <= i < rest@.len() ==> rv[i] == (#[trigger] rest@[i])@);
    if rest.len() == 0 {
        return refuse(own("usage: lrctl filter compile <body>"));
    }
    if same(rest[0].as_str(), "compile") {
        if rest.len() < 2 {
            refuse(own("usage: lrctl filter compile <body>"))
        } else {
            CtlCommand::Compile(join(&words_tail(rest, 1), " "))
        }
    } else {
        refuse(
            cat3(
                "error: unknown filter subcommand '",
                rest[0].as_str(),
                "'\nusage: lrctl filter compile <body>",
            ),
        )
    }
}

/// Reads what the arguments ask for, once the socket option is taken out.
pub fn parse_command(args: &Vec<String>) -> (c: CtlCommand)
    ensures
        c@ == command_of(views(args@)),
{
    let ghost av = views(args@);
    assert(av.len() == args@.len());
    if args.len() == 0 {
        let message = String::new();
        assert(message@ =~= Seq::<char>::empty());
        return CtlCommand::Stop { message, usage: true, code: 1 };
    }
    assert(av[0] == args@[0]@);
    let c = args[0].as_str();
    let rest = words_tail(args, 1);
    let ghost rv = views(rest@);
    assert(rv.len() == rest@.len());
    if same(c, "version") || same(c, "--version") || same(c, "-v") {
        CtlCommand::Version
    } else if same(c, "help") || same(c, "--help") || same(c, "-h") {
        CtlCommand::Help
    } else if same(c, "status") || same(c, "reload") || same(c, "shutdown") {
        CtlCommand::Proxy(own(c))
    } else if same(c, "sessions") {
        if rest.len() == 0 || (rest.len() == 1 && is_word(&rest, 0, "list")) {
            CtlCommand::Proxy(own(c))
        } else {
            refuse(own("usage: lrctl sessions [list]"))
        }
    } else if same(c, "routes") {
        routes(&rest)
    } else if same(c, "filter") {
        filter(&rest)
    } else {
        let message = cat3("error: unknown command '", c, "'");
        CtlCommand::Stop { message, usage: true, code: 2 }
    }
}

/// The lines whose first word is a prefix. A longer prefix that only starts
/// the same does not count.
pub open spec fn lines_for(ls: Seq<Seq<char>>, prefix: Seq<char>) -> Seq<char>
    decreases ls.len(),
{
    if ls.len() == 0 {
        Seq::empty()
    } else {
        let before = lines_for(ls.drop_last(), prefix);
        if word(words_of(ls.last()), 0) == prefix {
            before + ls.last() + "\n"@
        } else {
            before
        }
    }
}

/// Whether some line's first word is a prefix.
pub open spec fn any_line_for(ls: Seq<Seq<char>>, prefix: Seq<char>) -> bool {
    exists|i: int| 0 <= i < ls.len() && word(words_of(#[trigger] ls[i]), 0) == prefix
}

fn first_word_is(line: &str, t: &str) -> (b: bool)
    ensures
        b == (word(words_of(line@), 0) == t@),
{
    let ws = words(line);
    let ghost wv = views(ws@);
    assert(wv.len() == ws@.len());
    if ws.len() > 0 {
        assert(wv[0] == ws@[0]@);
        same(ws[0].as_str(), t)
    } else {
        let none = String::new();
        assert(none@ =~= Seq::<char>::empty());
        same(none.as_str(), t)
    }
}

/// Keeps the lines of a reply for one prefix; the second result says whether
/// there are any.
pub fn filter_routes(raw: &str, prefix: &str) -> (r: (String, bool))
    ensures
        r.0@ == lines_for(lines_of(raw@), prefix@),
        r.1 == any_line_for(lines_of(raw@), prefix@),
{
    let ls = lines(raw);
    let ghost lv = views(ls@);
    let mut out = String::new();
    assert(out@ =~= Seq::<char>::empty());
    let mut any = false;
    let mut i: usize = 0;
    while i < ls.len()
        invariant
            i <= ls@.len(),
            lv == views(ls@),
            lv.len() == ls@.len(),
            out@ == lines_for(lv.take(i as int), prefix@),
            any == (exists|k: int|
                0 <= k < i && word(words_of(#[trigger] lv[k]), 0) == prefix@),
        decreases ls@.len() - i,
    {
        proof {
            take_step(lv, i as int);
            assert(lv[i as int] == ls@[i as int]@);
        }
        if first_word_is(ls[i].as_str(), prefix) {
            out.append(ls[i].as_str());
            out.append("\n");
            any = true;
        }
        i += 1;
    }
    assert(lv.take(i as int) =~= lv);
    (out, any)
}

/// Whether a reply reports an error.
pub open spec fn reports_error(body: Seq<char>) -> bool {
    exists|i: int| 0 <= i < lines_of(body).len() && starts(#[trigger] lines_of(body)[i], "error:"@)
}

/// A text that ends with a line feed.
pub open spec fn terminated(s: Seq<char>) -> Seq<char> {
    if ends(s, "\n"@) {
        s
    } else {
        s + "\n"@
    }
}

/// Ends a text with a line feed, unless it does.
pub fn terminate(s: &str) -> (r: String)
    ensures
        r@ == terminated(s@),
{
    if ends_with(s, "\n") {
        own(s)
    } else {
        cat(s, "\n")
    }
}

/// What is printed of a reply, and the exit code: an error of the daemon is
/// printed too.
pub fn proxy_reply(body: &str) -> (r: (String, u8))
    ensures
        r.0@ == terminated(body@),
        r.1 == (if reports_error(body@) {
            1u8
        } else {
            0u8
        }),
{
    let ls = lines(body);
    let ghost lv = views(ls@);
    let mut error = false;
    let mut i: usize = 0;
    while i < ls.len()
        invariant
            i <= ls@.len(),
            lv == views(ls@),
            lv.len() == ls@.len(),
            error == (exists|k: int| 0 <= k < i && starts(#[trigger] lv[k], "error:"@)),
        decreases ls@.len() - i,
    {
        assert(lv[i as int] == ls@[i as int]@);
        if starts_with(ls[i].as_str(), "error:") {
            error = true;
        }
        i += 1;
    }
    let code: u8 = if error {
        1
    } else {
        0
    };
    (terminate(body), code)
}

/// The text on a body that compiles.
pub open spec fn compiled_text(statements: u64, functions: u64) -> Seq<char> {
    "ok ("@ + decimal(statements as nat) + " statement(s)"@ + (if functions > 0 {
        ", "@ + decimal(functions as nat) + " function(s)"@
    } else {
        Seq::empty()
    }) + ")"@
}

/// Writes the text on a body that compiles.
pub fn compiled_line(statements: u64, functions: u64) -> (r: String)
    ensures
        r@ == compiled_text(statements, functions),
{
    let mut s = cat3("ok (", write_number(statements).as_str(), " statement(s)");
    let ghost h = s@;
    if functions > 0 {
        let f = cat3(", ", write_number(functions).as_str(), " function(s)");
        s.append(f.as_str());
    } else {
        assert(h + Seq::<char>::empty() =~= h);
    }
    s.append(")");
    s
}

} // verus!
