//! The command line: which command to run and which config keys the
//! flags override.
use crate::path::{file_name, file_name_or_empty};
use crate::text::{append_str, chars_of, join, owned, push_char, same_str, split_once, split_once_chars, starts_with, string_of, slice_chars};
use crate::config::{join_strings, strings_view};
use vstd::prelude::*;

verus! {

#[derive(PartialEq, Eq, Structural, Clone, Copy, Debug)]
pub enum Daemon {
    Info,
    Start,
    Kill,
    Logs,
    Install,
    Uninstall,
}

#[derive(Debug)]
pub enum Command {
    Run,
    Daemon(Daemon),
    Kill,
    Help,
    Config,
    SelfDestruct,
    Unknown(String),
}

pub enum CommandView {
    Run,
    Daemon(Daemon),
    Kill,
    Help,
    Config,
    SelfDestruct,
    Unknown(Seq<char>),
}

impl Command {
    pub open spec fn view(&self) -> CommandView {
        match self {
            Command::Run => CommandView::Run,
            Command::Daemon(d) => CommandView::Daemon(*d),
            Command::Kill => CommandView::Kill,
            Command::Help => CommandView::Help,
            Command::Config => CommandView::Config,
            Command::SelfDestruct => CommandView::SelfDestruct,
            Command::Unknown(s) => CommandView::Unknown(s@),
        }
    }
}

/// What the command line asks for.
pub struct Cli {
    pub command: Command,
    pub overrides: Vec<(String, Option<String>)>,
}

pub type Override = (Seq<char>, Option<Seq<char>>);

pub open spec fn override_views(v: Seq<(String, Option<String>)>) -> Seq<Override> {
    v.map_values(|o: (String, Option<String>)| (o.0@, crate::model::opt_string_view(o.1)))
}

/// The program's name for messages: the file name of `args[0]`, or
/// `ramo`; followed by the other arguments.
pub open spec fn unknown_text(args: Seq<Seq<char>>) -> Seq<char> {
    let prog = match file_name(args[0]) {
        Some(n) => n,
        None => "ramo"@,
    };
    if args.len() <= 1 {
        prog
    } else {
        prog + seq![' '] + join(args.subrange(1, args.len() as int), " "@)
    }
}

/// What `--key=value` or `--key` overrides.
pub open spec fn flag_override(arg: Seq<char>) -> Override {
    let rest = arg.subrange(2, arg.len() as int);
    match split_once(rest, '=') {
        Some((k, v)) => (k, Some(v)),
        None => (rest, None),
    }
}

/// The daemon subcommand named `a`, if any.
pub open spec fn daemon_word(a: Seq<char>) -> Option<Daemon> {
    if a == "start"@ {
        Some(Daemon::Start)
    } else if a == "kill"@ {
        Some(Daemon::Kill)
    } else if a == "logs"@ {
        Some(Daemon::Logs)
    } else if a == "install"@ {
        Some(Daemon::Install)
    } else if a == "uninstall"@ {
        Some(Daemon::Uninstall)
    } else {
        None
    }
}

/// The arguments from position `i` on, read over `cmd` and `ovs`: each
/// command word replaces the command (the last one wins), `daemon` takes
/// the next word, flags accumulate, anything else is unknown.
pub open spec fn parse_from(args: Seq<Seq<char>>, i: int, cmd: CommandView, ovs: Seq<Override>) -> (
    CommandView,
    Seq<Override>,
)
    decreases args.len() + 1 - i,
{
    if i < 1 || i >= args.len() {
        (cmd, ovs)
    } else {
        let a = args[i];
        if a == "help"@ || a == "--help"@ || a == "-h"@ {
            parse_from(args, i + 1, CommandView::Help, ovs)
        } else if a == "daemon"@ {
            if i + 1 < args.len() {
                let c = match daemon_word(args[i + 1]) {
                    Some(d) => CommandView::Daemon(d),
                    None => CommandView::Unknown(unknown_text(args)),
                };
                parse_from(args, i + 2, c, ovs)
            } else {
                parse_from(args, i + 2, CommandView::Daemon(Daemon::Info), ovs)
            }
        } else if a == "kill"@ {
            parse_from(args, i + 1, CommandView::Kill, ovs)
        } else if a == "self-destruct"@ {
            parse_from(args, i + 1, CommandView::SelfDestruct, ovs)
        } else if a == "config"@ {
            parse_from(args, i + 1, CommandView::Config, ovs)
        } else if starts_with(a, "--"@) {
            parse_from(args, i + 1, cmd, ovs.push(flag_override(a)))
        } else {
            parse_from(args, i + 1, CommandView::Unknown(unknown_text(args)), ovs)
        }
    }
}

/// The message for the whole command line `args` when it names no command.
pub fn unknown_cmd(args: &[String]) -> (r: String)
    requires
        args@.len() >= 1,
    ensures
        r@ == unknown_text(strings_view(args@)),
{
    let ghost av = strings_view(args@);
    assert(av[0] == args@[0]@);
    let name = file_name_or_empty(args[0].as_str());
    let mut prog = if name.as_str().is_empty() {
        let ghost fname = file_name(args@[0]@);
        proof {
            if fname is Some {
                lemma_file_name_nonempty(args@[0]@);
            }
        }
        owned("ramo")
    } else {
        name
    };
    if args.len() <= 1 {
        return prog;
    }
    let mut rest: Vec<String> = Vec::new();
    let mut i: usize = 1;
    while i < args.len()
        invariant
            1 <= i <= args@.len(),
            av == strings_view(args@),
            strings_view(rest@) == av.subrange(1, i as int),
        decreases args@.len() - i,
    {
        assert(av[i as int] == args@[i as int]@);
        let ghost rb = strings_view(rest@);
        rest.push(args[i].clone());
        assert(strings_view(rest@) =~= rb.push(av[i as int]));
        i += 1;
        assert(strings_view(rest@) =~= av.subrange(1, i as int));
    }
    let joined = join_strings(&rest, " ");
    push_char(&mut prog, ' ');
    append_str(&mut prog, joined.as_str());
    prog
}

proof fn lemma_file_name_nonempty(s: Seq<char>)
    ensures
        file_name(s) matches Some(n) ==> n.len() > 0,
{
    crate::path::lemma_components_nonempty(s);
}

fn daemon_of(a: &str) -> (r: Option<Daemon>)
    ensures
        r == daemon_word(a@),
{
    if same_str(a, "start") {
        Some(Daemon::Start)
    } else if same_str(a, "kill") {
        Some(Daemon::Kill)
    } else if same_str(a, "logs") {
        Some(Daemon::Logs)
    } else if same_str(a, "install") {
        Some(Daemon::Install)
    } else if same_str(a, "uninstall") {
        Some(Daemon::Uninstall)
    } else {
        None
    }
}

fn override_of(a: &str) -> (r: (String, Option<String>))
    requires
        a@.len() >= 2,
    ensures
        (r.0@, crate::model::opt_string_view(r.1)) == flag_override(a@),
{
    let v = chars_of(a);
    let rest = slice_chars(&v, 2, v.len());
    match split_once_chars(&rest, '=') {
        Some((k, val)) => (string_of(&k), Some(string_of(&val))),
        None => (string_of(&rest), None),
    }
}

impl Cli {
    /// Reads the command line `args` (the program first).
    pub fn new(args: &[String]) -> (r: Cli)
        ensures
            (r.command@, override_views(r.overrides@)) == parse_from(
                strings_view(args@),
                1,
                CommandView::Run,
                seq![],
            ),
    {
        let ghost av = strings_view(args@);
        let mut command = Command::Run;
        let mut overrides: Vec<(String, Option<String>)> = Vec::new();
        let mut i: usize = 1;
        assert(override_views(overrides@) =~= Seq::<Override>::empty());
        while i < args.len()
            invariant
                1 <= i,
                args@.len() > 0 ==> i <= args@.len(),
                av == strings_view(args@),
                parse_from(av, 1, CommandView::Run, seq![]) == parse_from(
                    av,
                    i as int,
                    command@,
                    override_views(overrides@),
                ),
            decreases args@.len() - i,
        {
            let a = args[i].as_str();
            assert(av.len() == args@.len());
            assert(av[i as int] == a@);
            let ghost c0 = command@;
            let ghost o0 = override_views(overrides@);
            proof {
                reveal_strlit("--");
            }
            let ghost i0 = i as int;
            if same_str(a, "help") || same_str(a, "--help") || same_str(a, "-h") {
                command = Command::Help;
                assert(parse_from(av, i0, c0, o0) == parse_from(av, i0 + 1, CommandView::Help, o0));
            } else if same_str(a, "daemon") {
                if i + 1 < args.len() {
                    assert(av[i + 1] == args@[i + 1]@);
                    command = match daemon_of(args[i + 1].as_str()) {
                        Some(d) => Command::Daemon(d),
                        None => Command::Unknown(unknown_cmd(args)),
                    };
                    assert(parse_from(av, i0, c0, o0) == parse_from(av, i0 + 2, command@, o0));
                    i += 1;
                } else {
                    command = Command::Daemon(Daemon::Info);
                    assert(parse_from(av, i0, c0, o0) == parse_from(av, i0 + 2, command@, o0));
                    assert(parse_from(av, i0 + 2, command@, o0) == (command@, o0));
                    assert(parse_from(av, i0 + 1, command@, o0) == (command@, o0));
                }
            } else if same_str(a, "kill") {
                command = Command::Kill;
                assert(parse_from(av, i0, c0, o0) == parse_from(av, i0 + 1, command@, o0));
            } else if same_str(a, "self-destruct") {
                command = Command::SelfDestruct;
                assert(parse_from(av, i0, c0, o0) == parse_from(av, i0 + 1, command@, o0));
            } else if same_str(a, "config") {
                command = Command::Config;
                assert(parse_from(av, i0, c0, o0) == parse_from(av, i0 + 1, command@, o0));
            } else if crate::text::starts_with_chars(&chars_of(a), &chars_of("--")) {
                let o = override_of(a);
                let ghost ob = override_views(overrides@);
                overrides.push(o);
                assert(override_views(overrides@) =~= ob.push(flag_override(a@)));
                assert(parse_from(av, i0, c0, o0) == parse_from(av, i0 + 1, c0, o0.push(flag_override(a@))));
            } else {
                command = Command::Unknown(unknown_cmd(args));
                assert(parse_from(av, i0, c0, o0) == parse_from(av, i0 + 1, command@, o0));
            }
            i += 1;
            assert(parse_from(av, 1, CommandView::Run, seq![]) == parse_from(av, i as int, command@, override_views(overrides@)));
        }
        Cli { command, overrides }
    }

    /// The message for a command that does not exist.
    pub fn unknown(&self, cmd: &str) -> (r: String)
        ensures
            r@ == "\ncommand `"@ + cmd@ + "` doesn't exist\n\nuse `ramo help` to see usage\n        "@,
    {
        let mut s = owned("\ncommand `");
        append_str(&mut s, cmd);
        append_str(&mut s, "` doesn't exist\n\nuse `ramo help` to see usage\n        ");
        s
    }

    /// The usage text.
    pub fn help(&self) -> (r: String)
        ensures
            r@ == HELP@,
    {
        owned(HELP)
    }
}

/// The usage text.
pub const HELP: &'static str = "\n\
\n\
ramo                Open picker (starts daemon if not running yet)\n\
\n\
ramo daemon         Print current daemon info\n\
ramo daemon start   Start a daemon\n\
ramo daemon kill    Kill running daemon\n\
ramo daemon logs    Tail daemon logs\n\
ramo daemon install     Install systemd user service (daemon starts at login)\n\
ramo daemon uninstall   Remove the systemd user service\n\
\n\
ramo kill           Alias for daemon kill\n\
\n\
ramo config         Print config path and contents\n\
\n\
ramo self-destruct  Remove ramo from your system (daemon, data, binary)\n\
\n\
ramo help           Print this help\n\
\n\
Flags override config keys (e.g. --path=/custom/path)";

} // verus!
