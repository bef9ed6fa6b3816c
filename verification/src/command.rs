//! Construction of the exact command lines the backend issues: unit
//! listing, property query, lifecycle verbs, log retrieval, daemon reload,
//! and the elevated unit-file write.  Every builder pins the argument
//! vector down to the character.

use vstd::prelude::*;
use crate::text::{spec_join_space, strs_view};

verus! {

/// A command to run: a program name and its argument vector.
pub struct CommandRequest {
    pub program: String,
    pub args: Vec<String>,
}

/// Ghost picture of a command: program and arguments as character
/// sequences.
pub ghost struct CommandView {
    pub program: Seq<char>,
    pub args: Seq<Seq<char>>,
}

impl View for CommandRequest {
    type V = CommandView;

    open spec fn view(&self) -> CommandView {
        CommandView { program: self.program@, args: strs_view(self.args@) }
    }
}

/// The lifecycle verbs the controller can issue against a unit.
#[derive(Clone, Copy, Debug, PartialEq, Eq, Structural)]
pub enum ServiceVerb {
    Start,
    Stop,
    Restart,
    Enable,
    Disable,
    Reload,
}

/// The verb's token on the manager's command line.
pub open spec fn spec_verb_token(v: ServiceVerb) -> Seq<char> {
    match v {
        ServiceVerb::Start => "start"@,
        ServiceVerb::Stop => "stop"@,
        ServiceVerb::Restart => "restart"@,
        ServiceVerb::Enable => "enable"@,
        ServiceVerb::Disable => "disable"@,
        ServiceVerb::Reload => "reload"@,
    }
}

impl ServiceVerb {
    /// The verb's token on the manager's command line.
    pub fn token(&self) -> (r: &'static str)
        ensures
            r@ == spec_verb_token(*self),
    {
        match self {
            ServiceVerb::Start => "start",
            ServiceVerb::Stop => "stop",
            ServiceVerb::Restart => "restart",
            ServiceVerb::Enable => "enable",
            ServiceVerb::Disable => "disable",
            ServiceVerb::Reload => "reload",
        }
    }
}

/// The decimal digit characters of a number, most significant first.
pub open spec fn spec_dec_digits(n: int) -> Seq<char>
    decreases n,
{
    if n <= 9 {
        seq![spec_digit_char(n)]
    } else {
        spec_dec_digits(n / 10).push(spec_digit_char(n % 10))
    }
}

/// The character for one decimal digit.
pub open spec fn spec_digit_char(d: int) -> char {
    if d == 0 {
        '0'
    } else if d == 1 {
        '1'
    } else if d == 2 {
        '2'
    } else if d == 3 {
        '3'
    } else if d == 4 {
        '4'
    } else if d == 5 {
        '5'
    } else if d == 6 {
        '6'
    } else if d == 7 {
        '7'
    } else if d == 8 {
        '8'
    } else {
        '9'
    }
}

/// Appends the character of one decimal digit.
fn push_digit(out: &mut String, d: u32)
    requires
        d < 10,
    ensures
        final(out)@ == old(out)@ + seq![spec_digit_char(d as int)],
{
    if d == 0 {
        out.append("0");
        proof {
            reveal_strlit("0");
            assert("0"@ =~= seq!['0']);
        }
    } else if d == 1 {
        out.append("1");
        proof {
            reveal_strlit("1");
            assert("1"@ =~= seq!['1']);
        }
    } else if d == 2 {
        out.append("2");
        proof {
            reveal_strlit("2");
            assert("2"@ =~= seq!['2']);
        }
    } else if d == 3 {
        out.append("3");
        proof {
            reveal_strlit("3");
            assert("3"@ =~= seq!['3']);
        }
    } else if d == 4 {
        out.append("4");
        proof {
            reveal_strlit("4");
            assert("4"@ =~= seq!['4']);
        }
    } else if d == 5 {
        out.append("5");
        proof {
            reveal_strlit("5");
            assert("5"@ =~= seq!['5']);
        }
    } else if d == 6 {
        out.append("6");
        proof {
            reveal_strlit("6");
            assert("6"@ =~= seq!['6']);
        }
    } else if d == 7 {
        out.append("7");
        proof {
            reveal_strlit("7");
            assert("7"@ =~= seq!['7']);
        }
    } else if d == 8 {
        out.append("8");
        proof {
            reveal_strlit("8");
            assert("8"@ =~= seq!['8']);
        }
    } else {
        out.append("9");
        proof {
            reveal_strlit("9");
            assert("9"@ =~= seq!['9']);
        }
    }
}

/// Appends the decimal digits of `n`.
fn push_dec_digits(n: u32, out: &mut String)
    ensures
        final(out)@ == old(out)@ + spec_dec_digits(n as int),
    decreases n,
{
    if n >= 10 {
        let ghost mid = old(out)@;
        push_dec_digits(n / 10, out);
        push_digit(out, n % 10);
        proof {
            assert((mid + spec_dec_digits(n as int / 10)) + seq![spec_digit_char(n as int % 10)]
                =~= mid + (spec_dec_digits(n as int / 10).push(spec_digit_char(n as int % 10))));
        }
    } else {
        push_digit(out, n);
    }
}

/// Renders a number in decimal.
pub fn dec_string(n: u32) -> (r: String)
    ensures
        r@ == spec_dec_digits(n as int),
{
    let mut r = String::new();
    push_dec_digits(n, &mut r);
    proof {
        assert(Seq::<char>::empty() + spec_dec_digits(n as int) =~= spec_dec_digits(n as int));
    }
    r
}

/// The argument vector that lists all service units, with the flag that
/// includes inactive ones when asked for.
pub open spec fn spec_list_units_args(show_inactive: bool) -> Seq<Seq<char>> {
    let base = seq!["list-units"@, "--type=service"@, "--no-pager"@];
    if show_inactive {
        base.push("--all"@)
    } else {
        base
    }
}

/// Builds the unit-listing command.
pub fn list_units_request(show_inactive: bool) -> (r: CommandRequest)
    ensures
        r@.program == "systemctl"@,
        r@.args == spec_list_units_args(show_inactive),
{
    let mut args: Vec<String> = Vec::new();
    args.push("list-units".to_owned());
    args.push("--type=service".to_owned());
    args.push("--no-pager".to_owned());
    if show_inactive {
        args.push("--all".to_owned());
    }
    proof {
        assert(strs_view(args@) =~= spec_list_units_args(show_inactive));
    }
    CommandRequest { program: "systemctl".to_owned(), args }
}

/// The argument vector that dumps one unit's properties.
pub open spec fn spec_show_args(name: Seq<char>) -> Seq<Seq<char>> {
    seq!["show"@, name, "--no-pager"@]
}

/// Builds the property-query command for one unit.
pub fn show_unit_request(name: &str) -> (r: CommandRequest)
    ensures
        r@.program == "systemctl"@,
        r@.args == spec_show_args(name@),
{
    let mut args: Vec<String> = Vec::new();
    args.push("show".to_owned());
    args.push(name.to_owned());
    args.push("--no-pager".to_owned());
    proof {
        assert(strs_view(args@) =~= spec_show_args(name@));
    }
    CommandRequest { program: "systemctl".to_owned(), args }
}

/// The argument vector of one lifecycle verb against one unit.
pub open spec fn spec_verb_args(v: ServiceVerb, name: Seq<char>) -> Seq<Seq<char>> {
    seq![spec_verb_token(v), name]
}

/// Builds a lifecycle-verb command for one unit.
pub fn verb_request(v: ServiceVerb, name: &str) -> (r: CommandRequest)
    ensures
        r@.program == "systemctl"@,
        r@.args == spec_verb_args(v, name@),
{
    let mut args: Vec<String> = Vec::new();
    args.push(v.token().to_owned());
    args.push(name.to_owned());
    proof {
        assert(strs_view(args@) =~= spec_verb_args(v, name@));
    }
    CommandRequest { program: "systemctl".to_owned(), args }
}

/// Builds the daemon-reload command.
pub fn daemon_reload_request() -> (r: CommandRequest)
    ensures
        r@.program == "systemctl"@,
        r@.args == seq!["daemon-reload"@],
{
    let mut args: Vec<String> = Vec::new();
    args.push("daemon-reload".to_owned());
    proof {
        assert(strs_view(args@) =~= seq!["daemon-reload"@]);
    }
    CommandRequest { program: "systemctl".to_owned(), args }
}

/// The argument vector that reads a unit's log, optionally bounded to the
/// last so-many lines.
pub open spec fn spec_logs_args(name: Seq<char>, lines: Option<u32>) -> Seq<Seq<char>> {
    let base = seq!["-u"@, name, "--no-pager"@];
    match lines {
        Some(n) => base.push("-n"@).push(spec_dec_digits(n as int)),
        None => base,
    }
}

/// Builds the log-retrieval command for one unit.
pub fn logs_request(name: &str, lines: Option<u32>) -> (r: CommandRequest)
    ensures
        r@.program == "journalctl"@,
        r@.args == spec_logs_args(name@, lines),
{
    let mut args: Vec<String> = Vec::new();
    args.push("-u".to_owned());
    args.push(name.to_owned());
    args.push("--no-pager".to_owned());
    match lines {
        Some(n) => {
            args.push("-n".to_owned());
            args.push(dec_string(n));
        },
        None => {},
    }
    proof {
        assert(strs_view(args@) =~= spec_logs_args(name@, lines));
    }
    CommandRequest { program: "journalctl".to_owned(), args }
}

/// The path of a unit's file under the manager's system directory.
pub open spec fn spec_unit_file_path(name: Seq<char>) -> Seq<char> {
    "/etc/systemd/system/"@ + name + ".service"@
}

/// The on-disk path the unit file of `name` is written to.
pub fn unit_file_path(name: &str) -> (r: String)
    ensures
        r@ == spec_unit_file_path(name@),
{
    let mut r = "/etc/systemd/system/".to_owned();
    r.append(name);
    r.append(".service");
    proof {
        assert(("/etc/systemd/system/"@ + name@) + ".service"@ =~= spec_unit_file_path(name@));
    }
    r
}

/// Builds the elevated write of a unit file: the privilege-elevation
/// program wrapping a write of standard input to the unit's path.  The
/// file's content travels on standard input, not in the argument vector.
pub fn install_write_request(name: &str) -> (r: CommandRequest)
    ensures
        r@.program == "sudo"@,
        r@.args == seq!["tee"@, spec_unit_file_path(name@)],
{
    let mut args: Vec<String> = Vec::new();
    args.push("tee".to_owned());
    args.push(unit_file_path(name));
    proof {
        assert(strs_view(args@) =~= seq!["tee"@, spec_unit_file_path(name@)]);
    }
    CommandRequest { program: "sudo".to_owned(), args }
}

/// The single text a command becomes on a remote shell's ordered stream:
/// program and arguments joined with single spaces.
pub open spec fn spec_command_line(c: CommandView) -> Seq<char> {
    spec_join_space(seq![c.program] + c.args)
}

/// Renders a command as one shell line for the remote transport.
pub fn command_line(req: &CommandRequest) -> (r: String)
    ensures
        r@ == spec_command_line(req@),
{
    let mut r = req.program.clone();
    let n = req.args.len();
    let mut i: usize = 0;
    proof {
        assert((seq![req@.program] + req@.args.take(0)) =~= seq![req@.program]);
        assert(spec_join_space(seq![req@.program]) == req@.program);
    }
    while i < n
        invariant
            n == req.args@.len(),
            i <= n,
            req@.args == strs_view(req.args@),
            r@ == spec_join_space(seq![req@.program] + req@.args.take(i as int)),
        decreases n - i,
    {
        r.append(" ");
        r.append(req.args[i].as_str());
        proof {
            reveal_strlit(" ");
            let parts = seq![req@.program] + req@.args.take(i as int);
            crate::text::lemma_join_push(parts, req@.args[i as int]);
            assert(parts.push(req@.args[i as int]) =~= seq![req@.program] + req@.args.take(
                i as int + 1,
            ));
            assert(" "@ =~= seq![' ']);
            assert(req@.args[i as int] == req.args@[i as int]@);
        }
        i = i + 1;
    }
    proof {
        assert(req@.args.take(n as int) =~= req@.args);
    }
    r
}

/// Wraps a command in the privilege-elevation program: the program becomes
/// the first argument of the elevation wrapper.
pub fn elevated(req: CommandRequest) -> (r: CommandRequest)
    ensures
        r@.program == "sudo"@,
        r@.args == seq![req@.program] + req@.args,
{
    let CommandRequest { program, args: rest } = req;
    let mut args: Vec<String> = Vec::new();
    args.push(program);
    let mut i: usize = 0;
    let n = rest.len();
    while i < n
        invariant
            n == rest@.len(),
            i <= n,
            req@.args == strs_view(rest@),
            strs_view(args@) == seq![req@.program] + strs_view(rest@).take(i as int),
        decreases n - i,
    {
        let x = rest[i].clone();
        proof {
            assert(x@ == strs_view(rest@)[i as int]);
        }
        args.push(x);
        proof {
            assert(strs_view(args@) =~= (seq![req@.program] + strs_view(rest@).take(
                i as int,
            )).push(x@));
            assert((seq![req@.program] + strs_view(rest@).take(i as int)).push(x@)
                =~= seq![req@.program] + strs_view(rest@).take(i as int + 1));
        }
        i = i + 1;
    }
    proof {
        assert(strs_view(rest@).take(n as int) =~= strs_view(rest@));
    }
    CommandRequest { program: "sudo".to_owned(), args }
}

} // verus!
