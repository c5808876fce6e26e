//! The command-line surface: the query structure and a verified parser for
//! the argument grammar.

use vstd::prelude::*;
use crate::text::str_eq;

verus! {

/// Which transport protocols a query covers.
#[derive(Debug, Clone, Copy, PartialEq, Eq, Structural)]
pub enum ProtocolFilter {
    TcpOnly,
    UdpOnly,
    Both,
}

/// The subcommand of a request.
#[derive(Debug, Clone, Copy, PartialEq, Eq, Structural)]
pub enum Commands {
    /// Inspect what is running on a specific port.
    Inspect { port: u16 },
    /// Kill the process running on a specific port.
    Kill { port: u16, force: bool, no_prompt: bool },
    /// List all listening ports.
    List,
}

/// A parsed command line.
#[derive(Debug, Clone, Copy, PartialEq, Eq, Structural)]
pub struct Cli {
    pub command: Option<Commands>,
    /// A bare port argument, shorthand for inspecting that port.
    pub port: Option<u16>,
    /// Emit machine-readable output.
    pub json: bool,
    /// Only show TCP sockets.
    pub tcp: bool,
    /// Only show UDP sockets.
    pub udp: bool,
}

impl Cli {
    /// The protocol filter selected by the `tcp` / `udp` flags.
    pub open spec fn spec_protocol_filter(&self) -> ProtocolFilter {
        if self.tcp && !self.udp {
            ProtocolFilter::TcpOnly
        } else if !self.tcp && self.udp {
            ProtocolFilter::UdpOnly
        } else {
            ProtocolFilter::Both
        }
    }

    /// Returns the protocol filter selected by the flags.
    pub fn protocol_filter(&self) -> (f: ProtocolFilter)
        ensures
            f == self.spec_protocol_filter(),
    {
        match (self.tcp, self.udp) {
            (true, false) => ProtocolFilter::TcpOnly,
            (false, true) => ProtocolFilter::UdpOnly,
            _ => ProtocolFilter::Both,
        }
    }
}

/// Why a command line was rejected.
#[derive(Debug, Clone, Copy, PartialEq, Eq, Structural)]
pub enum CliParseError {
    /// An option that the grammar does not know.
    UnknownOption,
    /// The TCP-only and UDP-only flags exclude each other.
    ProtocolConflict,
    /// A subcommand that needs a port was given none.
    MissingPort,
    /// A port argument that is not a number in range.
    InvalidPortValue,
    /// More positional arguments than the grammar takes.
    UnexpectedArgument,
    /// A kill-only option used outside the kill subcommand.
    UnexpectedOption,
}

/// Whether a token is an option (it starts with a dash).
pub open spec fn spec_is_flag(t: Seq<char>) -> bool {
    t.len() > 0 && t[0] == '-'
}

/// The spellings of the output-format option.
pub open spec fn spec_tok_json(t: Seq<char>) -> bool {
    t == "--json"@ || t == "-j"@
}

/// The spelling of the TCP-only option.
pub open spec fn spec_tok_tcp(t: Seq<char>) -> bool {
    t == "--tcp"@
}

/// The spelling of the UDP-only option.
pub open spec fn spec_tok_udp(t: Seq<char>) -> bool {
    t == "--udp"@
}

/// The spellings of the forceful-kill option.
pub open spec fn spec_tok_force(t: Seq<char>) -> bool {
    t == "--force"@ || t == "-f"@
}

/// The spellings of the skip-confirmation option.
pub open spec fn spec_tok_no_prompt(t: Seq<char>) -> bool {
    t == "--no-prompt"@ || t == "-y"@
}

/// Whether a token is one of the known options.
pub open spec fn spec_known_flag(t: Seq<char>) -> bool {
    spec_tok_json(t) || spec_tok_tcp(t) || spec_tok_udp(t) || spec_tok_force(t)
        || spec_tok_no_prompt(t)
}

/// Whether a token looks like an option but is not a known one.
pub open spec fn spec_unknown_flag(t: Seq<char>) -> bool {
    spec_is_flag(t) && !spec_known_flag(t)
}

/// The tokens that are not options, in order.
pub open spec fn spec_positionals(toks: Seq<Seq<char>>) -> Seq<Seq<char>>
    decreases toks.len(),
{
    if toks.len() == 0 {
        Seq::empty()
    } else {
        spec_positionals(toks.drop_last()) + if spec_is_flag(toks.last()) {
            Seq::<Seq<char>>::empty()
        } else {
            seq![toks.last()]
        }
    }
}

/// Whether a character is a decimal digit.
pub open spec fn spec_is_digit(c: char) -> bool {
    48 <= c as u32 <= 57
}

/// The value of a decimal digit character.
pub open spec fn spec_digit_val(c: char) -> nat {
    (c as u32 - 48) as nat
}

/// Whether a token consists of decimal digits only, at least one.
pub open spec fn spec_all_digits(t: Seq<char>) -> bool {
    t.len() > 0 && forall|i: int| 0 <= i < t.len() ==> spec_is_digit(#[trigger] t[i])
}

/// The number a digit string denotes, most significant digit first.
pub open spec fn spec_digits_val(t: Seq<char>) -> nat
    decreases t.len(),
{
    if t.len() == 0 {
        0
    } else {
        spec_digits_val(t.drop_last()) * 10 + spec_digit_val(t.last())
    }
}

/// A longer digit string never denotes a smaller number.
proof fn lemma_digits_val_prefix(t: Seq<char>, i: int)
    requires
        0 <= i <= t.len(),
    ensures
        spec_digits_val(t.take(i)) <= spec_digits_val(t),
    decreases t.len() - i,
{
    if i < t.len() {
        assert(t.take(i + 1).drop_last() =~= t.take(i));
        assert(t.take(i + 1).last() == t[i]);
        assert(spec_digits_val(t.take(i)) <= spec_digits_val(t.take(i + 1)));
        lemma_digits_val_prefix(t, i + 1);
    } else {
        assert(t.take(i) =~= t);
    }
}

/// The port number a token denotes: it must be all digits and fit in a
/// port number.
pub open spec fn spec_parse_port(t: Seq<char>) -> Option<u16> {
    if !spec_all_digits(t) {
        None
    } else if spec_digits_val(t) > 65535 {
        None
    } else {
        Some(spec_digits_val(t) as u16)
    }
}

/// Parses a token as a port number.
pub fn parse_port(t: &str) -> (r: Option<u16>)
    ensures
        r == spec_parse_port(t@),
{
    let n = t.unicode_len();
    if n == 0 {
        return None;
    }
    let mut v: u32 = 0;
    let mut i: usize = 0;
    while i < n
        invariant
            n == t@.len(),
            0 < n,
            i <= n,
            v <= 65535,
            v == spec_digits_val(t@.take(i as int)),
            forall|j: int| 0 <= j < i ==> spec_is_digit(#[trigger] t@[j]),
        decreases n - i,
    {
        let c = t.get_char(i);
        let u = c as u32;
        proof {
            assert(t@.take(i + 1 as int).drop_last() =~= t@.take(i as int));
            assert(t@.take(i + 1 as int).last() == t@[i as int]);
        }
        if u < 48 || u > 57 {
            return None;
        }
        let d = u - 48;
        let w = v * 10 + d;
        if w > 65535 {
            proof {
                lemma_digits_val_prefix(t@, i + 1 as int);
            }
            return None;
        }
        v = w;
        i = i + 1;
    }
    proof {
        assert(t@.take(n as int) =~= t@);
    }
    Some(v as u16)
}

/// The meaning of the positional arguments, given the option flags: a
/// leading keyword selects the subcommand, a bare number inspects that
/// port, and the kill-only options are rejected elsewhere.
pub open spec fn spec_interpret(
    pos: Seq<Seq<char>>,
    json: bool,
    tcp: bool,
    udp: bool,
    force: bool,
    no_prompt: bool,
) -> Result<Cli, CliParseError> {
    let base = Cli { command: None, port: None, json, tcp, udp };
    let kill_opts = force || no_prompt;
    if pos.len() == 0 {
        if kill_opts {
            Err(CliParseError::UnexpectedOption)
        } else {
            Ok(base)
        }
    } else if pos[0] == "inspect"@ || pos[0] == "i"@ {
        if kill_opts {
            Err(CliParseError::UnexpectedOption)
        } else if pos.len() < 2 {
            Err(CliParseError::MissingPort)
        } else if pos.len() > 2 {
            Err(CliParseError::UnexpectedArgument)
        } else {
            match spec_parse_port(pos[1]) {
                Some(p) => Ok(Cli { command: Some(Commands::Inspect { port: p }), ..base }),
                None => Err(CliParseError::InvalidPortValue),
            }
        }
    } else if pos[0] == "kill"@ || pos[0] == "k"@ {
        if pos.len() < 2 {
            Err(CliParseError::MissingPort)
        } else if pos.len() > 2 {
            Err(CliParseError::UnexpectedArgument)
        } else {
            match spec_parse_port(pos[1]) {
                Some(p) => Ok(
                    Cli { command: Some(Commands::Kill { port: p, force, no_prompt }), ..base },
                ),
                None => Err(CliParseError::InvalidPortValue),
            }
        }
    } else if pos[0] == "list"@ || pos[0] == "l"@ || pos[0] == "ls"@ {
        if kill_opts {
            Err(CliParseError::UnexpectedOption)
        } else if pos.len() > 1 {
            Err(CliParseError::UnexpectedArgument)
        } else {
            Ok(Cli { command: Some(Commands::List), ..base })
        }
    } else {
        if kill_opts {
            Err(CliParseError::UnexpectedOption)
        } else if pos.len() > 1 {
            Err(CliParseError::UnexpectedArgument)
        } else {
            match spec_parse_port(pos[0]) {
                Some(p) => Ok(Cli { port: Some(p), ..base }),
                None => Err(CliParseError::InvalidPortValue),
            }
        }
    }
}

/// The meaning of a whole token list (the program name already removed):
/// unknown options and the TCP/UDP conflict are rejected, then the
/// positional arguments are interpreted under the collected flags.
pub open spec fn spec_parse(toks: Seq<Seq<char>>) -> Result<Cli, CliParseError> {
    if exists|j: int| 0 <= j < toks.len() && spec_unknown_flag(#[trigger] toks[j]) {
        Err(CliParseError::UnknownOption)
    } else if (exists|j: int| 0 <= j < toks.len() && spec_tok_tcp(#[trigger] toks[j])) && (
    exists|j: int| 0 <= j < toks.len() && spec_tok_udp(#[trigger] toks[j])) {
        Err(CliParseError::ProtocolConflict)
    } else {
        spec_interpret(
            spec_positionals(toks),
            exists|j: int| 0 <= j < toks.len() && spec_tok_json(#[trigger] toks[j]),
            exists|j: int| 0 <= j < toks.len() && spec_tok_tcp(#[trigger] toks[j]),
            exists|j: int| 0 <= j < toks.len() && spec_tok_udp(#[trigger] toks[j]),
            exists|j: int| 0 <= j < toks.len() && spec_tok_force(#[trigger] toks[j]),
            exists|j: int| 0 <= j < toks.len() && spec_tok_no_prompt(#[trigger] toks[j]),
        )
    }
}

/// The token views of an argument list, with the program name removed.
pub open spec fn spec_tokens(args: Seq<&str>) -> Seq<Seq<char>> {
    args.map_values(|t: &str| t@).skip(1)
}

impl Cli {
    /// Parses an argument list, program name first, into a command line.
    pub fn try_parse_from(args: &[&str]) -> (r: Result<Cli, CliParseError>)
        requires
            args@.len() >= 1,
        ensures
            r == spec_parse(spec_tokens(args@)),
    {
        let ghost toks = spec_tokens(args@);
        let mut json = false;
        let mut tcp = false;
        let mut udp = false;
        let mut force = false;
        let mut no_prompt = false;
        let mut pos: Vec<&str> = Vec::new();
        let n = args.len();
        let mut i: usize = 1;
        while i < n
            invariant
                n == args@.len(),
                1 <= i <= n,
                toks == spec_tokens(args@),
                toks.len() == n - 1,
                forall|m: int| 0 <= m < toks.len() ==> toks[m] == args@[m + 1]@,
                json <==> (exists|m: int| 0 <= m < i - 1 && spec_tok_json(#[trigger] toks[m])),
                tcp <==> (exists|m: int| 0 <= m < i - 1 && spec_tok_tcp(#[trigger] toks[m])),
                udp <==> (exists|m: int| 0 <= m < i - 1 && spec_tok_udp(#[trigger] toks[m])),
                force <==> (exists|m: int| 0 <= m < i - 1 && spec_tok_force(#[trigger] toks[m])),
                no_prompt <==> (exists|m: int|
                    0 <= m < i - 1 && spec_tok_no_prompt(#[trigger] toks[m])),
                forall|m: int| 0 <= m < i - 1 ==> !spec_unknown_flag(#[trigger] toks[m]),
                pos@.map_values(|t: &str| t@) == spec_positionals(toks.take(i - 1)),
            decreases n - i,
        {
            let t = args[i];
            let ghost j = i - 1;
            proof {
                reveal_strlit("--json");
                reveal_strlit("-j");
                reveal_strlit("--tcp");
                reveal_strlit("--udp");
                reveal_strlit("--force");
                reveal_strlit("-f");
                reveal_strlit("--no-prompt");
                reveal_strlit("-y");
                assert("--tcp"@[2] == 't');
                assert("--udp"@[2] == 'u');
                assert("-j"@[1] == 'j');
                assert("-f"@[1] == 'f');
                assert("-y"@[1] == 'y');
                assert(toks[j] == t@);
                assert(toks.take(j + 1).drop_last() =~= toks.take(j));
                assert(toks.take(j + 1).last() == toks[j]);
            }
            if str_eq(t, "--json") || str_eq(t, "-j") {
                json = true;
            } else if str_eq(t, "--tcp") {
                tcp = true;
            } else if str_eq(t, "--udp") {
                udp = true;
            } else if str_eq(t, "--force") || str_eq(t, "-f") {
                force = true;
            } else if str_eq(t, "--no-prompt") || str_eq(t, "-y") {
                no_prompt = true;
            } else if is_flag_tok(t) {
                proof {
                    assert(spec_unknown_flag(toks[j]));
                }
                return Err(CliParseError::UnknownOption);
            } else {
                let ghost pos_prev = pos@;
                pos.push(t);
                proof {
                    assert(pos@.map_values(|t: &str| t@) =~= pos_prev.map_values(|t: &str| t@)
                        + seq![toks[j]]);
                }
            }
            i = i + 1;
        }
        proof {
            assert(toks.take(n - 1) =~= toks);
        }
        if tcp && udp {
            return Err(CliParseError::ProtocolConflict);
        }
        let ghost spec_pos = spec_positionals(toks);
        let kill_opts = force || no_prompt;
        if pos.len() == 0 {
            if kill_opts {
                Err(CliParseError::UnexpectedOption)
            } else {
                Ok(Cli { command: None, port: None, json, tcp, udp })
            }
        } else {
            let first = pos[0];
            proof {
                assert(spec_pos[0] == first@);
            }
            if str_eq(first, "inspect") || str_eq(first, "i") {
                if kill_opts {
                    Err(CliParseError::UnexpectedOption)
                } else if pos.len() < 2 {
                    Err(CliParseError::MissingPort)
                } else if pos.len() > 2 {
                    Err(CliParseError::UnexpectedArgument)
                } else {
                    proof {
                        assert(spec_pos[1] == pos@[1]@);
                    }
                    match parse_port(pos[1]) {
                        Some(p) => Ok(
                            Cli {
                                command: Some(Commands::Inspect { port: p }),
                                port: None,
                                json,
                                tcp,
                                udp,
                            },
                        ),
                        None => Err(CliParseError::InvalidPortValue),
                    }
                }
            } else if str_eq(first, "kill") || str_eq(first, "k") {
                if pos.len() < 2 {
                    Err(CliParseError::MissingPort)
                } else if pos.len() > 2 {
                    Err(CliParseError::UnexpectedArgument)
                } else {
                    proof {
                        assert(spec_pos[1] == pos@[1]@);
                    }
                    match parse_port(pos[1]) {
                        Some(p) => Ok(
                            Cli {
                                command: Some(Commands::Kill { port: p, force, no_prompt }),
                                port: None,
                                json,
                                tcp,
                                udp,
                            },
                        ),
                        None => Err(CliParseError::InvalidPortValue),
                    }
                }
            } else if str_eq(first, "list") || str_eq(first, "l") || str_eq(first, "ls") {
                if kill_opts {
                    Err(CliParseError::UnexpectedOption)
                } else if pos.len() > 1 {
                    Err(CliParseError::UnexpectedArgument)
                } else {
                    Ok(Cli { command: Some(Commands::List), port: None, json, tcp, udp })
                }
            } else {
                if kill_opts {
                    Err(CliParseError::UnexpectedOption)
                } else if pos.len() > 1 {
                    Err(CliParseError::UnexpectedArgument)
                } else {
                    match parse_port(first) {
                        Some(p) => Ok(Cli { command: None, port: Some(p), json, tcp, udp }),
                        None => Err(CliParseError::InvalidPortValue),
                    }
                }
            }
        }
    }

    /// Parses an argument list known to be well formed, program name first.
    pub fn parse_from(args: &[&str]) -> (c: Cli)
        requires
            args@.len() >= 1,
            spec_parse(spec_tokens(args@)) is Ok,
        ensures
            Ok::<Cli, CliParseError>(c) == spec_parse(spec_tokens(args@)),
    {
        match Self::try_parse_from(args) {
            Ok(c) => c,
            Err(_) => {
                proof {
                    assert(false);
                }
                Cli { command: None, port: None, json: false, tcp: false, udp: false }
            },
        }
    }
}

/// Returns whether a token is an option (it starts with a dash).
fn is_flag_tok(t: &str) -> (r: bool)
    ensures
        r == spec_is_flag(t@),
{
    let n = t.unicode_len();
    if n == 0 {
        false
    } else {
        t.get_char(0) == '-'
    }
}

} // verus!
