//! The command-line surface: the command model and a verified argument
//! parser for it. Numeric options are parsed with overflow checked; an
//! unknown flag, a missing value or a malformed number refuses the whole
//! argument list.

use vstd::prelude::*;

use crate::fragment::str_eq;

verus! {

/// Parsed command line.
#[derive(Debug)]
pub struct Cli {
    pub command: Command,
}

/// The subcommands and their options, with their documented defaults.
#[derive(Debug)]
pub enum Command {
    /// Generate manifest and SDK annotations from OpenAPI specs.
    Generate { specs: Vec<String>, output: String },
    /// Start an MCP server from a generated directory.
    Serve {
        dir: String,
        transport: String,
        port: u16,
        auth_authority: Option<String>,
        auth_audience: Option<String>,
        auth_jwks_uri: Option<String>,
        timeout: u64,
        memory_limit: usize,
        max_api_calls: usize,
    },
    /// Generate and serve in one step.
    Run {
        specs: Vec<String>,
        transport: String,
        port: u16,
        auth_authority: Option<String>,
        auth_audience: Option<String>,
        auth_jwks_uri: Option<String>,
        timeout: u64,
        memory_limit: usize,
        max_api_calls: usize,
    },
}

/// Mathematical model of a parsed command line.
#[verifier::ext_equal]
pub enum CommandV {
    Generate { specs: Seq<Seq<char>>, output: Seq<char> },
    Serve {
        dir: Seq<char>,
        transport: Seq<char>,
        port: u16,
        auth_authority: Option<Seq<char>>,
        auth_audience: Option<Seq<char>>,
        auth_jwks_uri: Option<Seq<char>>,
        timeout: u64,
        memory_limit: usize,
        max_api_calls: usize,
    },
    Run {
        specs: Seq<Seq<char>>,
        transport: Seq<char>,
        port: u16,
        auth_authority: Option<Seq<char>>,
        auth_audience: Option<Seq<char>>,
        auth_jwks_uri: Option<Seq<char>>,
        timeout: u64,
        memory_limit: usize,
        max_api_calls: usize,
    },
}

pub open spec fn opt_string_view(s: Option<String>) -> Option<Seq<char>> {
    match s {
        Some(s) => Some(s@),
        None => None,
    }
}

impl View for Command {
    type V = CommandV;

    open spec fn view(&self) -> CommandV {
        match self {
            Command::Generate { specs, output } => CommandV::Generate {
                specs: Seq::new(specs@.len(), |i: int| specs@[i]@),
                output: output@,
            },
            Command::Serve {
                dir,
                transport,
                port,
                auth_authority,
                auth_audience,
                auth_jwks_uri,
                timeout,
                memory_limit,
                max_api_calls,
            } => CommandV::Serve {
                dir: dir@,
                transport: transport@,
                port: *port,
                auth_authority: opt_string_view(*auth_authority),
                auth_audience: opt_string_view(*auth_audience),
                auth_jwks_uri: opt_string_view(*auth_jwks_uri),
                timeout: *timeout,
                memory_limit: *memory_limit,
                max_api_calls: *max_api_calls,
            },
            Command::Run {
                specs,
                transport,
                port,
                auth_authority,
                auth_audience,
                auth_jwks_uri,
                timeout,
                memory_limit,
                max_api_calls,
            } => CommandV::Run {
                specs: Seq::new(specs@.len(), |i: int| specs@[i]@),
                transport: transport@,
                port: *port,
                auth_authority: opt_string_view(*auth_authority),
                auth_audience: opt_string_view(*auth_audience),
                auth_jwks_uri: opt_string_view(*auth_jwks_uri),
                timeout: *timeout,
                memory_limit: *memory_limit,
                max_api_calls: *max_api_calls,
            },
        }
    }
}

impl View for Cli {
    type V = CommandV;

    open spec fn view(&self) -> CommandV {
        self.command@
    }
}

/// A non-empty run of decimal digits.
pub open spec fn is_digits(s: Seq<char>) -> bool {
    s.len() > 0 && forall|i: int| 0 <= i < s.len() ==> '0' <= #[trigger] s[i] <= '9'
}

/// The number the digits spell, most significant first.
pub open spec fn digits_val(s: Seq<char>) -> int
    decreases s.len(),
{
    if s.len() == 0 {
        0
    } else {
        digits_val(s.drop_last()) * 10 + (s.last() as int - '0' as int)
    }
}

proof fn lemma_digits_val_nonneg(s: Seq<char>)
    requires
        forall|i: int| 0 <= i < s.len() ==> '0' <= #[trigger] s[i] <= '9',
    ensures
        digits_val(s) >= 0,
    decreases s.len(),
{
    if s.len() > 0 {
        lemma_digits_val_nonneg(s.drop_last());
    }
}

/// A longer digit run never spells a smaller number.
proof fn lemma_digits_val_prefix(s: Seq<char>, i: int)
    requires
        forall|k: int| 0 <= k < s.len() ==> '0' <= #[trigger] s[k] <= '9',
        0 <= i <= s.len(),
    ensures
        digits_val(s) >= digits_val(s.take(i)),
    decreases s.len() - i,
{
    if i < s.len() {
        lemma_digits_val_prefix(s, i + 1);
        let t = s.take(i + 1);
        assert(t.drop_last() =~= s.take(i));
        assert(t.last() == s[i]);
        lemma_digits_val_nonneg(s.take(i));
        assert(digits_val(s.take(i + 1)) == digits_val(s.take(i)) * 10 + (s[i] as int
            - '0' as int));
    } else {
        assert(s.take(i) =~= s);
    }
}

/// Parse a decimal `u64`, refusing empty input, other characters and
/// overflow.
pub fn parse_u64(s: &str) -> (r: Option<u64>)
    ensures
        match r {
            Some(v) => is_digits(s@) && v == digits_val(s@),
            None => !is_digits(s@) || digits_val(s@) > u64::MAX,
        },
{
    let n = s.unicode_len();
    if n == 0 {
        return None;
    }
    let mut v: u64 = 0;
    for i in 0..n
        invariant
            n == s@.len(),
            forall|k: int| 0 <= k < i ==> '0' <= #[trigger] s@[k] <= '9',
            v == digits_val(s@.take(i as int)),
    {
        let c = s.get_char(i);
        if c < '0' || c > '9' {
            return None;
        }
        let d: u64 = (c as u32 as u64) - 48;
        proof {
            assert(d == c as int - '0' as int);
        }
        if v > u64::MAX / 10 || (v == u64::MAX / 10 && d > u64::MAX % 10) {
            proof {
                let t = s@.take(i + 1);
                assert(t.drop_last() =~= s@.take(i as int));
                assert(t.last() == s@[i as int]);
                assert(digits_val(t) == v * 10 + d);
                assert(digits_val(t) > u64::MAX);
                if is_digits(s@) {
                    lemma_digits_val_prefix(s@, i + 1);
                }
            }
            return None;
        }
        v = v * 10 + d;
        proof {
            let t = s@.take(i + 1);
            assert(t.drop_last() =~= s@.take(i as int));
            assert(t.last() == s@[i as int]);
        }
    }
    proof {
        assert(s@.take(n as int) =~= s@);
    }
    Some(v)
}

/// The running option state of a parse, before the subcommand shapes it.
#[verifier::ext_equal]
pub struct ArgsAccV {
    pub positionals: Seq<Seq<char>>,
    pub output: Seq<char>,
    pub transport: Seq<char>,
    pub port: u16,
    pub auth_authority: Option<Seq<char>>,
    pub auth_audience: Option<Seq<char>>,
    pub auth_jwks_uri: Option<Seq<char>>,
    pub timeout: u64,
    pub memory_limit: usize,
    pub max_api_calls: usize,
}

/// The defaults every parse starts from.
pub open spec fn default_acc() -> ArgsAccV {
    ArgsAccV {
        positionals: Seq::empty(),
        output: "./output"@,
        transport: "stdio"@,
        port: 8080u16,
        auth_authority: None,
        auth_audience: None,
        auth_jwks_uri: None,
        timeout: 30u64,
        memory_limit: 64usize,
        max_api_calls: 100usize,
    }
}

/// A number that fits the named option's type, or nothing.
pub open spec fn num_opt(s: Seq<char>, max: int) -> Option<int> {
    if is_digits(s) && digits_val(s) <= max {
        Some(digits_val(s))
    } else {
        None
    }
}

/// Model of the option fold: one argument (or flag-value pair) at a time.
/// `gen` commands accept only `-o`/`--output`; the serving commands accept
/// the transport, port, auth and limit flags. An unknown flag, a flag
/// without a value or an unparsable number refuses the list.
pub open spec fn spec_fold(rest: Seq<Seq<char>>, acc: ArgsAccV, gen: bool) -> Option<ArgsAccV>
    decreases rest.len(),
{
    if rest.len() == 0 {
        Some(acc)
    } else {
        let a = rest[0];
        if gen && (a == "-o"@ || a == "--output"@) {
            if rest.len() < 2 {
                None
            } else {
                spec_fold(rest.skip(2), ArgsAccV { output: rest[1], ..acc }, gen)
            }
        } else if !gen && a == "--transport"@ {
            if rest.len() < 2 {
                None
            } else {
                spec_fold(rest.skip(2), ArgsAccV { transport: rest[1], ..acc }, gen)
            }
        } else if !gen && a == "--port"@ {
            if rest.len() < 2 {
                None
            } else {
                match num_opt(rest[1], u16::MAX as int) {
                    Some(v) => spec_fold(rest.skip(2), ArgsAccV { port: v as u16, ..acc }, gen),
                    None => None,
                }
            }
        } else if !gen && a == "--auth-authority"@ {
            if rest.len() < 2 {
                None
            } else {
                spec_fold(rest.skip(2), ArgsAccV { auth_authority: Some(rest[1]), ..acc }, gen)
            }
        } else if !gen && a == "--auth-audience"@ {
            if rest.len() < 2 {
                None
            } else {
                spec_fold(rest.skip(2), ArgsAccV { auth_audience: Some(rest[1]), ..acc }, gen)
            }
        } else if !gen && a == "--auth-jwks-uri"@ {
            if rest.len() < 2 {
                None
            } else {
                spec_fold(rest.skip(2), ArgsAccV { auth_jwks_uri: Some(rest[1]), ..acc }, gen)
            }
        } else if !gen && a == "--timeout"@ {
            if rest.len() < 2 {
                None
            } else {
                match num_opt(rest[1], u64::MAX as int) {
                    Some(v) => spec_fold(rest.skip(2), ArgsAccV { timeout: v as u64, ..acc }, gen),
                    None => None,
                }
            }
        } else if !gen && a == "--memory-limit"@ {
            if rest.len() < 2 {
                None
            } else {
                match num_opt(rest[1], usize::MAX as int) {
                    Some(v) => spec_fold(
                        rest.skip(2),
                        ArgsAccV { memory_limit: v as usize, ..acc },
                        gen,
                    ),
                    None => None,
                }
            }
        } else if !gen && a == "--max-api-calls"@ {
            if rest.len() < 2 {
                None
            } else {
                match num_opt(rest[1], usize::MAX as int) {
                    Some(v) => spec_fold(
                        rest.skip(2),
                        ArgsAccV { max_api_calls: v as usize, ..acc },
                        gen,
                    ),
                    None => None,
                }
            }
        } else if a.len() > 0 && a[0] == '-' {
            None
        } else {
            spec_fold(rest.skip(1), ArgsAccV { positionals: acc.positionals.push(a), ..acc }, gen)
        }
    }
}

/// Model of the whole parse: program name, then one of the three
/// subcommands, then its options; `generate` and `run` want at least one
/// spec source, `serve` exactly one directory.
pub open spec fn spec_parse(args: Seq<Seq<char>>) -> Option<CommandV> {
    if args.len() < 2 {
        None
    } else if args[1] == "generate"@ {
        match spec_fold(args.skip(2), default_acc(), true) {
            Some(acc) => if acc.positionals.len() >= 1 {
                Some(CommandV::Generate { specs: acc.positionals, output: acc.output })
            } else {
                None
            },
            None => None,
        }
    } else if args[1] == "serve"@ {
        match spec_fold(args.skip(2), default_acc(), false) {
            Some(acc) => if acc.positionals.len() == 1 {
                Some(
                    CommandV::Serve {
                        dir: acc.positionals[0],
                        transport: acc.transport,
                        port: acc.port,
                        auth_authority: acc.auth_authority,
                        auth_audience: acc.auth_audience,
                        auth_jwks_uri: acc.auth_jwks_uri,
                        timeout: acc.timeout,
                        memory_limit: acc.memory_limit,
                        max_api_calls: acc.max_api_calls,
                    },
                )
            } else {
                None
            },
            None => None,
        }
    } else if args[1] == "run"@ {
        match spec_fold(args.skip(2), default_acc(), false) {
            Some(acc) => if acc.positionals.len() >= 1 {
                Some(
                    CommandV::Run {
                        specs: acc.positionals,
                        transport: acc.transport,
                        port: acc.port,
                        auth_authority: acc.auth_authority,
                        auth_audience: acc.auth_audience,
                        auth_jwks_uri: acc.auth_jwks_uri,
                        timeout: acc.timeout,
                        memory_limit: acc.memory_limit,
                        max_api_calls: acc.max_api_calls,
                    },
                )
            } else {
                None
            },
            None => None,
        }
    } else {
        None
    }
}

/// The running option state of the parser.
pub struct ArgsAcc {
    pub positionals: Vec<String>,
    pub output: String,
    pub transport: String,
    pub port: u16,
    pub auth_authority: Option<String>,
    pub auth_audience: Option<String>,
    pub auth_jwks_uri: Option<String>,
    pub timeout: u64,
    pub memory_limit: usize,
    pub max_api_calls: usize,
}

impl View for ArgsAcc {
    type V = ArgsAccV;

    open spec fn view(&self) -> ArgsAccV {
        ArgsAccV {
            positionals: Seq::new(self.positionals@.len(), |i: int| self.positionals@[i]@),
            output: self.output@,
            transport: self.transport@,
            port: self.port,
            auth_authority: opt_string_view(self.auth_authority),
            auth_audience: opt_string_view(self.auth_audience),
            auth_jwks_uri: opt_string_view(self.auth_jwks_uri),
            timeout: self.timeout,
            memory_limit: self.memory_limit,
            max_api_calls: self.max_api_calls,
        }
    }
}

/// The views of an argument vector.
pub open spec fn args_view(args: Seq<&str>) -> Seq<Seq<char>> {
    Seq::new(args.len(), |i: int| args[i]@)
}

#[verifier::loop_isolation(false)]
fn fold_args(args: &Vec<&str>, from: usize, gen: bool) -> (r: Option<ArgsAcc>)
    requires
        2 <= from <= args@.len(),
    ensures
        match r {
            Some(acc) => spec_fold(args_view(args@).skip(from as int), default_acc(), gen)
                == Some(acc@),
            None => spec_fold(args_view(args@).skip(from as int), default_acc(), gen) is None,
        },
{
    let mut acc = ArgsAcc {
        positionals: Vec::new(),
        output: "./output".to_owned(),
        transport: "stdio".to_owned(),
        port: 8080,
        auth_authority: None,
        auth_audience: None,
        auth_jwks_uri: None,
        timeout: 30,
        memory_limit: 64,
        max_api_calls: 100,
    };
    proof {
        assert(acc@.positionals =~= Seq::<Seq<char>>::empty());
        assert(acc@ =~= default_acc());
    }
    let n = args.len();
    let mut i = from;
    while i < n
        invariant
            from <= i <= n,
            n == args@.len(),
            spec_fold(args_view(args@).skip(from as int), default_acc(), gen) == spec_fold(
                args_view(args@).skip(i as int),
                acc@,
                gen,
            ),
        decreases n - i,
    {
        let ghost av = args_view(args@);
        proof {
            assert(av.skip(i as int)[0] == av[i as int]);
            assert(av.skip(i as int).skip(1) =~= av.skip(i + 1));
            if i + 1 < n {
                assert(av.skip(i as int)[1] == av[i + 1]);
                assert(av.skip(i as int).skip(2) =~= av.skip(i + 2));
            }
        }
        let a = args[i];
        let ghost prev = acc@;
        if gen && (str_eq(a, "-o") || str_eq(a, "--output")) {
            if i + 1 >= n {
                return None;
            }
            acc.output = args[i + 1].to_owned();
            proof {
                assert(acc@ =~= ArgsAccV { output: av[i + 1], ..prev });
            }
            i = i + 2;
        } else if !gen && str_eq(a, "--transport") {
            if i + 1 >= n {
                return None;
            }
            acc.transport = args[i + 1].to_owned();
            proof {
                assert(acc@ =~= ArgsAccV { transport: av[i + 1], ..prev });
            }
            i = i + 2;
        } else if !gen && str_eq(a, "--port") {
            if i + 1 >= n {
                return None;
            }
            match parse_u64(args[i + 1]) {
                Some(v) if v <= u16::MAX as u64 => {
                    acc.port = v as u16;
                    proof {
                        assert(acc@ =~= ArgsAccV { port: v as u16, ..prev });
                    }
                    i = i + 2;
                },
                _ => {
                    return None;
                },
            }
        } else if !gen && str_eq(a, "--auth-authority") {
            if i + 1 >= n {
                return None;
            }
            acc.auth_authority = Some(args[i + 1].to_owned());
            proof {
                assert(acc@ =~= ArgsAccV { auth_authority: Some(av[i + 1]), ..prev });
            }
            i = i + 2;
        } else if !gen && str_eq(a, "--auth-audience") {
            if i + 1 >= n {
                return None;
            }
            acc.auth_audience = Some(args[i + 1].to_owned());
            proof {
                assert(acc@ =~= ArgsAccV { auth_audience: Some(av[i + 1]), ..prev });
            }
            i = i + 2;
        } else if !gen && str_eq(a, "--auth-jwks-uri") {
            if i + 1 >= n {
                return None;
            }
            acc.auth_jwks_uri = Some(args[i + 1].to_owned());
            proof {
                assert(acc@ =~= ArgsAccV { auth_jwks_uri: Some(av[i + 1]), ..prev });
            }
            i = i + 2;
        } else if !gen && str_eq(a, "--timeout") {
            if i + 1 >= n {
                return None;
            }
            match parse_u64(args[i + 1]) {
                Some(v) => {
                    acc.timeout = v;
                    proof {
                        assert(acc@ =~= ArgsAccV { timeout: v, ..prev });
                    }
                    i = i + 2;
                },
                None => {
                    return None;
                },
            }
        } else if !gen && str_eq(a, "--memory-limit") {
            if i + 1 >= n {
                return None;
            }
            match parse_u64(args[i + 1]) {
                Some(v) if v <= usize::MAX as u64 => {
                    acc.memory_limit = v as usize;
                    proof {
                        assert(acc@ =~= ArgsAccV { memory_limit: v as usize, ..prev });
                    }
                    i = i + 2;
                },
                _ => {
                    return None;
                },
            }
        } else if !gen && str_eq(a, "--max-api-calls") {
            if i + 1 >= n {
                return None;
            }
            match parse_u64(args[i + 1]) {
                Some(v) if v <= usize::MAX as u64 => {
                    acc.max_api_calls = v as usize;
                    proof {
                        assert(acc@ =~= ArgsAccV { max_api_calls: v as usize, ..prev });
                    }
                    i = i + 2;
                },
                _ => {
                    return None;
                },
            }
        } else {
            let flagged = if a.unicode_len() > 0 {
                a.get_char(0) == '-'
            } else {
                false
            };
            if flagged {
                return None;
            }
            acc.positionals.push(a.to_owned());
            proof {
                assert(acc@.positionals =~= prev.positionals.push(av[i as int]));
                assert(acc@ =~= ArgsAccV { positionals: prev.positionals.push(av[i as int]), ..prev });
            }
            i = i + 1;
        }
    }
    proof {
        assert(args_view(args@).skip(n as int).len() == 0);
    }
    Some(acc)
}

impl Cli {
    /// Parse an argument list, program name first; `None` refuses it as the
    /// original command line would.
    pub fn parse_from(args: Vec<&str>) -> (r: Option<Cli>)
        ensures
            match r {
                Some(cli) => spec_parse(args_view(args@)) == Some(cli@),
                None => spec_parse(args_view(args@)) is None,
            },
    {
        let n = args.len();
        if n < 2 {
            return None;
        }
        proof {
            assert(args_view(args@)[1] == args@[1]@);
        }
        let sub = args[1];
        if str_eq(sub, "generate") {
            match fold_args(&args, 2, true) {
                Some(acc) => {
                    if acc.positionals.len() >= 1 {
                        let r = Cli {
                            command: Command::Generate {
                                specs: acc.positionals,
                                output: acc.output,
                            },
                        };
                        proof {
                            assert(r@ =~= spec_parse(args_view(args@))->Some_0);
                        }
                        Some(r)
                    } else {
                        None
                    }
                },
                None => None,
            }
        } else if str_eq(sub, "serve") {
            match fold_args(&args, 2, false) {
                Some(mut acc) => {
                    if acc.positionals.len() == 1 {
                        let dir = acc.positionals.remove(0);
                        let ghost accv = acc@;
                        let r = Cli {
                            command: Command::Serve {
                                dir,
                                transport: acc.transport,
                                port: acc.port,
                                auth_authority: acc.auth_authority,
                                auth_audience: acc.auth_audience,
                                auth_jwks_uri: acc.auth_jwks_uri,
                                timeout: acc.timeout,
                                memory_limit: acc.memory_limit,
                                max_api_calls: acc.max_api_calls,
                            },
                        };
                        proof {
                            assert(r@ =~= spec_parse(args_view(args@))->Some_0);
                        }
                        Some(r)
                    } else {
                        None
                    }
                },
                None => None,
            }
        } else if str_eq(sub, "run") {
            match fold_args(&args, 2, false) {
                Some(acc) => {
                    if acc.positionals.len() >= 1 {
                        let r = Cli {
                            command: Command::Run {
                                specs: acc.positionals,
                                transport: acc.transport,
                                port: acc.port,
                                auth_authority: acc.auth_authority,
                                auth_audience: acc.auth_audience,
                                auth_jwks_uri: acc.auth_jwks_uri,
                                timeout: acc.timeout,
                                memory_limit: acc.memory_limit,
                                max_api_calls: acc.max_api_calls,
                            },
                        };
                        proof {
                            assert(r@ =~= spec_parse(args_view(args@))->Some_0);
                        }
                        Some(r)
                    } else {
                        None
                    }
                },
                None => None,
            }
        } else {
            None
        }
    }
}

} // verus!
