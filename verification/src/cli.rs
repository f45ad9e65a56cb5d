//! Command-line handling: the argument scan of the current server and the
//! option validation of the legacy one. The scan works on the argument
//! strings alone; reading files and printing stay outside the library.

use vstd::prelude::*;
use vstd::string::StringSliceAdditionalSpecFns;

use crate::old_config::{ConfigError, HELP_MSG};
use crate::outside::{blake3_digest, blake3_of};
use crate::stats::bytes_eq;
use crate::utils::CongestionControl;

verus! {

/// What the command line asks for: run with a configuration file, print
/// the version or help text, or write an example configuration.
pub enum CliAction {
    RunWithConfig(String),
    ShowVersion,
    ShowHelp,
    WriteInit,
}

/// Mathematical model of a command-line decision.
pub enum CliActionView {
    RunWithConfig(Seq<u8>),
    ShowVersion,
    ShowHelp,
    WriteInit,
}

/// Which flag an argument is.
pub open spec fn is_flag(a: Seq<u8>, short: Seq<u8>, long: Seq<u8>) -> bool {
    a == short || a == long
}

/// The decision the argument scan reaches, walking the arguments after the
/// program name from position `i` with `path` the configuration path seen
/// so far. A repeated or unknown argument fails; the version, help and
/// init flags cut the scan short; a full scan runs with the path, when one
/// was given.
pub open spec fn scan_args(args: Seq<Seq<u8>>, i: int, path: Option<Seq<u8>>) -> Result<
    CliActionView,
    ConfigError,
>
    decreases args.len() - i,
{
    if i >= args.len() {
        match path {
            Some(p) => Ok(CliActionView::RunWithConfig(p)),
            None => Err(ConfigError::NoConfig),
        }
    } else if is_flag(args[i], "-c".spec_bytes(), "--config".spec_bytes()) {
        if path is Some {
            Err(ConfigError::Argument)
        } else if i + 1 >= args.len() {
            Err(ConfigError::Argument)
        } else {
            scan_args(args, i + 2, Some(args[i + 1]))
        }
    } else if is_flag(args[i], "-v".spec_bytes(), "--version".spec_bytes()) {
        Ok(CliActionView::ShowVersion)
    } else if is_flag(args[i], "-h".spec_bytes(), "--help".spec_bytes()) {
        Ok(CliActionView::ShowHelp)
    } else if is_flag(args[i], "-i".spec_bytes(), "--init".spec_bytes()) {
        Ok(CliActionView::WriteInit)
    } else {
        Err(ConfigError::Argument)
    }
}

/// The bytes of one argument string.
pub open spec fn string_bytes(s: String) -> Seq<u8> {
    vstd::utf8::encode_utf8(s@)
}

/// The byte strings of a list of arguments.
pub open spec fn args_bytes(args: Seq<String>) -> Seq<Seq<u8>> {
    Seq::new(args.len(), |i: int| string_bytes(args[i]))
}

/// Scans the arguments after the program name: `-c`/`--config` takes the
/// configuration path and may appear once; `-v`, `-h` and `-i` cut the run
/// short; anything else is an argument error, as is a missing path.
pub fn parse_args(args: &Vec<String>) -> (r: Result<CliAction, ConfigError>)
    ensures
        match (r, scan_args(args_bytes(args@), 0, None::<Seq<u8>>)) {
            (Ok(CliAction::RunWithConfig(p)), Ok(CliActionView::RunWithConfig(q))) => string_bytes(p)
                == q,
            (Ok(CliAction::ShowVersion), Ok(CliActionView::ShowVersion)) => true,
            (Ok(CliAction::ShowHelp), Ok(CliActionView::ShowHelp)) => true,
            (Ok(CliAction::WriteInit), Ok(CliActionView::WriteInit)) => true,
            (Err(e1), Err(e2)) => e1 == e2,
            _ => false,
        },
{
    let ghost ab = args_bytes(args@);
    let mut i: usize = 0;
    let mut path: Option<String> = None;
    while i < args.len()
        invariant
            i <= args@.len(),
            ab == args_bytes(args@),
            ({
                let pv = match path {
                    Some(p) => Some(string_bytes(p)),
                    None => None::<Seq<u8>>,
                };
                scan_args(ab, 0, None::<Seq<u8>>) == scan_args(ab, i as int, pv)
            }),
        decreases args@.len() - i,
    {
        let a = args[i].as_str().as_bytes();
        proof {
            assert(ab[i as int] == string_bytes(args@[i as int]));
        }
        if bytes_eq(a, "-c".as_bytes()) || bytes_eq(a, "--config".as_bytes()) {
            if path.is_some() {
                return Err(ConfigError::Argument);
            }
            if i + 1 >= args.len() {
                return Err(ConfigError::Argument);
            }
            proof {
                assert(ab[i as int + 1] == string_bytes(args@[i as int + 1]));
            }
            path = Some(crate::config::str_to_string(args[i + 1].as_str()));
            i = i + 2;
        } else if bytes_eq(a, "-v".as_bytes()) || bytes_eq(a, "--version".as_bytes()) {
            return Ok(CliAction::ShowVersion);
        } else if bytes_eq(a, "-h".as_bytes()) || bytes_eq(a, "--help".as_bytes()) {
            return Ok(CliAction::ShowHelp);
        } else if bytes_eq(a, "-i".as_bytes()) || bytes_eq(a, "--init".as_bytes()) {
            return Ok(CliAction::WriteInit);
        } else {
            return Err(ConfigError::Argument);
        }
    }
    match path {
        Some(p) => Ok(CliAction::RunWithConfig(p)),
        None => Err(ConfigError::NoConfig),
    }
}

/// A decimal digit string and its value.
pub open spec fn is_decimal(s: Seq<u8>) -> bool {
    s.len() >= 1 && (forall|i: int| 0 <= i < s.len() ==> 48 <= #[trigger] s[i] <= 57)
}

/// The number a decimal digit string denotes.
pub open spec fn decimal_value(s: Seq<u8>) -> int
    decreases s.len(),
{
    if s.len() == 0 {
        0
    } else {
        decimal_value(s.drop_last()) * 10 + (s.last() - 48)
    }
}

/// A digit string's value only grows as digits are appended.
proof fn lemma_decimal_prefix_bound(s: Seq<u8>, i: int)
    requires
        0 <= i <= s.len(),
        forall|j: int| 0 <= j < s.len() ==> 48 <= #[trigger] s[j] <= 57,
    ensures
        decimal_value(s.subrange(0, i)) <= decimal_value(s),
        decimal_value(s) >= 0,
    decreases s.len() - i,
{
    if i == s.len() {
        assert(s.subrange(0, i) =~= s);
        lemma_decimal_nonneg(s);
    } else {
        lemma_decimal_prefix_bound(s, i + 1);
        let p = s.subrange(0, i + 1);
        assert(p.drop_last() =~= s.subrange(0, i));
        assert(48 <= p.last() <= 57);
        assert(decimal_value(s.subrange(0, i)) >= 0) by {
            lemma_decimal_nonneg(s.subrange(0, i));
        }
        assert(decimal_value(s.subrange(0, i)) <= decimal_value(p)) by (nonlinear_arith)
            requires
                decimal_value(p) == decimal_value(s.subrange(0, i)) * 10 + (p.last() - 48),
                decimal_value(s.subrange(0, i)) >= 0,
                48 <= p.last() <= 57,
        {}
    }
}

/// A digit string's value is not negative.
proof fn lemma_decimal_nonneg(s: Seq<u8>)
    requires
        forall|j: int| 0 <= j < s.len() ==> 48 <= #[trigger] s[j] <= 57,
    ensures
        decimal_value(s) >= 0,
    decreases s.len(),
{
    if s.len() > 0 {
        lemma_decimal_nonneg(s.drop_last());
        assert(s.drop_last() =~= s.subrange(0, s.len() - 1));
    }
}

/// Parses a decimal string into a 64-bit value: the digits' value when
/// the string is all digits and fits, nothing otherwise.
pub fn parse_u64(s: &str) -> (r: Option<u64>)
    ensures
        match r {
            Some(v) => is_decimal(s.spec_bytes()) && decimal_value(s.spec_bytes()) == v as int,
            None => !is_decimal(s.spec_bytes()) || decimal_value(s.spec_bytes()) > u64::MAX,
        },
{
    let b = s.as_bytes();
    if b.len() == 0 {
        return None;
    }
    let mut acc: u64 = 0;
    let mut i: usize = 0;
    while i < b.len()
        invariant
            b@ == s.spec_bytes(),
            1 <= b@.len(),
            i <= b@.len(),
            forall|j: int| 0 <= j < i ==> 48 <= #[trigger] b@[j] <= 57,
            acc as int == decimal_value(b@.subrange(0, i as int)),
        decreases b@.len() - i,
    {
        let d = b[i];
        if d < 48 || d > 57 {
            proof {
                assert(!(48 <= b@[i as int] <= 57));
                assert(!is_decimal(s.spec_bytes()));
            }
            return None;
        }
        let dv = (d - 48) as u64;
        if acc > (u64::MAX - dv) / 10 {
            proof {
                let p = b@.subrange(0, i as int + 1);
                assert(p.drop_last() =~= b@.subrange(0, i as int));
                assert(p.last() == d);
                assert(decimal_value(p) > u64::MAX) by (nonlinear_arith)
                    requires
                        decimal_value(p) == decimal_value(b@.subrange(0, i as int)) * 10 + (
                        p.last() - 48),
                        p.last() == d,
                        acc as int == decimal_value(b@.subrange(0, i as int)),
                        acc > (u64::MAX - dv) / 10,
                        dv == d - 48,
                        48 <= d <= 57,
                {}
                if is_decimal(b@) {
                    lemma_decimal_prefix_bound(b@, i as int + 1);
                    assert(decimal_value(b@) > u64::MAX);
                }
                assert(!is_decimal(s.spec_bytes()) || decimal_value(s.spec_bytes()) > u64::MAX);
            }
            return None;
        }
        proof {
            assert(acc * 10 + dv <= u64::MAX) by (nonlinear_arith)
                requires
                    acc <= (u64::MAX - dv) / 10,
                    dv <= 9,
                    acc >= 0,
            {}
        }
        acc = acc * 10 + dv;
        i = i + 1;
        proof {
            let p = b@.subrange(0, i as int);
            assert(p.drop_last() =~= b@.subrange(0, i as int - 1));
            assert(p.last() == d);
        }
    }
    proof {
        assert(b@.subrange(0, b@.len() as int) =~= b@);
    }
    Some(acc)
}

/// Parses a decimal string into a port number.
pub fn parse_u16(s: &str) -> (r: Option<u16>)
    ensures
        match r {
            Some(v) => is_decimal(s.spec_bytes()) && decimal_value(s.spec_bytes()) == v as int,
            None => !is_decimal(s.spec_bytes()) || decimal_value(s.spec_bytes()) > u16::MAX,
        },
{
    match parse_u64(s) {
        Some(v) => {
            if v <= u16::MAX as u64 {
                Some(v as u16)
            } else {
                None
            }
        },
        None => {
            proof {
                if is_decimal(s.spec_bytes()) && decimal_value(s.spec_bytes()) <= u16::MAX {
                }
            }
            None
        },
    }
}

/// The validated options of the legacy server command line.
pub struct Config {
    pub port: u16,
    pub token_digest: Vec<u8>,
    pub certificate: Vec<u8>,
    pub private_key: Vec<u8>,
    pub authentication_timeout: u64,
    pub congestion_controller: CongestionControl,
}

/// Why the legacy option validation stopped.
#[derive(Clone, Copy, Debug, PartialEq, Eq)]
pub enum BuildError {
    Help,
    Version,
    UnexpectedArgument,
    MissingPort,
    BadPort,
    MissingToken,
    BadTimeout,
    UnknownController,
}

/// Builds the legacy configuration from already-matched option values; the
/// option table and file loading live outside the library.
pub struct ConfigBuilder {
    pub program: Option<String>,
}

impl ConfigBuilder {
    /// A builder that has seen no program name yet.
    pub fn new() -> (r: Self)
        ensures
            r.program is None,
    {
        ConfigBuilder { program: None }
    }

    /// The usage text.
    pub fn get_usage(&self) -> &'static str {
        HELP_MSG
    }

    /// Validates the matched legacy options: the help and version flags
    /// cut the run short; unexpected free arguments fail; the port is a
    /// required decimal; the token is required and enters as its BLAKE3
    /// digest; the timeout defaults to one second; the controller name
    /// must be one of the three known ones exactly, defaulting to cubic.
    pub fn parse(
        &mut self,
        program: String,
        help: bool,
        version: bool,
        free_args: bool,
        port: Option<&String>,
        token: Option<&String>,
        certificate: Vec<u8>,
        private_key: Vec<u8>,
        authentication_timeout: Option<&String>,
        congestion_controller: Option<&String>,
    ) -> (r: Result<Config, BuildError>)
        ensures
            final(self).program == Some(program),
            match r {
                Err(BuildError::Help) => help,
                Err(BuildError::Version) => !help && version,
                Err(BuildError::UnexpectedArgument) => !help && !version && free_args,
                Err(BuildError::MissingPort) => !help && !version && !free_args && port is None,
                Err(BuildError::BadPort) => !help && !version && !free_args && port is Some && !(
                is_decimal(string_bytes(*port.unwrap())) && decimal_value(string_bytes(*port.unwrap()))
                    <= u16::MAX),
                Err(BuildError::MissingToken) => !help && !version && !free_args && port is Some
                    && token is None,
                Err(BuildError::BadTimeout) => !help && !version && !free_args
                    && authentication_timeout is Some && !(is_decimal(
                    string_bytes(*authentication_timeout.unwrap()),
                ) && decimal_value(string_bytes(*authentication_timeout.unwrap())) <= u64::MAX),
                Err(BuildError::UnknownController) => !help && !version && !free_args
                    && congestion_controller is Some,
                Ok(c) => {
                    &&& !help && !version && !free_args
                    &&& port is Some && is_decimal(string_bytes(*port.unwrap())) && c.port as int
                        == decimal_value(string_bytes(*port.unwrap()))
                    &&& token is Some && c.token_digest@ == crate::outside::blake3_of(
                        string_bytes(*token.unwrap()),
                    )
                    &&& c.certificate@ == certificate@
                    &&& c.private_key@ == private_key@
                    &&& (match authentication_timeout {
                        Some(t) => c.authentication_timeout as int == decimal_value(
                            string_bytes(*t),
                        ),
                        None => c.authentication_timeout == 1000,
                    })
                    &&& (match congestion_controller {
                        Some(cc) => {
                            let b = string_bytes(*cc);
                            if b == "cubic".spec_bytes() {
                                c.congestion_controller == CongestionControl::Cubic
                            } else if b == "new_reno".spec_bytes() {
                                c.congestion_controller == CongestionControl::NewReno
                            } else {
                                b == "bbr".spec_bytes() && c.congestion_controller
                                    == CongestionControl::Bbr
                            }
                        },
                        None => c.congestion_controller == CongestionControl::Cubic,
                    })
                },
            },
    {
        self.program = Some(program);
        if help {
            return Err(BuildError::Help);
        }
        if version {
            return Err(BuildError::Version);
        }
        if free_args {
            return Err(BuildError::UnexpectedArgument);
        }
        let port = match port {
            Some(p) => {
                let ps = p.as_str();
                proof {
                    assert(ps.spec_bytes() == string_bytes(*p));
                }
                match parse_u16(ps) {
                    Some(v) => v,
                    None => {
                        return Err(BuildError::BadPort);
                    },
                }
            },
            None => {
                return Err(BuildError::MissingPort);
            },
        };
        let token_digest = match token {
            Some(t) => {
                let ts = t.as_str();
                proof {
                    assert(ts.spec_bytes() == string_bytes(*t));
                }
                blake3_digest(ts.as_bytes())
            },
            None => {
                return Err(BuildError::MissingToken);
            },
        };
        let authentication_timeout = match authentication_timeout {
            Some(t) => {
                let ts = t.as_str();
                proof {
                    assert(ts.spec_bytes() == string_bytes(*t));
                }
                match parse_u64(ts) {
                    Some(v) => v,
                    None => {
                        return Err(BuildError::BadTimeout);
                    },
                }
            },
            None => 1000,
        };
        let congestion_controller = match congestion_controller {
            Some(cc) => {
                let ccs = cc.as_str();
                proof {
                    assert(ccs.spec_bytes() == string_bytes(*cc));
                }
                let b = ccs.as_bytes();
                if bytes_eq(b, "cubic".as_bytes()) {
                    CongestionControl::Cubic
                } else if bytes_eq(b, "new_reno".as_bytes()) {
                    CongestionControl::NewReno
                } else if bytes_eq(b, "bbr".as_bytes()) {
                    CongestionControl::Bbr
                } else {
                    return Err(BuildError::UnknownController);
                }
            },
            None => CongestionControl::Cubic,
        };
        Ok(
            Config {
                port,
                token_digest,
                certificate,
                private_key,
                authentication_timeout,
                congestion_controller,
            },
        )
    }
}

} // verus!
