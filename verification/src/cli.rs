//! The command line of the tool.
//!
//! The arguments are handed over as texts, without the name of the program.
//! Reading them decides what the run is to do; nothing is printed here.

use crate::error::Error;
use crate::text::{chars_of, split, split_spans, string_from, trim, trim_bounds, Span};
use vstd::prelude::*;
use vstd::string::StringExecFns;

verus! {

/// What the command line asks for.
#[derive(Debug)]
pub struct Cli {
    /// The repositories to analyze, separated by commas.
    pub repos: String,
    /// The credentials, in the form `username:token`.
    pub credentials: Option<String>,
    /// The path of the configuration file.
    pub config_path: Option<String>,
    /// Whether the run reports what it does.
    pub verbose: bool,
}

/// The mathematical value of a [`Cli`].
pub struct CliModel {
    pub repos: Seq<char>,
    pub credentials: Option<Seq<char>>,
    pub config_path: Option<Seq<char>>,
    pub verbose: bool,
}

impl View for Cli {
    type V = CliModel;

    open spec fn view(&self) -> CliModel {
        CliModel {
            repos: self.repos@,
            credentials: self.credentials.deep_view(),
            config_path: self.config_path.deep_view(),
            verbose: self.verbose,
        }
    }
}

impl CliModel {
    /// The command line that asks for nothing.
    pub open spec fn empty() -> CliModel {
        CliModel { repos: Seq::empty(), credentials: None, config_path: None, verbose: false }
    }
}

impl Default for Cli {
    fn default() -> (r: Self)
        ensures
            r@ == CliModel::empty(),
    {
        Cli { repos: String::new(), credentials: None, config_path: None, verbose: false }
    }
}

/// What a command line amounts to.
#[derive(Debug)]
pub enum CliRequest {
    /// Analyze repositories.
    Run(Cli),
    /// Show how the tool is used.
    Help,
    /// Show the version of the tool.
    Version,
}

/// What a command line amounts to, or why it is refused.
pub enum CliOutcome {
    Run(CliModel),
    Help,
    Version,
    Refused(Seq<char>),
}

/// The outcome of reading the arguments from index `i` on, with `cli` read
/// so far. `--repos` needs a value; `--credentials` and `--config` take the
/// next argument, whatever it is, and nothing where there is none; a request
/// for help or for the version ends the reading.
pub open spec fn parse_from(args: Seq<Seq<char>>, i: int, cli: CliModel) -> CliOutcome
    decreases args.len() - i,
{
    if i < 0 || i >= args.len() {
        if cli.repos.len() == 0 {
            CliOutcome::Refused("--repos argument is required"@)
        } else {
            CliOutcome::Run(cli)
        }
    } else {
        let arg = args[i];
        let value = if i + 1 < args.len() {
            Some(args[i + 1])
        } else {
            None
        };
        let after = if i + 1 < args.len() {
            i + 2
        } else {
            i + 1
        };
        if arg == "--repos"@ {
            match value {
                Some(repos) => parse_from(args, after, CliModel { repos, ..cli }),
                None => CliOutcome::Refused("--repos requires a value"@),
            }
        } else if arg == "--credentials"@ {
            parse_from(args, after, CliModel { credentials: value, ..cli })
        } else if arg == "--config"@ {
            parse_from(args, after, CliModel { config_path: value, ..cli })
        } else if arg == "-v"@ || arg == "--verbose"@ {
            parse_from(args, i + 1, CliModel { verbose: true, ..cli })
        } else if arg == "-h"@ || arg == "--help"@ {
            CliOutcome::Help
        } else if arg == "-V"@ || arg == "--version"@ {
            CliOutcome::Version
        } else {
            CliOutcome::Refused("Unknown argument: "@ + arg)
        }
    }
}

/// What the arguments of a command line amount to.
pub open spec fn parse_args(args: Seq<Seq<char>>) -> CliOutcome {
    parse_from(args, 0, CliModel::empty())
}

/// The repositories named in a list separated by commas: every piece,
/// trimmed, that is not empty.
pub open spec fn repo_list(pieces: Seq<Seq<char>>) -> Seq<Seq<char>>
    decreases pieces.len(),
{
    if pieces.len() == 0 {
        Seq::empty()
    } else {
        let before = repo_list(pieces.drop_last());
        let repo = trim(pieces.last());
        if repo.len() == 0 {
            before
        } else {
            before.push(repo)
        }
    }
}

/// How the tool is used, line by line.
pub open spec fn usage_lines() -> Seq<Seq<char>> {
    seq![
        "Usage: ciprobe [OPTIONS]"@,
        ""@,
        "Options:"@,
        "  --repos <URLS>         Comma-separated list of repository URLs to analyze"@,
        "  --credentials <CREDS>  Git credentials in username:token format"@,
        "  --config <PATH>        Path to config file (default: ./ciprobeconfig.yml)"@,
        "  -v, --verbose          Show detailed output"@,
        "  -h, --help             Show this help message"@,
    ]
}

impl Cli {
    /// Reads the arguments of the command line.
    pub fn parse(args: &Vec<String>) -> (r: Result<CliRequest, Error>)
        ensures
            match r {
                Ok(CliRequest::Run(cli)) => parse_args(args.deep_view()) == CliOutcome::Run(cli@),
                Ok(CliRequest::Help) => parse_args(args.deep_view()) == CliOutcome::Help,
                Ok(CliRequest::Version) => parse_args(args.deep_view()) == CliOutcome::Version,
                Err(e) => e matches Error::Cli(msg) && parse_args(args.deep_view())
                    == CliOutcome::Refused(msg@),
            },
    {
        let ghost all = args.deep_view();
        let mut cli = Cli::default();
        let mut i: usize = 0;
        while i < args.len()
            invariant
                all == args.deep_view(),
                i <= args.len(),
                parse_args(all) == parse_from(all, i as int, cli@),
            decreases args.len() - i,
        {
            let arg = args[i].as_str();
            assert(all[i as int] == arg@);
            let has_value: bool = i + 1 < args.len();
            proof {
                if has_value {
                    assert(all[i + 1] == args[i + 1]@);
                }
            }
            if *arg == *"--repos" {
                if has_value {
                    cli.repos = args[i + 1].clone();
                    i += 2;
                } else {
                    return Err(Error::Cli(String::from_str("--repos requires a value")));
                }
            } else if *arg == *"--credentials" {
                if has_value {
                    cli.credentials = Some(args[i + 1].clone());
                    i += 2;
                } else {
                    cli.credentials = None;
                    i += 1;
                }
            } else if *arg == *"--config" {
                if has_value {
                    cli.config_path = Some(args[i + 1].clone());
                    i += 2;
                } else {
                    cli.config_path = None;
                    i += 1;
                }
            } else if *arg == *"-v" || *arg == *"--verbose" {
                cli.verbose = true;
                i += 1;
            } else if *arg == *"-h" || *arg == *"--help" {
                return Ok(CliRequest::Help);
            } else if *arg == *"-V" || *arg == *"--version" {
                return Ok(CliRequest::Version);
            } else {
                return Err(Error::Cli(String::from_str("Unknown argument: ").concat(arg)));
            }
        }
        if cli.repos.as_str().unicode_len() == 0 {
            return Err(Error::Cli(String::from_str("--repos argument is required")));
        }
        Ok(CliRequest::Run(cli))
    }

    /// How the tool is used, line by line.
    pub fn usage() -> (lines: Vec<String>)
        ensures
            lines.deep_view() == usage_lines(),
    {
        let mut lines: Vec<String> = Vec::new();
        lines.push(String::from_str("Usage: ciprobe [OPTIONS]"));
        lines.push(String::from_str(""));
        lines.push(String::from_str("Options:"));
        lines.push(
            String::from_str(
                "  --repos <URLS>         Comma-separated list of repository URLs to analyze",
            ),
        );
        lines.push(
            String::from_str("  --credentials <CREDS>  Git credentials in username:token format"),
        );
        lines.push(
            String::from_str(
                "  --config <PATH>        Path to config file (default: ./ciprobeconfig.yml)",
            ),
        );
        lines.push(String::from_str("  -v, --verbose          Show detailed output"));
        lines.push(String::from_str("  -h, --help             Show this help message"));
        assert(lines.deep_view() =~= usage_lines());
        lines
    }

    /// The repositories to analyze: the pieces of `repos` between commas,
    /// each trimmed, without the empty ones. A list without any repository
    /// is refused.
    pub fn repositories(&self) -> (r: Result<Vec<String>, Error>)
        ensures
            match r {
                Ok(repos) => repos.deep_view() == repo_list(split(self@.repos, ','))
                    && repos.len() > 0,
                Err(e) => {
                    &&& repo_list(split(self@.repos, ',')).len() == 0
                    &&& e matches Error::Cli(msg)
                    &&& msg@ == "No repositories specified"@
                },
            },
    {
        let v = chars_of(self.repos.as_str());
        proof {
            assert(v@.subrange(0, v.len() as int) =~= self@.repos);
        }
        let spans = split_spans(&v, 0, v.len(), ',');
        let ghost pieces = split(self@.repos, ',');
        let mut repos: Vec<String> = Vec::new();
        let mut i: usize = 0;
        proof {
            assert(pieces.take(0) =~= Seq::<Seq<char>>::empty());
            assert(repos.deep_view() =~= Seq::<Seq<char>>::empty());
        }
        while i < spans.len()
            invariant
                i <= spans.len(),
                crate::text::spans_of(spans@, v@) == pieces,
                forall|k: int|
                    0 <= k < spans.len() ==> (#[trigger] spans[k]).within(0, v.len() as int),
                repos.deep_view() == repo_list(pieces.take(i as int)),
            decreases spans.len() - i,
        {
            let span: Span = spans[i];
            proof {
                assert(span.within(0, v.len() as int));
                assert(pieces[i as int] == span.of(v@));
                assert(pieces.take(i + 1).drop_last() =~= pieces.take(i as int));
                assert(pieces.take(i + 1).last() == pieces[i as int]);
            }
            let (a, b) = trim_bounds(&v, span.start, span.end);
            if a < b {
                let ghost so_far = repos.deep_view();
                let repo = string_from(&v, a, b);
                let ghost added = repo@;
                repos.push(repo);
                proof {
                    assert(repos.deep_view() =~= so_far.push(added));
                }
            }
            i += 1;
        }
        proof {
            assert(pieces.take(spans.len() as int) =~= pieces);
        }
        if repos.len() == 0 {
            return Err(Error::Cli(String::from_str("No repositories specified")));
        }
        Ok(repos)
    }
}

} // verus!
