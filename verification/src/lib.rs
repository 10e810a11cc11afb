//! Command-line argument parsing from short textual option definitions.
//!
//! A program declares its options as a list of definitions such as
//! `"o/output(Where to write):"`, and hands that list over together with its
//! arguments. What comes back is the value of each option and required
//! argument that was given, by name, or the one error that stopped the
//! reading.

pub mod errors;
pub mod grammar;
pub mod lexer;
pub mod matches;
pub mod opts;
pub mod registry;
pub mod scan;
pub mod text;
pub mod token;
pub mod vars;

use vstd::prelude::*;
use vstd::string::*;

pub use errors::{Error, ErrorKind};
pub use lexer::{analyze, collect, Token};
pub use matches::{Match, Matches};
use errors::Failure;
use matches::{option_names, outcome};
use opts::Opts;
use registry::{registry_of, Registry};
use scan::{candidates, is_option, run, scan_from, Progress};
use text::texts;

verus! {

/// What the arguments `args` give when read against the options that
/// `definitions` declare: the failure of the first definition that does not
/// compile, else the outcome of the scan from the first argument on.
pub open spec fn parsed(args: Seq<Seq<char>>, definitions: Seq<Seq<char>>) -> Result<
    Map<Seq<char>, Seq<char>>,
    Failure,
> {
    match registry_of(definitions) {
        Err(failure) => Err(failure),
        Ok(registry) => scan_from(registry, args, 0).result,
    }
}

/// Reads the arguments of a program against its option definitions.
///
/// `args` holds the arguments alone, without the name of the program.
pub fn parse(args: &[String], options: &[&str]) -> (result: Result<Matches, Error>)
    ensures
        outcome(result) == parsed(args.deep_view(), options.deep_view()),
{
    let mut matches = Matches::new();
    let mut opts: Opts = match Opts::new(options) {
        Err(why) => return Err(why),
        Ok(o) => o,
    };
    let ghost list = args.deep_view();
    let ghost registry = opts@;
    let ghost goal = scan_from(registry, list, 0);

    let mut next: usize = 0;
    while next < args.len()
        invariant
            list == args.deep_view(),
            goal == scan_from(registry, list, 0),
            registry_of(options.deep_view()) == Ok::<Registry, Failure>(registry),
            opts@ == (Registry { pending: opts@.pending, ..registry }),
            goal == run(
                registry,
                list,
                Seq::empty(),
                Progress { next: next as int, pending: opts@.pending, found: matches@ },
            ),
        decreases args.len() - next,
    {
        let current_arg = &args[next];
        assert(list[next as int] == current_arg@);
        next += 1;

        // Determine if the current argument is in short, long, or bare form
        if current_arg.as_str().unicode_len() > 0 && current_arg.as_str().get_char(0) == '-' {
            let arg_vec = option_names(current_arg.as_str());
            let ghost resumed = next;
            assert(is_option(list[next - 1]));
            assert(texts(arg_vec@).skip(0) =~= candidates(list[next - 1]));

            let mut at: usize = 0;
            while at < arg_vec.len()
                invariant
                    at <= arg_vec@.len(),
                    resumed <= next <= args@.len(),
                    list == args.deep_view(),
                    goal == scan_from(registry, list, 0),
                    registry_of(options.deep_view()) == Ok::<Registry, Failure>(registry),
                    opts@ == (Registry { pending: opts@.pending, ..registry }),
                    goal == run(
                        registry,
                        list,
                        texts(arg_vec@).skip(at as int),
                        Progress { next: next as int, pending: opts@.pending, found: matches@ },
                    ),
                decreases arg_vec@.len() - at,
            {
                let arg = &arg_vec[at];
                proof {
                    assert(texts(arg_vec@).skip(at as int)[0] == arg@);
                    assert(texts(arg_vec@).skip(at as int).skip(1) =~= texts(arg_vec@).skip(
                        at + 1,
                    ));
                }
                if opts.contains_opt(arg) {
                    let has_arg: bool = *opts.get_opt(arg).unwrap();
                    let name = String::from_str(opts.get_name(arg).unwrap());

                    if has_arg {
                        // The value must be the argument that follows
                        if next < args.len() {
                            let value = args[next].clone();
                            assert(list[next as int] == value@);
                            next += 1;
                            matches.insert(name, value);
                        } else {
                            return Err(Error::new(ErrorKind::MissingArgument, arg.clone()));
                        }
                    } else {
                        matches.insert(name, String::new());
                    }
                } else {
                    return Err(Error::new(ErrorKind::InvalidArgument, arg.clone()));
                }
                at += 1;
            }
            assert(texts(arg_vec@).skip(at as int) =~= Seq::<Seq<char>>::empty());
        } else {
            // A required argument
            match opts.get_arg() {
                None => {
                    return Err(Error::new(ErrorKind::ExtraArgument, current_arg.clone()));
                },
                Some(arg_name) => matches.insert(arg_name, current_arg.clone()),
            }
        }
    }

    match opts.get_arg() {
        None => Ok(matches),
        Some(arg_name) => Err(Error::new(ErrorKind::MissingArgument, arg_name)),
    }
}

/// Help is understood by every program: where the definitions compile and
/// declare no required argument, `--help` alone and `-h` alone are read
/// without failure, and give `help` with an empty value and nothing else.
pub proof fn lemma_help_is_always_understood(definitions: Seq<Seq<char>>)
    requires
        registry_of(definitions) matches Ok(registry) && registry.pending.len() == 0,
    ensures
        parsed(seq!["--help"@], definitions) == Ok::<Map<Seq<char>, Seq<char>>, Failure>(
            map!["help"@ => Seq::<char>::empty()],
        ),
        parsed(seq!["-h"@], definitions) == Ok::<Map<Seq<char>, Seq<char>>, Failure>(
            map!["help"@ => Seq::<char>::empty()],
        ),
{
    let registry = registry_of(definitions)->Ok_0;
    registry::lemma_registry_of_definitions(definitions);
    reveal_strlit("--help");
    reveal_strlit("-h");
    reveal_strlit("help");
    reveal_strlit("h");
    let begun = Progress { next: 0, pending: registry.pending, found: Map::empty() };
    let read = Progress { next: 1, ..begun };
    let done = Progress { found: begun.found.insert("help"@, Seq::empty()), ..read };
    assert(registry.tokens[definitions.len() as int] == registry::help_descriptor());
    assert(registry::help_descriptor().name() == "help"@);
    assert(done.found =~= map!["help"@ => Seq::<char>::empty()]);

    let long = seq!["--help"@];
    assert("--help"@.skip(2) =~= "help"@);
    assert(candidates(long[0]) =~= seq!["help"@]);
    assert(run(registry, long, Seq::empty(), begun) == run(registry, long, seq!["help"@], read));
    assert(seq!["help"@].skip(1) =~= Seq::<Seq<char>>::empty());
    assert(run(registry, long, seq!["help"@], read) == run(registry, long, Seq::empty(), done));

    let short = seq!["-h"@];
    assert(seq!["-h"@[1]] =~= "h"@);
    assert(candidates(short[0]) =~= seq!["h"@]);
    assert(run(registry, short, Seq::empty(), begun) == run(registry, short, seq!["h"@], read));
    assert(seq!["h"@].skip(1) =~= Seq::<Seq<char>>::empty());
    assert(run(registry, short, seq!["h"@], read) == run(registry, short, Seq::empty(), done));
}

/// An option that was never declared is refused: where the definitions
/// compile and give no option the short name `name`, the argument `-name`
/// alone fails as invalid and blames `name`. Nothing is handed back beside
/// the failure. (A second `-` is no name: it opens a long name.)
pub proof fn lemma_undeclared_option_is_invalid(definitions: Seq<Seq<char>>, name: char)
    requires
        name != '-',
        registry_of(definitions) matches Ok(registry) && !registry.index.contains_key(seq![name]),
    ensures
        parsed(seq![seq!['-', name]], definitions) == Err::<Map<Seq<char>, Seq<char>>, Failure>(
            Failure { kind: ErrorKind::InvalidArgument, offender: seq![name] },
        ),
{
    let registry = registry_of(definitions)->Ok_0;
    let args = seq![seq!['-', name]];
    assert(args[0][1] == name);
    assert(candidates(args[0]) =~= seq![seq![name]]);
    scan::lemma_unknown_option_is_refused(registry, args, 0);
}

/// A required argument must be given: where the definitions compile and
/// declare one, reading no argument at all fails as missing and blames the
/// first that was declared.
pub proof fn lemma_required_argument_must_be_given(definitions: Seq<Seq<char>>)
    requires
        registry_of(definitions) matches Ok(registry) && registry.pending.len() > 0,
    ensures
        parsed(Seq::empty(), definitions) == Err::<Map<Seq<char>, Seq<char>>, Failure>(
            Failure {
                kind: ErrorKind::MissingArgument,
                offender: {
                    let registry = registry_of(definitions)->Ok_0;
                    registry.tokens[registry.pending[0]].name()
                },
            },
        ),
{
    let registry = registry_of(definitions)->Ok_0;
    scan::lemma_unmet_argument_is_missed(registry, Seq::empty(), 0);
}

/// The heading of a usage text: the program's name, a dash, what it does.
pub open spec fn heading(program_name: Seq<char>, program_desc: Seq<char>) -> Seq<char> {
    program_name + " - "@ + program_desc
}

/// The lines of a usage text: the heading, then one line for each token in
/// the order given.
pub fn help(tokens: &Vec<Token>, program_name: &str, program_desc: &str) -> (lines: Vec<String>)
    ensures
        lines@.len() == tokens@.len() + 1,
        lines@[0]@ == heading(program_name@, program_desc@),
        forall|i: int|
            0 <= i < tokens@.len() ==> (#[trigger] lines@[i + 1])@ == lexer::entry(tokens@[i]@),
{
    let mut lines: Vec<String> = Vec::new();
    let mut first = String::from_str(program_name);
    first.append(" - ");
    first.append(program_desc);
    lines.push(first);

    let mut at: usize = 0;
    while at < tokens.len()
        invariant
            at <= tokens@.len(),
            lines@.len() == at + 1,
            lines@[0]@ == heading(program_name@, program_desc@),
            forall|i: int| 0 <= i < at ==> (#[trigger] lines@[i + 1])@ == lexer::entry(tokens@[i]@),
        decreases tokens@.len() - at,
    {
        lines.push(tokens[at].to_string());
        at += 1;
    }
    lines
}

} // verus!
