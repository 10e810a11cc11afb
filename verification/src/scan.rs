//! What a list of arguments means against a registry, as mathematics.
//!
//! The arguments are read once, from the first to the last. An argument that
//! begins with `-` names options: after `--` one long name, after a single
//! `-` one short name per character. An option that takes a value takes the
//! argument that is next in the list, wherever the option stands in its own
//! argument. Any other argument is the value of the required argument that
//! is next in line.

use vstd::prelude::*;
use crate::errors::{ErrorKind, Failure};
use crate::registry::Registry;

verus! {

/// How far a scan has come.
pub struct Progress {
    /// The place of the first argument not yet read.
    pub next: int,
    /// The required arguments that still wait, the next one first.
    pub pending: Seq<int>,
    /// The values recorded so far, by canonical name.
    pub found: Map<Seq<char>, Seq<char>>,
}

/// How a scan ended.
pub struct Scan {
    /// The recorded values, or the one failure that ended the scan.
    pub result: Result<Map<Seq<char>, Seq<char>>, Failure>,
    /// The required arguments that the scan left in line.
    pub pending: Seq<int>,
}

/// An argument that names options.
pub open spec fn is_option(arg: Seq<char>) -> bool {
    arg.len() > 0 && arg[0] == '-'
}

/// The names that an option argument holds, from left to right: all that
/// follows `--`, or each character after `-` by itself. The first
/// character is taken to be the `-` and is not looked at.
pub open spec fn candidates(arg: Seq<char>) -> Seq<Seq<char>> {
    if arg.len() > 1 && arg[1] == '-' {
        seq![arg.skip(2)]
    } else if arg.len() > 0 {
        Seq::new((arg.len() - 1) as nat, |i: int| seq![arg[i + 1]])
    } else {
        Seq::empty()
    }
}

/// A scan that gives up at `now` for `kind`, blaming `offender`.
pub open spec fn fail(now: Progress, kind: ErrorKind, offender: Seq<char>) -> Scan {
    Scan { result: Err(Failure { kind, offender }), pending: now.pending }
}

/// The rest of a scan: first the `names` still to be looked up from the
/// option argument at hand, then the arguments from `now.next` on.
///
/// A name that the registry does not know ends the scan, and so does an
/// option that finds no argument left for its value, and a bare argument
/// that no required argument waits for. At the end of the list a required
/// argument that still waits ends the scan too, and leaves the line.
pub open spec fn run(registry: Registry, args: Seq<Seq<char>>, names: Seq<Seq<char>>, now: Progress) -> Scan
    decreases args.len() - now.next, names.len(),
{
    if names.len() > 0 {
        let name = names[0];
        if !registry.index.contains_key(name) {
            fail(now, ErrorKind::InvalidArgument, name)
        } else {
            let token = registry.tokens[registry.index[name]];
            if !token.takes_value {
                run(
                    registry,
                    args,
                    names.skip(1),
                    Progress { found: now.found.insert(token.name(), Seq::empty()), ..now },
                )
            } else if 0 <= now.next < args.len() {
                run(
                    registry,
                    args,
                    names.skip(1),
                    Progress {
                        next: now.next + 1,
                        found: now.found.insert(token.name(), args[now.next]),
                        ..now
                    },
                )
            } else {
                fail(now, ErrorKind::MissingArgument, name)
            }
        }
    } else if 0 <= now.next < args.len() {
        let arg = args[now.next];
        if is_option(arg) {
            run(registry, args, candidates(arg), Progress { next: now.next + 1, ..now })
        } else if now.pending.len() > 0 {
            run(
                registry,
                args,
                Seq::empty(),
                Progress {
                    next: now.next + 1,
                    pending: now.pending.skip(1),
                    found: now.found.insert(registry.tokens[now.pending[0]].name(), arg),
                },
            )
        } else {
            fail(now, ErrorKind::ExtraArgument, arg)
        }
    } else if now.pending.len() > 0 {
        Scan {
            result: Err(
                Failure {
                    kind: ErrorKind::MissingArgument,
                    offender: registry.tokens[now.pending[0]].name(),
                },
            ),
            pending: now.pending.skip(1),
        }
    } else {
        Scan { result: Ok(now.found), pending: now.pending }
    }
}

/// The scan of `args` from the place `start` on, with nothing recorded yet.
pub open spec fn scan_from(registry: Registry, args: Seq<Seq<char>>, start: int) -> Scan {
    run(
        registry,
        args,
        Seq::empty(),
        Progress { next: start, pending: registry.pending, found: Map::empty() },
    )
}

/// `rest` is what is left of `line` after some were taken from its head.
pub open spec fn is_rest_of(rest: Seq<int>, line: Seq<int>) -> bool {
    exists|taken: int| 0 <= taken <= line.len() && rest == #[trigger] line.skip(taken)
}

/// A name under which some descriptor of the registry is recorded.
pub open spec fn declares(registry: Registry, name: Seq<char>) -> bool {
    exists|at: int|
        0 <= at < registry.tokens.len() && (#[trigger] registry.tokens[at]).name() == name
}

/// What holds of the rest of a scan, wherever it starts: the required
/// arguments leave the line from its head and in order; and where the scan
/// succeeds, none is left waiting, each that waited has its value, nothing
/// recorded before is lost, and what was added stands under declared names.
pub proof fn lemma_run_is_orderly(
    registry: Registry,
    args: Seq<Seq<char>>,
    names: Seq<Seq<char>>,
    now: Progress,
)
    requires
        registry.well_formed(),
        forall|i: int|
            0 <= i < now.pending.len() ==> 0 <= #[trigger] now.pending[i] < registry.tokens.len(),
    ensures
        ({
            let scan = run(registry, args, names, now);
            &&& is_rest_of(scan.pending, now.pending)
            &&& scan.result matches Ok(found) ==> {
                &&& scan.pending.len() == 0
                &&& forall|i: int|
                    0 <= i < now.pending.len() ==> found.contains_key(
                        registry.tokens[#[trigger] now.pending[i]].name(),
                    )
                &&& forall|name: Seq<char>|
                    now.found.contains_key(name) ==> #[trigger] found.contains_key(name)
                &&& forall|name: Seq<char>| #[trigger]
                    found.contains_key(name) ==> now.found.contains_key(name) || declares(
                        registry,
                        name,
                    )
            }
        }),
    decreases args.len() - now.next, names.len(),
{
    let scan = run(registry, args, names, now);
    assert(now.pending.skip(0) =~= now.pending);
    if names.len() > 0 {
        let name = names[0];
        if registry.index.contains_key(name) {
            let token = registry.tokens[registry.index[name]];
            assert(declares(registry, token.name()));
            if !token.takes_value {
                let then = Progress { found: now.found.insert(token.name(), Seq::empty()), ..now };
                lemma_run_is_orderly(registry, args, names.skip(1), then);
            } else if 0 <= now.next < args.len() {
                let then = Progress {
                    next: now.next + 1,
                    found: now.found.insert(token.name(), args[now.next]),
                    ..now
                };
                lemma_run_is_orderly(registry, args, names.skip(1), then);
            }
        }
    } else if 0 <= now.next < args.len() {
        let arg = args[now.next];
        if is_option(arg) {
            let then = Progress { next: now.next + 1, ..now };
            lemma_run_is_orderly(registry, args, candidates(arg), then);
        } else if now.pending.len() > 0 {
            let first = registry.tokens[now.pending[0]];
            assert(declares(registry, first.name()));
            let then = Progress {
                next: now.next + 1,
                pending: now.pending.skip(1),
                found: now.found.insert(first.name(), arg),
            };
            assert forall|i: int| 0 <= i < then.pending.len() implies 0 <= #[trigger] then.pending[i]
                < registry.tokens.len() by {
                assert(then.pending[i] == now.pending[i + 1]);
            }
            lemma_run_is_orderly(registry, args, Seq::empty(), then);
            let taken = choose|taken: int|
                0 <= taken <= then.pending.len() && scan.pending == #[trigger] then.pending.skip(
                    taken,
                );
            assert(scan.pending =~= now.pending.skip(taken + 1));
            if let Ok(found) = scan.result {
                assert forall|i: int| 0 <= i < now.pending.len() implies found.contains_key(
                    registry.tokens[#[trigger] now.pending[i]].name(),
                ) by {
                    if i > 0 {
                        assert(then.pending[i - 1] == now.pending[i]);
                    } else {
                        assert(then.found.contains_key(first.name()));
                    }
                }
            }
        }
    } else if now.pending.len() > 0 {
        assert(scan.pending == now.pending.skip(1));
    }
}

/// A scan that succeeds has given every required argument that waited its
/// value, and has recorded values under declared names only.
pub proof fn lemma_success_is_complete(registry: Registry, args: Seq<Seq<char>>, start: int)
    requires
        registry.well_formed(),
    ensures
        scan_from(registry, args, start).result matches Ok(found) ==> {
            &&& scan_from(registry, args, start).pending.len() == 0
            &&& forall|i: int|
                0 <= i < registry.pending.len() ==> found.contains_key(
                    registry.tokens[#[trigger] registry.pending[i]].name(),
                )
            &&& forall|name: Seq<char>| #[trigger]
                found.contains_key(name) ==> declares(registry, name)
        },
{
    lemma_run_is_orderly(
        registry,
        args,
        Seq::empty(),
        Progress { next: start, pending: registry.pending, found: Map::empty() },
    );
}

/// An argument whose first name the registry does not know ends the scan
/// as invalid, whatever comes after it, and nothing is handed back.
pub proof fn lemma_unknown_option_is_refused(registry: Registry, args: Seq<Seq<char>>, start: int)
    requires
        0 <= start < args.len(),
        is_option(args[start]),
        candidates(args[start]).len() > 0,
        !registry.index.contains_key(candidates(args[start])[0]),
    ensures
        scan_from(registry, args, start).result == Err::<Map<Seq<char>, Seq<char>>, Failure>(
            Failure { kind: ErrorKind::InvalidArgument, offender: candidates(args[start])[0] },
        ),
{
    let begun = Progress { next: start, pending: registry.pending, found: Map::empty() };
    let read = Progress { next: start + 1, ..begun };
    assert(run(registry, args, Seq::empty(), begun) == run(
        registry,
        args,
        candidates(args[start]),
        read,
    ));
}

/// Where nothing is left to read and a required argument still waits, the
/// scan fails and names the first that waits.
pub proof fn lemma_unmet_argument_is_missed(registry: Registry, args: Seq<Seq<char>>, start: int)
    requires
        start >= args.len(),
        registry.pending.len() > 0,
    ensures
        scan_from(registry, args, start).result == Err::<Map<Seq<char>, Seq<char>>, Failure>(
            Failure {
                kind: ErrorKind::MissingArgument,
                offender: registry.tokens[registry.pending[0]].name(),
            },
        ),
{
}

/// The rest of a scan does not depend on what was read before it: with
/// one more argument in front of the list and the place moved on by one,
/// it goes as it did.
pub proof fn lemma_run_looks_ahead_only(
    registry: Registry,
    first: Seq<char>,
    args: Seq<Seq<char>>,
    names: Seq<Seq<char>>,
    now: Progress,
)
    requires
        0 <= now.next,
    ensures
        run(registry, seq![first] + args, names, Progress { next: now.next + 1, ..now }) == run(
            registry,
            args,
            names,
            now,
        ),
    decreases args.len() - now.next, names.len(),
{
    let longer = seq![first] + args;
    let moved = Progress { next: now.next + 1, ..now };
    if names.len() > 0 {
        let name = names[0];
        if registry.index.contains_key(name) {
            let token = registry.tokens[registry.index[name]];
            if !token.takes_value {
                let then = Progress { found: now.found.insert(token.name(), Seq::empty()), ..now };
                lemma_run_looks_ahead_only(registry, first, args, names.skip(1), then);
            } else if now.next < args.len() {
                assert(longer[moved.next] == args[now.next]);
                let then = Progress {
                    next: now.next + 1,
                    found: now.found.insert(token.name(), args[now.next]),
                    ..now
                };
                lemma_run_looks_ahead_only(registry, first, args, names.skip(1), then);
            }
        }
    } else if now.next < args.len() {
        let arg = args[now.next];
        assert(longer[moved.next] == arg);
        if is_option(arg) {
            let then = Progress { next: now.next + 1, ..now };
            lemma_run_looks_ahead_only(registry, first, args, candidates(arg), then);
        } else if now.pending.len() > 0 {
            let then = Progress {
                next: now.next + 1,
                pending: now.pending.skip(1),
                found: now.found.insert(registry.tokens[now.pending[0]].name(), arg),
            };
            lemma_run_looks_ahead_only(registry, first, args, Seq::empty(), then);
        }
    }
}

/// To pass over the name of the program and read on is to read the
/// arguments alone.
pub proof fn lemma_program_name_is_passed_over(
    registry: Registry,
    program: Seq<char>,
    args: Seq<Seq<char>>,
)
    ensures
        scan_from(registry, seq![program] + args, 1) == scan_from(registry, args, 0),
{
    lemma_run_looks_ahead_only(
        registry,
        program,
        args,
        Seq::empty(),
        Progress { next: 0, pending: registry.pending, found: Map::empty() },
    );
}

} // verus!
