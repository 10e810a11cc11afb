//! The set of options that a program declares, as mathematics.
//!
//! A registry keeps the descriptors in the order of their declaration, finds
//! an option by either of its names, and hands out the required bare
//! arguments first come, first served.

use vstd::prelude::*;
use crate::errors::Failure;
use crate::grammar::{compile, Descriptor};

verus! {

/// The options of a program and the required arguments that still wait for
/// a value.
pub struct Registry {
    /// Every descriptor, in the order of declaration.
    pub tokens: Seq<Descriptor>,
    /// From each name of an option to its place in `tokens`.
    pub index: Map<Seq<char>, int>,
    /// The places in `tokens` of the required arguments not yet given, the
    /// next one first.
    pub pending: Seq<int>,
}

impl Registry {
    /// Every place that the registry refers to exists.
    pub open spec fn well_formed(self) -> bool {
        &&& forall|name: Seq<char>| #[trigger]
            self.index.contains_key(name) ==> 0 <= self.index[name] < self.tokens.len()
        &&& forall|i: int|
            0 <= i < self.pending.len() ==> 0 <= #[trigger] self.pending[i] < self.tokens.len()
    }
}

/// Places as the registry counts them.
pub open spec fn places(at: Seq<usize>) -> Seq<int> {
    at.map_values(|i: usize| i as int)
}

/// An index as the registry holds it.
pub open spec fn placed(index: Map<Seq<char>, usize>) -> Map<Seq<char>, int> {
    index.map_values(|i: usize| i as int)
}

/// The option that every registry has without being asked: `-h`, `--help`.
pub open spec fn help_descriptor() -> Descriptor {
    Descriptor {
        short_name: "h"@,
        long_name: "help"@,
        description: "Display usage information"@,
        is_positional: false,
        takes_value: false,
        is_group_header: false,
    }
}

/// The descriptors of `definitions`, or the failure of the first definition
/// that does not compile.
pub open spec fn compile_all(definitions: Seq<Seq<char>>) -> Result<Seq<Descriptor>, Failure>
    decreases definitions.len(),
{
    if definitions.len() == 0 {
        Ok(Seq::empty())
    } else {
        match compile_all(definitions.drop_last()) {
            Err(failure) => Err(failure),
            Ok(tokens) => match compile(definitions.last()) {
                Err(failure) => Err(failure),
                Ok(token) => Ok(tokens.push(token)),
            },
        }
    }
}

/// `index` after the descriptor `d`, declared at place `at`, has been
/// entered: an option is found under each name that it has; a required
/// argument and a group header are found under none.
pub open spec fn enter(index: Map<Seq<char>, int>, d: Descriptor, at: int) -> Map<Seq<char>, int> {
    if d.is_option() {
        let with_short = if d.short_name.len() > 0 {
            index.insert(d.short_name, at)
        } else {
            index
        };
        if d.long_name.len() > 0 {
            with_short.insert(d.long_name, at)
        } else {
            with_short
        }
    } else {
        index
    }
}

/// The index over `tokens`, entered in the order of declaration, so that of
/// two options with one name the later is found.
pub open spec fn index_of(tokens: Seq<Descriptor>) -> Map<Seq<char>, int>
    decreases tokens.len(),
{
    if tokens.len() == 0 {
        Map::empty()
    } else {
        enter(index_of(tokens.drop_last()), tokens.last(), tokens.len() - 1)
    }
}

/// A descriptor that waits for a bare argument.
pub open spec fn is_required(d: Descriptor) -> bool {
    !d.is_group_header && d.is_positional
}

/// The places of the required arguments among `tokens`, in the order of
/// declaration.
pub open spec fn positionals(tokens: Seq<Descriptor>) -> Seq<int>
    decreases tokens.len(),
{
    if tokens.len() == 0 {
        Seq::empty()
    } else if is_required(tokens.last()) {
        positionals(tokens.drop_last()).push(tokens.len() - 1)
    } else {
        positionals(tokens.drop_last())
    }
}

/// The registry over `tokens` before any argument was matched.
pub open spec fn fresh(tokens: Seq<Descriptor>) -> Registry {
    Registry { tokens, index: index_of(tokens), pending: positionals(tokens) }
}

/// The registry that `definitions` declare: their descriptors, then the
/// implicit help option, which therefore wins over a declared `h` or `help`.
pub open spec fn registry_of(definitions: Seq<Seq<char>>) -> Result<Registry, Failure> {
    match compile_all(definitions) {
        Err(failure) => Err(failure),
        Ok(tokens) => Ok(fresh(tokens.push(help_descriptor()))),
    }
}

/// Compiling a list stops at the first definition that fails: where the
/// first `at` definitions compile and the next does not, that failure is the
/// list's, whatever follows.
pub proof fn lemma_first_failure_wins(definitions: Seq<Seq<char>>, at: int)
    requires
        0 <= at < definitions.len(),
        compile_all(definitions.take(at)) is Ok,
        compile(definitions[at]) is Err,
    ensures
        compile_all(definitions) == Err::<Seq<Descriptor>, Failure>(
            compile(definitions[at])->Err_0,
        ),
    decreases definitions.len(),
{
    if at == definitions.len() - 1 {
        assert(definitions.drop_last() =~= definitions.take(at));
    } else {
        let shorter = definitions.drop_last();
        assert(shorter.take(at) =~= definitions.take(at));
        lemma_first_failure_wins(shorter, at);
    }
}

/// The required arguments are listed by place, each place once and in
/// rising order, and a place is listed exactly when its descriptor is one.
pub proof fn lemma_positionals_are_the_required(tokens: Seq<Descriptor>)
    ensures
        forall|i: int|
            0 <= i < positionals(tokens).len() ==> 0 <= #[trigger] positionals(tokens)[i]
                < tokens.len() && is_required(tokens[positionals(tokens)[i]]),
        forall|i: int, j: int|
            0 <= i < j < positionals(tokens).len() ==> positionals(tokens)[i] < positionals(
                tokens,
            )[j],
        forall|at: int|
            0 <= at < tokens.len() && is_required(#[trigger] tokens[at]) ==> positionals(
                tokens,
            ).contains(at),
    decreases tokens.len(),
{
    if tokens.len() > 0 {
        let shorter = tokens.drop_last();
        lemma_positionals_are_the_required(shorter);
        let listed = positionals(tokens);
        let before = positionals(shorter);
        assert forall|at: int| 0 <= at < tokens.len() && is_required(
            #[trigger] tokens[at],
        ) implies listed.contains(at) by {
            if at < shorter.len() {
                assert(shorter[at] == tokens[at]);
                let k = choose|k: int| 0 <= k < before.len() && before[k] == at;
                assert(listed[k] == at);
            } else {
                assert(listed[listed.len() - 1] == at);
            }
        }
    }
}

/// A name bears an option when it is its short or its long name.
pub open spec fn bears(d: Descriptor, name: Seq<char>) -> bool {
    d.is_option() && name.len() > 0 && (d.short_name == name || d.long_name == name)
}

/// A name is found exactly when some option bears it, and what is found is
/// the last option declared under that name. So one name stands for one
/// descriptor, and both names of an option for the same one unless a later
/// option took one of them.
pub proof fn lemma_index_finds_last_bearer(tokens: Seq<Descriptor>, name: Seq<char>)
    ensures
        index_of(tokens).contains_key(name) <==> exists|at: int|
            0 <= at < tokens.len() && bears(#[trigger] tokens[at], name),
        index_of(tokens).contains_key(name) ==> {
            let found = index_of(tokens)[name];
            &&& 0 <= found < tokens.len()
            &&& bears(tokens[found], name)
            &&& forall|later: int|
                found < later < tokens.len() ==> !bears(#[trigger] tokens[later], name)
        },
    decreases tokens.len(),
{
    if tokens.len() > 0 {
        let shorter = tokens.drop_last();
        let last = tokens.len() - 1;
        lemma_index_finds_last_bearer(shorter, name);
        assert forall|at: int| 0 <= at < shorter.len() implies shorter[at] == tokens[at] by {}
        if bears(tokens[last], name) {
            assert(index_of(tokens)[name] == last);
        } else {
            assert(index_of(tokens).contains_key(name) == index_of(shorter).contains_key(name));
            if index_of(shorter).contains_key(name) {
                let found = index_of(shorter)[name];
                assert(index_of(tokens)[name] == found);
                assert(bears(shorter[found], name));
            } else {
                assert forall|at: int| 0 <= at < tokens.len() implies !bears(
                    #[trigger] tokens[at],
                    name,
                ) by {
                    if at < shorter.len() {
                        assert(shorter[at] == tokens[at]);
                    }
                }
            }
        }
    }
}

/// A registry made from definitions refers to existing places only, holds
/// well-formed descriptors only, and ends with the help option, which `h`
/// and `help` always find.
pub proof fn lemma_registry_of_definitions(definitions: Seq<Seq<char>>)
    ensures
        registry_of(definitions) matches Ok(registry) ==> {
            &&& registry.well_formed()
            &&& registry.tokens.len() == definitions.len() + 1
            &&& registry.tokens.last() == help_descriptor()
            &&& registry.index.contains_key("h"@)
            &&& registry.index.contains_key("help"@)
            &&& registry.index["h"@] == definitions.len()
            &&& registry.index["help"@] == definitions.len()
            &&& forall|at: int|
                0 <= at < definitions.len() ==> compile(definitions[at]) == Ok::<
                    Descriptor,
                    Failure,
                >(#[trigger] registry.tokens[at])
            &&& forall|at: int|
                0 <= at < registry.tokens.len() ==> (#[trigger] registry.tokens[at]).well_formed()
        },
{
    if let Ok(registry) = registry_of(definitions) {
        let tokens = registry.tokens;
        lemma_compile_all_is_pointwise(definitions);
        reveal_strlit("h");
        reveal_strlit("help");
        assert(tokens.drop_last() =~= compile_all(definitions)->Ok_0);
        assert forall|at: int| 0 <= at < tokens.len() implies (#[trigger] tokens[at]).well_formed() by {
            if at < definitions.len() {
                assert(compile(definitions[at]) == Ok::<Descriptor, Failure>(tokens[at]));
            }
        }
        assert forall|name: Seq<char>| #[trigger]
            registry.index.contains_key(name) implies 0 <= registry.index[name]
            < tokens.len() by {
            lemma_index_finds_last_bearer(tokens, name);
        }
        lemma_positionals_are_the_required(tokens);
    }
}

/// A list compiles exactly when each of its definitions does, and then
/// descriptor by descriptor.
pub proof fn lemma_compile_all_is_pointwise(definitions: Seq<Seq<char>>)
    ensures
        compile_all(definitions) matches Ok(tokens) ==> {
            &&& tokens.len() == definitions.len()
            &&& forall|at: int|
                0 <= at < definitions.len() ==> compile(#[trigger] definitions[at]) == Ok::<
                    Descriptor,
                    Failure,
                >(tokens[at])
        },
        compile_all(definitions) is Err ==> exists|at: int|
            0 <= at < definitions.len() && compile(#[trigger] definitions[at]) is Err,
    decreases definitions.len(),
{
    if definitions.len() > 0 {
        let shorter = definitions.drop_last();
        lemma_compile_all_is_pointwise(shorter);
        if compile_all(shorter) is Err {
            let at = choose|at: int| 0 <= at < shorter.len() && compile(#[trigger] shorter[at]) is Err;
            assert(definitions[at] == shorter[at]);
        } else if compile(definitions.last()) is Err {
            assert(compile(definitions[definitions.len() - 1]) is Err);
        } else {
            let tokens = compile_all(definitions)->Ok_0;
            assert forall|at: int| 0 <= at < definitions.len() implies compile(
                #[trigger] definitions[at],
            ) == Ok::<Descriptor, Failure>(tokens[at]) by {
                if at < shorter.len() {
                    assert(definitions[at] == shorter[at]);
                }
            }
        }
    }
}

} // verus!
