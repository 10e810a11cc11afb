//! The registry of a program's options, with the padding that its usage
//! text needs.

use vstd::prelude::*;
use vstd::hash_map::StringHashMap;
use vstd::string::*;
use crate::errors::{Error, Failure};
use crate::grammar::Descriptor;
use crate::registry::{
    compile_all, help_descriptor, index_of, lemma_first_failure_wins,
    lemma_positionals_are_the_required, placed, places, positionals, registry_of, Registry,
};
use crate::text::byte_len;
use crate::token::{label, token, Token};

verus! {

/// The descriptors that `tokens` stand for.
pub open spec fn descriptors(tokens: Seq<Token>) -> Seq<Descriptor> {
    tokens.map_values(|t: Token| t@)
}

/// The width of a descriptor's label in bytes.
pub open spec fn width(d: Descriptor) -> nat {
    byte_len(label(d))
}

/// The width of the widest label among `tokens`, group headers left aside.
pub open spec fn widest(tokens: Seq<Descriptor>) -> nat
    decreases tokens.len(),
{
    if tokens.len() == 0 {
        0
    } else {
        let before = widest(tokens.drop_last());
        if !tokens.last().is_group_header && width(tokens.last()) > before {
            width(tokens.last())
        } else {
            before
        }
    }
}

/// The spaces that bring the label at place `at` to the width of the widest.
pub open spec fn padding_of(tokens: Seq<Descriptor>, at: int) -> nat {
    if width(tokens[at]) < widest(tokens) {
        (widest(tokens) - width(tokens[at])) as nat
    } else {
        0
    }
}

/// The options that a program declares, and the required arguments that
/// still wait for their value.
pub struct Vars {
    tokens: Vec<Token>,
    opts: StringHashMap<usize>,
    args: Vec<usize>,
    next_arg: usize,
    program_name: String,
}

impl View for Vars {
    type V = Registry;

    closed spec fn view(&self) -> Registry {
        Registry {
            tokens: descriptors(self.tokens@),
            index: placed(self.opts@),
            pending: places(self.args@).skip(self.next_arg as int),
        }
    }
}

/// Builds the registry of a program from its option definitions, in their
/// order. The help option is added after them.
pub fn vars(program_name: &str, options: &[&str]) -> (result: Result<Vars, Error>)
    ensures
        match result {
            Ok(vars) => registry_of(options.deep_view()) == Ok::<Registry, Failure>(vars@)
                && vars.name() == program_name@,
            Err(error) => registry_of(options.deep_view()) == Err::<Registry, Failure>(error@),
        },
{
    let mut tokens: Vec<Token> = Vec::new();
    let mut opts: StringHashMap<usize> = StringHashMap::new();
    let mut args: Vec<usize> = Vec::new();
    let mut longest_token_len: usize = 0;
    let mut index: usize = 0;
    let ghost definitions = options.deep_view();

    assert(definitions.take(0) =~= Seq::empty());
    assert(descriptors(tokens@) =~= Seq::empty());
    assert(placed(opts@) =~= index_of(descriptors(tokens@)));
    assert(places(args@) =~= positionals(descriptors(tokens@)));
    while index < options.len()
        invariant
            index <= options.len(),
            definitions == options.deep_view(),
            tokens@.len() == index,
            compile_all(definitions.take(index as int)) == Ok::<Seq<Descriptor>, Failure>(
                descriptors(tokens@),
            ),
            placed(opts@) == index_of(descriptors(tokens@)),
            places(args@) == positionals(descriptors(tokens@)),
            longest_token_len == widest(descriptors(tokens@)),
            forall|i: int| 0 <= i < tokens@.len() ==> (#[trigger] tokens@[i]).padding == 0,
            forall|name: Seq<char>| #[trigger] opts@.contains_key(name) ==> opts@[name] < index,
        decreases options.len() - index,
    {
        let compiled = match token(options[index]) {
            Ok(t) => t,
            Err(why) => {
                proof {
                    lemma_first_failure_wins(definitions, index as int);
                }
                return Err(why);
            },
        };
        proof {
            assert(definitions.take(index + 1).drop_last() =~= definitions.take(index as int));
            assert(descriptors(tokens@.push(compiled)) =~= descriptors(tokens@).push(compiled@));
            assert(descriptors(tokens@).push(compiled@).drop_last() =~= descriptors(tokens@));
        }
        if !compiled.is_group {
            if compiled.is_arg {
                args.push(index);
                assert(places(args@) =~= positionals(descriptors(tokens@).push(compiled@)));
            } else {
                if !compiled.short_name.as_str().is_empty() {
                    opts.insert(compiled.short_name.clone(), index);
                }
                if !compiled.long_name.as_str().is_empty() {
                    opts.insert(compiled.long_name.clone(), index);
                }
                assert(placed(opts@) =~= index_of(descriptors(tokens@).push(compiled@)));
            }
            let token_len = compiled.len();
            if token_len > longest_token_len {
                longest_token_len = token_len;
            }
        }
        tokens.push(compiled);
        index += 1;
    }
    assert(definitions.take(index as int) =~= definitions);

    let help_token = Token {
        short_name: String::from_str("h"),
        long_name: String::from_str("help"),
        description: String::from_str("Display usage information"),
        is_arg: false,
        has_arg: false,
        is_group: false,
        padding: 0,
    };
    proof {
        reveal_strlit("h");
        reveal_strlit("help");
        assert(help_token@ == help_descriptor());
        assert(descriptors(tokens@.push(help_token)) =~= descriptors(tokens@).push(help_token@));
        assert(descriptors(tokens@).push(help_token@).drop_last() =~= descriptors(tokens@));
    }
    opts.insert(help_token.short_name.clone(), index);
    opts.insert(help_token.long_name.clone(), index);
    assert(placed(opts@) =~= index_of(descriptors(tokens@).push(help_token@)));
    let help_len = help_token.len();
    if help_len > longest_token_len {
        longest_token_len = help_len;
    }
    tokens.push(help_token);

    let ghost all = descriptors(tokens@);
    let count = tokens.len();
    let mut at: usize = 0;
    while at < count
        invariant
            at <= count,
            count == tokens@.len(),
            descriptors(tokens@) == all,
            longest_token_len == widest(all),
            forall|i: int| 0 <= i < at ==> (#[trigger] tokens@[i]).padding == padding_of(all, i),
            forall|i: int| at <= i < count ==> (#[trigger] tokens@[i]).padding == 0,
            forall|name: Seq<char>| #[trigger] opts@.contains_key(name) ==> opts@[name] < count,
        decreases count - at,
    {
        let token_len = tokens[at].len();
        assert(tokens@[at as int]@ == all[at as int]);
        if token_len < longest_token_len {
            let delta = longest_token_len - token_len;
            let ghost before = tokens@;
            tokens[at].adjust_padding(delta);
            assert(descriptors(tokens@) =~= all) by {
                assert forall|i: int| 0 <= i < count implies (#[trigger] tokens@[i])@ == all[i] by {
                    assert(before[i]@ == all[i]);
                }
            }
        }
        at += 1;
    }

    proof {
        lemma_positionals_are_the_required(all);
        assert(places(args@).skip(0) =~= places(args@));
    }
    Ok(Vars { tokens, opts, args, next_arg: 0, program_name: String::from_str(program_name) })
}

impl Vars {
    #[verifier::type_invariant]
    spec fn consistent(&self) -> bool {
        &&& self.next_arg <= self.args@.len()
        &&& places(self.args@) == positionals(descriptors(self.tokens@))
        &&& forall|name: Seq<char>| #[trigger]
            self.opts@.contains_key(name) ==> self.opts@[name] < self.tokens@.len()
        &&& forall|i: int|
            0 <= i < self.tokens@.len() ==> (#[trigger] self.tokens@[i]).padding == padding_of(
                descriptors(self.tokens@),
                i,
            )
    }

    /// The name of the program that the options belong to.
    pub closed spec fn name(&self) -> Seq<char> {
        self.program_name@
    }

    pub fn program_name(&self) -> (name: &str)
        ensures
            name@ == self.name(),
    {
        self.program_name.as_str()
    }

    /// The option that goes by `opt_name`, short or long.
    pub fn get_opt(&self, opt_name: &str) -> (found: Option<&Token>)
        ensures
            match found {
                Some(token) => {
                    &&& self@.index.contains_key(opt_name@)
                    &&& 0 <= self@.index[opt_name@] < self@.tokens.len()
                    &&& token@ == self@.tokens[self@.index[opt_name@]]
                    &&& token.padding == padding_of(self@.tokens, self@.index[opt_name@])
                },
                None => !self@.index.contains_key(opt_name@),
            },
    {
        proof {
            use_type_invariant(self);
        }
        if let Some(index) = self.opts.get(opt_name) {
            Some(&self.tokens[*index])
        } else {
            None
        }
    }

    pub fn contains_opt(&self, opt: &str) -> (found: bool)
        ensures
            found == self@.index.contains_key(opt@),
    {
        self.opts.contains_key(opt)
    }

    /// Hands out the required argument that is next in line, if any is left.
    pub fn get_arg(&mut self) -> (next: Option<&Token>)
        ensures
            final(self).name() == old(self).name(),
            match next {
                Some(token) => {
                    &&& old(self)@.pending.len() > 0
                    &&& 0 <= old(self)@.pending[0] < old(self)@.tokens.len()
                    &&& token@ == old(self)@.tokens[old(self)@.pending[0]]
                    &&& token.padding == padding_of(old(self)@.tokens, old(self)@.pending[0])
                    &&& final(self)@ == (Registry {
                        pending: old(self)@.pending.skip(1),
                        ..old(self)@
                    })
                },
                None => old(self)@.pending.len() == 0 && final(self)@ == old(self)@,
            },
    {
        proof {
            use_type_invariant(&*self);
            lemma_positionals_are_the_required(descriptors(self.tokens@));
        }
        if self.next_arg < self.args.len() {
            let index = self.args[self.next_arg];
            assert(places(self.args@)[self.next_arg as int] == index);
            self.next_arg = self.next_arg + 1;
            assert(self@.pending =~= old(self)@.pending.skip(1));
            Some(&self.tokens[index])
        } else {
            None
        }
    }

    /// How many required arguments still wait for their value.
    pub fn arg_len(&self) -> (count: usize)
        ensures
            count == self@.pending.len(),
    {
        proof {
            use_type_invariant(self);
        }
        self.args.len() - self.next_arg
    }

    /// Every token in the order of declaration, padded for the usage text.
    pub fn tokens(&self) -> (tokens: &Vec<Token>)
        ensures
            descriptors(tokens@) == self@.tokens,
            forall|i: int|
                0 <= i < tokens@.len() ==> (#[trigger] tokens@[i]).padding == padding_of(
                    self@.tokens,
                    i,
                ),
    {
        proof {
            use_type_invariant(self);
        }
        &self.tokens
    }

    /// Puts every required argument back in line, so that the registry can
    /// match another list of arguments.
    pub fn reset(&mut self)
        ensures
            final(self).name() == old(self).name(),
            final(self)@ == (Registry {
                pending: positionals(old(self)@.tokens),
                ..old(self)@
            }),
    {
        proof {
            use_type_invariant(&*self);
        }
        self.next_arg = 0;
        assert(self@.pending =~= positionals(old(self)@.tokens));
    }
}

} // verus!
