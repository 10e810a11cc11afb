//! The registry of a program's options in its plainest form: which names
//! there are, whether they take a value, and which required arguments wait.

use std::collections::VecDeque;
use vstd::prelude::*;
use vstd::hash_map::StringHashMap;
use vstd::string::*;
use crate::errors::{Error, Failure};
use crate::grammar::Descriptor;
use crate::lexer::{analyze, descriptors, Token};
use crate::registry::{
    compile_all, help_descriptor, index_of, lemma_first_failure_wins,
    lemma_positionals_are_the_required, placed, places, positionals, registry_of, Registry,
};

verus! {

/// The options that a program declares, and the required arguments that
/// still wait for their value. Matching takes the required arguments out of
/// the line for good.
pub struct Opts {
    opts: StringHashMap<usize>,
    args: VecDeque<usize>,
    tokens: Vec<Token>,
}

impl View for Opts {
    type V = Registry;

    closed spec fn view(&self) -> Registry {
        Registry {
            tokens: descriptors(self.tokens@),
            index: placed(self.opts@),
            pending: places(self.args@),
        }
    }
}

impl Opts {
    #[verifier::type_invariant]
    spec fn places_exist(&self) -> bool {
        &&& forall|name: Seq<char>| #[trigger]
            self.opts@.contains_key(name) ==> self.opts@[name] < self.tokens@.len()
        &&& forall|i: int|
            0 <= i < self.args@.len() ==> (#[trigger] self.args@[i]) < self.tokens@.len()
    }

    /// Builds the registry of a program from its option definitions, in
    /// their order. The help option is added after them.
    pub fn new(options: &[&str]) -> (result: Result<Opts, Error>)
        ensures
            match result {
                Ok(opts) => registry_of(options.deep_view()) == Ok::<Registry, Failure>(opts@),
                Err(error) => registry_of(options.deep_view()) == Err::<Registry, Failure>(
                    error@,
                ),
            },
    {
        let mut opts: StringHashMap<usize> = StringHashMap::new();
        let mut args: VecDeque<usize> = VecDeque::new();
        let mut tokens: Vec<Token> = Vec::new();
        let ghost definitions = options.deep_view();

        assert(definitions.take(0) =~= Seq::empty());
        assert(descriptors(tokens@) =~= Seq::empty());
        assert(placed(opts@) =~= index_of(descriptors(tokens@)));
        assert(places(args@) =~= positionals(descriptors(tokens@)));
        let mut index: usize = 0;
        while index < options.len()
            invariant
                index <= options.len(),
                definitions == options.deep_view(),
                tokens@.len() == index,
                compile_all(definitions.take(index as int)) == Ok::<Seq<Descriptor>, Failure>(
                    descriptors(tokens@),
                ),
                placed(opts@) == index_of(descriptors(tokens@)),
                places(args@) == positionals(descriptors(tokens@)),
                forall|name: Seq<char>| #[trigger] opts@.contains_key(name) ==> opts@[name] < index,
            decreases options.len() - index,
        {
            let token = match analyze(options[index]) {
                Ok(t) => t,
                Err(why) => {
                    proof {
                        lemma_first_failure_wins(definitions, index as int);
                    }
                    return Err(why);
                },
            };
            proof {
                assert(definitions.take(index + 1).drop_last() =~= definitions.take(index as int));
                assert(descriptors(tokens@.push(token)) =~= descriptors(tokens@).push(token@));
                assert(descriptors(tokens@).push(token@).drop_last() =~= descriptors(tokens@));
            }
            if !token.is_group {
                if token.is_arg {
                    args.push_back(index);
                    assert(places(args@) =~= positionals(descriptors(tokens@).push(token@)));
                } else {
                    if !token.short_name.as_str().is_empty() {
                        opts.insert(token.short_name.clone(), index);
                    }
                    if !token.long_name.as_str().is_empty() {
                        opts.insert(token.long_name.clone(), index);
                    }
                    assert(placed(opts@) =~= index_of(descriptors(tokens@).push(token@)));
                }
            }
            tokens.push(token);
            index += 1;
        }
        assert(definitions.take(index as int) =~= definitions);

        let help = Token {
            short_name: String::from_str("h"),
            long_name: String::from_str("help"),
            is_arg: false,
            has_arg: false,
            is_group: false,
            description: String::from_str("Display usage information"),
        };
        proof {
            reveal_strlit("h");
            reveal_strlit("help");
            assert(help@ == help_descriptor());
            assert(descriptors(tokens@.push(help)) =~= descriptors(tokens@).push(help@));
            assert(descriptors(tokens@).push(help@).drop_last() =~= descriptors(tokens@));
        }
        opts.insert(help.short_name.clone(), index);
        opts.insert(help.long_name.clone(), index);
        assert(placed(opts@) =~= index_of(descriptors(tokens@).push(help@)));
        tokens.push(help);

        proof {
            lemma_positionals_are_the_required(descriptors(tokens@));
            assert forall|i: int| 0 <= i < args@.len() implies (#[trigger] args@[i])
                < tokens@.len() by {
                assert(places(args@)[i] == args@[i]);
            }
        }
        Ok(Opts { opts, args, tokens })
    }

    /// Whether the option that goes by `opt_name` takes a value.
    pub fn get_opt(&self, opt_name: &String) -> (takes_value: Option<&bool>)
        ensures
            match takes_value {
                Some(flag) => {
                    &&& self@.index.contains_key(opt_name@)
                    &&& 0 <= self@.index[opt_name@] < self@.tokens.len()
                    &&& *flag == self@.tokens[self@.index[opt_name@]].takes_value
                },
                None => !self@.index.contains_key(opt_name@),
            },
    {
        proof {
            use_type_invariant(self);
        }
        match self.opts.get(opt_name.as_str()) {
            Some(index) => Some(&self.tokens[*index].has_arg),
            None => None,
        }
    }

    /// The name under which a match of the option that goes by `opt_name`
    /// is recorded.
    pub fn get_name(&self, opt_name: &String) -> (name: Option<&str>)
        ensures
            match name {
                Some(text) => {
                    &&& self@.index.contains_key(opt_name@)
                    &&& 0 <= self@.index[opt_name@] < self@.tokens.len()
                    &&& text@ == self@.tokens[self@.index[opt_name@]].name()
                },
                None => !self@.index.contains_key(opt_name@),
            },
    {
        proof {
            use_type_invariant(self);
        }
        match self.opts.get(opt_name.as_str()) {
            Some(index) => Some(self.tokens[*index].name()),
            None => None,
        }
    }

    pub fn contains_opt(&self, opt: &String) -> (found: bool)
        ensures
            found == self@.index.contains_key(opt@),
    {
        self.opts.contains_key(opt.as_str())
    }

    /// Takes the required argument that is next in line, if any is left,
    /// and gives its name.
    pub fn get_arg(&mut self) -> (name: Option<String>)
        ensures
            match name {
                Some(text) => {
                    &&& old(self)@.pending.len() > 0
                    &&& 0 <= old(self)@.pending[0] < old(self)@.tokens.len()
                    &&& text@ == old(self)@.tokens[old(self)@.pending[0]].name()
                    &&& final(self)@ == (Registry {
                        pending: old(self)@.pending.skip(1),
                        ..old(self)@
                    })
                },
                None => old(self)@.pending.len() == 0 && final(self)@ == old(self)@,
            },
    {
        proof {
            use_type_invariant(&*self);
        }
        // The line is taken out of the registry, shortened, and put back.
        let mut taken = Opts {
            opts: StringHashMap::new(),
            args: VecDeque::new(),
            tokens: Vec::new(),
        };
        core::mem::swap(self, &mut taken);
        let Opts { opts, mut args, tokens } = taken;
        let name = match args.pop_front() {
            Some(index) => {
                assert(places(args@) =~= old(self)@.pending.skip(1));
                Some(String::from_str(tokens[index].name()))
            },
            None => None,
        };
        *self = Opts { opts, args, tokens };
        name
    }

    /// How many required arguments still wait for their value.
    pub fn arg_len(&self) -> (count: usize)
        ensures
            count == self@.pending.len(),
    {
        self.args.len()
    }
}

} // verus!
