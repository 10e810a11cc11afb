//! Matching a program's arguments against its registry of options.

use vstd::prelude::*;
use vstd::hash_map::StringHashMap;
use vstd::string::*;
use crate::errors::{Error, ErrorKind, Failure};
use crate::registry::Registry;
use crate::scan::{candidates, is_option, run, scan_from, Progress};
use crate::text::texts;
use crate::vars::Vars;

verus! {

/// The values that the arguments gave, by the canonical name of the option
/// or required argument. An option without a value is recorded with the
/// empty string.
pub struct Matches {
    values: StringHashMap<String>,
    names: Vec<String>,
}

impl View for Matches {
    type V = Map<Seq<char>, Seq<char>>;

    closed spec fn view(&self) -> Map<Seq<char>, Seq<char>> {
        self.values@.map_values(|value: String| value@)
    }
}

impl Matches {
    #[verifier::type_invariant]
    spec fn names_are_the_keys(&self) -> bool {
        &&& texts(self.names@).no_duplicates()
        &&& forall|name: Seq<char>|
            self.values@.contains_key(name) <==> texts(self.names@).contains(name)
    }

    pub fn new() -> (matches: Matches)
        ensures
            matches@ == Map::<Seq<char>, Seq<char>>::empty(),
    {
        let matches = Matches { values: StringHashMap::new(), names: Vec::new() };
        assert(matches@ =~= Map::<Seq<char>, Seq<char>>::empty());
        matches
    }

    /// Records `value` under `name`, in place of what was recorded there.
    pub fn insert(&mut self, name: String, value: String)
        ensures
            final(self)@ == old(self)@.insert(name@, value@),
    {
        proof {
            use_type_invariant(&*self);
        }
        // Both fields change together, so they are taken out, changed, and
        // put back as one value.
        let mut taken = Matches::new();
        core::mem::swap(self, &mut taken);
        let Matches { mut values, mut names } = taken;
        let ghost names_before = texts(names@);
        let ghost values_before = values@;
        if !values.contains_key(name.as_str()) {
            names.push(name.clone());
            assert(texts(names@) =~= names_before.push(name@));
        }
        values.insert(name, value);
        proof {
            let names_after = texts(names@);
            assert forall|key: Seq<char>| values@.contains_key(key) <==> names_after.contains(
                key,
            ) by {
                if names_before.contains(key) {
                    let i = choose|i: int| 0 <= i < names_before.len() && names_before[i] == key;
                    assert(names_after[i] == key);
                }
                if key == name@ && !values_before.contains_key(key) {
                    assert(names_after[names_before.len() as int] == key);
                }
            }
            assert forall|i: int, j: int|
                0 <= i < names_after.len() && 0 <= j < names_after.len() && i != j implies names_after[i]
                != names_after[j] by {
                if i < names_before.len() {
                    assert(names_before.contains(names_before[i]));
                }
                if j < names_before.len() {
                    assert(names_before.contains(names_before[j]));
                }
            }
        }
        *self = Matches { values, names };
        assert(self@ =~= old(self)@.insert(name@, value@));
    }
}

/// What can be asked of the values that the arguments gave.
pub trait Match {
    /// The recorded values, by name.
    spec fn found(&self) -> Map<Seq<char>, Seq<char>>;

    /// The value recorded under `arg`.
    fn get(&self, arg: &str) -> (value: Option<&String>)
        ensures
            match value {
                Some(text) => self.found().contains_key(arg@) && text@ == self.found()[arg@],
                None => !self.found().contains_key(arg@),
            },
    ;

    /// Whether the arguments gave `arg`.
    fn has_match(&self, arg: &str) -> (given: bool)
        ensures
            given == self.found().contains_key(arg@),
    ;

    /// The names that the arguments gave, each once.
    fn matches(&self) -> (names: Vec<String>)
        ensures
            names.deep_view().no_duplicates(),
            names.deep_view().to_set() == self.found().dom(),
    ;
}

impl Match for Matches {
    open spec fn found(&self) -> Map<Seq<char>, Seq<char>> {
        self@
    }

    fn get(&self, arg: &str) -> (value: Option<&String>) {
        self.values.get(arg)
    }

    fn has_match(&self, arg: &str) -> (given: bool) {
        self.values.contains_key(arg)
    }

    fn matches(&self) -> (names: Vec<String>) {
        proof {
            use_type_invariant(self);
        }
        let mut names: Vec<String> = Vec::new();
        let mut at: usize = 0;
        while at < self.names.len()
            invariant
                at <= self.names@.len(),
                names@.len() == at,
                texts(names@) == texts(self.names@).take(at as int),
            decreases self.names@.len() - at,
        {
            let ghost before = names@;
            names.push(self.names[at].clone());
            at += 1;
            assert forall|i: int| 0 <= i < at implies texts(names@)[i] == texts(self.names@)[i] by {
                if i < at - 1 {
                    assert(texts(before)[i] == texts(self.names@).take(at - 1)[i]);
                }
            }
            assert(texts(names@) =~= texts(self.names@).take(at as int));
        }
        proof {
            assert(texts(self.names@).take(at as int) =~= texts(self.names@));
            assert(names.deep_view() =~= texts(names@));
            assert(names.deep_view().to_set() =~= self@.dom());
        }
        names
    }
}

/// The names that the option argument `arg` holds, from left to right.
pub fn option_names(arg: &str) -> (names: Vec<String>)
    ensures
        texts(names@) == candidates(arg@),
{
    let mut names: Vec<String> = Vec::new();
    let length = arg.unicode_len();
    if length == 0 {
        assert(texts(names@) =~= candidates(arg@));
    } else if length > 1 && arg.get_char(1) == '-' {
        // Long form
        names.push(String::from_str(arg.substring_char(2, length)));
        assert(texts(names@) =~= candidates(arg@));
    } else {
        // A group of short forms, as in `tar -xzf`
        let group = arg.substring_char(1, length);
        for c in it: group.chars()
            invariant
                it.seq() == group@,
                1 <= length == arg@.len(),
                group@ == arg@.subrange(1, length as int),
                length < 2 || arg@[1] != '-',
                names@.len() == it.index(),
                texts(names@) == candidates(arg@).take(it.index() as int),
        {
            let ghost before = names@;
            let mut name = String::new();
            name.push(c);
            assert(name@ =~= seq![arg@[it.index() + 1]]);
            names.push(name);
            assert forall|i: int| 0 <= i < names@.len() implies texts(names@)[i] == candidates(
                arg@,
            )[i] by {
                if i < before.len() {
                    assert(texts(before)[i] == candidates(arg@).take(it.index() as int)[i]);
                }
            }
            assert(texts(names@) =~= candidates(arg@).take(it.index() + 1));
        }
        assert(candidates(arg@).take(group@.len() as int) =~= candidates(arg@));
    }
    names
}

/// What a call that ended with `result` has to show for itself.
pub open spec fn outcome(result: Result<Matches, Error>) -> Result<Map<Seq<char>, Seq<char>>, Failure> {
    match result {
        Ok(matches) => Ok(matches@),
        Err(error) => Err(error@),
    }
}

/// Matches the arguments of a process against the registry `vars`.
///
/// `env_args` is the list as the process received it: its first entry, the
/// name of the program, is passed over. Required arguments are taken from
/// the head of the line in `vars` and are not put back, whether the call
/// succeeds or fails; [`Vars::reset`] restores the line.
pub fn matches(vars: &mut Vars, env_args: &[String]) -> (result: Result<Matches, Error>)
    ensures
        final(vars).name() == old(vars).name(),
        outcome(result) == scan_from(old(vars)@, env_args.deep_view(), 1).result,
        final(vars)@ == (Registry {
            pending: scan_from(old(vars)@, env_args.deep_view(), 1).pending,
            ..old(vars)@
        }),
{
    let mut matches = Matches::new();
    let ghost args = env_args.deep_view();
    let ghost registry = old(vars)@;
    let ghost goal = scan_from(registry, args, 1);

    // The first argument is the name of the program
    let mut next: usize = 1;
    while next < env_args.len()
        invariant
            1 <= next,
            args == env_args.deep_view(),
            registry == old(vars)@,
            goal == scan_from(registry, args, 1),
            vars.name() == old(vars).name(),
            vars@ == (Registry { pending: vars@.pending, ..registry }),
            goal == run(
                registry,
                args,
                Seq::empty(),
                Progress { next: next as int, pending: vars@.pending, found: matches@ },
            ),
        decreases env_args.len() - next,
    {
        let current_arg = &env_args[next];
        assert(args[next as int] == current_arg@);
        next += 1;

        // Determine if the current argument is in short, long, or bare form
        if current_arg.as_str().unicode_len() > 0 && current_arg.as_str().get_char(0) == '-' {
            let arg_vec = option_names(current_arg.as_str());
            let ghost resumed = next;
            assert(is_option(args[next - 1]));
            assert(texts(arg_vec@).skip(0) =~= candidates(args[next - 1]));

            let mut at: usize = 0;
            while at < arg_vec.len()
                invariant
                    at <= arg_vec@.len(),
                    1 <= resumed <= next <= env_args@.len(),
                    args == env_args.deep_view(),
                    registry == old(vars)@,
                    goal == scan_from(registry, args, 1),
                    vars.name() == old(vars).name(),
                    vars@ == (Registry { pending: vars@.pending, ..registry }),
                    goal == run(
                        registry,
                        args,
                        texts(arg_vec@).skip(at as int),
                        Progress { next: next as int, pending: vars@.pending, found: matches@ },
                    ),
                decreases arg_vec@.len() - at,
            {
                let arg = &arg_vec[at];
                proof {
                    assert(texts(arg_vec@).skip(at as int)[0] == arg@);
                    assert(texts(arg_vec@).skip(at as int).skip(1) =~= texts(arg_vec@).skip(
                        at + 1,
                    ));
                }
                match vars.get_opt(arg.as_str()) {
                    None => {
                        return Err(Error::new(ErrorKind::InvalidArgument, arg.clone()));
                    },
                    Some(token) => {
                        if token.has_arg {
                            // The value must be the argument that follows
                            if next < env_args.len() {
                                let value = env_args[next].clone();
                                assert(args[next as int] == value@);
                                next += 1;
                                matches.insert(token.name(), value);
                            } else {
                                return Err(Error::new(ErrorKind::MissingArgument, arg.clone()));
                            }
                        } else {
                            matches.insert(token.name(), String::new());
                        }
                    },
                }
                at += 1;
            }
            assert(texts(arg_vec@).skip(at as int) =~= Seq::<Seq<char>>::empty());
        } else {
            // A required argument
            let name = match vars.get_arg() {
                None => {
                    return Err(Error::new(ErrorKind::ExtraArgument, current_arg.clone()));
                },
                Some(token) => token.name(),
            };
            matches.insert(name, current_arg.clone());
        }
    }

    if vars.arg_len() == 0 {
        Ok(matches)
    } else {
        let name = match vars.get_arg() {
            Some(token) => token.name(),
            None => String::new(),
        };
        Err(Error::new(ErrorKind::MissingArgument, name))
    }
}

} // verus!
