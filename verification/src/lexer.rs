//! Reading option definitions into plain descriptors.

use vstd::prelude::*;
use vstd::string::*;
use crate::errors::{Error, ErrorKind, Failure};
use crate::grammar::{body_of, compile, stage_at, text_upto, AnalysisStage, Descriptor};
use crate::registry::{compile_all, lemma_first_failure_wins};
use crate::text::{push_spaces, spaces};

verus! {

/// One compiled option definition.
#[derive(Clone, Debug, PartialEq)]
pub struct Token {
    pub short_name: String,
    pub long_name: String,
    pub is_arg: bool,
    pub has_arg: bool,
    pub is_group: bool,
    pub description: String,
}

impl View for Token {
    type V = Descriptor;

    open spec fn view(&self) -> Descriptor {
        Descriptor {
            short_name: self.short_name@,
            long_name: self.long_name@,
            description: self.description@,
            is_positional: self.is_arg,
            takes_value: self.has_arg,
            is_group_header: self.is_group,
        }
    }
}

/// The descriptors that `tokens` stand for.
pub open spec fn descriptors(tokens: Seq<Token>) -> Seq<Descriptor> {
    tokens.map_values(|t: Token| t@)
}

/// A descriptor without any text: a group header that says nothing.
pub open spec fn blank() -> Descriptor {
    Descriptor {
        short_name: Seq::empty(),
        long_name: Seq::empty(),
        description: Seq::empty(),
        is_positional: false,
        takes_value: false,
        is_group_header: true,
    }
}

/// Both forms of a descriptor side by side, as a list of options shows them.
pub open spec fn forms(d: Descriptor) -> Seq<char> {
    "-"@ + d.short_name + ", --"@ + d.long_name
}

/// The line of a descriptor in a list of options: both forms, four spaces,
/// the description.
pub open spec fn entry(d: Descriptor) -> Seq<char> {
    forms(d) + "    "@ + d.description
}

/// Compiles each definition in turn and stops at the first that fails.
pub fn collect(input: &[&str]) -> (result: Result<Vec<Token>, Error>)
    ensures
        match result {
            Ok(tokens) => compile_all(input.deep_view()) == Ok::<Seq<Descriptor>, Failure>(
                descriptors(tokens@),
            ),
            Err(error) => compile_all(input.deep_view()) == Err::<Seq<Descriptor>, Failure>(
                error@,
            ),
        },
{
    let mut vector: Vec<Token> = Vec::new();
    let mut at: usize = 0;
    assert(input.deep_view().take(0) =~= Seq::empty());
    assert(descriptors(vector@) =~= Seq::empty());
    while at < input.len()
        invariant
            at <= input@.len(),
            compile_all(input.deep_view().take(at as int)) == Ok::<Seq<Descriptor>, Failure>(
                descriptors(vector@),
            ),
        decreases input@.len() - at,
    {
        match analyze(input[at]) {
            Err(why) => {
                proof {
                    lemma_first_failure_wins(input.deep_view(), at as int);
                }
                return Err(why);
            },
            Ok(item) => {
                proof {
                    let definitions = input.deep_view();
                    assert(definitions.take(at + 1).drop_last() =~= definitions.take(at as int));
                    assert(descriptors(vector@.push(item)) =~= descriptors(vector@).push(item@));
                }
                vector.push(item)
            },
        }
        at += 1;
    }
    assert(input.deep_view().take(at as int) =~= input.deep_view());
    Ok(vector)
}

/// Compiles one option definition.
pub fn analyze(input: &str) -> (result: Result<Token, Error>)
    ensures
        match result {
            Ok(token) => compile(input@) == Ok::<Descriptor, Failure>(token@),
            Err(error) => compile(input@) == Err::<Descriptor, Failure>(error@),
        },
{
    let mut token = Token::new();
    let length = input.unicode_len();

    token.is_arg = length > 0 && input.get_char(0) == ':';
    token.has_arg = length > 0 && input.get_char(length - 1) == ':';

    if token.is_arg && token.has_arg {
        return Err(Error::new(ErrorKind::OptionFormat, String::from_str(input)));
    }
    let option = if token.is_arg {
        input.substring_char(1, length)
    } else if token.has_arg {
        input.substring_char(0, length - 1)
    } else {
        input
    };
    assert(option@ == body_of(input@));

    let ghost flags = (token.is_arg, token.has_arg);
    let mut current_stage = AnalysisStage::ShortName;
    for c in it: option.chars()
        invariant
            it.seq() == option@,
            flags == (token.is_arg, token.has_arg),
            current_stage == stage_at(option@, it.index() as int),
            token.short_name@ == text_upto(option@, AnalysisStage::ShortName, it.index() as int),
            token.long_name@ == text_upto(option@, AnalysisStage::LongName, it.index() as int),
            token.description@ == text_upto(
                option@,
                AnalysisStage::Description,
                it.index() as int,
            ),
    {
        match c {
            '/' => current_stage = AnalysisStage::LongName,
            '(' => current_stage = AnalysisStage::Description,
            ')' => (),
            _ => {
                match current_stage {
                    AnalysisStage::ShortName => token.short_name.push(c),
                    AnalysisStage::LongName => token.long_name.push(c),
                    AnalysisStage::Description => token.description.push(c),
                }
            },
        }
    }

    token.is_group = token.short_name.as_str().is_empty() && token.long_name.as_str().is_empty();
    if token.is_group && (token.is_arg || token.has_arg) {
        return Err(Error::new(ErrorKind::OptionFormat, String::from_str(input)));
    }
    Ok(token)
}

impl Token {
    /// A token without any text.
    pub fn new() -> (token: Token)
        ensures
            token@ == blank(),
    {
        Token {
            short_name: String::new(),
            long_name: String::new(),
            is_arg: false,
            has_arg: false,
            is_group: true,
            description: String::new(),
        }
    }

    /// The name under which matches of this token are recorded.
    pub fn name(&self) -> (name: &str)
        ensures
            name@ == self@.name(),
    {
        if !self.long_name.as_str().is_empty() {
            self.long_name.as_str()
        } else {
            self.short_name.as_str()
        }
    }

    /// Both forms of the token, followed by `padding` spaces.
    pub fn fmt_with_padding(&self, padding: usize) -> (text: String)
        ensures
            text@ == forms(self@) + spaces(padding as nat),
    {
        let mut name = String::from_str("-");
        name.append(self.short_name.as_str());
        name.append(", --");
        name.append(self.long_name.as_str());
        push_spaces(&mut name, padding);
        name
    }

    /// The token's line in a list of options.
    pub fn to_string(&self) -> (line: String)
        ensures
            line@ == entry(self@),
    {
        let mut repr = self.fmt_with_padding(0);
        assert(repr@ =~= forms(self@));
        repr.append("    ");
        repr.append(self.description.as_str());
        repr
    }
}

/// Compiling is a function of the text alone: whatever two calls of
/// [`analyze`] on the same definition return, both fail alike or both give
/// the same names, description and flags.
pub proof fn lemma_analyze_is_deterministic(
    input: &str,
    first: Result<Token, Error>,
    second: Result<Token, Error>,
)
    requires
        call_ensures(analyze, (input,), first),
        call_ensures(analyze, (input,), second),
    ensures
        match (first, second) {
            (Ok(a), Ok(b)) => a@ == b@,
            (Err(a), Err(b)) => a@ == b@,
            _ => false,
        },
{
}

} // verus!
