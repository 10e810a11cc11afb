//! Option descriptors that know how they are shown in a usage text.

use vstd::prelude::*;
use vstd::string::*;
use crate::errors::{Error, ErrorKind, Failure};
use crate::grammar::{body_of, compile, stage_at, text_upto, AnalysisStage, Descriptor};
use crate::text::{byte_count, byte_len, push_spaces, spaces};

verus! {

/// One compiled option definition, with the padding that aligns it in a list.
#[derive(Clone, Debug, PartialEq)]
pub struct Token {
    pub short_name: String,
    pub long_name: String,
    pub description: String,
    pub is_arg: bool,
    pub has_arg: bool,
    pub is_group: bool,
    pub padding: usize,
}

impl View for Token {
    type V = Descriptor;

    open spec fn view(&self) -> Descriptor {
        Descriptor {
            short_name: self.short_name@,
            long_name: self.long_name@,
            description: self.description@,
            is_positional: self.is_arg,
            takes_value: self.has_arg,
            is_group_header: self.is_group,
        }
    }
}

/// How an option is written on a command line: `-s, --long`, or the one
/// form that it has; nothing for an entry without a name.
pub open spec fn label(d: Descriptor) -> Seq<char> {
    if d.short_name.len() > 0 && d.long_name.len() > 0 {
        "-"@ + d.short_name + ", --"@ + d.long_name
    } else if d.short_name.len() > 0 {
        "-"@ + d.short_name
    } else if d.long_name.len() > 0 {
        "--"@ + d.long_name
    } else {
        Seq::empty()
    }
}

/// The entry of a descriptor in the one-line synopsis: an option in square
/// brackets with both its forms and, where it takes one, its value; a
/// required argument by its name; nothing for a group header.
pub open spec fn synopsis(d: Descriptor) -> Option<Seq<char>> {
    if d.is_group_header {
        None
    } else if d.is_positional {
        Some(d.name())
    } else {
        Some(
            "["@ + (if d.short_name.len() > 0 {
                "-"@ + d.short_name
            } else {
                Seq::empty()
            }) + (if d.long_name.len() > 0 {
                " | --"@ + d.long_name
            } else {
                Seq::empty()
            }) + (if d.takes_value {
                " "@ + d.name()
            } else {
                Seq::empty()
            }) + "]"@,
        )
    }
}

/// The line of a descriptor in the list of options: a group header is its
/// description and a colon; any other entry is indented, padded to the
/// common width and followed by its description.
pub open spec fn listing(d: Descriptor, padding: nat) -> Seq<char> {
    if d.is_group_header {
        d.description + ":"@
    } else {
        "  -"@ + d.short_name + ", --"@ + d.long_name + spaces(padding) + "  "@ + d.description
    }
}

/// Compiles one option definition.
pub fn token(input: &str) -> (result: Result<Token, Error>)
    ensures
        match result {
            Ok(token) => compile(input@) == Ok::<Descriptor, Failure>(token@) && token.padding == 0,
            Err(error) => compile(input@) == Err::<Descriptor, Failure>(error@),
        },
{
    let mut short_name = String::new();
    let mut long_name = String::new();
    let mut description = String::new();
    let length = input.unicode_len();

    let is_arg = length > 0 && input.get_char(0) == ':';
    let has_arg = length > 0 && input.get_char(length - 1) == ':';

    if is_arg && has_arg {
        return Err(Error::new(ErrorKind::OptionFormat, String::from_str(input)));
    }
    let option = if is_arg {
        input.substring_char(1, length)
    } else if has_arg {
        input.substring_char(0, length - 1)
    } else {
        input
    };
    assert(option@ == body_of(input@));

    let mut current_stage = AnalysisStage::ShortName;
    for c in it: option.chars()
        invariant
            it.seq() == option@,
            current_stage == stage_at(option@, it.index() as int),
            short_name@ == text_upto(option@, AnalysisStage::ShortName, it.index() as int),
            long_name@ == text_upto(option@, AnalysisStage::LongName, it.index() as int),
            description@ == text_upto(option@, AnalysisStage::Description, it.index() as int),
    {
        match c {
            '/' => current_stage = AnalysisStage::LongName,
            '(' => current_stage = AnalysisStage::Description,
            ')' => (),
            _ => {
                match current_stage {
                    AnalysisStage::ShortName => short_name.push(c),
                    AnalysisStage::LongName => long_name.push(c),
                    AnalysisStage::Description => description.push(c),
                }
            },
        }
    }

    let is_group = short_name.as_str().is_empty() && long_name.as_str().is_empty();
    if is_group && (is_arg || has_arg) {
        return Err(Error::new(ErrorKind::OptionFormat, String::from_str(input)));
    }
    Ok(Token { short_name, long_name, description, is_arg, has_arg, is_group, padding: 0 })
}

impl Token {
    /// Sets the number of spaces that follow the names in [`Token::to_string`].
    pub fn adjust_padding(&mut self, padding: usize)
        ensures
            *final(self) == (Token { padding, ..*old(self) }),
    {
        self.padding = padding;
    }

    /// The width of the token's [`label`], in bytes.
    pub fn len(&self) -> (length: usize)
        ensures
            length == byte_len(label(self@)),
    {
        let short_name_empty = self.short_name.as_str().is_empty();
        let long_name_empty = self.long_name.as_str().is_empty();

        let mut repr = String::new();
        if !short_name_empty && !long_name_empty {
            repr.append("-");
            repr.append(self.short_name.as_str());
            repr.append(", --");
            repr.append(self.long_name.as_str());
        } else if !short_name_empty {
            repr.append("-");
            repr.append(self.short_name.as_str());
        } else if !long_name_empty {
            repr.append("--");
            repr.append(self.long_name.as_str());
        }
        assert(repr@ =~= label(self@));
        byte_count(repr.as_str())
    }

    /// The name under which matches of this token are recorded.
    pub fn name(&self) -> (name: String)
        ensures
            name@ == self@.name(),
    {
        if !self.long_name.as_str().is_empty() {
            self.long_name.clone()
        } else {
            self.short_name.clone()
        }
    }

    /// The token's entry in a one-line synopsis.
    pub fn usage(&self) -> (entry: Option<String>)
        ensures
            match entry {
                Some(text) => synopsis(self@) == Some(text@),
                None => synopsis(self@) is None,
            },
    {
        let mut repr = String::new();

        if !self.is_group {
            if !self.is_arg {
                repr.push('[');

                if !self.short_name.as_str().is_empty() {
                    repr.push('-');
                    repr.append(self.short_name.as_str());
                }
                if !self.long_name.as_str().is_empty() {
                    repr.append(" | --");
                    repr.append(self.long_name.as_str());
                }
                if self.has_arg {
                    let name = self.name();
                    repr.push(' ');
                    repr.append(name.as_str());
                }
                repr.push(']');
                proof {
                    reveal_strlit("[");
                    reveal_strlit("-");
                    reveal_strlit(" ");
                    reveal_strlit("]");
                    assert(repr@ =~= synopsis(self@).unwrap());
                }
            } else {
                let name = self.name();
                repr.append(name.as_str());
                assert(repr@ =~= name@);
            }
            Some(repr)
        } else {
            None
        }
    }

    /// The token's line in the list of options.
    pub fn to_string(&self) -> (line: String)
        ensures
            line@ == listing(self@, self.padding as nat),
    {
        let mut repr = String::new();
        if self.is_group {
            repr.append(self.description.as_str());
            repr.append(":");
        } else {
            repr.append("  -");
            repr.append(self.short_name.as_str());
            repr.append(", --");
            repr.append(self.long_name.as_str());
            push_spaces(&mut repr, self.padding);
            repr.append("  ");
            repr.append(self.description.as_str());
        }
        assert(repr@ =~= listing(self@, self.padding as nat));
        repr
    }
}

/// Compiling is a function of the text alone: whatever two calls of [`token`]
/// on the same definition return, both fail alike or both give the same names,
/// description and flags.
pub proof fn lemma_token_is_deterministic(
    input: &str,
    first: Result<Token, Error>,
    second: Result<Token, Error>,
)
    requires
        call_ensures(token, (input,), first),
        call_ensures(token, (input,), second),
    ensures
        match (first, second) {
            (Ok(a), Ok(b)) => a@ == b@ && a.padding == b.padding,
            (Err(a), Err(b)) => a@ == b@,
            _ => false,
        },
{
}

} // verus!
