//! The meaning of an option definition, as mathematics.
//!
//! A definition is one line of text: an optional leading `:` (a required bare
//! argument), a short name, `/` and a long name, `(` a description `)`, and an
//! optional closing `:` (the option takes a value). [`compile`] says which
//! [`Descriptor`] a definition stands for, or why it stands for none.

use vstd::prelude::*;
use crate::errors::{ErrorKind, Failure};

verus! {

/// What an option definition declares.
pub struct Descriptor {
    pub short_name: Seq<char>,
    pub long_name: Seq<char>,
    pub description: Seq<char>,
    /// A required bare argument, taken in the order of declaration.
    pub is_positional: bool,
    /// An option that is followed by its value.
    pub takes_value: bool,
    /// A heading for the usage text; it has no name and cannot be selected.
    pub is_group_header: bool,
}

impl Descriptor {
    /// The name under which a match is recorded: the long name where there is
    /// one, else the short name.
    pub open spec fn name(self) -> Seq<char> {
        if self.long_name.len() > 0 {
            self.long_name
        } else {
            self.short_name
        }
    }

    /// An option that arguments can select by name.
    pub open spec fn is_option(self) -> bool {
        !self.is_group_header && !self.is_positional
    }

    pub open spec fn well_formed(self) -> bool {
        &&& self.is_group_header <==> self.short_name.len() == 0 && self.long_name.len() == 0
        &&& !(self.is_positional && self.takes_value)
        &&& self.is_group_header ==> !self.is_positional && !self.takes_value
    }
}

/// The part of a definition that is being read.
pub enum AnalysisStage {
    ShortName,
    LongName,
    Description,
}

/// The characters that part a definition; none of them is ever kept.
pub open spec fn is_delimiter(c: char) -> bool {
    c == '/' || c == '(' || c == ')'
}

/// The stage in which the character at position `at` of `body` is read: that
/// of the nearest `/` or `(` before it, the short name if there is none.
pub open spec fn stage_at(body: Seq<char>, at: int) -> AnalysisStage
    decreases at,
{
    if at <= 0 {
        AnalysisStage::ShortName
    } else if body[at - 1] == '/' {
        AnalysisStage::LongName
    } else if body[at - 1] == '(' {
        AnalysisStage::Description
    } else {
        stage_at(body, at - 1)
    }
}

/// The characters among the first `upto` of `body` that are read in `stage`
/// and are no delimiter, in their order.
pub open spec fn text_upto(body: Seq<char>, stage: AnalysisStage, upto: int) -> Seq<char>
    decreases upto,
{
    if upto <= 0 {
        Seq::empty()
    } else {
        let before = text_upto(body, stage, upto - 1);
        if !is_delimiter(body[upto - 1]) && stage_at(body, upto - 1) == stage {
            before.push(body[upto - 1])
        } else {
            before
        }
    }
}

/// The stage in which a character that followed `body` would be read.
pub open spec fn stage_after(body: Seq<char>) -> AnalysisStage {
    stage_at(body, body.len() as int)
}

/// All that `body` holds for `stage`.
pub open spec fn text_in(body: Seq<char>, stage: AnalysisStage) -> Seq<char> {
    text_upto(body, stage, body.len() as int)
}

/// A leading `:` declares a required bare argument.
pub open spec fn marks_positional(input: Seq<char>) -> bool {
    input.len() > 0 && input[0] == ':'
}

/// A closing `:` declares an option that takes a value.
pub open spec fn marks_value(input: Seq<char>) -> bool {
    input.len() > 0 && input.last() == ':'
}

/// The definition without the marker that it carries.
pub open spec fn body_of(input: Seq<char>) -> Seq<char> {
    if marks_positional(input) {
        input.skip(1)
    } else if marks_value(input) {
        input.drop_last()
    } else {
        input
    }
}

/// The failure that a contradictory definition is answered with.
pub open spec fn bad_format(input: Seq<char>) -> Failure {
    Failure { kind: ErrorKind::OptionFormat, offender: input }
}

/// The descriptor that `input` declares.
///
/// A definition with both markers is refused, and so is one that names
/// nothing (a group header) and yet carries a marker.
pub open spec fn compile(input: Seq<char>) -> Result<Descriptor, Failure> {
    let body = body_of(input);
    let short_name = text_in(body, AnalysisStage::ShortName);
    let long_name = text_in(body, AnalysisStage::LongName);
    let is_group_header = short_name.len() == 0 && long_name.len() == 0;
    if marks_positional(input) && marks_value(input) {
        Err(bad_format(input))
    } else if is_group_header && (marks_positional(input) || marks_value(input)) {
        Err(bad_format(input))
    } else {
        Ok(
            Descriptor {
                short_name,
                long_name,
                description: text_in(body, AnalysisStage::Description),
                is_positional: marks_positional(input),
                takes_value: marks_value(input),
                is_group_header,
            },
        )
    }
}

/// Every descriptor that compiles keeps the invariants of its kind: it is a
/// group header exactly when it has no name, it never is both a required
/// argument and an option with a value, and a group header is neither.
pub proof fn lemma_compiled_is_well_formed(input: Seq<char>)
    ensures
        compile(input) matches Ok(d) ==> d.well_formed(),
{
}

/// A definition that both begins and ends with `:` is refused, whatever
/// stands between the two.
pub proof fn lemma_both_markers_refused(between: Seq<char>)
    ensures
        compile(seq![':'] + between + seq![':']) == Err::<Descriptor, Failure>(
            bad_format(seq![':'] + between + seq![':']),
        ),
{
    let input = seq![':'] + between + seq![':'];
    assert(input[0] == ':');
    assert(input.last() == ':');
}

/// No delimiter ever reaches a name or a description.
pub proof fn lemma_text_holds_no_delimiter(body: Seq<char>, stage: AnalysisStage, upto: int)
    ensures
        forall|i: int|
            0 <= i < text_upto(body, stage, upto).len() ==> !is_delimiter(
                #[trigger] text_upto(body, stage, upto)[i],
            ),
    decreases upto,
{
    if upto > 0 {
        lemma_text_holds_no_delimiter(body, stage, upto - 1);
        let before = text_upto(body, stage, upto - 1);
        let all = text_upto(body, stage, upto);
        assert forall|i: int| 0 <= i < all.len() implies !is_delimiter(#[trigger] all[i]) by {
            if i < before.len() {
                assert(all[i] == before[i]);
            }
        }
    }
}

/// A text without any delimiter.
pub open spec fn is_plain(text: Seq<char>) -> bool {
    forall|i: int| 0 <= i < text.len() ==> !is_delimiter(#[trigger] text[i])
}

/// What has been read is not changed by what follows.
proof fn lemma_reading_looks_back_only(
    body: Seq<char>,
    more: Seq<char>,
    stage: AnalysisStage,
    upto: int,
)
    requires
        0 <= upto <= body.len(),
    ensures
        stage_at(body + more, upto) == stage_at(body, upto),
        text_upto(body + more, stage, upto) == text_upto(body, stage, upto),
    decreases upto,
{
    if upto > 0 {
        lemma_reading_looks_back_only(body, more, stage, upto - 1);
        assert((body + more)[upto - 1] == body[upto - 1]);
    }
}

/// Reading one more character: a `/` turns to the long name and a `(` to
/// the description, a `)` changes nothing, and any other character joins
/// the text of the stage at hand.
pub proof fn lemma_read_one_more(body: Seq<char>, c: char, stage: AnalysisStage)
    ensures
        stage_after(body.push(c)) == (if c == '/' {
            AnalysisStage::LongName
        } else if c == '(' {
            AnalysisStage::Description
        } else {
            stage_after(body)
        }),
        text_in(body.push(c), stage) == (if !is_delimiter(c) && stage_after(body) == stage {
            text_in(body, stage).push(c)
        } else {
            text_in(body, stage)
        }),
{
    assert(body.push(c) =~= body + seq![c]);
    lemma_reading_looks_back_only(body, seq![c], stage, body.len() as int);
    lemma_reading_looks_back_only(body, seq![c], stage_after(body), body.len() as int);
}

/// Reading a text without delimiters: all of it joins the stage at hand,
/// which stays.
pub proof fn lemma_read_plain_text(body: Seq<char>, text: Seq<char>, stage: AnalysisStage)
    requires
        is_plain(text),
    ensures
        stage_after(body + text) == stage_after(body),
        text_in(body + text, stage) == (if stage_after(body) == stage {
            text_in(body, stage) + text
        } else {
            text_in(body, stage)
        }),
    decreases text.len(),
{
    if text.len() == 0 {
        assert(body + text =~= body);
        assert(text_in(body, stage) + text =~= text_in(body, stage));
    } else {
        let shorter = text.drop_last();
        assert(is_plain(shorter)) by {
            assert forall|i: int| 0 <= i < shorter.len() implies !is_delimiter(
                #[trigger] shorter[i],
            ) by {
                assert(shorter[i] == text[i]);
            }
        }
        lemma_read_plain_text(body, shorter, stage);
        lemma_read_one_more(body + shorter, text.last(), stage);
        assert((body + shorter).push(text.last()) =~= body + text);
        assert(!is_delimiter(text[text.len() - 1]));
        assert((text_in(body, stage) + shorter).push(text.last()) =~= text_in(body, stage) + text);
    }
}

/// A definition written out in full, `short/long(description)`.
pub open spec fn written(short_name: Seq<char>, long_name: Seq<char>, description: Seq<char>) -> Seq<
    char,
> {
    short_name + seq!['/'] + long_name + seq!['('] + description + seq![')']
}

/// A definition written out in full is read as it is written: each part
/// comes back as the name or the description that it was written as.
pub proof fn lemma_written_parts_are_read(
    short_name: Seq<char>,
    long_name: Seq<char>,
    description: Seq<char>,
)
    requires
        is_plain(short_name),
        is_plain(long_name),
        is_plain(description),
    ensures
        text_in(written(short_name, long_name, description), AnalysisStage::ShortName)
            == short_name,
        text_in(written(short_name, long_name, description), AnalysisStage::LongName)
            == long_name,
        text_in(written(short_name, long_name, description), AnalysisStage::Description)
            == description,
{
    let none = Seq::<char>::empty();
    let a = none + short_name;
    let b = a.push('/');
    let c = b + long_name;
    let d = c.push('(');
    let e = d + description;
    let f = e.push(')');
    assert(f =~= written(short_name, long_name, description));
    assert forall|stage: AnalysisStage|
        text_in(f, stage) == #[trigger] part_of(short_name, long_name, description, stage) by {
        assert(text_in(none, stage) =~= none);
        lemma_read_plain_text(none, short_name, stage);
        lemma_read_one_more(a, '/', stage);
        lemma_read_plain_text(b, long_name, stage);
        lemma_read_one_more(c, '(', stage);
        lemma_read_plain_text(d, description, stage);
        lemma_read_one_more(e, ')', stage);
        assert(none + short_name =~= short_name);
        assert(none + long_name =~= long_name);
        assert(none + description =~= description);
    }
    assert(part_of(short_name, long_name, description, AnalysisStage::ShortName) == short_name);
    assert(part_of(short_name, long_name, description, AnalysisStage::LongName) == long_name);
    assert(part_of(short_name, long_name, description, AnalysisStage::Description) == description);
}

/// The part of a definition that belongs to `stage`.
pub open spec fn part_of(
    short_name: Seq<char>,
    long_name: Seq<char>,
    description: Seq<char>,
    stage: AnalysisStage,
) -> Seq<char> {
    match stage {
        AnalysisStage::ShortName => short_name,
        AnalysisStage::LongName => long_name,
        AnalysisStage::Description => description,
    }
}

/// What a definition written out in full declares, with the flags given.
pub open spec fn declared(
    short_name: Seq<char>,
    long_name: Seq<char>,
    description: Seq<char>,
    is_positional: bool,
    takes_value: bool,
) -> Descriptor {
    Descriptor {
        short_name,
        long_name,
        description,
        is_positional,
        takes_value,
        is_group_header: short_name.len() == 0 && long_name.len() == 0,
    }
}

/// A definition written out in full declares what it says: by itself an
/// option or, without names, a group header; behind a `:` a required
/// argument; before a `:` an option that takes a value. With a marker it
/// must have a name.
pub proof fn lemma_written_definition_is_declared(
    short_name: Seq<char>,
    long_name: Seq<char>,
    description: Seq<char>,
)
    requires
        is_plain(short_name),
        is_plain(long_name),
        is_plain(description),
        short_name.len() > 0 ==> short_name[0] != ':',
    ensures
        ({
            let text = written(short_name, long_name, description);
            let named = short_name.len() > 0 || long_name.len() > 0;
            &&& compile(text) == Ok::<Descriptor, Failure>(
                declared(short_name, long_name, description, false, false),
            )
            &&& named ==> compile(seq![':'] + text) == Ok::<Descriptor, Failure>(
                declared(short_name, long_name, description, true, false),
            )
            &&& named ==> compile(text + seq![':']) == Ok::<Descriptor, Failure>(
                declared(short_name, long_name, description, false, true),
            )
            &&& !named ==> compile(seq![':'] + text) is Err && compile(text + seq![':']) is Err
        }),
{
    let text = written(short_name, long_name, description);
    lemma_written_parts_are_read(short_name, long_name, description);
    assert(text.last() == ')');
    assert(text[0] != ':');
    assert(body_of(text) == text);
    let behind = seq![':'] + text;
    assert(behind[0] == ':');
    assert(behind.last() == ')');
    assert(behind.skip(1) =~= text);
    let before = text + seq![':'];
    assert(before[0] == text[0]);
    assert(before.last() == ':');
    assert(before.drop_last() =~= text);
}

} // verus!
