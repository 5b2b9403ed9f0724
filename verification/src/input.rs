//! Classification of one line of input into the action it asks for.

use vstd::prelude::*;
use crate::text::{collect_chars, decimal_of, parse_decimal, trim_bounds, trimmed};

verus! {

/// What one line of input asks for. Text payloads are slices of the line.
#[derive(Debug, PartialEq)]
pub enum InputAction<'a> {
    /// An empty line: run the prefix alone.
    Empty,
    /// `:q` or `:exit`: end the session.
    Quit,
    /// `:<command>`: run the command without the prefix.
    ShellCommand(&'a str),
    /// `+<words>`: append the words to the prefix.
    Add(&'a str),
    /// `-` or `-N`: drop the last token, or the last `N` tokens.
    Drop(usize),
    /// `!<words>`: put the words in place of the last token.
    Replace(&'a str),
    /// Anything else: run the line with the prefix in front.
    Execute(&'a str),
}

/// An action as a mathematical value: text as character sequences, the drop
/// count as a natural number.
pub enum Action {
    Empty,
    Quit,
    ShellCommand(Seq<char>),
    Add(Seq<char>),
    Drop(nat),
    Replace(Seq<char>),
    Execute(Seq<char>),
}

impl<'a> View for InputAction<'a> {
    type V = Action;

    open spec fn view(&self) -> Action {
        match *self {
            InputAction::Empty => Action::Empty,
            InputAction::Quit => Action::Quit,
            InputAction::ShellCommand(text) => Action::ShellCommand(text@),
            InputAction::Add(text) => Action::Add(text@),
            InputAction::Drop(count) => Action::Drop(count as nat),
            InputAction::Replace(text) => Action::Replace(text@),
            InputAction::Execute(text) => Action::Execute(text@),
        }
    }
}

/// Whether `line` is one of the two quit commands, `:q` and `:exit`.
pub open spec fn is_quit(line: Seq<char>) -> bool {
    line == seq![':', 'q'] || line == seq![':', 'e', 'x', 'i', 't']
}

/// The count that a drop command carries after its `-`: the digits' value,
/// where they are a non-empty run of ASCII digits that denotes a number
/// greater than zero and within the machine's word.
pub open spec fn drop_count(digits: Seq<char>) -> Option<nat> {
    match decimal_of(digits) {
        Some(count) => if count > 0 {
            Some(count as nat)
        } else {
            None
        },
        None => None,
    }
}

/// The action that `line` asks for. The rules are tried in this order and the
/// first that matches decides.
pub open spec fn classify(line: Seq<char>) -> Action {
    if line.len() == 0 {
        Action::Empty
    } else if is_quit(line) {
        Action::Quit
    } else if line[0] == ':' {
        Action::ShellCommand(trimmed(line.drop_first()))
    } else if line[0] == '+' {
        Action::Add(trimmed(line.drop_first()))
    } else if line[0] == '!' {
        Action::Replace(trimmed(line.drop_first()))
    } else if line == seq!['-'] {
        Action::Drop(1)
    } else if line[0] == '-' && drop_count(line.drop_first()) is Some {
        Action::Drop(drop_count(line.drop_first())->0)
    } else {
        Action::Execute(line)
    }
}

/// Tests the characters of a line for being `:q` or `:exit`.
fn chars_are_quit(chars: &Vec<char>) -> (b: bool)
    ensures
        b == is_quit(chars@),
{
    let n = chars.len();
    if n == 2 {
        let b = chars[0] == ':' && chars[1] == 'q';
        assert(b ==> chars@ =~= seq![':', 'q']);
        assert(chars@ != seq![':', 'e', 'x', 'i', 't']);
        b
    } else if n == 5 {
        let b = chars[0] == ':' && chars[1] == 'e' && chars[2] == 'x' && chars[3] == 'i'
            && chars[4] == 't';
        assert(b ==> chars@ =~= seq![':', 'e', 'x', 'i', 't']);
        assert(chars@ != seq![':', 'q']);
        b
    } else {
        assert(chars@ != seq![':', 'q']);
        assert(chars@ != seq![':', 'e', 'x', 'i', 't']);
        false
    }
}

/// What is left of `input` after its first character, without leading and
/// trailing whitespace.
fn trimmed_rest<'a>(input: &'a str, chars: &Vec<char>) -> (rest: &'a str)
    requires
        chars@ == input@,
        chars@.len() > 0,
    ensures
        rest@ == trimmed(input@.drop_first()),
{
    let (lo, hi) = trim_bounds(chars, 1);
    assert(chars@.skip(1) =~= chars@.drop_first());
    input.substring_char(lo, hi)
}

/// Classifies one line of input. Every line has exactly one action, and
/// nothing but the line decides it.
pub fn parse_input(input: &str) -> (action: InputAction<'_>)
    ensures
        action@ == classify(input@),
{
    let chars = collect_chars(input);
    if chars.len() == 0 {
        return InputAction::Empty;
    }
    if chars_are_quit(&chars) {
        return InputAction::Quit;
    }
    let first = chars[0];
    if first == ':' {
        return InputAction::ShellCommand(trimmed_rest(input, &chars));
    }
    if first == '+' {
        return InputAction::Add(trimmed_rest(input, &chars));
    }
    if first == '!' {
        return InputAction::Replace(trimmed_rest(input, &chars));
    }
    if first == '-' {
        if chars.len() == 1 {
            assert(chars@ =~= seq!['-']);
            return InputAction::Drop(1);
        }
        assert(chars@ != seq!['-']);
        assert(chars@.skip(1) =~= chars@.drop_first());
        match parse_decimal(&chars, 1) {
            Some(count) => {
                if count > 0 {
                    return InputAction::Drop(count);
                }
            },
            None => {},
        }
    }
    assert(first != '-' ==> chars@ != seq!['-']);
    InputAction::Execute(input)
}

/// A line that is not empty and does not begin with `:`, `+`, `!` or `-` is
/// executed as it stands, character for character.
pub proof fn lemma_plain_line_is_executed(line: Seq<char>)
    requires
        line.len() > 0,
        line[0] != ':',
        line[0] != '+',
        line[0] != '!',
        line[0] != '-',
    ensures
        classify(line) == Action::Execute(line),
{
    assert(seq![':', 'q'][0] == ':');
    assert(seq![':', 'e', 'x', 'i', 't'][0] == ':');
    assert(seq!['-'][0] == '-');
}

/// A drop never carries the count zero.
pub proof fn lemma_drop_count_is_positive(line: Seq<char>)
    ensures
        classify(line) is Drop ==> classify(line)->Drop_0 >= 1,
{
}

} // verus!
