//! The command prefix: a sequence of tokens that is never empty, with the
//! operations that extend, shorten and render it.

use vstd::prelude::*;
use crate::text::{joined, lemma_no_words_iff_trimmed_empty, split_words, tokens_of, trimmed, words};

verus! {

/// How a drop ended: the prefix was shortened and the session goes on, or its
/// last token was asked for and the session is over.
#[derive(Debug, Clone, Copy, PartialEq, Eq, Structural)]
pub enum DropOutcome {
    /// The prefix keeps at least one token; the session goes on.
    Continued,
    /// Only one token was left: nothing was removed and the session ends.
    SessionTerminated,
}

/// The tokens that are put in front of every command, the program's name
/// first. The first token is held apart from the rest, so that a prefix
/// without a token cannot be built.
pub struct Prefix {
    program: String,
    rest: Vec<String>,
}

impl View for Prefix {
    type V = Seq<Seq<char>>;

    closed spec fn view(&self) -> Seq<Seq<char>> {
        seq![self.program@] + tokens_of(self.rest@)
    }
}

/// The tokens that a drop of `n` leaves of `tokens`: all but the last `n`,
/// and never fewer than one.
pub open spec fn after_drop(tokens: Seq<Seq<char>>, n: nat) -> Seq<Seq<char>> {
    if tokens.len() <= 1 {
        tokens
    } else if tokens.len() - n >= 1 {
        tokens.take(tokens.len() - n)
    } else {
        tokens.take(1)
    }
}

/// How a drop on `tokens` ends: with one token left the session is over,
/// with more it goes on.
pub open spec fn drop_outcome(tokens: Seq<Seq<char>>) -> DropOutcome {
    if tokens.len() <= 1 {
        DropOutcome::SessionTerminated
    } else {
        DropOutcome::Continued
    }
}

/// The command line for `extra` behind the prefix `tokens`: the rendered
/// prefix alone where `extra` is empty, else the two with one space between.
pub open spec fn command_line(tokens: Seq<Seq<char>>, extra: Seq<char>) -> Seq<char> {
    if extra.len() == 0 {
        joined(tokens)
    } else {
        joined(tokens) + seq![' '] + extra
    }
}

/// A drop leaves all but the last `n` tokens, and never fewer than one: of
/// a prefix that is not empty, `max(1, len - n)` tokens stay, and they are
/// the first ones, in their order.
pub proof fn lemma_after_drop_keeps_front(tokens: Seq<Seq<char>>, n: nat)
    requires
        tokens.len() >= 1,
    ensures
        after_drop(tokens, n).len() == if tokens.len() - n >= 1 {
            tokens.len() - n
        } else {
            1
        },
        after_drop(tokens, n) == tokens.take(after_drop(tokens, n).len() as int),
{
    if tokens.len() <= 1 {
        assert(tokens.take(1) =~= tokens);
    }
}

/// On a prefix of one token every drop, whatever its count, ends the session
/// and leaves the prefix as it was.
pub proof fn lemma_drop_on_last_token(tokens: Seq<Seq<char>>, n: nat)
    requires
        tokens.len() == 1,
    ensures
        after_drop(tokens, n) == tokens,
        drop_outcome(tokens) == DropOutcome::SessionTerminated,
{
}

/// On a prefix of more than one token a drop lets the session go on, however
/// large its count.
pub proof fn lemma_drop_with_tokens_to_spare(tokens: Seq<Seq<char>>, n: nat)
    requires
        tokens.len() > 1,
    ensures
        after_drop(tokens, n).len() >= 1,
        drop_outcome(tokens) == DropOutcome::Continued,
{
}

/// A replace never empties the prefix: a prefix of one token keeps it, a
/// longer one loses only its last token before the words are appended.
pub proof fn lemma_replace_keeps_front(tokens: Seq<Seq<char>>, fresh: Seq<Seq<char>>)
    requires
        tokens.len() >= 1,
    ensures
        tokens.len() == 1 ==> after_drop(tokens, 1) + fresh == tokens + fresh,
        tokens.len() > 1 ==> after_drop(tokens, 1) + fresh == tokens.drop_last() + fresh,
        (after_drop(tokens, 1) + fresh).len() >= 1,
        (after_drop(tokens, 1) + fresh)[0] == tokens[0],
{
    if tokens.len() > 1 {
        assert(tokens.take(tokens.len() - 1) =~= tokens.drop_last());
    }
}

/// The command line for no input is the rendered prefix; for any other
/// input it is the rendered prefix, one space, and the input as it stands.
pub proof fn lemma_command_line(tokens: Seq<Seq<char>>, extra: Seq<char>)
    ensures
        command_line(tokens, Seq::empty()) == joined(tokens),
        extra.len() > 0 ==> command_line(tokens, extra) == joined(tokens) + seq![' '] + extra,
        extra.len() > 0 ==> command_line(tokens, extra) == command_line(tokens, Seq::empty())
            + seq![' '] + extra,
{
}

/// A prefix of one token renders as that token.
pub proof fn lemma_joined_single(token: Seq<char>)
    ensures
        joined(seq![token]) == token,
{
}

impl Prefix {
    /// A prefix always holds at least one token.
    pub proof fn lemma_never_empty(&self)
        ensures
            self@.len() >= 1,
    {
    }

    /// The prefix that holds the given arguments, in their order.
    pub fn new(args: &[String]) -> (prefix: Self)
        requires
            args@.len() >= 1,
        ensures
            prefix@ == tokens_of(args@),
    {
        let program = args[0].clone();
        let mut rest: Vec<String> = Vec::new();
        let n = args.len();
        let mut i: usize = 1;
        while i < n
            invariant
                n == args@.len(),
                1 <= i <= n,
                rest@ == args@.subrange(1, i as int),
            decreases n - i,
        {
            rest.push(args[i].clone());
            i += 1;
            assert(rest@ =~= args@.subrange(1, i as int));
        }
        assert(seq![program@] + tokens_of(rest@) =~= tokens_of(args@));
        Prefix { program, rest }
    }

    /// Appends the words of `input` to the prefix. Text without a word
    /// changes nothing.
    pub fn add(&mut self, input: &str)
        ensures
            final(self)@ == old(self)@ + words(input@),
            trimmed(input@).len() == 0 ==> final(self)@ == old(self)@,
    {
        proof {
            lemma_no_words_iff_trimmed_empty(input@);
        }
        let mut fresh = split_words(input);
        let ghost before = self.rest@;
        let ghost added = fresh@;
        self.rest.append(&mut fresh);
        assert(tokens_of(before + added) =~= tokens_of(before) + tokens_of(added));
        assert(seq![self.program@] + (tokens_of(before) + tokens_of(added))
            =~= seq![self.program@] + tokens_of(before) + tokens_of(added));
        assert(trimmed(input@).len() == 0 ==> self@ =~= old(self)@);
    }

    /// Drops the last `n` tokens but keeps at least one. A prefix of one
    /// token is left as it is, and the outcome says that the session ends.
    pub fn drop(&mut self, n: usize) -> (outcome: DropOutcome)
        ensures
            final(self)@ == after_drop(old(self)@, n as nat),
            outcome == drop_outcome(old(self)@),
    {
        let len = self.rest.len();
        if len == 0 {
            return DropOutcome::SessionTerminated;
        }
        let keep: usize = if n <= len { len - n } else { 0 };
        let ghost before = self.rest@;
        self.rest.truncate(keep);
        assert(seq![self.program@] + tokens_of(before.take(keep as int))
            =~= (seq![self.program@] + tokens_of(before)).take(keep + 1));
        DropOutcome::Continued
    }

    /// Puts the words of `input` in place of the last token: a drop of one,
    /// whose outcome is not looked at, and then an add. A prefix of one token
    /// loses nothing and only grows.
    pub fn replace(&mut self, input: &str)
        ensures
            final(self)@ == after_drop(old(self)@, 1) + words(input@),
    {
        let _ = self.drop(1);
        self.add(input);
    }

    /// The command to run for `input`: the rendered prefix, and behind it a
    /// space and `input` where `input` is not empty.
    pub fn build_command(&self, input: &str) -> (command: String)
        ensures
            command@ == command_line(self@, input@),
    {
        let mut command = self.display();
        if !input.is_empty() {
            command.push(' ');
            command.append(input);
        }
        command
    }

    /// The tokens joined by single spaces.
    pub fn display(&self) -> (rendered: String)
        ensures
            rendered@ == joined(self@),
    {
        let n = self.rest.len();
        let mut rendered = self.program.clone();
        let mut i: usize = 0;
        assert(self@.take(1) =~= seq![self.program@]);
        while i < n
            invariant
                n == self.rest@.len(),
                i <= n,
                rendered@ == joined(self@.take(i + 1)),
            decreases n - i,
        {
            let ghost shown = self@.take(i + 1);
            let ghost next = self@.take(i + 2);
            rendered.push(' ');
            rendered.append(self.rest[i].as_str());
            i += 1;
            proof {
                assert(next.drop_last() =~= shown);
                assert(next.last() == self.rest@[i - 1]@);
                assert(rendered@ =~= joined(shown) + seq![' '] + next.last());
            }
        }
        assert(self@.take(n + 1) =~= self@);
        rendered
    }
}

} // verus!
