//! Running a configured command: asking the user first, and splitting the
//! command line into a program and its arguments.

use vstd::prelude::*;

verus! {

#[verifier::external_type_specification]
#[verifier::external_body]
pub struct ExParseError(shell_words::ParseError);

/// The words into which `shell_words::split` breaks a line by the Unix shell's
/// quoting rules, or `None` where a quote is left open.
pub uninterp spec fn shell_words_split(line: Seq<char>) -> Option<Seq<Seq<char>>>;

/// Splits a line with `shell_words::split`. The result is the name
/// `shell_words_split` applied to the line; what that is on a given line
/// (POSIX quoting, backslashes, comments) is left to the crate.
#[verifier::external_body]
fn split_words(line: &str) -> (r: Result<Vec<String>, shell_words::ParseError>)
    ensures
        match r {
            Ok(words) => shell_words_split(line@) == Some(words.deep_view()),
            Err(_) => shell_words_split(line@) is None,
        },
{
    shell_words::split(line)
}

/// Why a command line cannot be run.
#[derive(Debug)]
pub enum CommandError {
    /// The line has an unclosed quote.
    Tokenize(shell_words::ParseError),
    /// The line holds no word.
    Empty,
}

/// The user's reply to the question whether to run a command.
#[derive(Debug, Clone, Copy, PartialEq, Eq, Structural)]
pub enum Answer {
    /// Run the command (`y`).
    Execute,
    /// Go on with the next command (`n`).
    Skip,
    /// Any other first character: ask again.
    Invalid(char),
    /// Nothing was typed: ask again.
    Empty,
}

/// The answer that a line of input gives, by its first character.
pub open spec fn answer_of(input: Seq<char>) -> Answer {
    if input.len() == 0 {
        Answer::Empty
    } else if input[0] == 'y' {
        Answer::Execute
    } else if input[0] == 'n' {
        Answer::Skip
    } else {
        Answer::Invalid(input[0])
    }
}

/// The answer depends on the first character alone: `y` runs the command,
/// `n` skips it, whatever follows, and what follows the first character
/// never changes the answer.
pub proof fn lemma_answer_by_first_char(input: Seq<char>, rest: Seq<char>)
    ensures
        input.len() > 0 ==> answer_of(input) == answer_of(seq![input[0]]),
        input.len() > 0 ==> answer_of(input + rest) == answer_of(input),
        input.len() > 0 && input[0] == 'y' ==> answer_of(input) == Answer::Execute,
        input.len() > 0 && input[0] == 'n' ==> answer_of(input) == Answer::Skip,
        input.len() > 0 && input[0] != 'y' && input[0] != 'n' ==> answer_of(input)
            == Answer::Invalid(input[0]),
        input.len() == 0 ==> answer_of(input) == Answer::Empty,
{
    if input.len() > 0 {
        assert((input + rest)[0] == input[0]);
    }
}

impl Answer {
    /// Reads the user's reply from a line of input.
    pub fn parse(input: &str) -> (a: Answer)
        ensures
            a == answer_of(input@),
            input@.len() == 0 ==> a == Answer::Empty,
            input@.len() > 0 && input@[0] == 'y' ==> a == Answer::Execute,
            input@.len() > 0 && input@[0] == 'n' ==> a == Answer::Skip,
            input@.len() > 0 && input@[0] != 'y' && input@[0] != 'n' ==> a == Answer::Invalid(
                input@[0],
            ),
    {
        if input.unicode_len() == 0 {
            return Answer::Empty;
        }
        let c = input.get_char(0);
        if c == 'y' {
            Answer::Execute
        } else if c == 'n' {
            Answer::Skip
        } else {
            Answer::Invalid(c)
        }
    }
}

/// Takes the first word as the program and the others as its arguments.
pub fn program_and_args(words: Vec<String>) -> (r: Result<(String, Vec<String>), CommandError>)
    ensures
        words@.len() == 0 ==> r matches Err(CommandError::Empty),
        words@.len() > 0 ==> (r matches Ok((program, args)) && program@ == words@[0]@
            && args.deep_view() == words.deep_view().drop_first()),
{
    let ghost all = words.deep_view();
    let mut words = words;
    if words.len() == 0 {
        return Err(CommandError::Empty);
    }
    let program = words.remove(0);
    assert(words.deep_view() =~= all.drop_first());
    Ok((program, words))
}

/// Splits an expanded command line into the program and its arguments.
pub fn split_command(line: &str) -> (r: Result<(String, Vec<String>), CommandError>)
    ensures
        match shell_words_split(line@) {
            None => r matches Err(CommandError::Tokenize(_)),
            Some(ws) => if ws.len() == 0 {
                r matches Err(CommandError::Empty)
            } else {
                r matches Ok((program, args)) && program@ == ws[0] && args.deep_view()
                    == ws.drop_first()
            },
        },
{
    match split_words(line) {
        Ok(words) => program_and_args(words),
        Err(e) => Err(CommandError::Tokenize(e)),
    }
}

} // verus!
