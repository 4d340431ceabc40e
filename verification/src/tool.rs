//! What a helper program printed, and what is said of it when it fails.

use vstd::prelude::*;

use crate::text::{
    after_prefix, all_white, chars_of, is_white_space, law_prefix_comes_off, law_trimmed, lossy,
    lossy_text, string_of, trim, trimmed,
};

verus! {

/// What a program left behind: whether it succeeded, and what it printed.
pub struct ToolOutput {
    pub success: bool,
    pub stdout: Vec<u8>,
    pub stderr: Vec<u8>,
}

/// The text `tool: message`.
pub open spec fn complaint(tool: Seq<char>, message: Seq<char>) -> Seq<char> {
    tool + ": "@ + message
}

/// Puts the name of a program before what it complains of.
pub fn complain(tool: &str, message: &str) -> (r: String)
    ensures
        r@ == complaint(tool@, message@),
{
    let mut r = String::new();
    r.append(tool);
    r.append(": ");
    r.append(message);
    assert(r@ =~= complaint(tool@, message@));
    r
}

/// Puts the name of a program before its own words, without the white space
/// around them.
pub fn complain_in_its_words(tool: &str, words: &str) -> (r: String)
    ensures
        r@ == complaint(tool@, trimmed(words@)),
{
    let chars = chars_of(words);
    let message = string_of(trim(chars.as_slice()));
    complain(tool, message.as_str())
}

/// What a program printed, as text, or why there is nothing to read: it could
/// not be started, or it failed.
pub open spec fn printed(tool: Seq<char>, outcome: Result<ToolOutput, String>) -> Result<
    Seq<char>,
    Seq<char>,
> {
    match outcome {
        Ok(out) => if out.success {
            Ok(lossy(out.stdout@))
        } else {
            Err(complaint(tool, trimmed(lossy(out.stderr@))))
        },
        Err(e) => Err(complaint(tool, e@)),
    }
}

/// What a program printed, as text, or why there is nothing to read.
pub fn read_output(tool: &str, outcome: Result<ToolOutput, String>) -> (r: Result<String, String>)
    ensures
        match r {
            Ok(text) => printed(tool@, outcome) == Ok::<Seq<char>, Seq<char>>(text@),
            Err(e) => printed(tool@, outcome) == Err::<Seq<char>, Seq<char>>(e@),
        },
{
    match outcome {
        Ok(out) => {
            if out.success {
                Ok(lossy_text(out.stdout.as_slice()))
            } else {
                let words = lossy_text(out.stderr.as_slice());
                Err(complain_in_its_words(tool, words.as_str()))
            }
        },
        Err(e) => Err(complain(tool, e.as_str())),
    }
}

/// A complaint begins with the name of the program, a colon and a blank, and ends
/// with the message.
pub proof fn law_complaint_names_the_program(tool: Seq<char>, message: Seq<char>)
    ensures
        after_prefix(complaint(tool, message), tool.push(':').push(' ')) == Some(message),
{
    reveal_strlit(": ");
    assert(complaint(tool, message) =~= tool.push(':').push(' ') + message);
    law_prefix_comes_off(complaint(tool, message), tool.push(':').push(' '), message);
}

/// Of a program that succeeded everything that it printed is read, whatever it
/// complained of; of one that failed its complaint alone is read, without the white
/// space around it, whatever it printed.
pub proof fn law_output_or_complaint_is_read(
    tool: Seq<char>,
    out: ToolOutput,
    e: String,
    front: Seq<char>,
    words: Seq<char>,
    back: Seq<char>,
)
    ensures
        out.success ==> printed(tool, Ok(out)) == Ok::<Seq<char>, Seq<char>>(lossy(out.stdout@)),
        !out.success && lossy(out.stderr@) == front + words + back && all_white(front) && all_white(
            back,
        ) && (words.len() > 0 ==> !is_white_space(words[0]) && !is_white_space(words.last()))
            ==> printed(tool, Ok(out)) == Err::<Seq<char>, Seq<char>>(complaint(tool, words)),
        printed(tool, Err(e)) == Err::<Seq<char>, Seq<char>>(complaint(tool, e@)),
{
    if all_white(front) && all_white(back) && (words.len() > 0 ==> !is_white_space(words[0])
        && !is_white_space(words.last())) {
        law_trimmed(front, words, back);
    }
}

} // verus!
