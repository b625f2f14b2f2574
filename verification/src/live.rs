//! The text of a live session.
use crate::text::{chars_of, is_white, stripped, trim};
use vstd::prelude::*;
use vstd::string::*;

verus! {

/// Whether a text that begins with `c` follows another without a space between them.
#[verifier::allow_in_spec]
pub fn joins_without_space(c: char) -> bool
    returns
        c == '.' || c == ',' || c == ';' || c == '?' || c == '!' || c == ':' || c == ')' || c == ']'
            || c == '}' || c == '\'' || c == '"',
{
    c == '.' || c == ',' || c == ';' || c == '?' || c == '!' || c == ':' || c == ')' || c == ']'
        || c == '}' || c == '\'' || c == '"'
}

/// A text with a chunk behind it: the chunk without the white space round it, parted by a space
/// where neither the end of the text nor the chunk's punctuation makes that needless.
pub open spec fn with_chunk(text: Seq<char>, chunk: Seq<char>) -> Seq<char> {
    let c = stripped(chunk);
    if c.len() == 0 {
        text
    } else if text.len() == 0 || is_white(text.last()) || joins_without_space(c[0]) {
        text + c
    } else {
        text.push(' ') + c
    }
}

/// Puts a chunk behind a text.
pub fn append_live_preview_text(target: &mut String, chunk: &str)
    ensures
        final(target)@ == with_chunk(old(target)@, chunk@),
{
    let c: &str = trim(chunk);
    if c.is_empty() {
        return;
    }
    let head: Vec<char> = chars_of(c);
    let body: Vec<char> = chars_of(target.as_str());
    if body.len() > 0 && !is_white(body[body.len() - 1]) && !joins_without_space(head[0]) {
        target.push(' ');
    }
    target.append(c);
}

/// What a live text grows by: what stands in it stays, and behind it comes the chunk without the white
/// space around it. One space parts them exactly where the text has something that does not end in
/// white space and the chunk does not begin with a mark that belongs to what stands before it. A chunk
/// of white space adds nothing.
pub proof fn lemma_with_chunk(text: Seq<char>, chunk: Seq<char>)
    ensures
        stripped(chunk).len() == 0 ==> with_chunk(text, chunk) == text,
        stripped(chunk).len() > 0 ==> {
            let first = stripped(chunk)[0];
            let tied = first == '.' || first == ',' || first == ';' || first == '?' || first == '!'
                || first == ':' || first == ')' || first == ']' || first == '}' || first == '\''
                || first == '"';
            &&& text.len() > 0 && !is_white(text.last()) && !tied ==> with_chunk(text, chunk) == text
                + seq![' '] + stripped(chunk)
            &&& text.len() == 0 || is_white(text.last()) || tied ==> with_chunk(text, chunk) == text
                + stripped(chunk)
        },
{
    assert(text.push(' ') =~= text + seq![' ']);
}

} // verus!
