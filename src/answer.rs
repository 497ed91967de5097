//! Answers to yes/no questions.

use vstd::prelude::*;
use crate::unicode::{chars_of, is_ascii_upper, trim_chars, trim_end, trim_start};

verus! {

/// `s` with ASCII uppercase letters made lowercase; other characters kept.
pub open spec fn ascii_lowercase(s: Seq<char>) -> Seq<char> {
    Seq::new(
        s.len(),
        |i: int|
            if is_ascii_upper(s[i]) {
                ((s[i] as u32) + 32) as char
            } else {
                s[i]
            },
    )
}

/// The answer that a typed reply gives: `y` or `yes` in any ASCII case means
/// yes, a blank reply takes `default`, anything else means no. White space
/// around the reply is ignored.
pub open spec fn reply_answer(reply: Seq<char>, default: Answer) -> Answer {
    let t = trim_end(trim_start(ascii_lowercase(reply)));
    if t == seq!['y'] || t == seq!['y', 'e', 's'] {
        Answer::Yes
    } else if t.len() == 0 {
        default
    } else {
        Answer::No
    }
}

/// An answer to a yes/no question.
#[derive(Debug, Clone, Copy, PartialEq, Eq, Structural)]
pub enum Answer {
    Yes,
    No,
}

impl Answer {
    /// `true` for yes.
    pub fn as_bool(&self) -> (r: bool)
        ensures
            r == (*self == Answer::Yes),
    {
        match self {
            Answer::Yes => true,
            Answer::No => false,
        }
    }

    /// Reads a typed reply (see [`reply_answer`]).
    pub fn from_reply(reply: &str, default: Answer) -> (r: Answer)
        ensures
            r == reply_answer(reply@, default),
    {
        let chars = chars_of(reply);
        let mut lower: Vec<char> = Vec::new();
        let mut i: usize = 0;
        while i < chars.len()
            invariant
                i <= chars.len(),
                chars@ == reply@,
                lower@ == ascii_lowercase(reply@).subrange(0, i as int),
            decreases chars.len() - i,
        {
            let c = chars[i];
            let code = c as u32;
            if 65 <= code && code <= 90 {
                lower.push(((code as u8) + 32) as char);
            } else {
                lower.push(c);
            }
            i = i + 1;
            assert(lower@ =~= ascii_lowercase(reply@).subrange(0, i as int));
        }
        assert(lower@ =~= ascii_lowercase(reply@));
        let t = trim_chars(&lower);
        if t.len() == 1 && t[0] == 'y' {
            assert(t@ =~= seq!['y']);
            Answer::Yes
        } else if t.len() == 3 && t[0] == 'y' && t[1] == 'e' && t[2] == 's' {
            assert(t@ =~= seq!['y', 'e', 's']);
            Answer::Yes
        } else if t.len() == 0 {
            default
        } else {
            assert(t@ != seq!['y']);
            assert(t@ != seq!['y', 'e', 's']);
            Answer::No
        }
    }
}

} // verus!
