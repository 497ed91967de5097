//! The title field: a human-readable label, rendered after `--`.

use vstd::prelude::*;
use crate::unicode::acceptable;
use crate::format::{capitalize, first_letter_uppercase, normalize, slugify};
use crate::unicode::{chars_of, string_of, trim_chars, trim_end, trim_start};

verus! {

/// The separator inside a title.
pub open spec fn title_separator() -> Option<char> {
    Some('-')
}

/// The title that `text` normalizes to, or `None` when nothing is left.
pub open spec fn title_of(text: Seq<char>) -> Option<Seq<char>> {
    let slug = normalize(text, title_separator());
    if slug.len() == 0 {
        None
    } else {
        Some(slug)
    }
}

/// The rendered form of a title.
pub open spec fn render_title(v: Seq<char>) -> Seq<char> {
    seq!['-', '-'] + v
}

/// `v` with each `-` turned into a space.
pub open spec fn dashes_to_spaces(v: Seq<char>) -> Seq<char> {
    Seq::new(v.len(), |i: int| if v[i] == '-' { ' ' } else { v[i] })
}

/// A human-readable label, stored normalized and never empty.
#[derive(Debug, PartialEq, Eq, Hash)]
pub struct Title(String);

impl View for Title {
    type V = Seq<char>;

    closed spec fn view(&self) -> Seq<char> {
        self.0@
    }
}

impl Clone for Title {
    fn clone(&self) -> (r: Self)
        ensures
            r@ == self@,
    {
        proof {
            use_type_invariant(self);
        }
        Title(self.0.clone())
    }
}

impl Title {
    #[verifier::type_invariant]
    spec fn inv(&self) -> bool {
        self.0@.len() > 0
    }

    /// Normalizes `string` into a title, with `-` between words; `None` when
    /// no letter or number is left.
    pub fn parse(string: &str) -> (r: Option<Title>)
        ensures
            match r {
                Some(title) => title_of(string@) == Some(title@),
                None => title_of(string@) is None,
            },
            (exists|i: int| 0 <= i < string@.len() && #[trigger] acceptable(string@[i])) ==> r is Some,
    {
        let slug = slugify(string, Some('-'));
        if slug.as_str().unicode_len() == 0 {
            None
        } else {
            Some(Title(slug))
        }
    }

    /// The title from a typed reply; a blank reply keeps `previous`.
    pub fn parse_reply(reply: &str, previous: &str) -> (r: Option<Title>)
        ensures
            match r {
                Some(title) => title_of(
                    if trim_end(trim_start(reply@)).len() == 0 {
                        previous@
                    } else {
                        reply@
                    },
                ) == Some(title@),
                None => title_of(
                    if trim_end(trim_start(reply@)).len() == 0 {
                        previous@
                    } else {
                        reply@
                    },
                ) is None,
            },
    {
        let trimmed = trim_chars(&chars_of(reply));
        if trimmed.len() == 0 {
            Self::parse(previous)
        } else {
            Self::parse(reply)
        }
    }

    /// A draft for a person to edit: dashes become spaces and the first
    /// letter is uppercase. Normalization lost information, so this is not
    /// the text the title came from.
    pub fn desluggify(&self) -> (r: String)
        ensures
            r@ == capitalize(dashes_to_spaces(self@)),
    {
        let chars = chars_of(self.0.as_str());
        let mut spaced: Vec<char> = Vec::new();
        let mut i: usize = 0;
        while i < chars.len()
            invariant
                i <= chars.len(),
                chars@ == self@,
                spaced@ == dashes_to_spaces(self@).subrange(0, i as int),
            decreases chars.len() - i,
        {
            if chars[i] == '-' {
                spaced.push(' ');
            } else {
                spaced.push(chars[i]);
            }
            i = i + 1;
            assert(spaced@ =~= dashes_to_spaces(self@).subrange(0, i as int));
        }
        assert(spaced@ =~= dashes_to_spaces(self@));
        let text = string_of(&spaced);
        first_letter_uppercase(text.as_str())
    }

    /// The title as it appears in a file name, after `--`.
    pub fn to_string(&self) -> (r: String)
        ensures
            r@ == render_title(self@),
    {
        let mut out = String::from_str("--");
        out.append(self.0.as_str());
        proof {
            reveal_strlit("--");
        }
        assert(out@ =~= render_title(self@));
        out
    }
}

} // verus!
