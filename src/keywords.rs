//! The keywords field: an ordered list of one-word tokens, rendered after `__`.

use vstd::prelude::*;
use crate::format::{normalize, slugify_chars};
use crate::unicode::{acceptable, chars_of, string_of};

verus! {

/// The pieces of `s` between occurrences of `delimiter`, in order; there is
/// always at least one piece.
pub open spec fn split_on(s: Seq<char>, delimiter: char) -> Seq<Seq<char>>
    decreases s.len(),
{
    if s.len() == 0 {
        seq![seq![]]
    } else {
        let parts = split_on(s.drop_last(), delimiter);
        if s.last() == delimiter {
            parts.push(seq![])
        } else {
            parts.update(parts.len() - 1, parts.last().push(s.last()))
        }
    }
}

/// Each piece normalized into one word, with the pieces that leave nothing
/// dropped.
pub open spec fn words_of(pieces: Seq<Seq<char>>) -> Seq<Seq<char>>
    decreases pieces.len(),
{
    if pieces.len() == 0 {
        seq![]
    } else {
        let rest = words_of(pieces.drop_last());
        let word = normalize(pieces.last(), None);
        if word.len() > 0 {
            rest.push(word)
        } else {
            rest
        }
    }
}

/// The keywords that `text` holds when its entries are separated by
/// `delimiter`, or `None` when no entry leaves a word.
pub open spec fn keywords_of(text: Seq<char>, delimiter: char) -> Option<Seq<Seq<char>>> {
    let words = words_of(split_on(text, delimiter));
    if words.len() == 0 {
        None
    } else {
        Some(words)
    }
}

/// The words joined by `_`.
pub open spec fn join_words(words: Seq<Seq<char>>) -> Seq<char>
    decreases words.len(),
{
    if words.len() == 0 {
        seq![]
    } else if words.len() == 1 {
        words[0]
    } else {
        join_words(words.drop_last()) + seq!['_'] + words.last()
    }
}

/// The rendered form of a keyword list.
pub open spec fn render_keywords(words: Seq<Seq<char>>) -> Seq<char> {
    seq!['_', '_'] + join_words(words)
}

pub open spec fn string_views(v: Seq<String>) -> Seq<Seq<char>> {
    v.map_values(|s: String| s@)
}

pub(crate) proof fn lemma_split_nonempty(s: Seq<char>, delimiter: char)
    ensures
        split_on(s, delimiter).len() >= 1,
    decreases s.len(),
{
    if s.len() > 0 {
        lemma_split_nonempty(s.drop_last(), delimiter);
    }
}

/// A non-empty, ordered list of keywords; each keyword is a non-empty word.
#[derive(Debug, PartialEq, Eq, Hash)]
pub struct Keywords(Vec<String>);

impl View for Keywords {
    type V = Seq<Seq<char>>;

    closed spec fn view(&self) -> Seq<Seq<char>> {
        string_views(self.0@)
    }
}

impl Clone for Keywords {
    fn clone(&self) -> (r: Self)
        ensures
            r@ == self@,
    {
        proof {
            use_type_invariant(self);
        }
        let mut words: Vec<String> = Vec::new();
        let mut i: usize = 0;
        while i < self.0.len()
            invariant
                i <= self.0.len(),
                words.len() == i,
                forall|j: int| 0 <= j < i ==> (#[trigger] words@[j])@ == self.0@[j]@,
                self.inv(),
            decreases self.0.len() - i,
        {
            let word = self.0[i].clone();
            assert(word@ == self.0@[i as int]@);
            words.push(word);
            i = i + 1;
        }
        assert(string_views(words@) =~= string_views(self.0@));
        Keywords(words)
    }
}

impl Keywords {
    #[verifier::type_invariant]
    spec fn inv(&self) -> bool {
        &&& self.0.len() > 0
        &&& forall|j: int| 0 <= j < self.0.len() ==> (#[trigger] self.0@[j])@.len() > 0
    }

    /// Keywords typed by a person: entries separated by commas.
    pub fn parse_user_input(string: &str) -> (r: Option<Keywords>)
        ensures
            match r {
                Some(k) => keywords_of(string@, ',') == Some(k@),
                None => keywords_of(string@, ',') is None,
            },
            (exists|i: int|
                0 <= i < string@.len() && #[trigger] acceptable(string@[i]) && string@[i]
                    != ',') ==> r is Some,
    {
        Self::parse(string, ',')
    }

    /// Keywords as they stand in a file name: entries separated by `_`.
    pub fn parse_schemed_string(string: &str) -> (r: Option<Keywords>)
        ensures
            match r {
                Some(k) => keywords_of(string@, '_') == Some(k@),
                None => keywords_of(string@, '_') is None,
            },
            (exists|i: int|
                0 <= i < string@.len() && #[trigger] acceptable(string@[i]) && string@[i]
                    != '_') ==> r is Some,
    {
        Self::parse(string, '_')
    }

    /// Splits `string` at each `delimiter`, normalizes every entry into one
    /// word and keeps the non-empty words; `None` when none is left.
    pub fn parse(string: &str, delimiter: char) -> (r: Option<Keywords>)
        ensures
            match r {
                Some(k) => keywords_of(string@, delimiter) == Some(k@),
                None => keywords_of(string@, delimiter) is None,
            },
            (exists|i: int|
                0 <= i < string@.len() && #[trigger] acceptable(string@[i]) && string@[i]
                    != delimiter) ==> r is Some,
    {
        let chars = chars_of(string);
        let mut words: Vec<String> = Vec::new();
        let mut piece: Vec<char> = Vec::new();
        let mut i: usize = 0;
        while i < chars.len()
            invariant
                i <= chars.len(),
                chars@ == string@,
                split_on(chars@.subrange(0, i as int), delimiter).len() >= 1,
                piece@ == split_on(chars@.subrange(0, i as int), delimiter).last(),
                string_views(words@) == words_of(
                    split_on(chars@.subrange(0, i as int), delimiter).drop_last(),
                ),
                forall|j: int| 0 <= j < words.len() ==> (#[trigger] words@[j])@.len() > 0,
                (exists|j: int| 0 <= j < i && #[trigger] acceptable(chars@[j]) && chars@[j] != delimiter)
                    ==> words.len() > 0 || exists|k: int|
                    0 <= k < piece.len() && #[trigger] acceptable(piece@[k]),
            decreases chars.len() - i,
        {
            let ghost before = split_on(chars@.subrange(0, i as int), delimiter);
            let c = chars[i];
            assert(chars@.subrange(0, i + 1).drop_last() =~= chars@.subrange(0, i as int));
            if c == delimiter {
                let word = slugify_chars(&piece, None);
                if word.len() > 0 {
                    words.push(string_of(&word));
                }
                piece = Vec::new();
                proof {
                    let after = before.push(seq![]);
                    assert(after.drop_last() =~= before);
                    assert(before.drop_last().push(before.last()) =~= before);
                }
            } else {
                let ghost old_piece = piece@;
                piece.push(c);
                proof {
                    let after = before.update(before.len() - 1, before.last().push(c));
                    assert(after.drop_last() =~= before.drop_last());
                    if exists|k: int| 0 <= k < old_piece.len() && #[trigger] acceptable(old_piece[k]) {
                        let k = choose|k: int| 0 <= k < old_piece.len() && #[trigger] acceptable(old_piece[k]);
                        assert(piece@[k] == old_piece[k]);
                    }
                    if acceptable(c) {
                        assert(piece@[piece.len() - 1] == c);
                    }
                }
            }
            proof {
                if exists|j: int| 0 <= j < i + 1 && #[trigger] acceptable(chars@[j]) && chars@[j] != delimiter {
                    if !(acceptable(c) && c != delimiter) {
                        let j = choose|j: int| 0 <= j < i + 1 && #[trigger] acceptable(chars@[j]) && chars@[j] != delimiter;
                        assert(j < i);
                    }
                }
            }
            i = i + 1;
            assert(string_views(words@) =~= words_of(
                split_on(chars@.subrange(0, i as int), delimiter).drop_last(),
            ));
        }
        assert(chars@.subrange(0, chars.len() as int) =~= string@);
        let ghost all = split_on(string@, delimiter);
        let word = slugify_chars(&piece, None);
        if word.len() > 0 {
            words.push(string_of(&word));
        }
        proof {
            assert(all.drop_last().push(all.last()) =~= all);
        }
        assert(string_views(words@) =~= words_of(all));
        if words.len() == 0 {
            None
        } else {
            Some(Keywords(words))
        }
    }

    /// The keywords as they appear in a file name: `__` and the words joined
    /// by `_`.
    pub fn to_string(&self) -> (r: String)
        ensures
            r@ == render_keywords(self@),
    {
        proof {
            use_type_invariant(self);
        }
        let mut out: Vec<char> = Vec::new();
        out.push('_');
        out.push('_');
        let first = chars_of(self.0[0].as_str());
        let mut first = first;
        out.append(&mut first);
        let mut i: usize = 1;
        while i < self.0.len()
            invariant
                1 <= i <= self.0.len(),
                out@ == render_keywords(string_views(self.0@).subrange(0, i as int)),
            decreases self.0.len() - i,
        {
            let ghost done = string_views(self.0@).subrange(0, i as int);
            let mut word = chars_of(self.0[i].as_str());
            out.push('_');
            out.append(&mut word);
            i = i + 1;
            proof {
                let next = string_views(self.0@).subrange(0, i as int);
                assert(next.drop_last() =~= done);
            }
            assert(out@ =~= render_keywords(string_views(self.0@).subrange(0, i as int)));
        }
        assert(string_views(self.0@).subrange(0, i as int) =~= string_views(self.0@));
        string_of(&out)
    }
}

} // verus!
