//! The signature field: a short ordering token, rendered after `==`.

use vstd::prelude::*;
use crate::unicode::acceptable;
use crate::format::{normalize, slugify};

verus! {

/// The separator inside a signature.
pub open spec fn signature_separator() -> Option<char> {
    Some('=')
}

/// The signature that `text` normalizes to, or `None` when nothing is left.
pub open spec fn signature_of(text: Seq<char>) -> Option<Seq<char>> {
    let slug = normalize(text, signature_separator());
    if slug.len() == 0 {
        None
    } else {
        Some(slug)
    }
}

/// The rendered form of a signature.
pub open spec fn render_signature(v: Seq<char>) -> Seq<char> {
    seq!['=', '='] + v
}

/// An ordering or classification token, stored normalized and never empty.
#[derive(Debug, PartialEq, Eq, Hash)]
pub struct Signature(String);

impl View for Signature {
    type V = Seq<char>;

    closed spec fn view(&self) -> Seq<char> {
        self.0@
    }
}

impl Clone for Signature {
    fn clone(&self) -> (r: Self)
        ensures
            r@ == self@,
    {
        proof {
            use_type_invariant(self);
        }
        Signature(self.0.clone())
    }
}

impl Signature {
    #[verifier::type_invariant]
    spec fn inv(&self) -> bool {
        self.0@.len() > 0
    }

    /// Normalizes `string` into a signature, with `=` between words; `None`
    /// when no letter or number is left.
    pub fn parse(string: &str) -> (r: Option<Signature>)
        ensures
            match r {
                Some(sig) => signature_of(string@) == Some(sig@),
                None => signature_of(string@) is None,
            },
            (exists|i: int| 0 <= i < string@.len() && #[trigger] acceptable(string@[i])) ==> r is Some,
    {
        let slug = slugify(string, Some('='));
        if slug.as_str().unicode_len() == 0 {
            None
        } else {
            Some(Signature(slug))
        }
    }

    /// The signature as it appears in a file name, after `==`.
    pub fn to_string(&self) -> (r: String)
        ensures
            r@ == render_signature(self@),
    {
        let mut out = String::from_str("==");
        out.append(self.0.as_str());
        proof {
            reveal_strlit("==");
        }
        assert(out@ =~= render_signature(self@));
        out
    }
}

} // verus!
