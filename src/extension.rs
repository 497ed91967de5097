//! The extension field, rendered after a single `.`.

use vstd::prelude::*;
use crate::path::{extension_of_name, file_name_of, is_plain_file_name, name_extension};
use crate::unicode::{chars_between, chars_of, string_of, trim_chars, trim_end, trim_start};

verus! {

/// The extension that `text` gives: trimmed of white space, with one leading
/// dot removed; `None` when nothing is left.
pub open spec fn extension_of(text: Seq<char>) -> Option<Seq<char>> {
    let t = trim_end(trim_start(text));
    let e = if t.len() > 0 && t[0] == '.' {
        t.drop_first()
    } else {
        t
    };
    if e.len() == 0 {
        None
    } else {
        Some(e)
    }
}

/// The rendered form of an extension.
pub open spec fn render_extension(v: Seq<char>) -> Seq<char> {
    seq!['.'] + v
}

/// A file extension, stored without its leading dot and never empty.
#[derive(Debug, PartialEq, Eq, Hash)]
pub struct Extension(String);

impl View for Extension {
    type V = Seq<char>;

    closed spec fn view(&self) -> Seq<char> {
        self.0@
    }
}

impl Clone for Extension {
    fn clone(&self) -> (r: Self)
        ensures
            r@ == self@,
    {
        proof {
            use_type_invariant(self);
        }
        Extension(self.0.clone())
    }
}

impl Extension {
    #[verifier::type_invariant]
    spec fn inv(&self) -> bool {
        self.0@.len() > 0
    }

    /// An extension from text: white space around it and one leading dot
    /// are removed; `None` when nothing is left.
    pub fn new(ext: &str) -> (r: Option<Extension>)
        ensures
            match r {
                Some(e) => extension_of(ext@) == Some(e@),
                None => extension_of(ext@) is None,
            },
    {
        let chars = trim_chars(&chars_of(ext));
        let mut a: usize = 0;
        let b: usize = chars.len();
        if a < b && chars[a] == '.' {
            a = a + 1;
        }
        let out = chars_between(&chars, a, b);
        if out.len() == 0 {
            None
        } else {
            Some(Extension(string_of(&out)))
        }
    }

    /// The extension of a bare file name: what follows its last dot, unless
    /// that dot starts the name. `None` when there is none or it is empty.
    pub fn from_file_name(name: &str) -> (r: Option<Extension>)
        ensures
            match r {
                Some(e) => name_extension(name@) == Some(e@),
                None => name_extension(name@) is None || name_extension(name@) == Some(
                    Seq::<char>::empty(),
                ),
            },
    {
        let chars = chars_of(name);
        match extension_of_name(&chars) {
            Some(ext) => {
                if ext.len() == 0 {
                    None
                } else {
                    Some(Extension(string_of(&ext)))
                }
            },
            None => None,
        }
    }

    /// The extension of the file that `path` names (see
    /// [`Extension::from_file_name`]).
    pub fn from_path(path: &str) -> (r: Option<Extension>)
        ensures
            r matches Some(e) ==> exists|name: Seq<char>| name_extension(name) == Some(e@),
            is_plain_file_name(path@) ==> match r {
                Some(e) => name_extension(path@) == Some(e@),
                None => name_extension(path@) is None || name_extension(path@) == Some(
                    Seq::<char>::empty(),
                ),
            },
    {
        match file_name_of(path) {
            Some(name) => Self::from_file_name(name.as_str()),
            None => None,
        }
    }

    /// The extension as it appears in a file name, after `.`.
    pub fn to_string(&self) -> (r: String)
        ensures
            r@ == render_extension(self@),
    {
        let mut out = String::from_str(".");
        out.append(self.0.as_str());
        proof {
            reveal_strlit(".");
        }
        assert(out@ =~= render_extension(self@));
        out
    }
}

} // verus!
