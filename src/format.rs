//! Turning free text into scheme-safe tokens.

use vstd::prelude::*;
use crate::unicode::{
    acceptable, chars_of, is_acceptable, lowercase, lowercase_of, string_of, uppercase,
    uppercase_of,
};

verus! {

/// The separator as text: one character, or nothing.
pub open spec fn sep_seq(separator: Option<char>) -> Seq<char> {
    match separator {
        Some(x) => seq![x],
        None => seq![],
    }
}

/// Left-to-right pass of the normalizer over `s`: the text built so far, and
/// whether a new separator would be suppressed (at the start, or right after
/// another separator).
pub open spec fn scan(s: Seq<char>, separator: Option<char>) -> (Seq<char>, bool)
    decreases s.len(),
{
    if s.len() == 0 {
        (seq![], true)
    } else {
        let (out, suppress) = scan(s.drop_last(), separator);
        let c = s.last();
        if acceptable(c) {
            (out + lowercase(c), false)
        } else if !suppress {
            (out + sep_seq(separator), true)
        } else {
            (out, suppress)
        }
    }
}

/// Whether `s` ends with the separator character.
pub open spec fn ends_with_sep(s: Seq<char>, separator: Option<char>) -> bool {
    match separator {
        Some(x) => s.len() > 0 && s.last() == x,
        None => false,
    }
}

/// The normalized form of `s`: letters and numbers lowercased, every run of
/// other characters between them replaced by one separator, and no separator
/// at either end (a separator that the pass leaves last is dropped). Without a
/// separator the other characters are dropped.
pub open spec fn normalize(s: Seq<char>, separator: Option<char>) -> Seq<char> {
    let (out, suppress) = scan(s, separator);
    if separator is Some && suppress && out.len() > 0 {
        out.drop_last()
    } else {
        out
    }
}

/// `s` with its first character in uppercase.
pub open spec fn capitalize(s: Seq<char>) -> Seq<char> {
    if s.len() == 0 {
        s
    } else {
        uppercase(s[0]) + s.drop_first()
    }
}

/// A character that normalization leaves as it is.
pub open spec fn stable(c: char) -> bool {
    acceptable(c) && lowercase(c) == seq![c]
}

/// The lowercase form of `c` is non-empty and made of characters that
/// normalization leaves as they are. True of every ASCII character.
pub open spec fn folds_stably(c: char) -> bool {
    &&& lowercase(c).len() > 0
    &&& forall|j: int| 0 <= j < lowercase(c).len() ==> stable(#[trigger] lowercase(c)[j])
}

/// A separator that cannot be mistaken for a letter or number.
pub open spec fn valid_separator(separator: Option<char>) -> bool {
    match separator {
        Some(x) => !acceptable(x),
        None => true,
    }
}

/// Position `i` of `w` holds a stable character, or a separator that follows
/// a stable character.
pub open spec fn tidy_at(w: Seq<char>, separator: Option<char>, i: int) -> bool {
    if separator == Some(w[i]) {
        i > 0 && separator != Some(w[i - 1])
    } else {
        stable(w[i])
    }
}

pub open spec fn tidy(w: Seq<char>, separator: Option<char>) -> bool {
    forall|i: int| 0 <= i < w.len() ==> #[trigger] tidy_at(w, separator, i)
}

proof fn lemma_scan_tidy(t: Seq<char>, separator: Option<char>)
    requires
        valid_separator(separator),
        forall|i: int| 0 <= i < t.len() && acceptable(t[i]) ==> #[trigger] folds_stably(t[i]),
    ensures
        tidy(scan(t, separator).0, separator),
        scan(t, separator).0.len() == 0 ==> scan(t, separator).1,
        separator is Some ==> (scan(t, separator).1 <==> (scan(t, separator).0.len() == 0
            || scan(t, separator).0.last() == separator->0)),
    decreases t.len(),
{
    if t.len() > 0 {
        let prefix = t.drop_last();
        assert forall|i: int| 0 <= i < prefix.len() && acceptable(prefix[i]) implies #[trigger] folds_stably(prefix[i]) by {
            assert(prefix[i] == t[i]);
        }
        lemma_scan_tidy(prefix, separator);
        let (out, suppress) = scan(prefix, separator);
        let c = t.last();
        let (out2, suppress2) = scan(t, separator);
        if acceptable(c) {
            assert(folds_stably(t[t.len() - 1]));
            let l = lowercase(c);
            assert(out2 == out + l);
            assert forall|i: int| 0 <= i < out2.len() implies #[trigger] tidy_at(out2, separator, i) by {
                if i < out.len() {
                    assert(tidy_at(out, separator, i));
                    assert(out2[i] == out[i]);
                    if i > 0 {
                        assert(out2[i - 1] == out[i - 1]);
                    }
                } else {
                    assert(out2[i] == l[i - out.len()]);
                    assert(stable(l[i - out.len()]));
                }
            }
            assert(out2.last() == l.last());
            assert(stable(l[l.len() - 1]));
        } else if !suppress {
            assert(out2 == out + sep_seq(separator));
            match separator {
                Some(x) => {
                    assert forall|i: int| 0 <= i < out2.len() implies #[trigger] tidy_at(out2, separator, i) by {
                        if i < out.len() {
                            assert(tidy_at(out, separator, i));
                            assert(out2[i] == out[i]);
                            if i > 0 {
                                assert(out2[i - 1] == out[i - 1]);
                            }
                        } else {
                            assert(out2[i - 1] == out.last());
                        }
                    }
                },
                None => {
                    assert(out2 =~= out);
                },
            }
        }
    }
}

proof fn lemma_tidy_scan(w: Seq<char>, separator: Option<char>)
    requires
        valid_separator(separator),
        tidy(w, separator),
    ensures
        scan(w, separator) == (w, w.len() == 0 || ends_with_sep(w, separator)),
    decreases w.len(),
{
    if w.len() > 0 {
        let prefix = w.drop_last();
        assert forall|i: int| 0 <= i < prefix.len() implies #[trigger] tidy_at(prefix, separator, i) by {
            assert(tidy_at(w, separator, i));
            assert(prefix[i] == w[i]);
            if i > 0 {
                assert(prefix[i - 1] == w[i - 1]);
            }
        }
        lemma_tidy_scan(prefix, separator);
        let c = w.last();
        assert(tidy_at(w, separator, w.len() - 1));
        if separator == Some(c) {
            assert(prefix.last() == w[w.len() - 2]);
            assert(prefix + sep_seq(separator) =~= w);
        } else {
            assert(prefix + lowercase(c) =~= w);
        }
    }
}

/// A tidy text that does not end with the separator is its own normal form.
pub proof fn lemma_tidy_normal(w: Seq<char>, separator: Option<char>)
    requires
        valid_separator(separator),
        tidy(w, separator),
        !ends_with_sep(w, separator),
    ensures
        normalize(w, separator) == w,
{
    lemma_tidy_scan(w, separator);
}

/// Normalizing a second time changes nothing.
///
/// This holds whenever the separator is not itself a letter or number and
/// every letter of the text lowercases to characters that are already
/// lowercase letters or numbers (true of all ASCII text).
pub proof fn lemma_normalize_idempotent(t: Seq<char>, separator: Option<char>)
    requires
        valid_separator(separator),
        forall|i: int| 0 <= i < t.len() && acceptable(t[i]) ==> #[trigger] folds_stably(t[i]),
    ensures
        normalize(normalize(t, separator), separator) == normalize(t, separator),
{
    lemma_scan_tidy(t, separator);
    let o = scan(t, separator).0;
    let w = normalize(t, separator);
    assert((separator is Some && scan(t, separator).1 && o.len() > 0) == ends_with_sep(
        o,
        separator,
    ));
    assert forall|i: int| 0 <= i < w.len() implies #[trigger] tidy_at(w, separator, i) by {
        assert(tidy_at(o, separator, i));
        assert(w[i] == o[i]);
        if i > 0 {
            assert(w[i - 1] == o[i - 1]);
        }
    }
    if ends_with_sep(o, separator) && w.len() > 0 {
        assert(tidy_at(o, separator, o.len() - 1));
        assert(w.last() == o[o.len() - 2]);
    }
    lemma_tidy_scan(w, separator);
}

/// Normalizes a sequence of characters (see [`normalize`]).
pub fn slugify_chars(s: &Vec<char>, separator: Option<char>) -> (r: Vec<char>)
    ensures
        r@ == normalize(s@, separator),
        (exists|i: int| 0 <= i < s@.len() && #[trigger] acceptable(s@[i])) ==> r@.len() > 0,
{
    let mut out: Vec<char> = Vec::new();
    let mut suppress = true;
    let mut i: usize = 0;
    while i < s.len()
        invariant
            i <= s.len(),
            (out@, suppress) == scan(s@.subrange(0, i as int), separator),
            (exists|j: int| 0 <= j < i && #[trigger] acceptable(s@[j])) ==> out@.len() > 0 && (
            separator is Some && suppress ==> out@.len() >= 2),
        decreases s.len() - i,
    {
        let c = s[i];
        assert(s@.subrange(0, i + 1).drop_last() =~= s@.subrange(0, i as int));
        if is_acceptable(c) {
            let mut lower = lowercase_of(c);
            out.append(&mut lower);
            suppress = false;
        } else if !suppress {
            match separator {
                Some(x) => out.push(x),
                None => {},
            }
            suppress = true;
        }
        proof {
            if exists|j: int| 0 <= j < i + 1 && #[trigger] acceptable(s@[j]) {
                if !acceptable(c) {
                    let j = choose|j: int| 0 <= j < i + 1 && #[trigger] acceptable(s@[j]);
                    assert(j < i);
                }
            }
        }
        i = i + 1;
        assert(out@ =~= scan(s@.subrange(0, i as int), separator).0);
    }
    assert(s@.subrange(0, s.len() as int) =~= s@);
    if separator.is_some() && suppress && out.len() > 0 {
        out.pop();
    }
    out
}

/// Normalizes `s`: letters and numbers are lowercased, each run of other
/// characters between them becomes one `separator`, and separators never lead
/// or trail. With no separator, the other characters are simply removed.
pub fn slugify(s: &str, separator: Option<char>) -> (r: String)
    ensures
        r@ == normalize(s@, separator),
        (exists|i: int| 0 <= i < s@.len() && #[trigger] acceptable(s@[i])) ==> r@.len() > 0,
{
    let chars = chars_of(s);
    let slug = slugify_chars(&chars, separator);
    string_of(&slug)
}

/// Makes the first letter of `string` uppercase.
pub fn first_letter_uppercase(string: &str) -> (r: String)
    ensures
        r@ == capitalize(string@),
{
    let chars = chars_of(string);
    if chars.len() == 0 {
        return String::new();
    }
    let mut out = uppercase_of(chars[0]);
    let mut i: usize = 1;
    while i < chars.len()
        invariant
            1 <= i <= chars.len(),
            out@ == uppercase(chars@[0]) + chars@.subrange(1, i as int),
        decreases chars.len() - i,
    {
        out.push(chars[i]);
        i = i + 1;
        assert(out@ =~= uppercase(chars@[0]) + chars@.subrange(1, i as int));
    }
    assert(chars@.subrange(1, chars.len() as int) =~= chars@.drop_first());
    string_of(&out)
}

} // verus!
