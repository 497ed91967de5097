//! A whole file name: the identifier and the optional fields.

use vstd::prelude::*;
use crate::extension::{extension_of, render_extension, Extension};
use crate::format::{ends_with_sep, lemma_tidy_normal, scan, tidy, tidy_at};
use crate::grammar::{
    self, assemble_name, extension_prefix, group_text, in_group, keywords_prefix,
    lemma_assembled_is_plain, lemma_split_assembled, signature_prefix, split_name, title_prefix,
    well_formed_group, NameParts,
};
use crate::identifier::{is_id, is_id_at, Identifier};
use crate::keywords::{join_words, keywords_of, render_keywords, split_on, words_of, Keywords};
use crate::path::{file_name_of, is_plain_file_name};
use crate::signature::{render_signature, signature_of, Signature};
use crate::title::{render_title, title_of, Title};
use crate::unicode::{acceptable, chars_between, chars_of, string_of, white_space};

verus! {

/// What a [`Denote`] holds: the identifier token and the optional fields.
pub struct DenoteView {
    pub identifier: Seq<char>,
    pub signature: Option<Seq<char>>,
    pub title: Option<Seq<char>>,
    pub keywords: Option<Seq<Seq<char>>>,
    pub extension: Option<Seq<char>>,
}

pub open spec fn render_opt(v: Option<Seq<char>>, render: spec_fn(Seq<char>) -> Seq<char>) -> Seq<
    char,
> {
    match v {
        Some(x) => render(x),
        None => seq![],
    }
}

/// The file name for `d`: identifier, then each present field with its
/// prefix, in the fixed order signature, title, keywords, extension.
pub open spec fn render_name(d: DenoteView) -> Seq<char> {
    d.identifier + render_opt(d.signature, |v| render_signature(v)) + render_opt(
        d.title,
        |v| render_title(v),
    ) + match d.keywords {
        Some(k) => render_keywords(k),
        None => seq![],
    } + render_opt(d.extension, |v| render_extension(v))
}

/// The fields read from a file name: each group's text goes through its
/// field's own normalization; the identifier is taken as it stands.
pub open spec fn parse_name(name: Seq<char>) -> Option<DenoteView> {
    match split_name(name) {
        None => None,
        Some(parts) => Some(
            DenoteView {
                identifier: parts.identifier,
                signature: match parts.signature {
                    Some(t) => signature_of(t),
                    None => None,
                },
                title: match parts.title {
                    Some(t) => title_of(t),
                    None => None,
                },
                keywords: match parts.keywords {
                    Some(t) => keywords_of(t, '_'),
                    None => None,
                },
                extension: match parts.extension {
                    Some(t) => extension_of(t),
                    None => None,
                },
            },
        ),
    }
}

/// A file name in the denote scheme.
#[derive(Debug, PartialEq, Eq, Hash)]
pub struct Denote {
    pub identifier: Identifier,
    pub signature: Option<Signature>,
    pub title: Option<Title>,
    pub keywords: Option<Keywords>,
    pub extension: Option<Extension>,
}

impl View for Denote {
    type V = DenoteView;

    open spec fn view(&self) -> DenoteView {
        DenoteView {
            identifier: self.identifier@,
            signature: match self.signature {
                Some(s) => Some(s@),
                None => None,
            },
            title: match self.title {
                Some(t) => Some(t@),
                None => None,
            },
            keywords: match self.keywords {
                Some(k) => Some(k@),
                None => None,
            },
            extension: match self.extension {
                Some(e) => Some(e@),
                None => None,
            },
        }
    }
}

/// What an optional [`Denote`] holds.
pub open spec fn denote_view(r: Option<Denote>) -> Option<DenoteView> {
    match r {
        Some(d) => Some(d@),
        None => None,
    }
}

impl Clone for Denote {
    fn clone(&self) -> (r: Self)
        ensures
            r@ == self@,
    {
        Denote {
            identifier: self.identifier.clone(),
            signature: match &self.signature {
                Some(s) => Some(s.clone()),
                None => None,
            },
            title: match &self.title {
                Some(t) => Some(t.clone()),
                None => None,
            },
            keywords: match &self.keywords {
                Some(k) => Some(k.clone()),
                None => None,
            },
            extension: match &self.extension {
                Some(e) => Some(e.clone()),
                None => None,
            },
        }
    }
}

/// The characters of `chars` from `from` up to `to`, as a string.
fn text_between(chars: &Vec<char>, from: usize, to: usize) -> (r: String)
    requires
        from <= to <= chars.len(),
    ensures
        r@ == chars@.subrange(from as int, to as int),
{
    string_of(&chars_between(chars, from, to))
}

impl Denote {
    /// A name with `identifier` and no other field.
    pub fn new(identifier: Identifier) -> (r: Denote)
        ensures
            r@ == (DenoteView {
                identifier: identifier@,
                signature: None,
                title: None,
                keywords: None,
                extension: None,
            }),
    {
        Denote { identifier, signature: None, title: None, keywords: None, extension: None }
    }

    /// Sets `signature`; returns this name for chaining.
    pub fn signature(&mut self, signature: Signature) -> (r: &mut Denote)
        ensures
            (*r)@ == (DenoteView { signature: Some(signature@), ..old(self)@ }),
            *final(self) == *final(r),
    {
        self.signature = Some(signature);
        self
    }

    /// Sets `title`; returns this name for chaining.
    pub fn title(&mut self, title: Title) -> (r: &mut Denote)
        ensures
            (*r)@ == (DenoteView { title: Some(title@), ..old(self)@ }),
            *final(self) == *final(r),
    {
        self.title = Some(title);
        self
    }

    /// Sets `keywords`; returns this name for chaining.
    pub fn keywords(&mut self, keywords: Keywords) -> (r: &mut Denote)
        ensures
            (*r)@ == (DenoteView { keywords: Some(keywords@), ..old(self)@ }),
            *final(self) == *final(r),
    {
        self.keywords = Some(keywords);
        self
    }

    /// Sets `extension`; returns this name for chaining.
    pub fn extension(&mut self, extension: Extension) -> (r: &mut Denote)
        ensures
            (*r)@ == (DenoteView { extension: Some(extension@), ..old(self)@ }),
            *final(self) == *final(r),
    {
        self.extension = Some(extension);
        self
    }

    /// The file name: the identifier, then each present field with its own
    /// prefix, in the order signature, title, keywords, extension.
    pub fn to_string(&self) -> (r: String)
        ensures
            r@ == render_name(self@),
    {
        let mut out = self.identifier.to_string();
        if let Some(signature) = &self.signature {
            out.append(signature.to_string().as_str());
        }
        if let Some(title) = &self.title {
            out.append(title.to_string().as_str());
        }
        if let Some(keywords) = &self.keywords {
            out.append(keywords.to_string().as_str());
        }
        if let Some(extension) = &self.extension {
            out.append(extension.to_string().as_str());
        }
        assert(out@ =~= render_name(self@));
        out
    }

    /// Reads the fields of a bare file name; `None` when the name does not
    /// follow the scheme.
    pub fn parse(name: &str) -> (r: Option<Denote>)
        ensures
            denote_view(r) == parse_name(name@),
    {
        let chars = chars_of(name);
        let n = chars.len();
        if n < 17 {
            return None;
        }
        let token = chars_between(&chars, 0, 17);
        let token_ok = is_id_at(&chars, 0);
        assert(chars@.subrange(0, 17) == token@);
        if !token_ok {
            return None;
        }
        let (signature_end, i1) = match grammar::signature(&chars, 17) {
            Some(end) => (Some(end), end),
            None => (None, 17),
        };
        let (title_end, i2) = match grammar::title(&chars, i1) {
            Some(end) => (Some(end), end),
            None => (None, i1),
        };
        let (keywords_end, i3) = match grammar::keywords(&chars, i2) {
            Some(end) => (Some(end), end),
            None => (None, i2),
        };
        let (extension_end, i4) = match grammar::extension(&chars, i3) {
            Some(end) => (Some(end), end),
            None => (None, i3),
        };
        if i4 != n {
            return None;
        }
        let mut denote = Denote::new(Identifier::from_token(token));
        if let Some(end) = signature_end {
            denote.signature = Signature::parse(text_between(&chars, 19, end).as_str());
        }
        if let Some(end) = title_end {
            denote.title = Title::parse(text_between(&chars, i1 + 2, end).as_str());
        }
        if let Some(end) = keywords_end {
            denote.keywords = Keywords::parse_schemed_string(
                text_between(&chars, i2 + 2, end).as_str(),
            );
        }
        if let Some(end) = extension_end {
            denote.extension = Extension::new(text_between(&chars, i3 + 1, end).as_str());
        }
        Some(denote)
    }

    /// Reads the fields of the file name at the end of `path`; `None` when
    /// the path has no file name or the name does not follow the scheme.
    pub fn from_path(path: &str) -> (r: Option<Denote>)
        ensures
            r matches Some(d) ==> exists|name: Seq<char>| parse_name(name) == Some(d@),
            is_plain_file_name(path@) ==> denote_view(r) == parse_name(path@),
    {
        match file_name_of(path) {
            Some(name) => Self::parse(name.as_str()),
            None => None,
        }
    }
}

/// A field value that normalization with `separator` leaves as it is: lowercase
/// letters and numbers, with single separators between them and none at the ends.
pub open spec fn is_slug(v: Seq<char>, separator: Option<char>) -> bool {
    &&& v.len() > 0
    &&& tidy(v, separator)
    &&& !ends_with_sep(v, separator)
}

/// An extension that reads back as it is: letters and numbers only, with no
/// white space at its ends.
pub open spec fn is_plain_extension(e: Seq<char>) -> bool {
    &&& e.len() > 0
    &&& forall|i: int| 0 <= i < e.len() ==> acceptable(#[trigger] e[i])
    &&& !white_space(e[0])
    &&& !white_space(e.last())
}

/// A record whose every field already has its normal form.
pub open spec fn is_canonical(d: DenoteView) -> bool {
    &&& is_id(d.identifier)
    &&& (d.signature matches Some(v) ==> is_slug(v, Some('=')))
    &&& (d.title matches Some(v) ==> is_slug(v, Some('-')))
    &&& (d.keywords matches Some(ws) ==> ws.len() > 0 && forall|i: int|
        0 <= i < ws.len() ==> is_slug(#[trigger] ws[i], None))
    &&& (d.extension matches Some(e) ==> is_plain_extension(e))
}

proof fn lemma_slug_group(v: Seq<char>, sep: char)
    requires
        is_slug(v, Some(sep)),
        !acceptable(sep),
    ensures
        acceptable(v[0]),
        forall|j: int| 0 <= j < v.len() ==> in_group(#[trigger] v[j], Some(sep)),
{
    assert(tidy_at(v, Some(sep), 0));
    assert forall|j: int| 0 <= j < v.len() implies in_group(#[trigger] v[j], Some(sep)) by {
        assert(tidy_at(v, Some(sep), j));
    }
}

proof fn lemma_split_extend(a: Seq<char>, b: Seq<char>, d: char)
    requires
        forall|j: int| 0 <= j < b.len() ==> b[j] != d,
    ensures
        split_on(a + b, d) == split_on(a, d).update(
            split_on(a, d).len() - 1,
            split_on(a, d).last() + b,
        ),
        split_on(a + b, d).len() == split_on(a, d).len(),
    decreases b.len(),
{
    crate::keywords::lemma_split_nonempty(a, d);
    if b.len() == 0 {
        assert(a + b =~= a);
        assert(split_on(a, d).last() + b =~= split_on(a, d).last());
        assert(split_on(a, d).update(split_on(a, d).len() - 1, split_on(a, d).last())
            =~= split_on(a, d));
    } else {
        let b0 = b.drop_last();
        assert forall|j: int| 0 <= j < b0.len() implies b0[j] != d by {
            assert(b0[j] == b[j]);
        }
        lemma_split_extend(a, b0, d);
        assert(b[b.len() - 1] != d);
        assert((a + b).drop_last() =~= a + b0);
        assert((a + b).last() == b.last());
        let pa = split_on(a, d);
        let pb0 = split_on(a + b0, d);
        assert(pb0.last() == pa.last() + b0);
        assert(split_on(a + b, d) == pb0.update(pb0.len() - 1, pb0.last().push(b.last())));
        assert(pb0.last().push(b.last()) =~= pa.last() + b);
        assert(split_on(a + b, d) =~= pa.update(pa.len() - 1, pa.last() + b));
    }
}

proof fn lemma_split_join(ws: Seq<Seq<char>>)
    requires
        ws.len() > 0,
        forall|i: int, j: int| 0 <= i < ws.len() && 0 <= j < ws[i].len() ==> #[trigger] ws[i][j] != '_',
    ensures
        split_on(join_words(ws), '_') == ws,
    decreases ws.len(),
{
    if ws.len() == 1 {
        lemma_split_extend(seq![], ws[0], '_');
        assert(Seq::<char>::empty() + ws[0] =~= ws[0]);
        assert(seq![Seq::<char>::empty()].update(0, Seq::<char>::empty() + ws[0]) =~= ws);
    } else {
        let rest = ws.drop_last();
        lemma_split_join(rest);
        let a = join_words(rest) + seq!['_'];
        assert(a.drop_last() =~= join_words(rest));
        lemma_split_extend(a, ws.last(), '_');
        assert(Seq::<char>::empty() + ws.last() =~= ws.last());
        assert(rest.push(seq![]).update(rest.len() as int, ws.last()) =~= ws);
    }
}

proof fn lemma_words_fixed(ws: Seq<Seq<char>>)
    requires
        forall|i: int| 0 <= i < ws.len() ==> is_slug(#[trigger] ws[i], None),
    ensures
        words_of(ws) == ws,
    decreases ws.len(),
{
    if ws.len() > 0 {
        let rest = ws.drop_last();
        assert forall|i: int| 0 <= i < rest.len() implies is_slug(#[trigger] rest[i], None) by {
            assert(rest[i] == ws[i]);
        }
        lemma_words_fixed(rest);
        assert(is_slug(ws[ws.len() - 1], None));
        lemma_tidy_normal(ws.last(), None);
        assert(rest.push(ws.last()) =~= ws);
    }
}

proof fn lemma_join_chars(ws: Seq<Seq<char>>)
    requires
        ws.len() > 0,
        forall|i: int| 0 <= i < ws.len() ==> is_slug(#[trigger] ws[i], None),
    ensures
        acceptable(join_words(ws)[0]),
        forall|j: int| 0 <= j < join_words(ws).len() ==> in_group(#[trigger] join_words(ws)[j], Some('_')),
        join_words(ws).len() > 0,
    decreases ws.len(),
{
    let w = ws.last();
    assert(is_slug(ws[ws.len() - 1], None));
    assert forall|j: int| 0 <= j < w.len() implies acceptable(#[trigger] w[j]) by {
        assert(tidy_at(w, None, j));
    }
    assert(is_slug(ws[0], None));
    assert(tidy_at(ws[0], None, 0));
    if ws.len() > 1 {
        let rest = ws.drop_last();
        assert forall|i: int| 0 <= i < rest.len() implies is_slug(#[trigger] rest[i], None) by {
            assert(rest[i] == ws[i]);
        }
        lemma_join_chars(rest);
        let j0 = join_words(rest);
        assert forall|j: int| 0 <= j < join_words(ws).len() implies in_group(#[trigger] join_words(ws)[j], Some('_')) by {
            if j < j0.len() {
                assert(join_words(ws)[j] == j0[j]);
            } else if j == j0.len() {
            } else {
                assert(join_words(ws)[j] == w[j - j0.len() - 1]);
            }
        }
        assert(join_words(ws)[0] == j0[0]);
    }
}

/// Rendering a record whose fields are already in normal form and reading the
/// name back gives the same record, identifier included. The rendered name is
/// a bare file name on every platform, so [`Denote::from_path`] reads it back
/// the same way.
pub proof fn lemma_render_parse(d: DenoteView)
    requires
        is_canonical(d),
    ensures
        parse_name(render_name(d)) == Some(d),
        is_plain_file_name(render_name(d)),
{
    let parts = NameParts {
        identifier: d.identifier,
        signature: d.signature,
        title: d.title,
        keywords: match d.keywords {
            Some(ws) => Some(join_words(ws)),
            None => None,
        },
        extension: d.extension,
    };
    assert(group_text(d.signature, signature_prefix()) =~= render_opt(
        d.signature,
        |v| render_signature(v),
    ));
    assert(group_text(d.title, title_prefix()) =~= render_opt(d.title, |v| render_title(v)));
    assert(group_text(parts.keywords, keywords_prefix()) =~= match d.keywords {
        Some(k) => render_keywords(k),
        None => seq![],
    });
    assert(group_text(d.extension, extension_prefix()) =~= render_opt(
        d.extension,
        |v| render_extension(v),
    ));
    assert(render_name(d) == assemble_name(parts));
    assert(!acceptable('-') && !acceptable('='));
    if let Some(v) = d.signature {
        lemma_slug_group(v, '=');
        lemma_tidy_normal(v, Some('='));
    }
    if let Some(v) = d.title {
        lemma_slug_group(v, '-');
        lemma_tidy_normal(v, Some('-'));
    }
    if let Some(ws) = d.keywords {
        lemma_join_chars(ws);
        assert forall|i: int, j: int| 0 <= i < ws.len() && 0 <= j < ws[i].len() implies #[trigger] ws[i][j] != '_' by {
            assert(is_slug(ws[i], None));
            assert(tidy_at(ws[i], None, j));
        }
        lemma_split_join(ws);
        lemma_words_fixed(ws);
    }
    if let Some(e) = d.extension {
        assert(acceptable(e[0]));
        assert(e[0] != '.');
        assert forall|j: int| 0 <= j < e.len() implies in_group(#[trigger] e[j], None) by {
            assert(acceptable(e[j]));
        }
    }
    lemma_split_assembled(parts);
    lemma_assembled_is_plain(parts);
}

/// Rendering and reading back also gives the same record when each field is
/// one that its own parse returns unchanged and whose text the grammar
/// accepts for its group (a letter or number first, then letters, numbers and
/// the field's separator).
pub proof fn lemma_render_parse_fixed_points(d: DenoteView)
    requires
        is_id(d.identifier),
        d.signature matches Some(v) ==> signature_of(v) == Some(v) && well_formed_group(
            Some(v),
            Some('='),
        ),
        d.title matches Some(v) ==> title_of(v) == Some(v) && well_formed_group(
            Some(v),
            Some('-'),
        ),
        d.keywords matches Some(ws) ==> keywords_of(join_words(ws), '_') == Some(ws)
            && well_formed_group(Some(join_words(ws)), Some('_')),
        d.extension matches Some(e) ==> extension_of(e) == Some(e) && well_formed_group(
            Some(e),
            None,
        ),
    ensures
        parse_name(render_name(d)) == Some(d),
        is_plain_file_name(render_name(d)),
{
    let parts = NameParts {
        identifier: d.identifier,
        signature: d.signature,
        title: d.title,
        keywords: match d.keywords {
            Some(ws) => Some(join_words(ws)),
            None => None,
        },
        extension: d.extension,
    };
    assert(group_text(d.signature, signature_prefix()) =~= render_opt(
        d.signature,
        |v| render_signature(v),
    ));
    assert(group_text(d.title, title_prefix()) =~= render_opt(d.title, |v| render_title(v)));
    assert(group_text(parts.keywords, keywords_prefix()) =~= match d.keywords {
        Some(k) => render_keywords(k),
        None => seq![],
    });
    assert(group_text(d.extension, extension_prefix()) =~= render_opt(
        d.extension,
        |v| render_extension(v),
    ));
    assert(render_name(d) == assemble_name(parts));
    lemma_split_assembled(parts);
    lemma_assembled_is_plain(parts);
}

proof fn lemma_scan_no_letters(t: Seq<char>, separator: Option<char>)
    requires
        forall|i: int| 0 <= i < t.len() ==> !acceptable(#[trigger] t[i]),
    ensures
        scan(t, separator) == (Seq::<char>::empty(), true),
    decreases t.len(),
{
    if t.len() > 0 {
        let prefix = t.drop_last();
        assert forall|i: int| 0 <= i < prefix.len() implies !acceptable(#[trigger] prefix[i]) by {
            assert(prefix[i] == t[i]);
        }
        lemma_scan_no_letters(prefix, separator);
        assert(!acceptable(t[t.len() - 1]));
    }
}

proof fn lemma_split_no_letters(t: Seq<char>, d: char)
    requires
        forall|i: int| 0 <= i < t.len() ==> !acceptable(#[trigger] t[i]),
    ensures
        split_on(t, d).len() >= 1,
        forall|p: int, j: int| 0 <= p < split_on(t, d).len() && 0 <= j < split_on(t, d)[p].len()
            ==> !acceptable(#[trigger] split_on(t, d)[p][j]),
    decreases t.len(),
{
    if t.len() > 0 {
        let prefix = t.drop_last();
        assert forall|i: int| 0 <= i < prefix.len() implies !acceptable(#[trigger] prefix[i]) by {
            assert(prefix[i] == t[i]);
        }
        lemma_split_no_letters(prefix, d);
        let parts = split_on(prefix, d);
        let c = t.last();
        assert(!acceptable(t[t.len() - 1]));
        if c != d {
            assert forall|p: int, j: int| 0 <= p < split_on(t, d).len() && 0 <= j < split_on(t, d)[p].len()
                implies !acceptable(#[trigger] split_on(t, d)[p][j]) by {
                if p == parts.len() - 1 && j == parts.last().len() {
                    assert(split_on(t, d)[p][j] == c);
                } else if p == parts.len() - 1 {
                    assert(split_on(t, d)[p][j] == parts[p][j]);
                } else {
                    assert(split_on(t, d)[p] == parts[p]);
                }
            }
        } else {
            assert forall|p: int, j: int| 0 <= p < split_on(t, d).len() && 0 <= j < split_on(t, d)[p].len()
                implies !acceptable(#[trigger] split_on(t, d)[p][j]) by {
                if p < parts.len() {
                    assert(split_on(t, d)[p] == parts[p]);
                }
            }
        }
    }
}

proof fn lemma_words_no_letters(pieces: Seq<Seq<char>>)
    requires
        forall|p: int, j: int| 0 <= p < pieces.len() && 0 <= j < pieces[p].len() ==> !acceptable(
            #[trigger] pieces[p][j],
        ),
    ensures
        words_of(pieces).len() == 0,
    decreases pieces.len(),
{
    if pieces.len() > 0 {
        let rest = pieces.drop_last();
        assert forall|p: int, j: int| 0 <= p < rest.len() && 0 <= j < rest[p].len() implies !acceptable(
            #[trigger] rest[p][j],
        ) by {
            assert(rest[p] == pieces[p]);
        }
        lemma_words_no_letters(rest);
        let last = pieces.last();
        assert forall|i: int| 0 <= i < last.len() implies !acceptable(#[trigger] last[i]) by {
            assert(last[i] == pieces[pieces.len() - 1][i]);
        }
        lemma_scan_no_letters(last, None);
    }
}

/// Text without a letter or number (empty, blank, or punctuation only) gives
/// no signature, no title and no keywords, whichever delimiter splits it.
pub proof fn lemma_no_letters_no_fields(text: Seq<char>, delimiter: char)
    requires
        forall|i: int| 0 <= i < text.len() ==> !acceptable(#[trigger] text[i]),
    ensures
        signature_of(text) is None,
        title_of(text) is None,
        keywords_of(text, delimiter) is None,
{
    lemma_scan_no_letters(text, Some('='));
    lemma_scan_no_letters(text, Some('-'));
    lemma_split_no_letters(text, delimiter);
    lemma_words_no_letters(split_on(text, delimiter));
}

/// Groups are read only in the scheme's order: when keywords follow the
/// identifier directly, no title (and no signature) is read from the name,
/// whatever comes after them.
pub proof fn lemma_keywords_before_title(name: Seq<char>)
    requires
        name.len() >= 19,
        name[17] == '_',
        name[18] == '_',
    ensures
        parse_name(name) matches Some(d) ==> d.title is None && d.signature is None,
{
    if 17 + 2 < name.len() && name.subrange(17, 19) == signature_prefix() {
        assert(name.subrange(17, 19)[0] == name[17]);
    }
    if 17 + 2 < name.len() && name.subrange(17, 19) == title_prefix() {
        assert(name.subrange(17, 19)[0] == name[17]);
    }
}

} // verus!
