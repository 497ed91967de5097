//! The grammar of a denote file name.
//!
//! ```text
//! <id>(==<signature>)?(--<title>)?(__<keywords>)?(.<ext>)?
//! ```
//!
//! The groups are optional but must come in this order. A group's text starts
//! with a letter or number and goes on with letters, numbers and its own
//! separator (`=`, `-`, `_`; none for the extension). Since no group's
//! characters can begin the next group's prefix, each group takes the longest
//! run it can and the whole name splits in at most one way.

use vstd::prelude::*;
use crate::identifier::{id_char_ok, is_id};
use crate::path::is_plain_file_name;
use crate::unicode::{acceptable, is_acceptable};

verus! {

/// A character that may continue a group whose separator is `extra`.
pub open spec fn in_group(c: char, extra: Option<char>) -> bool {
    acceptable(c) || extra == Some(c)
}

/// The number of characters from position `i` of `s` on that may continue a
/// group whose separator is `extra`.
pub open spec fn run_len(s: Seq<char>, i: int, extra: Option<char>) -> int
    decreases s.len() - i,
{
    if 0 <= i < s.len() && in_group(s[i], extra) {
        1 + run_len(s, i + 1, extra)
    } else {
        0
    }
}

/// The group that starts with `prefix` at position `i` of `s`: its text and
/// the position after it. `None` when the prefix is not there or no letter or
/// number follows it.
pub open spec fn group_at(s: Seq<char>, i: int, prefix: Seq<char>, extra: Option<char>) -> Option<
    (Seq<char>, int),
> {
    let start = i + prefix.len();
    if 0 <= i && start < s.len() && s.subrange(i, start) == prefix && acceptable(s[start]) {
        let end = start + run_len(s, start, extra);
        Some((s.subrange(start, end), end))
    } else {
        None
    }
}

/// An optional group at position `i`: its text if present, and the position
/// where the next group may start.
pub open spec fn optional_group(s: Seq<char>, i: int, prefix: Seq<char>, extra: Option<char>) -> (
    Option<Seq<char>>,
    int,
) {
    match group_at(s, i, prefix, extra) {
        Some((text, end)) => (Some(text), end),
        None => (None, i),
    }
}

pub open spec fn signature_prefix() -> Seq<char> {
    seq!['=', '=']
}

pub open spec fn title_prefix() -> Seq<char> {
    seq!['-', '-']
}

pub open spec fn keywords_prefix() -> Seq<char> {
    seq!['_', '_']
}

pub open spec fn extension_prefix() -> Seq<char> {
    seq!['.']
}

/// The rendered text of an optional group: its prefix and text, or nothing.
pub open spec fn group_text(field: Option<Seq<char>>, prefix: Seq<char>) -> Seq<char> {
    match field {
        Some(v) => prefix + v,
        None => seq![],
    }
}

/// A group text that the grammar accepts: a letter or number, then letters,
/// numbers and the separator `extra`.
pub open spec fn well_formed_group(field: Option<Seq<char>>, extra: Option<char>) -> bool {
    field matches Some(v) ==> v.len() > 0 && acceptable(v[0]) && forall|j: int|
        0 <= j < v.len() ==> in_group(#[trigger] v[j], extra)
}

/// The raw texts of a file name's groups, before the fields re-normalize them.
pub struct NameParts {
    pub identifier: Seq<char>,
    pub signature: Option<Seq<char>>,
    pub title: Option<Seq<char>>,
    pub keywords: Option<Seq<char>>,
    pub extension: Option<Seq<char>>,
}

/// Splits a file name into its groups; `None` when the whole name does not
/// follow the grammar.
pub open spec fn split_name(s: Seq<char>) -> Option<NameParts> {
    if s.len() < 17 || !is_id(s.subrange(0, 17)) {
        None
    } else {
        let (signature, i1) = optional_group(s, 17, signature_prefix(), Some('='));
        let (title, i2) = optional_group(s, i1, title_prefix(), Some('-'));
        let (keywords, i3) = optional_group(s, i2, keywords_prefix(), Some('_'));
        let (extension, i4) = optional_group(s, i3, extension_prefix(), None);
        if i4 == s.len() {
            Some(
                NameParts {
                    identifier: s.subrange(0, 17),
                    signature,
                    title,
                    keywords,
                    extension,
                },
            )
        } else {
            None
        }
    }
}

proof fn lemma_run_len_bounds(s: Seq<char>, i: int, extra: Option<char>)
    requires
        0 <= i <= s.len(),
    ensures
        0 <= run_len(s, i, extra) <= s.len() - i,
    decreases s.len() - i,
{
    if i < s.len() && in_group(s[i], extra) {
        lemma_run_len_bounds(s, i + 1, extra);
    }
}

/// The position after the group that starts with `prefix` at position `i` of
/// `chars`; `None` when there is no such group.
fn group_end(chars: &Vec<char>, i: usize, prefix: &Vec<char>, extra: Option<char>) -> (r: Option<
    usize,
>)
    requires
        i <= chars.len(),
    ensures
        r matches Some(end) ==> i + prefix@.len() < end <= chars.len(),
        match r {
            Some(end) => group_at(chars@, i as int, prefix@, extra) matches Some((_, e)) && e
                == end,
            None => group_at(chars@, i as int, prefix@, extra) is None,
        },
{
    let n = chars.len();
    let p = prefix.len();
    if p >= n - i {
        return None;
    }
    let mut k: usize = 0;
    while k < p
        invariant
            i + p < n == chars.len(),
            p == prefix.len(),
            k <= p,
            chars@.subrange(i as int, i + k) == prefix@.subrange(0, k as int),
        decreases p - k,
    {
        if chars[i + k] != prefix[k] {
            assert(chars@.subrange(i as int, i + p)[k as int] != prefix@[k as int]);
            return None;
        }
        k = k + 1;
        assert(chars@.subrange(i as int, i + k) =~= prefix@.subrange(0, k as int));
    }
    assert(prefix@.subrange(0, p as int) =~= prefix@);
    let start = i + p;
    if !is_acceptable(chars[start]) {
        return None;
    }
    let mut end: usize = start;
    proof {
        lemma_run_len_bounds(chars@, start as int, extra);
    }
    assert(in_group(chars@[start as int], extra));
    assert(run_len(chars@, start as int, extra) == 1 + run_len(chars@, start + 1, extra));
    proof {
        lemma_run_len_bounds(chars@, start + 1, extra);
    }
    while end < n && (is_acceptable(chars[end]) || extra == Some(chars[end]))
        invariant
            start <= end <= n == chars.len(),
            run_len(chars@, start as int, extra) == (end - start) + run_len(
                chars@,
                end as int,
                extra,
            ),
        decreases n - end,
    {
        end = end + 1;
    }
    Some(end)
}

/// The end of the signature group (`==` and its text) at position `i`.
pub fn signature(chars: &Vec<char>, i: usize) -> (r: Option<usize>)
    requires
        i <= chars.len(),
    ensures
        r matches Some(end) ==> i + 2 < end <= chars.len(),
        match r {
            Some(end) => group_at(chars@, i as int, signature_prefix(), Some('=')) matches Some(
                (_, e),
            ) && e == end,
            None => group_at(chars@, i as int, signature_prefix(), Some('=')) is None,
        },
{
    let prefix = vec!['=', '='];
    assert(prefix@ =~= signature_prefix());
    group_end(chars, i, &prefix, Some('='))
}

/// The end of the title group (`--` and its text) at position `i`.
pub fn title(chars: &Vec<char>, i: usize) -> (r: Option<usize>)
    requires
        i <= chars.len(),
    ensures
        r matches Some(end) ==> i + 2 < end <= chars.len(),
        match r {
            Some(end) => group_at(chars@, i as int, title_prefix(), Some('-')) matches Some(
                (_, e),
            ) && e == end,
            None => group_at(chars@, i as int, title_prefix(), Some('-')) is None,
        },
{
    let prefix = vec!['-', '-'];
    assert(prefix@ =~= title_prefix());
    group_end(chars, i, &prefix, Some('-'))
}

/// The end of the keywords group (`__` and its text) at position `i`.
pub fn keywords(chars: &Vec<char>, i: usize) -> (r: Option<usize>)
    requires
        i <= chars.len(),
    ensures
        r matches Some(end) ==> i + 2 < end <= chars.len(),
        match r {
            Some(end) => group_at(chars@, i as int, keywords_prefix(), Some('_')) matches Some(
                (_, e),
            ) && e == end,
            None => group_at(chars@, i as int, keywords_prefix(), Some('_')) is None,
        },
{
    let prefix = vec!['_', '_'];
    assert(prefix@ =~= keywords_prefix());
    group_end(chars, i, &prefix, Some('_'))
}

/// The end of the extension group (`.` and its text) at position `i`.
pub fn extension(chars: &Vec<char>, i: usize) -> (r: Option<usize>)
    requires
        i <= chars.len(),
    ensures
        r matches Some(end) ==> i + 1 < end <= chars.len(),
        match r {
            Some(end) => group_at(chars@, i as int, extension_prefix(), None) matches Some(
                (_, e),
            ) && e == end,
            None => group_at(chars@, i as int, extension_prefix(), None) is None,
        },
{
    let prefix = vec!['.'];
    assert(prefix@ =~= extension_prefix());
    group_end(chars, i, &prefix, None)
}

proof fn lemma_run_len_chars(s: Seq<char>, i: int, extra: Option<char>)
    requires
        0 <= i <= s.len(),
    ensures
        0 <= run_len(s, i, extra),
        i + run_len(s, i, extra) <= s.len(),
        forall|j: int| i <= j < i + run_len(s, i, extra) ==> in_group(#[trigger] s[j], extra),
    decreases s.len() - i,
{
    if i < s.len() && in_group(s[i], extra) {
        lemma_run_len_chars(s, i + 1, extra);
    }
}

proof fn lemma_optional_group_text(s: Seq<char>, i: int, prefix: Seq<char>, extra: Option<char>)
    requires
        0 <= i <= s.len(),
    ensures
        ({
            let (field, next) = optional_group(s, i, prefix, extra);
            &&& i <= next <= s.len()
            &&& s.subrange(i, next) == group_text(field, prefix)
            &&& well_formed_group(field, extra)
        }),
{
    let start = i + prefix.len();
    if 0 <= i && start < s.len() && s.subrange(i, start) == prefix && acceptable(s[start]) {
        lemma_run_len_chars(s, start, extra);
        let end = start + run_len(s, start, extra);
        let v = s.subrange(start, end);
        assert(in_group(s[start], extra));
        lemma_run_len_chars(s, start + 1, extra);
        assert(run_len(s, start, extra) == 1 + run_len(s, start + 1, extra));
        assert(v[0] == s[start]);
        assert(s.subrange(i, end) =~= prefix + v);
        assert forall|j: int| 0 <= j < v.len() implies in_group(#[trigger] v[j], extra) by {
            assert(v[j] == s[start + j]);
        }
    } else {
        assert(s.subrange(i, i) =~= Seq::<char>::empty());
    }
}

/// Splitting a name loses no character: the name is its identifier followed
/// by the prefix and text of each group found, in the scheme's order, and
/// every group text is one that the grammar accepts.
pub proof fn lemma_split_reassembles(name: Seq<char>)
    ensures
        split_name(name) matches Some(p) ==> {
            &&& name == p.identifier + group_text(p.signature, signature_prefix()) + group_text(
                p.title,
                title_prefix(),
            ) + group_text(p.keywords, keywords_prefix()) + group_text(
                p.extension,
                extension_prefix(),
            )
            &&& is_id(p.identifier)
            &&& well_formed_group(p.signature, Some('='))
            &&& well_formed_group(p.title, Some('-'))
            &&& well_formed_group(p.keywords, Some('_'))
            &&& well_formed_group(p.extension, None)
        },
{
    if name.len() >= 17 && is_id(name.subrange(0, 17)) {
        lemma_optional_group_text(name, 17, signature_prefix(), Some('='));
        let (_, i1) = optional_group(name, 17, signature_prefix(), Some('='));
        lemma_optional_group_text(name, i1, title_prefix(), Some('-'));
        let (_, i2) = optional_group(name, i1, title_prefix(), Some('-'));
        lemma_optional_group_text(name, i2, keywords_prefix(), Some('_'));
        let (_, i3) = optional_group(name, i2, keywords_prefix(), Some('_'));
        lemma_optional_group_text(name, i3, extension_prefix(), None);
        let (_, i4) = optional_group(name, i3, extension_prefix(), None);
        if i4 == name.len() {
            assert(name =~= name.subrange(0, 17) + name.subrange(17, i1) + name.subrange(i1, i2)
                + name.subrange(i2, i3) + name.subrange(i3, i4));
        }
    }
}

proof fn lemma_run_len_exact(s: Seq<char>, start: int, k: int, extra: Option<char>)
    requires
        0 <= start,
        0 <= k,
        start + k <= s.len(),
        forall|j: int| start <= j < start + k ==> in_group(#[trigger] s[j], extra),
        start + k == s.len() || !in_group(s[start + k], extra),
    ensures
        run_len(s, start, extra) == k,
    decreases k,
{
    if k > 0 {
        lemma_run_len_exact(s, start + 1, k - 1, extra);
    }
}

/// Reading one optional group back: where `s` holds the group's rendered text
/// from `pos` to `next`, and what follows cannot continue it or start it.
proof fn lemma_group_back(
    s: Seq<char>,
    pos: int,
    next: int,
    prefix: Seq<char>,
    extra: Option<char>,
    field: Option<Seq<char>>,
)
    requires
        0 <= pos <= next <= s.len(),
        prefix.len() > 0,
        s.subrange(pos, next) == group_text(field, prefix),
        next == s.len() || (!in_group(s[next], extra) && s[next] != prefix[0]),
        well_formed_group(field, extra),
    ensures
        optional_group(s, pos, prefix, extra) == (field, next),
{
    assert(s.subrange(pos, next).len() == next - pos);
    match field {
        Some(v) => {
            let start = pos + prefix.len();
            assert(next - pos == prefix.len() + v.len());
            assert(s.subrange(pos, start) =~= prefix) by {
                assert forall|j: int| 0 <= j < prefix.len() implies s.subrange(pos, start)[j]
                    == prefix[j] by {
                    assert(s.subrange(pos, next)[j] == (prefix + v)[j]);
                }
            }
            assert(s[start] == v[0]) by {
                assert(s.subrange(pos, next)[prefix.len() as int] == (prefix + v)[prefix.len() as int]);
            }
            assert forall|j: int| start <= j < start + v.len() implies in_group(#[trigger] s[j], extra) by {
                assert(s.subrange(pos, next)[j - pos] == (prefix + v)[j - pos]);
                assert(s[j] == v[j - start]);
            }
            lemma_run_len_exact(s, start, v.len() as int, extra);
            assert(s.subrange(start, next) =~= v) by {
                assert forall|j: int| 0 <= j < v.len() implies s.subrange(start, next)[j] == v[j] by {
                    assert(s.subrange(pos, next)[prefix.len() + j] == (prefix + v)[prefix.len() + j]);
                }
            }
        },
        None => {
            assert(pos == next);
            if pos + prefix.len() < s.len() && s.subrange(pos, pos + prefix.len()) == prefix {
                assert(s.subrange(pos, pos + prefix.len())[0] == s[pos]);
            }
        },
    }
}

/// A file name put together from its parts.
pub open spec fn assemble_name(p: NameParts) -> Seq<char> {
    p.identifier + group_text(p.signature, signature_prefix()) + group_text(p.title, title_prefix())
        + group_text(p.keywords, keywords_prefix()) + group_text(p.extension, extension_prefix())
}

/// The grammar is unambiguous: a name put together from an identifier and
/// group texts that the grammar accepts splits back into exactly those parts.
#[verifier::rlimit(40)]
pub proof fn lemma_split_assembled(p: NameParts)
    requires
        is_id(p.identifier),
        well_formed_group(p.signature, Some('=')),
        well_formed_group(p.title, Some('-')),
        well_formed_group(p.keywords, Some('_')),
        well_formed_group(p.extension, None),
    ensures
        split_name(assemble_name(p)) == Some(p),
{
    let s = assemble_name(p);
    let sp = group_text(p.signature, signature_prefix());
    let tp = group_text(p.title, title_prefix());
    let kp = group_text(p.keywords, keywords_prefix());
    let ep = group_text(p.extension, extension_prefix());
    let at_signature: int = 17;
    let at_title = at_signature + sp.len();
    let at_keywords = at_title + tp.len();
    let at_extension = at_keywords + kp.len();
    let at_end = at_extension + ep.len();
    assert(at_end == s.len());
    assert(s.subrange(0, 17) =~= p.identifier);
    assert(s.subrange(at_signature, at_title) =~= sp);
    assert(s.subrange(at_title, at_keywords) =~= tp);
    assert(s.subrange(at_keywords, at_extension) =~= kp);
    assert(s.subrange(at_extension, at_end) =~= ep);
    // What each position holds when the group that starts there is present.
    assert(tp.len() > 0 ==> s[at_title] == '-') by {
        if tp.len() > 0 {
            assert(s[at_title] == tp[0]);
        }
    }
    assert(kp.len() > 0 ==> s[at_keywords] == '_') by {
        if kp.len() > 0 {
            assert(s[at_keywords] == kp[0]);
        }
    }
    assert(ep.len() > 0 ==> s[at_extension] == '.') by {
        if ep.len() > 0 {
            assert(s[at_extension] == ep[0]);
        }
    }
    assert(!acceptable('-') && !acceptable('_') && !acceptable('.') && !acceptable('='));
    assert(at_title == s.len() || (!in_group(s[at_title], Some('=')) && s[at_title] != '=')) by {
        if at_title < s.len() {
            if tp.len() > 0 {
            } else if kp.len() > 0 {
                assert(at_keywords == at_title);
            } else {
                assert(at_extension == at_title);
            }
        }
    }
    lemma_group_back(s, at_signature, at_title, signature_prefix(), Some('='), p.signature);
    assert(at_keywords == s.len() || (!in_group(s[at_keywords], Some('-')) && s[at_keywords]
        != '-')) by {
        if at_keywords < s.len() {
            if kp.len() > 0 {
            } else {
                assert(at_extension == at_keywords);
            }
        }
    }
    lemma_group_back(s, at_title, at_keywords, title_prefix(), Some('-'), p.title);
    assert(at_extension == s.len() || (!in_group(s[at_extension], Some('_')) && s[at_extension]
        != '_'));
    lemma_group_back(s, at_keywords, at_extension, keywords_prefix(), Some('_'), p.keywords);
    lemma_group_back(s, at_extension, at_end, extension_prefix(), None, p.extension);
}

/// No character of `s` separates path components on any platform.
spec fn no_path_separator(s: Seq<char>) -> bool {
    forall|i: int| 0 <= i < s.len() ==> #[trigger] s[i] != '/' && s[i] != '\\' && s[i] != ':'
}

proof fn lemma_group_text_plain(field: Option<Seq<char>>, prefix: Seq<char>, extra: Option<char>)
    requires
        well_formed_group(field, extra),
        no_path_separator(prefix),
        extra != Some('/') && extra != Some('\\') && extra != Some(':'),
    ensures
        no_path_separator(group_text(field, prefix)),
{
    if let Some(v) = field {
        let t = prefix + v;
        assert forall|i: int| 0 <= i < t.len() implies #[trigger] t[i] != '/' && t[i] != '\\'
            && t[i] != ':' by {
            if i >= prefix.len() {
                assert(t[i] == v[i - prefix.len()]);
                assert(in_group(v[i - prefix.len()], extra));
            }
        }
    }
}

/// A name put together from valid parts is a bare file name on every
/// platform, so reading it as a path finds the name itself.
pub proof fn lemma_assembled_is_plain(p: NameParts)
    requires
        is_id(p.identifier),
        well_formed_group(p.signature, Some('=')),
        well_formed_group(p.title, Some('-')),
        well_formed_group(p.keywords, Some('_')),
        well_formed_group(p.extension, None),
    ensures
        is_plain_file_name(assemble_name(p)),
{
    let s = assemble_name(p);
    assert(no_path_separator(p.identifier)) by {
        assert forall|i: int| 0 <= i < p.identifier.len() implies #[trigger] p.identifier[i]
            != '/' && p.identifier[i] != '\\' && p.identifier[i] != ':' by {
            assert(id_char_ok(p.identifier, i));
        }
    }
    lemma_group_text_plain(p.signature, signature_prefix(), Some('='));
    lemma_group_text_plain(p.title, title_prefix(), Some('-'));
    lemma_group_text_plain(p.keywords, keywords_prefix(), Some('_'));
    lemma_group_text_plain(p.extension, extension_prefix(), None);
    let a = p.identifier;
    let b = group_text(p.signature, signature_prefix());
    let c = group_text(p.title, title_prefix());
    let d = group_text(p.keywords, keywords_prefix());
    let e = group_text(p.extension, extension_prefix());
    assert forall|i: int| 0 <= i < s.len() implies #[trigger] s[i] != '/' && s[i] != '\\' && s[i]
        != ':' by {
        if i < a.len() {
            assert(s[i] == a[i]);
        } else if i < a.len() + b.len() {
            assert(s[i] == b[i - a.len()]);
        } else if i < a.len() + b.len() + c.len() {
            assert(s[i] == c[i - a.len() - b.len()]);
        } else if i < a.len() + b.len() + c.len() + d.len() {
            assert(s[i] == d[i - a.len() - b.len() - c.len()]);
        } else {
            assert(s[i] == e[i - a.len() - b.len() - c.len() - d.len()]);
        }
    }
    assert(s.len() >= 17);
}

} // verus!
