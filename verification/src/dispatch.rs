//! Extension dispatch: find the extension of a path (the part after the last
//! `.` in the final path segment) and select an extraction strategy for it.

use crate::error::ExtractError;
use vstd::prelude::*;
use vstd::slice::{slice_subrange, slice_to_vec};

verus! {

/// ASCII bytes of the letters that spell the recognized extensions.
pub const LETTER_X: u8 = 120;

pub const LETTER_M: u8 = 109;

pub const LETTER_L: u8 = 108;

pub const LETTER_H: u8 = 104;

pub const LETTER_T: u8 = 116;

/// The extraction strategies a path can select.
#[derive(Clone, Copy, Debug, PartialEq, Eq, Structural)]
pub enum FileKind {
    PlainText,
    Markup,
}

/// The byte that separates path segments.
pub open spec fn slash() -> u8 {
    47
}

/// The byte that separates a file name from its extension.
pub open spec fn dot() -> u8 {
    46
}

/// The part of `s` strictly after the last occurrence of `c`; all of `s` when
/// `c` does not occur.
pub open spec fn suffix_after_last(s: Seq<u8>, c: u8) -> Seq<u8>
    decreases s.len(),
{
    if s.len() == 0 {
        s
    } else if s.last() == c {
        Seq::empty()
    } else {
        suffix_after_last(s.drop_last(), c).push(s.last())
    }
}

/// The final segment of a path: everything after the last slash.
pub open spec fn spec_file_name(path: Seq<u8>) -> Seq<u8> {
    suffix_after_last(path, slash())
}

/// The extension of a path: the part of the final segment after its last dot,
/// or nothing when the final segment has no dot.
pub open spec fn spec_extension(path: Seq<u8>) -> Option<Seq<u8>> {
    let name = spec_file_name(path);
    if name.contains(dot()) {
        Some(suffix_after_last(name, dot()))
    } else {
        None
    }
}

/// `suffix_after_last(s, c)` is the suffix of `s` that starts right after the
/// last occurrence of `c`: it holds no `c`, and where it does not cover all of
/// `s`, the byte just before it is `c`.
pub proof fn lemma_suffix_after_last_characterization(s: Seq<u8>, c: u8)
    ensures
        suffix_after_last(s, c).len() <= s.len(),
        suffix_after_last(s, c) =~= s.subrange(
            s.len() - suffix_after_last(s, c).len(),
            s.len() as int,
        ),
        forall|j: int|
            s.len() - suffix_after_last(s, c).len() <= j < s.len() ==> s[j] != c,
        suffix_after_last(s, c).len() < s.len() ==> s[s.len() - suffix_after_last(
            s,
            c,
        ).len() - 1] == c,
    decreases s.len(),
{
    if s.len() == 0 {
    } else if s.last() == c {
    } else {
        let t = s.drop_last();
        lemma_suffix_after_last_characterization(t, c);
        let r = suffix_after_last(s, c);
        assert forall|j: int| s.len() - r.len() <= j < s.len() implies s[j] != c by {
            if j < s.len() - 1 {
                assert(s[j] == t[j]);
            }
        }
    }
}

/// The extension of `path`: the bytes of the final segment after its last
/// dot, or nothing when that segment holds no dot.
pub fn extension_of(path: &[u8]) -> (r: Option<Vec<u8>>)
    ensures
        match spec_extension(path@) {
            Some(e) => r matches Some(v) && v@ == e,
            None => r is None,
        },
{
    let n = path.len();
    let mut i: usize = n;
    // Scan backwards: the first dot or slash met from the end decides.
    while i > 0
        invariant
            i <= n,
            n == path@.len(),
            forall|j: int| i <= j < n ==> path@[j] != dot() && path@[j] != slash(),
        decreases i,
    {
        let b = path[i - 1];
        if b == 46 {
            proof {
                lemma_extension_at(path@, i as int);
            }
            return Some(slice_to_vec(slice_subrange(path, i, n)));
        }
        if b == 47 {
            proof {
                lemma_no_extension_after_slash(path@, i as int);
            }
            return None;
        }
        i = i - 1;
    }
    proof {
        lemma_no_extension_no_separator(path@);
    }
    None
}

/// When the byte just before position `i` is a dot and no dot or slash
/// follows it, the extension is exactly the bytes from `i` on.
proof fn lemma_extension_at(s: Seq<u8>, i: int)
    requires
        1 <= i <= s.len(),
        s[i - 1] == dot(),
        forall|j: int| i <= j < s.len() ==> s[j] != dot() && s[j] != slash(),
    ensures
        spec_extension(s) == Some(s.subrange(i, s.len() as int)),
{
    let name = spec_file_name(s);
    lemma_suffix_after_last_characterization(s, slash());
    let m = s.len() - name.len();
    // The last slash, if any, lies before the dot at i - 1.
    assert(m <= i - 1);
    assert(name[i - 1 - m] == dot());
    assert(name.contains(dot()));
    lemma_suffix_after_last_characterization(name, dot());
    let ext = suffix_after_last(name, dot());
    let m2 = name.len() - ext.len();
    // The dot at relative position i - 1 - m is the last dot in the name.
    assert(i - 1 - m < m2);
    if m2 > i - m {
        assert(name[m2 - 1] == dot());
        assert(name[m2 - 1] == s[m2 - 1 + m]);
        assert(false);
    }
    assert(ext =~= s.subrange(i, s.len() as int));
}

/// When the byte just before position `i` is a slash and no dot or slash
/// follows it, the final segment holds no dot, so there is no extension.
proof fn lemma_no_extension_after_slash(s: Seq<u8>, i: int)
    requires
        1 <= i <= s.len(),
        s[i - 1] == slash(),
        forall|j: int| i <= j < s.len() ==> s[j] != dot() && s[j] != slash(),
    ensures
        spec_extension(s) is None,
{
    let name = spec_file_name(s);
    lemma_suffix_after_last_characterization(s, slash());
    let m = s.len() - name.len();
    assert(i - 1 < m);
    assert(m <= i);
    assert forall|k: int| 0 <= k < name.len() implies name[k] != dot() by {
        assert(name[k] == s[k + m]);
    }
    if name.contains(dot()) {
        let k = choose|k: int| 0 <= k < name.len() && name[k] == dot();
        assert(false);
    }
}

/// The markup extensions, as byte strings: `xml`, `xhtml`, `html`.
pub open spec fn markup_extensions() -> Set<Seq<u8>> {
    set![seq![LETTER_X, LETTER_M, LETTER_L], seq![LETTER_X, LETTER_H, LETTER_T, LETTER_M, LETTER_L], seq![LETTER_H, LETTER_T, LETTER_M, LETTER_L]]
}

/// The plain-text extension, as a byte string: `txt`.
pub open spec fn plain_extension() -> Seq<u8> {
    seq![LETTER_T, LETTER_X, LETTER_T]
}

/// The strategy an extension selects, or nothing for an unrecognized one.
pub open spec fn spec_kind_for_extension(ext: Seq<u8>) -> Option<FileKind> {
    if markup_extensions().contains(ext) {
        Some(FileKind::Markup)
    } else if ext == plain_extension() {
        Some(FileKind::PlainText)
    } else {
        None
    }
}

/// Selects a strategy for an extension; `None` for any extension outside the
/// recognized set.
pub fn kind_for_extension(ext: &[u8]) -> (r: Option<FileKind>)
    ensures
        r == spec_kind_for_extension(ext@),
{
    let n = ext.len();
    if n == 3 && ext[0] == LETTER_X && ext[1] == LETTER_M && ext[2] == LETTER_L {
        proof {
            assert(ext@ =~= seq![LETTER_X, LETTER_M, LETTER_L]);
        }
        Some(FileKind::Markup)
    } else if n == 5 && ext[0] == LETTER_X && ext[1] == LETTER_H && ext[2] == LETTER_T && ext[3] == LETTER_M
        && ext[4] == LETTER_L {
        proof {
            assert(ext@ =~= seq![LETTER_X, LETTER_H, LETTER_T, LETTER_M, LETTER_L]);
        }
        Some(FileKind::Markup)
    } else if n == 4 && ext[0] == LETTER_H && ext[1] == LETTER_T && ext[2] == LETTER_M && ext[3] == LETTER_L {
        proof {
            assert(ext@ =~= seq![LETTER_H, LETTER_T, LETTER_M, LETTER_L]);
        }
        Some(FileKind::Markup)
    } else if n == 3 && ext[0] == LETTER_T && ext[1] == LETTER_X && ext[2] == LETTER_T {
        proof {
            assert(ext@ =~= seq![LETTER_T, LETTER_X, LETTER_T]);
        }
        Some(FileKind::PlainText)
    } else {
        proof {
            lemma_unrecognized(ext@);
        }
        None
    }
}

/// An extension that fails every byte-for-byte comparison against the
/// recognized set selects no strategy.
proof fn lemma_unrecognized(ext: Seq<u8>)
    requires
        !(ext.len() == 3 && ext[0] == LETTER_X && ext[1] == LETTER_M && ext[2] == LETTER_L),
        !(ext.len() == 5 && ext[0] == LETTER_X && ext[1] == LETTER_H && ext[2] == LETTER_T && ext[3] == LETTER_M
            && ext[4] == LETTER_L),
        !(ext.len() == 4 && ext[0] == LETTER_H && ext[1] == LETTER_T && ext[2] == LETTER_M && ext[3] == LETTER_L),
        !(ext.len() == 3 && ext[0] == LETTER_T && ext[1] == LETTER_X && ext[2] == LETTER_T),
    ensures
        spec_kind_for_extension(ext) is None,
{
    assert(ext != seq![LETTER_X, LETTER_M, LETTER_L]);
    assert(ext != seq![LETTER_X, LETTER_H, LETTER_T, LETTER_M, LETTER_L]);
    assert(ext != seq![LETTER_H, LETTER_T, LETTER_M, LETTER_L]);
    assert(ext != plain_extension());
}

/// What the dispatcher decides for a path: the selected strategy, or the
/// error the path earns.
pub fn classify(path: &[u8]) -> (r: Result<FileKind, ExtractError>)
    ensures
        spec_extension(path@) is None ==> r == Err::<FileKind, ExtractError>(
            ExtractError::MissingExtension,
        ),
        spec_extension(path@) matches Some(e) ==> match spec_kind_for_extension(e) {
            Some(k) => r == Ok::<FileKind, ExtractError>(k),
            None => r matches Err(err) && err matches ExtractError::UnsupportedExtension(v)
                && v@ == e,
        },
{
    match extension_of(path) {
        None => Err(ExtractError::MissingExtension),
        Some(ext) => match kind_for_extension(ext.as_slice()) {
            Some(k) => Ok(k),
            None => Err(ExtractError::UnsupportedExtension(ext)),
        },
    }
}

/// A path with no dot and no slash at all has no extension.
proof fn lemma_no_extension_no_separator(s: Seq<u8>)
    requires
        forall|j: int| 0 <= j < s.len() ==> s[j] != dot() && s[j] != slash(),
    ensures
        spec_extension(s) is None,
{
    let name = spec_file_name(s);
    lemma_suffix_after_last_characterization(s, slash());
    assert(name.len() == s.len());
    if name.contains(dot()) {
        let k = choose|k: int| 0 <= k < name.len() && name[k] == dot();
        assert(name[k] == s[k]);
        assert(false);
    }
}

} // verus!
