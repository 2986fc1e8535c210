//! Paths as text: nesting, exclusion and joining.
use crate::text::{chars_of, starts_with, has_prefix};
use vstd::prelude::*;

verus! {

/// `text` without the separators at its end. A separator that is all that
/// is left stays: it names the root.
pub open spec fn without_trailing_slashes(text: Seq<char>) -> Seq<char>
    decreases text.len(),
{
    if text.len() > 1 && text.last() == '/' {
        without_trailing_slashes(text.drop_last())
    } else {
        text
    }
}

/// Whether `path` is `base` or begins with `base` followed by a separator,
/// for two texts that do not end in a separator (the root apart).
pub open spec fn nested(path: Seq<char>, base: Seq<char>) -> bool {
    path == base || (0 < base.len() < path.len() && starts_with(path, base) && (path[base.len() as int]
        == '/' || base.last() == '/'))
}

/// Whether `path` is `base` or lies below it. Separators at the end of
/// either do not count. Nothing else is brought into a normal form: the
/// two are compared as they are written.
pub open spec fn is_under(path: Seq<char>, base: Seq<char>) -> bool {
    nested(without_trailing_slashes(path), without_trailing_slashes(base))
}

/// Whether `path` is, or lies below, one of `excludes`.
pub open spec fn excluded_by(path: Seq<char>, excludes: Seq<String>) -> bool {
    exists|i: int| 0 <= i < excludes.len() && is_under(path, #[trigger] excludes[i]@)
}

/// The characters of `text` without the separators at its end.
pub fn trimmed_chars(text: &str) -> (out: Vec<char>)
    ensures
        out@ == without_trailing_slashes(text@),
{
    let mut out = chars_of(text);
    let mut keep: usize = out.len();
    assert(out@.subrange(0, keep as int) =~= out@);
    while keep > 1 && out[keep - 1] == '/'
        invariant
            keep <= out@.len(),
            out@ == text@,
            without_trailing_slashes(text@) == without_trailing_slashes(
                out@.subrange(0, keep as int),
            ),
        decreases keep,
    {
        assert(out@.subrange(0, keep as int).drop_last() =~= out@.subrange(0, keep - 1));
        keep -= 1;
    }
    out.truncate(keep);
    out
}

/// Decides [`nested`] on characters.
pub fn nested_chars(path: &Vec<char>, base: &Vec<char>) -> (under: bool)
    ensures
        under == nested(path@, base@),
{
    if !has_prefix(path, base) {
        assert(path@ != base@) by {
            if path@ == base@ {
                assert(path@.subrange(0, base@.len() as int) =~= base@);
            }
        }
        return false;
    }
    if path.len() == base.len() {
        assert(path@ =~= path@.subrange(0, base@.len() as int));
        return true;
    }
    if base.len() == 0 {
        return false;
    }
    path[base.len()] == '/' || base[base.len() - 1] == '/'
}

/// Whether a resolved path is one of the excluded paths or lies below one.
///
/// `resolved` is the canonical form of the path in question, or the path as
/// given where it cannot be resolved.
pub fn is_excluded(resolved: &str, excludes: &Vec<String>) -> (excluded: bool)
    ensures
        excluded == excluded_by(resolved@, excludes@),
{
    let path = trimmed_chars(resolved);
    let mut i: usize = 0;
    while i < excludes.len()
        invariant
            i <= excludes@.len(),
            path@ == without_trailing_slashes(resolved@),
            forall|j: int| 0 <= j < i ==> !is_under(resolved@, #[trigger] excludes@[j]@),
        decreases excludes@.len() - i,
    {
        let base = trimmed_chars(excludes[i].as_str());
        if nested_chars(&path, &base) {
            return true;
        }
        i += 1;
    }
    false
}

/// `base` extended by `relative`, as a path: an absolute `relative` stands
/// alone, otherwise one separator joins the two unless `base` is empty or
/// already ends in one.
pub open spec fn joined(base: Seq<char>, relative: Seq<char>) -> Seq<char> {
    if relative.len() > 0 && relative[0] == '/' {
        relative
    } else if base.len() == 0 || base.last() == '/' {
        base + relative
    } else {
        base + seq!['/'] + relative
    }
}

/// Extends `base` by `relative`; see [`joined`].
pub fn join_path(base: &str, relative: &str) -> (out: String)
    ensures
        out@ == joined(base@, relative@),
{
    let rel_len = relative.unicode_len();
    if rel_len > 0 && relative.get_char(0) == '/' {
        return String::from_str(relative);
    }
    let base_len = base.unicode_len();
    let mut out = String::from_str(base);
    if base_len > 0 && base.get_char(base_len - 1) != '/' {
        proof {
            reveal_strlit("/");
            assert("/"@ =~= seq!['/']);
        }
        out.append("/");
    }
    out.append(relative);
    out
}

} // verus!
