//! How file paths are shown to the user, and which command-line arguments are
//! glob patterns.
//!
//! Paths are handled as their text (`Path::to_string_lossy`).

use std::path::Path;

use vstd::prelude::*;

use crate::ordering::{is_stable_sort_order, stable_sort_order};
use crate::text::{chars_of, has_char, opt_string_view, string_of};

verus! {

/// The platform's path separator (std `MAIN_SEPARATOR`): `/`, or `\` on
/// Windows.
#[verifier::external_body]
pub(crate) fn main_separator() -> (c: char)
    ensures
        c == '/' || c == '\\',
{
    std::path::MAIN_SEPARATOR
}

/// Whether a path's text may be absolute on some platform: it starts with a
/// separator (a root, or a Windows `\\server\share` or `\\?\` prefix), or
/// with a Windows drive (`C:`).
pub open spec fn may_be_absolute(s: Seq<char>) -> bool {
    s.len() > 0 && (s[0] == '/' || s[0] == '\\' || (s.len() > 1 && s[1] == ':'))
}

/// Whether `c` separates path components on some platform.
pub open spec fn is_separator(c: char) -> bool {
    c == '/' || c == '\\'
}

/// A base directory whose components every platform reads alike: it starts
/// with a single `/` (a root, and no Windows prefix) and does not end with a
/// separator.
pub open spec fn plain_base(base: Seq<char>) -> bool {
    base.len() >= 2 && base[0] == '/' && !is_separator(base[1]) && !is_separator(base.last())
}

/// A single ordinary path component: not empty, no separator, not `.`.
pub open spec fn plain_component(c: Seq<char>) -> bool {
    &&& c.len() > 0
    &&& forall|i: int| 0 <= i < c.len() ==> !is_separator(#[trigger] c[i])
    &&& c != seq!['.']
}

/// `path` is `base`, a `/` and one ordinary component, the child's name.
pub open spec fn is_plain_child(base: Seq<char>, path: Seq<char>) -> bool {
    &&& plain_base(base)
    &&& path.len() > base.len() + 1
    &&& path.take(base.len() as int) == base
    &&& path[base.len() as int] == '/'
    &&& plain_component(path.skip(base.len() + 1int))
}

/// The name of the child in a path that `is_plain_child` of `base`.
pub open spec fn child_name(base: Seq<char>, path: Seq<char>) -> Seq<char> {
    path.skip(base.len() + 1int)
}

/// A path that every platform reads as the same components: a `/`, then
/// components joined by single `/`s, none of them empty or `.`, with no `\\`
/// anywhere. Its components are then exactly its `/`-separated parts.
pub open spec fn plain_rooted(s: Seq<char>) -> bool {
    &&& s.len() >= 2
    &&& s[0] == '/'
    &&& s.last() != '/'
    &&& forall|i: int| 0 <= i < s.len() ==> #[trigger] s[i] != '\\'
    &&& forall|i: int| 0 <= i < s.len() - 1 && #[trigger] s[i] == '/' ==> s[i + 1] != '/' && !(
        s[i + 1] == '.' && (i + 2 == s.len() || s[i + 2] == '/'))
}

/// `path` lies below `base`: both are plain rooted paths and `path` is
/// `base`, a `/` and more components.
pub open spec fn is_below(base: Seq<char>, path: Seq<char>) -> bool {
    &&& plain_rooted(base)
    &&& plain_rooted(path)
    &&& path.len() > base.len() + 1
    &&& path.take(base.len() as int) == base
    &&& path[base.len() as int] == '/'
}

/// `path` lies outside `base`: both are plain rooted paths, and `path` is
/// neither `base` nor below it.
pub open spec fn is_outside(base: Seq<char>, path: Seq<char>) -> bool {
    &&& plain_rooted(base)
    &&& plain_rooted(path)
    &&& path != base
    &&& !(path.len() > base.len() && path.take(base.len() as int) == base && path[base.len() as int]
        == '/')
}

/// Whether `raw` is an absolute path on this platform (std
/// `Path::is_absolute`), with the platform's separator (std
/// `MAIN_SEPARATOR`), which tells the platform's path rules apart: `/` on
/// Unix, `\` on Windows. On Unix a path that starts with the root `/` is
/// absolute; on Windows an absolute path needs a prefix and a root, so it
/// starts with a separator or a drive (`C:`). Which other paths are absolute
/// is not stated.
#[verifier::external_body]
pub(crate) fn path_is_absolute(raw: &str) -> (r: (bool, char))
    ensures
        r.1 == '/' || r.1 == '\\',
        r.0 ==> may_be_absolute(raw@),
        r.1 == '/' && raw@.len() > 0 && raw@[0] == '/' ==> r.0,
{
    (Path::new(raw).is_absolute(), std::path::MAIN_SEPARATOR)
}

/// `path` with the leading components that make up `base` removed, as text
/// (std `Path::strip_prefix`), or `None` when `base` is not a prefix of
/// `path`. Stated are the cases that every platform reads alike: a path
/// stripped of itself leaves nothing; a plain base followed by `/` and one
/// ordinary component leaves that component; of two plain rooted paths, one
/// below the other leaves the components after the base, and one outside
/// the other gives `None`. Other results (which components match, how the
/// rest is trimmed) follow the platform's path rules and are not stated.
#[verifier::external_body]
pub(crate) fn strip_path_prefix(path: &str, base: &str) -> (r: Option<String>)
    ensures
        r is Some || (path@ != base@ && !is_plain_child(base@, path@)),
        r is Some && path@ == base@ ==> r->0@.len() == 0,
        r is Some && is_plain_child(base@, path@) ==> r->0@ == child_name(base@, path@),
        is_below(base@, path@) ==> r is Some && r->0@ == child_name(base@, path@),
        is_outside(base@, path@) ==> r is None,
{
    match Path::new(path).strip_prefix(base) {
        Ok(rest) => Some(rest.display().to_string()),
        Err(_) => None,
    }
}

/// What a path is shown as, given what stripping the base directory gave:
/// the rest when the base was a prefix, else the path itself.
pub open spec fn stripped_or(path: Seq<char>, stripped: Option<Seq<char>>) -> Seq<char> {
    match stripped {
        Some(rest) => rest,
        None => path,
    }
}

/// A path relative to `base_dir` when it lies under it, else the path itself.
/// The base directory itself is shown as the empty text, a file directly in a
/// plain base directory by its name, a plain rooted path below a plain rooted
/// base by the components after the base, and one outside it as it is; other
/// paths follow the platform's path rules (`Path::strip_prefix`).
pub fn format_user_path(base_dir: &str, path: &str) -> (r: String)
    ensures
        path@ == base_dir@ ==> r@.len() == 0,
        is_plain_child(base_dir@, path@) ==> r@ == child_name(base_dir@, path@),
        is_below(base_dir@, path@) ==> r@ == child_name(base_dir@, path@),
        is_outside(base_dir@, path@) ==> r@ == path@,
{
    let stripped = strip_path_prefix(path, base_dir);
    shown_user_path(path, stripped)
}

/// `path`, or the rest that stripping the base directory left of it.
fn shown_user_path(path: &str, stripped: Option<String>) -> (r: String)
    ensures
        r@ == stripped_or(path@, opt_string_view(stripped)),
{
    match stripped {
        Some(rest) => rest,
        None => path.to_owned(),
    }
}

/// `s` with every `/` and `\` replaced by `sep`.
pub open spec fn with_separator(s: Seq<char>, sep: char) -> Seq<char> {
    s.map_values(|c: char| if c == '/' || c == '\\' { sep } else { c })
}

/// The text of a path as the user sees it.
pub open spec fn user_path(
    raw: Seq<char>,
    raw_is_absolute: bool,
    stripped: Option<Seq<char>>,
    separator: char,
) -> Seq<char> {
    if raw_is_absolute {
        stripped_or(raw, stripped)
    } else {
        with_separator(raw, separator)
    }
}

/// A path as the user should see it, given whether it is absolute, what
/// stripping the base directory left of it (`stripped`) and the platform's
/// separator: an absolute path is shown as that rest when the base directory
/// was a prefix of it, else as it is; a relative path is shown with
/// `separator` in place of every `/` and `\`.
pub fn user_path_text(raw: &str, raw_is_absolute: bool, stripped: Option<String>, separator: char) -> (r:
    String)
    ensures
        r@ == user_path(raw@, raw_is_absolute, opt_string_view(stripped), separator),
{
    if raw_is_absolute {
        shown_user_path(raw, stripped)
    } else {
        let v = chars_of(raw);
        let mut out: Vec<char> = Vec::new();
        let n = v.len();
        for i in 0..n
            invariant
                n == v@.len(),
                out@ == with_separator(v@.take(i as int), separator),
        {
            let c = v[i];
            if c == '/' || c == '\\' {
                out.push(separator);
            } else {
                out.push(c);
            }
            assert(with_separator(v@.take(i + 1), separator) =~= with_separator(
                v@.take(i as int),
                separator,
            ).push(out@.last()));
        }
        assert(v@.take(n as int) =~= v@);
        string_of(&out)
    }
}

/// How `format_user_path_str` may show `raw` relative to `base`, whatever
/// the platform: a path that starts with neither a separator nor a drive is
/// relative, and shown with one separator throughout; a file directly in a
/// plain base directory is shown by its name (absolute on Unix), or, on
/// Windows, where such a path is not absolute, with `\` throughout; the
/// plain base directory itself likewise as the empty text or with `\`.
pub open spec fn shown_path_form(base: Seq<char>, raw: Seq<char>, shown: Seq<char>) -> bool {
    &&& !may_be_absolute(raw) ==> (shown == with_separator(raw, '/') || shown == with_separator(
        raw,
        '\\',
    ))
    &&& is_plain_child(base, raw) ==> (shown == child_name(base, raw) || shown == with_separator(
        raw,
        '\\',
    ))
    &&& (raw == base && plain_base(base)) ==> (shown.len() == 0 || shown == with_separator(
        raw,
        '\\',
    ))
    &&& is_below(base, raw) ==> (shown == child_name(base, raw) || shown == with_separator(
        raw,
        '\\',
    ))
    &&& is_outside(base, raw) ==> (shown == raw || shown == with_separator(raw, '\\'))
}

/// A path as the user should see it: an absolute path is shown relative to
/// `base_dir` when it lies under it; a relative path is shown with the
/// platform's separator.
pub fn format_user_path_str(base_dir: &str, raw: &str) -> (r: String)
    ensures
        shown_path_form(base_dir@, raw@, r@),
{
    let (absolute, sep) = path_is_absolute(raw);
    let stripped = if absolute {
        strip_path_prefix(raw, base_dir)
    } else {
        None
    };
    user_path_text(raw, absolute, stripped, sep)
}

/// Whether a path holds one of the glob characters `*?[]{}`.
pub open spec fn is_glob_pattern(s: Seq<char>) -> bool {
    has_char(s, '*') || has_char(s, '?') || has_char(s, '[') || has_char(s, ']') || has_char(
        s,
        '{',
    ) || has_char(s, '}')
}

/// Whether a command-line path is a glob pattern to expand.
pub fn looks_like_glob_pattern(path: &str) -> (r: bool)
    ensures
        r == is_glob_pattern(path@),
{
    let v = chars_of(path);
    crate::text::contains_char(&v, '*') || crate::text::contains_char(&v, '?')
        || crate::text::contains_char(&v, '[') || crate::text::contains_char(&v, ']')
        || crate::text::contains_char(&v, '{') || crate::text::contains_char(&v, '}')
}

/// `s` with every `\` replaced by `/`.
pub open spec fn forward_slashes(s: Seq<char>) -> Seq<char> {
    s.map_values(|c: char| if c == '\\' { '/' } else { c })
}

/// The glob pattern for a path on a platform whose separator is `sep`.
pub open spec fn glob_pattern_model(path: Seq<char>, sep: char) -> Seq<char> {
    if sep == '\\' {
        forward_slashes(path)
    } else {
        path
    }
}

/// The glob pattern for a path on a platform whose separator is `sep`: where
/// the separator is `\`, the pattern uses `/` instead; elsewhere it is the
/// path as written.
pub fn glob_pattern_text(path: &str, sep: char) -> (r: String)
    ensures
        r@ == glob_pattern_model(path@, sep),
{
    if sep == '\\' {
        let v = chars_of(path);
        let mut out: Vec<char> = Vec::new();
        let n = v.len();
        for i in 0..n
            invariant
                n == v@.len(),
                out@ == forward_slashes(v@.take(i as int)),
        {
            let c = v[i];
            if c == '\\' {
                out.push('/');
            } else {
                out.push(c);
            }
            assert(forward_slashes(v@.take(i + 1)) =~= forward_slashes(v@.take(i as int)).push(
                out@.last(),
            ));
        }
        assert(v@.take(n as int) =~= v@);
        string_of(&out)
    } else {
        path.to_owned()
    }
}

/// The glob pattern for a path on this platform (see `glob_pattern_text`).
pub fn normalize_glob_pattern(path: &str) -> (r: String)
    ensures
        r@ == glob_pattern_model(path@, '/') || r@ == glob_pattern_model(path@, '\\'),
{
    let sep = main_separator();
    glob_pattern_text(path, sep)
}

/// The order in which the files that a glob pattern matched are run: sorted by
/// their path text, stably. A pattern that matched nothing is an error.
pub fn order_glob_matches(pattern: &str, match_texts: &Vec<String>) -> (r: Result<Vec<usize>, String>)
    ensures
        match r {
            Ok(order) => match_texts@.len() > 0 && is_stable_sort_order(
                match_texts@.map_values(|k: String| k@),
                order@,
            ) && forall|x: usize| x < match_texts@.len() ==> #[trigger] order@.contains(x),
            Err(msg) => match_texts@.len() == 0 && msg@ == "glob pattern matched no files: "@
                + pattern@,
        },
{
    let order = stable_sort_order(match_texts);
    if match_texts.len() == 0 {
        let mut msg = "glob pattern matched no files: ".to_owned();
        crate::text::push_str(&mut msg, pattern);
        return Err(msg);
    }
    Ok(order)
}

/// Which file of the expanded list an entry is: command-line argument `.0`
/// itself (`None`), or match `k` of its glob pattern (`Some(k)`).
pub type ExpandedFile = (usize, Option<usize>);

/// The views of a list of strings.
pub open spec fn texts_view(v: Seq<String>) -> Seq<Seq<char>> {
    v.map_values(|k: String| k@)
}

/// The views of the match lists of the arguments.
pub open spec fn matches_view(m: Seq<Vec<String>>) -> Seq<Seq<Seq<char>>> {
    m.map_values(|v: Vec<String>| texts_view(v@))
}

/// The match indices of a segment of the expanded list.
pub open spec fn match_indices(seg: Seq<ExpandedFile>) -> Seq<usize> {
    seg.map_values(|e: ExpandedFile| e.1->0)
}

/// The part of the expanded list that argument `i` (`arg`, with glob matches
/// `matches`) gives: a glob pattern gives its matches, sorted by their text,
/// stably, each exactly once; any other argument gives itself.
pub open spec fn argument_segment(
    arg: Seq<char>,
    matches: Seq<Seq<char>>,
    i: int,
    seg: Seq<ExpandedFile>,
) -> bool {
    if is_glob_pattern(arg) {
        &&& forall|j: int| 0 <= j < seg.len() ==> (#[trigger] seg[j]).0 == i && seg[j].1 is Some
        &&& is_stable_sort_order(matches, match_indices(seg))
        &&& forall|x: usize| x < matches.len() ==> #[trigger] match_indices(seg).contains(x)
    } else {
        seg == seq![(i as usize, None::<usize>)]
    }
}

/// The segments of a list, one after the other.
pub open spec fn concat_segments(segs: Seq<Seq<ExpandedFile>>) -> Seq<ExpandedFile>
    decreases segs.len(),
{
    if segs.len() == 0 {
        Seq::empty()
    } else {
        concat_segments(segs.drop_last()) + segs.last()
    }
}

/// Argument `i` is a glob pattern that matched nothing.
pub open spec fn matched_nothing(args: Seq<Seq<char>>, matches: Seq<Seq<Seq<char>>>, i: int) -> bool {
    is_glob_pattern(args[i]) && matches[i].len() == 0
}

/// Assembles the list of files to run from the command-line arguments
/// (`args`, as text) and, for each argument that is a glob pattern, the
/// texts of the files that its pattern (see `glob_pattern_text`, with the
/// platform separator `sep`) matched (`matches[i]`; ignored for other
/// arguments). The list keeps the arguments' order: a pattern stands for its
/// matches sorted by their text, any other argument for itself. The first
/// pattern that matched nothing is the error.
pub fn expand_file_list(args: &Vec<String>, sep: char, matches: &Vec<Vec<String>>) -> (r: Result<
    Vec<ExpandedFile>,
    String,
>)
    requires
        matches@.len() == args@.len(),
    ensures
        match r {
            Ok(out) => (forall|i: int|
                0 <= i < args@.len() ==> !#[trigger] matched_nothing(
                    texts_view(args@),
                    matches_view(matches@),
                    i,
                )) && exists|segs: Seq<Seq<ExpandedFile>>|
                #![trigger concat_segments(segs)]
                segs.len() == args@.len() && out@ == concat_segments(segs) && forall|i: int|
                    0 <= i < args@.len() ==> #[trigger] argument_segment(
                        args@[i]@,
                        texts_view(matches@[i]@),
                        i,
                        segs[i],
                    ),
            Err(msg) => exists|k: int|
                0 <= k < args@.len() && #[trigger] matched_nothing(
                    texts_view(args@),
                    matches_view(matches@),
                    k,
                ) && (forall|i: int|
                    0 <= i < k ==> !#[trigger] matched_nothing(
                        texts_view(args@),
                        matches_view(matches@),
                        i,
                    )) && msg@ == "glob pattern matched no files: "@ + glob_pattern_model(
                    args@[k]@,
                    sep,
                ),
        },
{
    let ghost a = texts_view(args@);
    let ghost ms = matches_view(matches@);
    let mut out: Vec<ExpandedFile> = Vec::new();
    let ghost mut segs: Seq<Seq<ExpandedFile>> = Seq::empty();
    let n = args.len();
    for i in 0..n
        invariant
            n == args@.len(),
            matches@.len() == n,
            a == texts_view(args@),
            ms == matches_view(matches@),
            segs.len() == i,
            out@ == concat_segments(segs),
            forall|j: int| 0 <= j < i ==> !#[trigger] matched_nothing(a, ms, j),
            forall|j: int|
                0 <= j < i ==> #[trigger] argument_segment(
                    args@[j]@,
                    texts_view(matches@[j]@),
                    j,
                    segs[j],
                ),
    {
        let ghost before = out@;
        assert(a[i as int] == args@[i as int]@);
        assert(ms[i as int] == texts_view(matches@[i as int]@));
        if looks_like_glob_pattern(args[i].as_str()) {
            let pattern = glob_pattern_text(args[i].as_str(), sep);
            match order_glob_matches(pattern.as_str(), &matches[i]) {
                Ok(order) => {
                    let m = order.len();
                    for j in 0..m
                        invariant
                            m == order@.len(),
                            out@.len() == before.len() + j,
                            out@.take(before.len() as int) == before,
                            forall|q: int|
                                0 <= q < j ==> #[trigger] out@[before.len() + q] == (
                                    i,
                                    Some(order@[q]),
                                ),
                    {
                        out.push((i, Some(order[j])));
                        assert(out@.take(before.len() as int) =~= before);
                    }
                    let ghost seg = out@.skip(before.len() as int);
                    proof {
                        assert(seg.len() == order@.len());
                        assert forall|q: int| 0 <= q < seg.len() implies #[trigger] seg[q] == (
                            i,
                            Some(order@[q]),
                        ) by {
                            assert(seg[q] == out@[before.len() + q]);
                        }
                        assert(match_indices(seg) =~= order@);
                        assert(texts_view(matches@[i as int]@) =~= matches@[i as int]@.map_values(
                            |k: String| k@,
                        ));
                        assert(out@ =~= before + seg);
                        assert(argument_segment(
                            args@[i as int]@,
                            texts_view(matches@[i as int]@),
                            i as int,
                            seg,
                        ));
                        let s2 = segs.push(seg);
                        assert(s2.drop_last() =~= segs);
                        segs = s2;
                    }
                },
                Err(msg) => {
                    proof {
                        assert(matched_nothing(a, ms, i as int));
                    }
                    return Err(msg);
                },
            }
        } else {
            out.push((i, None));
            proof {
                let seg = seq![(i, None::<usize>)];
                assert(out@ =~= before + seg);
                let s2 = segs.push(seg);
                assert(s2.drop_last() =~= segs);
                segs = s2;
            }
        }
    }
    proof {
        assert(segs.len() == args@.len());
    }
    Ok(out)
}

} // verus!
