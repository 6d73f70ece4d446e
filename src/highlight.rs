use vstd::prelude::*;

use crate::colour::{emphasize, is_markup, reset_marker, Color};
use crate::text::{contains_seq, find_first, first_occurrence, lower_of, occurs_at, to_lower};

verus! {

/// What `std::path::Path::file_name` gives for a path: its final component.
pub uninterp spec fn file_name_of(p: Seq<char>) -> Option<Seq<char>>;

/// What `std::path::Path::parent` gives for a path: the path without its final
/// component.
pub uninterp spec fn parent_of(p: Seq<char>) -> Option<Seq<char>>;

pub open spec fn opt_view(o: Option<String>) -> Option<Seq<char>> {
    match o {
        Some(s) => Some(s@),
        None => None,
    }
}

/// Relies on `std::path::Path::file_name`: the final component of the path, if
/// there is one; a path built from a `str` gives a name that is text.
#[verifier::external_body]
fn path_file_name(p: &str) -> (r: Option<String>)
    ensures
        opt_view(r) == file_name_of(p@),
{
    std::path::Path::new(p).file_name().and_then(|n| n.to_str()).map(String::from)
}

/// Relies on `std::path::Path::parent`: the path without its final component,
/// if there is one; a path built from a `str` gives a parent that is text.
#[verifier::external_body]
fn path_parent(p: &str) -> (r: Option<String>)
    ensures
        opt_view(r) == parent_of(p@),
{
    std::path::Path::new(p).parent().and_then(|q| q.to_str()).map(String::from)
}

/// Relies on `std::path::MAIN_SEPARATOR`: the platform's path separator.
#[verifier::external_body]
fn main_separator() -> char {
    std::path::MAIN_SEPARATOR
}

/// Relies on `String::push`: the character is appended at the end.
#[verifier::external_body]
fn push_char(s: &mut String, c: char)
    ensures
        final(s)@ == old(s)@.push(c),
{
    s.push(c)
}

/// The directory part as it is written before the file name: with a separator
/// appended unless it is empty or already ends in one.
pub open spec fn joined_stem(stem: Seq<char>, sep: char) -> Seq<char> {
    if stem.len() == 0 || stem.last() == sep {
        stem
    } else {
        stem.push(sep)
    }
}

/// The display string with `name[start..end]` replaced by `emphasized`.
pub open spec fn composed(
    stem: Seq<char>,
    sep: char,
    name: Seq<char>,
    start: int,
    end: int,
    emphasized: Seq<char>,
) -> Seq<char> {
    joined_stem(stem, sep) + name.subrange(0, start) + emphasized + name.subrange(end, name.len() as int)
}

/// Assembles a highlighted path from its directory part, the separator, the
/// file name, the span to emphasise and the emphasised form of that span.
pub fn compose_highlight(
    stem: &str,
    sep: char,
    name: &str,
    start: usize,
    end: usize,
    emphasized: &str,
) -> (r: String)
    requires
        start <= end <= name@.len(),
    ensures
        r@ == composed(stem@, sep, name@, start as int, end as int, emphasized@),
{
    let mut r = String::from_str(stem);
    let slen = stem.unicode_len();
    if slen > 0 && stem.get_char(slen - 1) != sep {
        push_char(&mut r, sep);
    }
    let nlen = name.unicode_len();
    r.append(name.substring_char(0, start));
    r.append(emphasized);
    r.append(name.substring_char(end, nlen));
    r
}

/// The directory part of a path: its parent, or nothing.
pub open spec fn stem_of(path: Seq<char>) -> Seq<char> {
    match parent_of(path) {
        Some(p) => p,
        None => seq![],
    }
}

/// `i` is where the emphasised span starts in `name`: the first character
/// position where the lower-cased pattern stands in the lower-cased name, with
/// room in `name` for as many characters as the pattern has. The span is taken
/// from the name as written, so its case is kept.
pub open spec fn highlight_span(name: Seq<char>, pattern: Seq<char>, i: int) -> bool {
    first_occurrence(lower_of(name), lower_of(pattern), i) && i + pattern.len() <= name.len()
}

/// `e` is a fit replacement for `span`: the span itself when colour is not
/// asked for; when it is, the span itself or the span in bold markup of the
/// colour (nothing more can be said once the span holds a reset sequence).
pub open spec fn is_emphasis(span: Seq<char>, color: Color, colorize: bool, e: Seq<char>) -> bool {
    if !colorize {
        e == span
    } else if contains_seq(span, reset_marker()) {
        true
    } else {
        e == span || is_markup(color, span, e)
    }
}

/// `r` is a highlighting of `path` for `pattern` with separator `sep`: where the
/// file name holds the pattern, the path re-assembled with that span of the
/// name as written emphasised; otherwise the path unchanged.
pub open spec fn is_highlight(
    path: Seq<char>,
    pattern: Seq<char>,
    sep: char,
    color: Color,
    colorize: bool,
    r: Seq<char>,
) -> bool {
    match file_name_of(path) {
        None => r == path,
        Some(name) => is_name_highlight(path, name, pattern, sep, color, colorize, r),
    }
}

/// `r` is a highlighting of `path`, whose file name is `name`, for `pattern`.
pub open spec fn is_name_highlight(
    path: Seq<char>,
    name: Seq<char>,
    pattern: Seq<char>,
    sep: char,
    color: Color,
    colorize: bool,
    r: Seq<char>,
) -> bool {
    &&& (forall|i: int| !highlight_span(name, pattern, i)) ==> r == path
    &&& forall|i: int| #[trigger]
        highlight_span(name, pattern, i) ==> exists|e: Seq<char>|
            is_emphasis(name.subrange(i, i + pattern.len()), color, colorize, e) && r
                == #[trigger] composed(stem_of(path), sep, name, i, i + pattern.len(), e)
}

/// Renders `path` with the first case-insensitive occurrence of `pattern` in
/// its file name emphasised in `color`, as far as the process's colour
/// settings allow. `separator` is written between the directory part and the
/// name; `None` takes the platform's.
pub fn highlight_text(path: &str, pattern: &str, color: Color, separator: Option<char>) -> (r: String)
    ensures
        separator is Some ==> is_highlight(path@, pattern@, separator->0, color, true, r@),
        separator is None ==> exists|sep: char| is_highlight(path@, pattern@, sep, color, true, r@),
{
    highlight_styled(path, pattern, color, separator, true)
}

/// `highlight_text` with colour as an explicit choice: with `colorize` false
/// the span is written plainly and no styling is attempted.
pub fn highlight_styled(
    path: &str,
    pattern: &str,
    color: Color,
    separator: Option<char>,
    colorize: bool,
) -> (r: String)
    ensures
        separator is Some ==> is_highlight(path@, pattern@, separator->0, color, colorize, r@),
        separator is None ==> exists|sep: char| is_highlight(path@, pattern@, sep, color, colorize, r@),
{
    let sep = match separator {
        Some(c) => c,
        None => main_separator(),
    };
    let r = highlight_with(path, pattern, color, sep, colorize);
    assert(is_highlight(path@, pattern@, sep, color, colorize, r@));
    r
}

/// `highlight_styled` with the separator settled.
fn highlight_with(path: &str, pattern: &str, color: Color, sep: char, colorize: bool) -> (r: String)
    ensures
        is_highlight(path@, pattern@, sep, color, colorize, r@),
{
    let name = match path_file_name(path) {
        Some(n) => n,
        None => return String::from_str(path),
    };
    let stem = match path_parent(path) {
        Some(p) => p,
        None => String::new(),
    };
    let pattern_lower = to_lower(pattern);
    let name_lower = to_lower(name.as_str());
    let nlen = name.unicode_len();
    let plen = pattern.unicode_len();
    match find_first(name_lower.as_str(), pattern_lower.as_str()) {
        Some(i) => {
            if i <= nlen && plen <= nlen - i {
                let end = i + plen;
                let span = name.substring_char(i, end);
                let emphasized = if colorize {
                    emphasize(span, color)
                } else {
                    String::from_str(span)
                };
                let r = compose_highlight(stem.as_str(), sep, name.as_str(), i, end, emphasized.as_str());
                proof {
                    let e = emphasized@;
                    assert(is_emphasis(name@.subrange(i as int, i + pattern@.len()), color, colorize, e));
                    assert(file_name_of(path@) == Some(name@));
                    assert(highlight_span(name@, pattern@, i as int));
                    assert forall|k: int| #[trigger] highlight_span(name@, pattern@, k) implies exists|
                        e: Seq<char>,
                    | is_emphasis(name@.subrange(k, k + pattern@.len()), color, colorize, e) && r@
                        == #[trigger] composed(stem_of(path@), sep, name@, k, k + pattern@.len(), e) by {
                        if k < i {
                            assert(!first_occurrence(lower_of(name@), lower_of(pattern@), i as int));
                        }
                        if i < k {
                            assert(!first_occurrence(lower_of(name@), lower_of(pattern@), k));
                        }
                        assert(r@ == composed(stem_of(path@), sep, name@, k, k + pattern@.len(), e));
                    }
                    assert(is_name_highlight(path@, name@, pattern@, sep, color, colorize, r@));
                }
                r
            } else {
                assert forall|j: int| !highlight_span(name@, pattern@, j) by {
                    if highlight_span(name@, pattern@, j) && j != i {
                        if j < i {
                            assert(!first_occurrence(lower_of(name@), lower_of(pattern@), i as int));
                        } else {
                            assert(!first_occurrence(lower_of(name@), lower_of(pattern@), j));
                        }
                    }
                }
                assert(file_name_of(path@) == Some(name@));
                String::from_str(path)
            }
        },
        None => {
            assert forall|j: int| !highlight_span(name@, pattern@, j) by {
                if highlight_span(name@, pattern@, j) {
                    assert(occurs_at(lower_of(name@), lower_of(pattern@), j));
                }
            }
            String::from_str(path)
        },
    }
}

/// Stripping the emphasis restores the path: when the path is its directory
/// part, the separator where one is due, and its file name, a highlighting of
/// it is the path itself, or the path with the found span in bold markup of
/// the colour and nothing else changed.
pub proof fn lemma_highlight_round_trip(
    path: Seq<char>,
    pattern: Seq<char>,
    sep: char,
    color: Color,
    colorize: bool,
    r: Seq<char>,
    i: int,
)
    requires
        is_highlight(path, pattern, sep, color, colorize, r),
        file_name_of(path) is Some,
        path == joined_stem(stem_of(path), sep) + file_name_of(path)->0,
        highlight_span(file_name_of(path)->0, pattern, i),
        !contains_seq((file_name_of(path)->0).subrange(i, i + pattern.len()), reset_marker()),
    ensures
        ({
            let name = file_name_of(path)->0;
            let prefix = joined_stem(stem_of(path), sep) + name.subrange(0, i);
            let span = name.subrange(i, i + pattern.len());
            let suffix = name.subrange(i + pattern.len(), name.len() as int);
            &&& prefix + span + suffix == path
            &&& r == path || (colorize && exists|e: Seq<char>|
                is_markup(color, span, e) && r == #[trigger] (prefix + e + suffix))
        }),
{
    let name = file_name_of(path)->0;
    let j = i + pattern.len();
    assert(is_name_highlight(path, name, pattern, sep, color, colorize, r));
    assert(highlight_span(name, pattern, i));
    let e = choose|e: Seq<char>|
        is_emphasis(name.subrange(i, j), color, colorize, e) && r == #[trigger] composed(
            stem_of(path),
            sep,
            name,
            i,
            j,
            e,
        );
    assert(name.subrange(0, i) + name.subrange(i, j) + name.subrange(j, name.len() as int) =~= name);
    assert(joined_stem(stem_of(path), sep) + name.subrange(0, i) + name.subrange(i, j) + name.subrange(
        j,
        name.len() as int,
    ) =~= path);
    assert(composed(stem_of(path), sep, name, i, j, name.subrange(i, j)) =~= path);
}

/// A path whose file name does not hold the pattern, case aside, is handed
/// back in its plain form.
pub proof fn lemma_highlight_no_match(
    path: Seq<char>,
    pattern: Seq<char>,
    sep: char,
    color: Color,
    colorize: bool,
    r: Seq<char>,
)
    requires
        is_highlight(path, pattern, sep, color, colorize, r),
        file_name_of(path) is Some ==> !contains_seq(
            lower_of(file_name_of(path)->0),
            lower_of(pattern),
        ),
    ensures
        r == path,
{
    if let Some(name) = file_name_of(path) {
        assert forall|i: int| !highlight_span(name, pattern, i) by {
            if highlight_span(name, pattern, i) {
                assert(occurs_at(lower_of(name), lower_of(pattern), i));
            }
        }
    }
}

} // verus!
