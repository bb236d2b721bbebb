//! Cleaning a plain-text reply body: cutting off the quoted original and the
//! signature, and dropping quoted lines.

use vstd::prelude::*;

use crate::text::{
    char_index_at_byte, chars_before, chars_of, is_char_boundary, join, join_chars, lines,
    lines_of, string_of, sub_chars, trim_end, trim_end_chars, trim_start, trim_start_chars,
    utf8_len, views, lemma_utf8_len_is_encoding_len, lemma_chars_before, lemma_lines_of_line_prefix,
};

verus! {

/// Where a quoted original begins: an "On ... wrote:" line in English,
/// French, German or Spanish, or an "original/forwarded message" rule.
pub const REPLY_HEADER_PATTERN: &'static str =
    "(?mi)^(On .{0,200}wrote:|Le .{0,200}a écrit :|Am .{0,200}schrieb:|El .{0,200}escribió:|-{3,}[ \\t]*(original message|forwarded message)[ \\t]*-{3,})";

/// The RFC 3676 signature delimiter line `-- `.
pub const SIGNATURE_PATTERN: &'static str = "(?m)^--[ \\t]*$";

/// A separator line: `---` or `___` (three or more of either), or eight or
/// more `-` and `_` mixed.
pub const SEPARATOR_PATTERN: &'static str = "(?m)^(-{3,}|_{3,}|[_\\-]{8,})[ \\t]*$";

/// The byte offset at which the first match of regular expression `pattern`
/// in `haystack` starts, as the `regex` crate finds it.
pub uninterp spec fn regex_find_start(pattern: Seq<char>, haystack: Seq<char>) -> Option<usize>;

/// Whether `pattern` is one of the three patterns above. Each begins, in
/// multi-line mode and without CRLF mode, with a `^` that governs the whole
/// pattern, so every match starts at the start of a line.
pub open spec fn line_anchored(pattern: Seq<char>) -> bool {
    pattern == REPLY_HEADER_PATTERN@ || pattern == SIGNATURE_PATTERN@ || pattern == SEPARATOR_PATTERN@
}

/// Position `k` of `s` starts a line: it is the start, or follows a line feed.
pub open spec fn at_line_start(s: Seq<char>, k: int) -> bool {
    k == 0 || s[k - 1] == '\n'
}

/// Compiles `pattern` with `regex::Regex::new` and returns where its first
/// match in `haystack` starts (`Regex::find`, `Match::start`); a pattern that
/// does not compile finds nothing. The crate documents that the offsets of a
/// match in a `&str` fall on UTF-8 character boundaries, and that in
/// multi-line mode without CRLF mode `^` matches only at the start of the
/// haystack or right after `\n`: for the patterns of `line_anchored` a match
/// starts at the start of a line. Which match is found is left to the name
/// `regex_find_start`.
#[verifier::external_body]
fn regex_find(pattern: &str, haystack: &str) -> (r: Option<usize>)
    ensures
        r == regex_find_start(pattern@, haystack@),
        r matches Some(p) ==> exists|k: int|
            0 <= k <= haystack@.len() && #[trigger] vstd::utf8::encode_utf8(haystack@.take(k)).len()
                == p && (line_anchored(pattern@) ==> at_line_start(haystack@, k)),
{
    match regex::Regex::new(pattern) {
        Ok(re) => re.find(haystack).map(|m| m.start()),
        Err(_) => None,
    }
}

/// The earlier of two optional offsets.
pub open spec fn earliest(a: Option<usize>, b: Option<usize>) -> Option<usize> {
    match (a, b) {
        (Some(x), Some(y)) => Some(if x <= y { x } else { y }),
        (Some(x), None) => Some(x),
        (None, y) => y,
    }
}

/// Where the body of `text` is cut off: the earliest start of a reply
/// header, a signature delimiter or a separator line, if any.
pub open spec fn body_cut(text: Seq<char>) -> Option<usize> {
    earliest(
        earliest(
            regex_find_start(REPLY_HEADER_PATTERN@, text),
            regex_find_start(SIGNATURE_PATTERN@, text),
        ),
        regex_find_start(SEPARATOR_PATTERN@, text),
    )
}

/// A quoted line: its first non-blank character is `>`.
pub open spec fn is_quoted_line(line: Seq<char>) -> bool {
    let t = trim_start(line);
    t.len() > 0 && t[0] == '>'
}

/// Keeps the lines that are not quoted.
pub open spec fn unquoted() -> spec_fn(Seq<char>) -> bool {
    |line: Seq<char>| !is_quoted_line(line)
}

/// `text` before byte offset `cut`, or all of it.
pub open spec fn cut_text(text: Seq<char>, cut: Option<usize>) -> Seq<char> {
    match cut {
        Some(p) => text.take(chars_before(text, p as int)),
        None => text,
    }
}

/// The lines of `text` that are not quoted, joined by line feeds, without
/// trailing whitespace.
pub open spec fn clean_body(text: Seq<char>) -> Seq<char> {
    trim_end(join(lines_of(text).filter(unquoted()), seq!['\n']))
}

/// Cuts `text` at byte offset `cut` (when given), drops its quoted lines and
/// its trailing whitespace.
pub fn strip_at(text: &str, cut: Option<usize>) -> (r: String)
    requires
        cut matches Some(p) ==> is_char_boundary(text@, p as int),
    ensures
        r@ == clean_body(cut_text(text@, cut)),
{
    let chars = chars_of(text);
    let upto = match cut {
        Some(p) => char_index_at_byte(&chars, p),
        None => chars.len(),
    };
    let prefix = sub_chars(&chars, 0, upto);
    assert(prefix@ == cut_text(text@, cut));
    let ls = lines(&prefix);
    let ghost all = views(ls@);
    let mut kept: Vec<Vec<char>> = Vec::new();
    let mut i: usize = 0;
    while i < ls.len()
        invariant
            i <= ls.len(),
            all == views(ls@),
            views(kept@) == all.take(i as int).filter(unquoted()),
        decreases ls.len() - i,
    {
        let t = trim_start_chars(&ls[i]);
        let quoted = t.len() > 0 && t[0] == '>';
        proof {
            reveal(Seq::filter);
            assert(all.take(i + 1).drop_last() =~= all.take(i as int));
            assert(all.take(i + 1).last() == ls@[i as int]@);
        }
        if !quoted {
            let line = sub_chars(&ls[i], 0, ls[i].len());
            assert(line@ =~= ls@[i as int]@);
            let ghost before = views(kept@);
            kept.push(line);
            assert(views(kept@) =~= before.push(line@));
        }
        i = i + 1;
    }
    assert(all.take(ls.len() as int) =~= all);
    let sep: Vec<char> = vec!['\n'];
    assert(sep@ =~= seq!['\n']);
    let joined = join_chars(&kept, &sep);
    let out = trim_end_chars(&joined);
    string_of(&out)
}

/// Removes quoted reply content and the signature from a plain-text body:
/// the text is cut at the earliest reply header ("On ... wrote:" and its
/// French, German and Spanish forms, or an original/forwarded message rule),
/// signature delimiter (`--` alone on a line) or separator line (eight or
/// more `-` or `_`); then lines whose first non-blank character is `>` are
/// dropped, and trailing whitespace is removed. The cut falls at the start
/// of a line, so the lines it keeps are the first lines of the text.
pub fn strip_quotes_and_signature(text: &str) -> (r: String)
    ensures
        r@ == clean_body(cut_text(text@, body_cut(text@))),
        ({
            let kept = lines_of(cut_text(text@, body_cut(text@)));
            &&& kept.len() <= lines_of(text@).len()
            &&& lines_of(text@).take(kept.len() as int) == kept
        }),
{
    let a = regex_find(REPLY_HEADER_PATTERN, text);
    let b = regex_find(SIGNATURE_PATTERN, text);
    let c = regex_find(SEPARATOR_PATTERN, text);
    let ab = match (a, b) {
        (Some(x), Some(y)) => Some(if x <= y { x } else { y }),
        (Some(x), None) => Some(x),
        (None, y) => y,
    };
    let cut = match (ab, c) {
        (Some(x), Some(y)) => Some(if x <= y { x } else { y }),
        (Some(x), None) => Some(x),
        (None, y) => y,
    };
    proof {
        if let Some(p) = cut {
            assert(a == Some(p) || b == Some(p) || c == Some(p));
            let k = choose|k: int|
                0 <= k <= text@.len() && #[trigger] vstd::utf8::encode_utf8(text@.take(k)).len()
                    == p && at_line_start(text@, k);
            lemma_utf8_len_is_encoding_len(text@.take(k));
            assert(utf8_len(text@.take(k)) == p);
            lemma_chars_before(text@, p as int, k);
            lemma_lines_of_line_prefix(text@, k);
        } else {
            assert(lines_of(text@).take(lines_of(text@).len() as int) =~= lines_of(text@));
        }
    }
    strip_at(text, cut)
}


/// No line kept in a cleaned body is a quoted line.
pub proof fn law_kept_lines_are_unquoted(text: Seq<char>)
    ensures
        forall|i: int|
            0 <= i < lines_of(text).filter(unquoted()).len() ==> !is_quoted_line(
                #[trigger] lines_of(text).filter(unquoted())[i],
            ),
{
    assert forall|i: int| 0 <= i < lines_of(text).filter(unquoted()).len() implies !is_quoted_line(
        #[trigger] lines_of(text).filter(unquoted())[i],
    ) by {
        lines_of(text).lemma_filter_pred(unquoted(), i);
    }
}

/// A cleaned body does not end in whitespace.
pub proof fn law_clean_body_has_no_trailing_whitespace(text: Seq<char>)
    ensures
        clean_body(text).len() > 0 ==> !crate::text::is_ws(clean_body(text).last()),
{
    lemma_trim_end_last(join(lines_of(text).filter(unquoted()), seq!['\n']));
}

proof fn lemma_trim_end_last(s: Seq<char>)
    ensures
        trim_end(s).len() > 0 ==> !crate::text::is_ws(trim_end(s).last()),
    decreases s.len(),
{
    if s.len() > 0 && crate::text::is_ws(s.last()) {
        lemma_trim_end_last(s.drop_last());
    }
}

} // verus!
