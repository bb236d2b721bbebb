//! Subjects: the normalized subject that groups messages into threads, and
//! the subject and references of a reply.
//!
//! Reply prefixes are recognised without regard to case. Lower-casing a
//! subject by Unicode rules and comparing its start with `re:`, `re `,
//! `fwd:`, `fw:` or `aw:` gives the same answer as comparing ASCII letters
//! without regard to case: the only characters that lower-case to `r`, `e`,
//! `f`, `w`, `d` or `a` are those letters themselves, and no character
//! lower-cases to `:` or a space but itself.

use vstd::prelude::*;

use crate::db::{Database, DbState};
use crate::models::{opt_str_view, owned};
use crate::text::{
    chars_of, chars_start_with_ci, extend_chars, lemma_trim_len, starts_with_ci, string_of,
    sub_chars, trim, trim_chars, ascii_lower,
};

verus! {

/// The subject recorded for a message without one.
pub open spec fn no_subject() -> Seq<char> {
    "(no subject)"@
}

/// How long the reply or forward prefix at the start of `s` is (`Re:`,
/// `Re `, `Fwd:`, `Fw:` or `Aw:`, in any case), or 0.
pub open spec fn reply_prefix_len(s: Seq<char>) -> int {
    if starts_with_ci(s, "re:"@) || starts_with_ci(s, "re "@) {
        3
    } else if starts_with_ci(s, "fwd:"@) {
        4
    } else if starts_with_ci(s, "fw:"@) || starts_with_ci(s, "aw:"@) {
        3
    } else {
        0
    }
}

pub proof fn lemma_reply_prefix_len(s: Seq<char>)
    ensures
        0 <= reply_prefix_len(s) <= s.len(),
{
    reveal_strlit("re:");
    reveal_strlit("re ");
    reveal_strlit("fwd:");
    reveal_strlit("fw:");
    reveal_strlit("aw:");
}

/// `s` with reply and forward prefixes removed, repeatedly, trimming the
/// rest after each.
pub open spec fn strip_reply_prefixes(s: Seq<char>) -> Seq<char>
    decreases s.len(),
{
    let n = reply_prefix_len(s);
    if n > 0 {
        proof {
            lemma_reply_prefix_len(s);
            lemma_trim_len(s.skip(n));
        }
        strip_reply_prefixes(trim(s.skip(n)))
    } else {
        s
    }
}

/// The normalized subject that identifies a thread: the subject (or
/// `(no subject)`) without reply and forward prefixes, `(no subject)` when
/// nothing is left.
pub open spec fn normalized_subject(subject: Option<Seq<char>>) -> Seq<char> {
    let s = strip_reply_prefixes(
        match subject {
            Some(x) => x,
            None => no_subject(),
        },
    );
    if s.len() == 0 {
        no_subject()
    } else {
        s
    }
}

/// The length of the reply prefix at the start of `v`.
fn reply_prefix_at(v: &Vec<char>) -> (r: usize)
    ensures
        r == reply_prefix_len(v@),
{
    let re_colon = chars_of("re:");
    let re_space = chars_of("re ");
    let fwd = chars_of("fwd:");
    let fw = chars_of("fw:");
    let aw = chars_of("aw:");
    if chars_start_with_ci(v, &re_colon) || chars_start_with_ci(v, &re_space) {
        3
    } else if chars_start_with_ci(v, &fwd) {
        4
    } else if chars_start_with_ci(v, &fw) || chars_start_with_ci(v, &aw) {
        3
    } else {
        0
    }
}

/// The normalized subject of `subject` (see `normalized_subject`).
pub fn normalize_subject(subject: Option<&str>) -> (r: String)
    ensures
        r@ == normalized_subject(opt_str_view(subject)),
{
    let mut v = match subject {
        Some(s) => chars_of(s),
        None => chars_of("(no subject)"),
    };
    let ghost start = v@;
    assert(start == match opt_str_view(subject) {
        Some(x) => x,
        None => no_subject(),
    });
    loop
        invariant
            strip_reply_prefixes(v@) == strip_reply_prefixes(start),
        ensures
            strip_reply_prefixes(v@) == strip_reply_prefixes(start),
            reply_prefix_len(v@) == 0,
        decreases v.len(),
    {
        let n = reply_prefix_at(&v);
        if n == 0 {
            break;
        }
        proof {
            lemma_reply_prefix_len(v@);
            lemma_trim_len(v@.skip(n as int));
        }
        let rest = sub_chars(&v, n, v.len());
        assert(rest@ =~= v@.skip(n as int));
        v = trim_chars(&rest);
    }
    assert(strip_reply_prefixes(v@) == v@);
    if v.len() == 0 {
        return owned("(no subject)");
    }
    string_of(&v)
}

/// A normalized subject has no reply or forward prefix left.
pub proof fn lemma_stripped_has_no_prefix(s: Seq<char>)
    ensures
        reply_prefix_len(strip_reply_prefixes(s)) == 0,
    decreases s.len(),
{
    let n = reply_prefix_len(s);
    if n > 0 {
        lemma_reply_prefix_len(s);
        lemma_trim_len(s.skip(n));
        lemma_stripped_has_no_prefix(trim(s.skip(n)));
    }
}

/// Normalizing a normalized subject changes nothing: a thread's normalized
/// subject is its own normal form.
pub proof fn law_normalize_subject_idempotent(subject: Option<Seq<char>>)
    ensures
        normalized_subject(Some(normalized_subject(subject))) == normalized_subject(subject),
{
    let base = match subject {
        Some(x) => x,
        None => no_subject(),
    };
    lemma_stripped_has_no_prefix(base);
    let r = strip_reply_prefixes(base);
    if r.len() == 0 {
        reveal_strlit("(no subject)");
        reveal_strlit("re:");
        reveal_strlit("re ");
        reveal_strlit("fwd:");
        reveal_strlit("fw:");
        reveal_strlit("aw:");
        assert(ascii_lower(no_subject()[0]) == '(');
        assert(reply_prefix_len(no_subject()) == 0);
    }
}

// ─── Replies ─────────────────────────────────────────────────────────────────

/// The subject of an outgoing message: the one given; for a reply without
/// one, the original's subject (`Re: (no subject)` when unknown) with `Re: `
/// put in front unless it already starts with `re:` in any case; otherwise
/// `(no subject)`.
pub open spec fn outgoing_subject(
    given: Option<Seq<char>>,
    in_reply_to: Option<Seq<char>>,
    db: DbState,
) -> Seq<char> {
    match given {
        Some(s) => s,
        None => match in_reply_to {
            Some(irt) => {
                let orig = match db.message_by_mid(irt) {
                    Some(m) => match m.subject {
                        Some(s) => s,
                        None => "Re: (no subject)"@,
                    },
                    None => "Re: (no subject)"@,
                };
                if starts_with_ci(orig, "re:"@) {
                    orig
                } else {
                    "Re: "@ + orig
                }
            },
            None => no_subject(),
        },
    }
}

/// The subject of an outgoing message (see `outgoing_subject`).
pub fn compose_subject(db: &Database, subject: Option<&str>, in_reply_to: Option<&str>) -> (r: String)
    ensures
        r@ == outgoing_subject(opt_str_view(subject), opt_str_view(in_reply_to), db@),
{
    match subject {
        Some(s) => owned(s),
        None => match in_reply_to {
            Some(irt) => {
                let found = db.get_subject_for_message_id(irt);
                let orig = match found {
                    Ok(Some(s)) => s,
                    _ => owned("Re: (no subject)"),
                };
                let ov = chars_of(orig.as_str());
                let re = chars_of("re:");
                if chars_start_with_ci(&ov, &re) {
                    orig
                } else {
                    let mut v = chars_of("Re: ");
                    extend_chars(&mut v, &ov);
                    string_of(&v)
                }
            },
            None => owned("(no subject)"),
        },
    }
}

/// The References of a reply to `in_reply_to`: the Message-IDs that the
/// stored conversation leads up to it with, then its own.
pub open spec fn reply_references(in_reply_to: Option<Seq<char>>, db: DbState) -> Seq<Seq<char>> {
    match in_reply_to {
        Some(irt) => db.references_for(irt).push(irt),
        None => seq![],
    }
}

/// The References of an outgoing message (see `reply_references`).
pub fn compose_references(db: &Database, in_reply_to: Option<&str>) -> (r: Vec<String>)
    ensures
        r@.map_values(|s: String| s@) == reply_references(opt_str_view(in_reply_to), db@),
{
    match in_reply_to {
        Some(irt) => {
            let mut refs = match db.get_references_for_message_id(irt) {
                Ok(v) => v,
                Err(_) => Vec::new(),
            };
            let ghost before = refs@.map_values(|s: String| s@);
            refs.push(owned(irt));
            assert(refs@.map_values(|s: String| s@) =~= before.push(irt@));
            refs
        },
        None => {
            let v: Vec<String> = Vec::new();
            assert(v@.map_values(|s: String| s@) =~= Seq::<Seq<char>>::empty());
            v
        },
    }
}


/// A normalized subject is never empty and starts with no reply or forward
/// prefix.
pub proof fn law_normalized_subject_is_clean(subject: Option<Seq<char>>)
    ensures
        normalized_subject(subject).len() > 0,
        reply_prefix_len(normalized_subject(subject)) == 0,
{
    let base = match subject {
        Some(x) => x,
        None => no_subject(),
    };
    lemma_stripped_has_no_prefix(base);
    reveal_strlit("(no subject)");
    reveal_strlit("re:");
    reveal_strlit("re ");
    reveal_strlit("fwd:");
    reveal_strlit("fw:");
    reveal_strlit("aw:");
    assert(ascii_lower(no_subject()[0]) == '(');
}

/// Whether `s` begins with "re:" in any case of its letters.
pub open spec fn begins_with_re_colon(s: Seq<char>) -> bool {
    &&& s.len() >= 3
    &&& s[0] == 'r' || s[0] == 'R'
    &&& s[1] == 'e' || s[1] == 'E'
    &&& s[2] == ':'
}

/// The subject of an outgoing message: a given subject is kept; a reply
/// without one takes the subject of the stored message it answers, kept as
/// it is when it begins with "re:" (any case) and with "Re: " put in front
/// otherwise, or "Re: (no subject)" when the answered message is unknown or
/// has no subject; a new message without one is "(no subject)".
pub proof fn law_reply_subject(given: Option<Seq<char>>, irt: Option<Seq<char>>, db: DbState)
    ensures
        given matches Some(s) ==> outgoing_subject(given, irt, db) == s,
        given is None && irt is None ==> outgoing_subject(given, irt, db) == "(no subject)"@,
        given is None ==> (irt matches Some(mid) ==> match db.message_by_mid(mid) {
            Some(m) => match m.subject {
                Some(orig) => outgoing_subject(given, irt, db) == if begins_with_re_colon(orig) {
                    orig
                } else {
                    "Re: "@ + orig
                },
                None => outgoing_subject(given, irt, db) == "Re: (no subject)"@,
            },
            None => outgoing_subject(given, irt, db) == "Re: (no subject)"@,
        }),
{
    reveal_strlit("re:");
    reveal_strlit("Re: (no subject)");
    reveal_strlit("(no subject)");
    if given is None {
        if let Some(mid) = irt {
            let orig = match db.message_by_mid(mid) {
                Some(m) => match m.subject {
                    Some(s) => s,
                    None => "Re: (no subject)"@,
                },
                None => "Re: (no subject)"@,
            };
            assert(starts_with_ci(orig, "re:"@) == begins_with_re_colon(orig)) by {
                if begins_with_re_colon(orig) {
                    assert forall|i: int| 0 <= i < 3 implies ascii_lower(#[trigger] orig[i]) == "re:"@[i] by {
                        if i == 0 {
                            assert(orig[0] == 'r' || orig[0] == 'R');
                        }
                    }
                }
                if starts_with_ci(orig, "re:"@) {
                    assert(ascii_lower(orig[0]) == 'r');
                    assert(ascii_lower(orig[1]) == 'e');
                    assert(ascii_lower(orig[2]) == ':');
                }
            }
        }
    }
}

} // verus!

