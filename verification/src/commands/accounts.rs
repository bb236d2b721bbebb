//! Reading the list of mail accounts that the system's Mail application
//! reports: `name|address` items separated by `, `.

use vstd::prelude::*;

use crate::db::{first_index, lemma_first_index, lemma_first_index_at};
use crate::imap::headers::{decode_utf8_lossy, utf8_lossy};
use crate::models::MacosAccount;
use crate::text::{chars_occur_at, chars_of, string_of, sub_chars, trim, trim_chars};

verus! {

/// `i` is the first position where `sep` occurs in `s`.
pub open spec fn is_first_at(s: Seq<char>, sep: Seq<char>, i: int) -> bool {
    chars_occur_at(s, sep, i) && forall|j: int| 0 <= j < i ==> !chars_occur_at(s, sep, j)
}

/// The pieces of `s` between the occurrences of `sep` (not empty), found
/// from the left (`str::split`).
pub open spec fn split_on(s: Seq<char>, sep: Seq<char>) -> Seq<Seq<char>>
    decreases s.len(),
{
    if sep.len() > 0 && exists|i: int| is_first_at(s, sep, i) {
        let i = choose|i: int| is_first_at(s, sep, i);
        seq![s.take(i)] + split_on(s.skip(i + sep.len()), sep)
    } else {
        seq![s]
    }
}

proof fn lemma_first_at_unique(s: Seq<char>, sep: Seq<char>, i: int, j: int)
    requires
        is_first_at(s, sep, i),
        is_first_at(s, sep, j),
    ensures
        i == j,
{
    if i < j {
        assert(!chars_occur_at(s, sep, i));
    } else if j < i {
        assert(!chars_occur_at(s, sep, j));
    }
}

/// Whether `sep` occurs in `v` at position `i`.
fn occurs_at(v: &Vec<char>, sep: &Vec<char>, i: usize) -> (r: bool)
    requires
        i + sep.len() <= v.len(),
    ensures
        r == chars_occur_at(v@, sep@, i as int),
{
    let mut k: usize = 0;
    while k < sep.len()
        invariant
            k <= sep.len(),
            i + sep.len() <= v.len(),
            v@.subrange(i as int, i + k) == sep@.take(k as int),
        decreases sep.len() - k,
    {
        if v[i + k] != sep[k] {
            assert(v@.subrange(i as int, i + sep.len())[k as int] != sep@[k as int]);
            return false;
        }
        assert(v@.subrange(i as int, i + k + 1) =~= v@.subrange(i as int, i + k).push(v@[i + k]));
        assert(sep@.take(k + 1) =~= sep@.take(k as int).push(sep@[k as int]));
        k = k + 1;
    }
    assert(sep@.take(sep.len() as int) =~= sep@);
    true
}

/// The pieces of `v` between the occurrences of `sep` (see `split_on`).
pub fn split_chars(v: &Vec<char>, sep: &Vec<char>) -> (r: Vec<Vec<char>>)
    requires
        sep.len() > 0,
    ensures
        crate::text::views(r@) == split_on(v@, sep@),
{
    let mut out: Vec<Vec<char>> = Vec::new();
    let mut start: usize = 0;
    let mut i: usize = 0;
    assert(v@.skip(0) =~= v@);
    assert(crate::text::views(out@) + split_on(v@, sep@) =~= split_on(v@, sep@));
    while i < v.len()
        invariant
            sep.len() > 0,
            start <= i <= v.len(),
            crate::text::views(out@) + split_on(v@.skip(start as int), sep@) == split_on(v@, sep@),
            forall|j: int| start <= j < i ==> !chars_occur_at(v@, sep@, j),
        decreases v.len() - i,
    {
        if sep.len() <= v.len() - i && occurs_at(v, sep, i) {
            let ghost rest = v@.skip(start as int);
            let ghost k = i - start;
            proof {
                assert forall|j: int| 0 <= j < k implies !chars_occur_at(rest, sep@, j) by {
                    if j + sep@.len() <= rest.len() {
                        assert(rest.subrange(j, j + sep@.len()) =~= v@.subrange(start + j, start + j + sep@.len()));
                        assert(!chars_occur_at(v@, sep@, start + j));
                    }
                }
                assert(rest.subrange(k, k + sep@.len()) =~= v@.subrange(i as int, i + sep@.len()));
                assert(is_first_at(rest, sep@, k));
                let c = choose|c: int| is_first_at(rest, sep@, c);
                lemma_first_at_unique(rest, sep@, c, k);
                assert(rest.take(k) =~= v@.subrange(start as int, i as int));
                assert(rest.skip(k + sep@.len()) =~= v@.skip(i + sep@.len()));
            }
            let piece = sub_chars(v, start, i);
            let ghost before = crate::text::views(out@);
            out.push(piece);
            assert(crate::text::views(out@) =~= before.push(piece@));
            assert(before.push(piece@) + split_on(v@.skip(i + sep@.len()), sep@) =~= before + (seq![piece@] + split_on(v@.skip(i + sep@.len()), sep@)));
            start = i + sep.len();
            i = start;
        } else {
            proof {
                if i + sep@.len() > v@.len() {
                    assert(!chars_occur_at(v@, sep@, i as int));
                }
            }
            i = i + 1;
        }
    }
    let ghost rest = v@.skip(start as int);
    proof {
        assert forall|j: int| !is_first_at(rest, sep@, j) by {
            if 0 <= j && j + sep@.len() <= rest.len() {
                assert(rest.subrange(j, j + sep@.len()) =~= v@.subrange(start + j, start + j + sep@.len()));
                assert(!chars_occur_at(v@, sep@, start + j));
            }
        }
    }
    let last = sub_chars(v, start, v.len());
    assert(last@ =~= rest);
    let ghost before = crate::text::views(out@);
    out.push(last);
    assert(crate::text::views(out@) =~= before.push(rest));
    out
}

/// Selects `|`.
pub open spec fn is_bar() -> spec_fn(char) -> bool {
    |c: char| c == '|'
}

/// The text before and after the first `|` of `item`, if it has one
/// (`str::split_once`).
pub open spec fn split_at_bar(item: Seq<char>) -> Option<(Seq<char>, Seq<char>)> {
    match first_index(item, is_bar()) {
        Some(k) => Some((item.take(k), item.skip(k + 1))),
        None => None,
    }
}

/// The account named in one item, if it holds a `|`.
pub open spec fn account_of(item: Seq<char>) -> Option<(Seq<char>, Seq<char>)> {
    split_at_bar(item)
}

/// The name and address of each account of the Mail application's answer:
/// the items of its trimmed text that hold a `|`, in order.
pub open spec fn macos_accounts(text: Seq<char>) -> Seq<(Seq<char>, Seq<char>)> {
    split_on(trim(text), ", "@).filter_map(|item: Seq<char>| account_of(item))
}

/// The name and address of each account, by their characters.
pub open spec fn macos_account_views(v: Seq<MacosAccount>) -> Seq<(Seq<char>, Seq<char>)> {
    v.map_values(|a: MacosAccount| (a.name@, a.email@))
}

/// The accounts that the Mail application reports in `stdout` (its output,
/// decoded leniently as UTF-8; see `macos_accounts`).
pub fn parse_macos_accounts(stdout: &[u8]) -> (r: Vec<MacosAccount>)
    ensures
        macos_account_views(r@) == macos_accounts(utf8_lossy(stdout@)),
{
    let text = decode_utf8_lossy(stdout);
    let chars = chars_of(text.as_str());
    let trimmed = trim_chars(&chars);
    let sep = chars_of(", ");
    proof {
        reveal_strlit(", ");
    }
    let items = split_chars(&trimmed, &sep);
    let ghost iv = crate::text::views(items@);
    let mut out: Vec<MacosAccount> = Vec::new();
    let mut i: usize = 0;
    while i < items.len()
        invariant
            i <= items.len(),
            iv == crate::text::views(items@),
            macos_account_views(out@) == iv.take(i as int).filter_map(|item: Seq<char>| account_of(item)),
        decreases items.len() - i,
    {
        let item = &items[i];
        assert(iv[i as int] == item@);
        let mut k: usize = 0;
        while k < item.len() && item[k] != '|'
            invariant
                k <= item.len(),
                forall|j: int| 0 <= j < k ==> !is_bar()(#[trigger] item@[j]),
            decreases item.len() - k,
        {
            k = k + 1;
        }
        proof {
            lemma_first_index_at(item@, is_bar(), k as int);
            iv.lemma_filter_map_take_succ(|item: Seq<char>| account_of(item), i as int);
        }
        if k < item.len() {
            assert(account_of(item@) == Some((item@.take(k as int), item@.skip(k + 1))));
            let name = sub_chars(item, 0, k);
            let email = sub_chars(item, k + 1, item.len());
            assert(name@ =~= item@.take(k as int));
            assert(email@ =~= item@.skip(k + 1));
            let ghost before = macos_account_views(out@);
            out.push(MacosAccount { name: string_of(&name), email: string_of(&email) });
            assert(macos_account_views(out@) =~= before + seq![(name@, email@)]);
        } else {
            assert(account_of(item@) is None);
        }
        i = i + 1;
    }
    assert(iv.take(items.len() as int) =~= iv);
    out
}

} // verus!
