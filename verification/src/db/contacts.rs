//! Contacts.

use vstd::prelude::*;

use crate::stamp::now_unix;

use super::rows::{filter_rows, limit_len, row_views, select_rows, selected, RowFilter};
use super::{contact_views, db_err, first_index, lemma_first_index, lemma_first_index_at, next_id, Database, DbState};
use crate::error::{AppError, AppResult, DbError};
use crate::like::{like_contains, opt_like_contains, text_like};
use crate::models::{opt_str_view, owned, owned_opt, Contact, ContactView};
use crate::order::{key_views, sort_positions, stable_order, OrderKey};
use crate::text::{chars_eq, chars_lt, chars_of, seq_lt, str_eq};

verus! {

/// Selects the contact with address `email`.
pub open spec fn contact_has_email(email: Seq<char>) -> spec_fn(ContactView) -> bool {
    |c: ContactView| c.email == email
}

/// Selects the contact with identifier `id`.
pub open spec fn contact_has_id(id: i64) -> spec_fn(ContactView) -> bool {
    |c: ContactView| c.id == id
}

/// The sort key of contacts: display name (absent names first), then
/// address.
pub struct ContactKey {
    pub name: Option<Vec<char>>,
    pub email: Vec<char>,
}

impl View for ContactKey {
    type V = (Option<Seq<char>>, Seq<char>);

    open spec fn view(&self) -> (Option<Seq<char>>, Seq<char>) {
        (
            match self.name {
                Some(n) => Some(n@),
                None => None,
            },
            self.email@,
        )
    }
}

/// Whether optional name `a` sorts strictly before `b` (absent first).
pub open spec fn name_lt(a: Option<Seq<char>>, b: Option<Seq<char>>) -> bool {
    match (a, b) {
        (None, Some(_)) => true,
        (Some(x), Some(y)) => seq_lt(x, y),
        _ => false,
    }
}

impl OrderKey for ContactKey {
    open spec fn key_lt(a: (Option<Seq<char>>, Seq<char>), b: (Option<Seq<char>>, Seq<char>)) -> bool {
        name_lt(a.0, b.0) || (a.0 == b.0 && seq_lt(a.1, b.1))
    }

    fn lt(&self, other: &Self) -> (r: bool) {
        let names_lt = match (&self.name, &other.name) {
            (None, Some(_)) => true,
            (Some(x), Some(y)) => chars_lt(x, y),
            _ => false,
        };
        let names_eq = match (&self.name, &other.name) {
            (None, None) => true,
            (Some(x), Some(y)) => chars_eq(x, y),
            _ => false,
        };
        names_lt || (names_eq && chars_lt(&self.email, &other.email))
    }
}

/// The sort key of a contact.
pub open spec fn contact_key(c: ContactView) -> (Option<Seq<char>>, Seq<char>) {
    (c.display_name, c.email)
}

/// `rows` ordered by display name, then address.
pub open spec fn contacts_in_order(rows: Seq<ContactView>) -> Seq<ContactView> {
    stable_order::<ContactKey>(rows.map_values(|c: ContactView| contact_key(c)), rows.len() as int).map_values(
        |i: int| rows[i],
    )
}

/// Whether a contact's address or display name contains `query`.
pub open spec fn contact_matches(query: Seq<char>) -> spec_fn(ContactView) -> bool {
    |c: ContactView| like_contains(c.email, query) || opt_like_contains(c.display_name, query)
}

/// Selects the contacts whose address or display name contains a query.
pub struct ContactQuery {
    pub query: Vec<char>,
}

impl RowFilter<Contact> for ContactQuery {
    open spec fn accepts(&self, c: ContactView) -> bool {
        contact_matches(self.query@)(c)
    }

    fn test(&self, c: &Contact) -> (r: bool) {
        text_like(c.email.as_str(), &self.query) || match &c.display_name {
            Some(n) => text_like(n.as_str(), &self.query),
            None => false,
        }
    }
}

/// The most contacts a search returns.
pub const CONTACT_SEARCH_LIMIT: usize = 50;

impl DbState {
    /// Recording contact `email` at time `now`: a known contact takes the new
    /// display name when one is given and is marked seen at `now`; an unknown
    /// one is added with the next identifier. The answer is the contact's
    /// identifier.
    pub open spec fn upsert_contact(self, email: Seq<char>, display_name: Option<Seq<char>>, now: i64) -> (
        DbState,
        AppResult<i64>,
    ) {
        match first_index(self.contacts, contact_has_email(email)) {
            Some(i) => {
                let c = self.contacts[i];
                let name = match display_name {
                    Some(n) => Some(n),
                    None => c.display_name,
                };
                (
                    DbState {
                        contacts: self.contacts.update(
                            i,
                            ContactView { display_name: name, last_seen: Some(now), ..c },
                        ),
                        ..self
                    },
                    Ok(c.id),
                )
            },
            None => match next_id(self.seq_contact) {
                None => (self, db_err(DbError::Full)),
                Some(id) => (
                    DbState {
                        contacts: self.contacts.push(
                            ContactView {
                                id,
                                email,
                                display_name,
                                avatar_url: None,
                                last_seen: Some(now),
                            },
                        ),
                        seq_contact: id,
                        last_rowid: id,
                        ..self
                    },
                    Ok(id),
                ),
            },
        }
    }

    /// The contact with address `email`, if any.
    pub open spec fn contact_by_email(self, email: Seq<char>) -> Option<ContactView> {
        match first_index(self.contacts, contact_has_email(email)) {
            Some(i) => Some(self.contacts[i]),
            None => None,
        }
    }

    /// The contact with identifier `id`, if any.
    pub open spec fn contact(self, id: i64) -> Option<ContactView> {
        match first_index(self.contacts, contact_has_id(id)) {
            Some(i) => Some(self.contacts[i]),
            None => None,
        }
    }

    /// All contacts by display name, then address.
    pub open spec fn contacts_sorted(self) -> Seq<ContactView> {
        contacts_in_order(self.contacts)
    }

    /// The contacts whose address or display name contains `query`, by
    /// display name and address, at most `CONTACT_SEARCH_LIMIT` of them.
    pub open spec fn contact_search(self, query: Seq<char>) -> Seq<ContactView> {
        let found = contacts_in_order(self.contacts.filter(contact_matches(query)));
        found.take(limit_len(CONTACT_SEARCH_LIMIT as i64, found.len() as int))
    }
}

impl Database {
    /// Position of the contact with address `email`.
    pub(crate) fn find_contact_by_email(&self, email: &str) -> (r: Option<usize>)
        ensures
            match r {
                Some(i) => i < self.contacts.len() && first_index(self@.contacts, contact_has_email(email@))
                    == Some(i as int),
                None => first_index(self@.contacts, contact_has_email(email@)) is None,
            },
    {
        let ghost s = self@.contacts;
        let mut i: usize = 0;
        while i < self.contacts.len()
            invariant
                i <= self.contacts.len(),
                s == contact_views(self.contacts@),
                forall|k: int| 0 <= k < i ==> !contact_has_email(email@)(#[trigger] s[k]),
            decreases self.contacts.len() - i,
        {
            if str_eq(self.contacts[i].email.as_str(), email) {
                proof {
                    lemma_first_index_at(s, contact_has_email(email@), i as int);
                }
                return Some(i);
            }
            i = i + 1;
        }
        proof {
            lemma_first_index_at(s, contact_has_email(email@), i as int);
        }
        None
    }

    /// Position of the contact with identifier `id`.
    pub(crate) fn find_contact(&self, id: i64) -> (r: Option<usize>)
        ensures
            match r {
                Some(i) => i < self.contacts.len() && first_index(self@.contacts, contact_has_id(id))
                    == Some(i as int),
                None => first_index(self@.contacts, contact_has_id(id)) is None,
            },
    {
        let ghost s = self@.contacts;
        let mut i: usize = 0;
        while i < self.contacts.len()
            invariant
                i <= self.contacts.len(),
                s == contact_views(self.contacts@),
                forall|k: int| 0 <= k < i ==> !contact_has_id(id)(#[trigger] s[k]),
            decreases self.contacts.len() - i,
        {
            if self.contacts[i].id == id {
                proof {
                    lemma_first_index_at(s, contact_has_id(id), i as int);
                }
                return Some(i);
            }
            i = i + 1;
        }
        proof {
            lemma_first_index_at(s, contact_has_id(id), i as int);
        }
        None
    }

    /// Whether a contact with identifier `id` exists.
    pub(crate) fn contact_exists(&self, id: i64) -> (r: bool)
        ensures
            r == self@.has_contact(id),
    {
        let r = self.find_contact(id);
        proof {
            lemma_first_index(self@.contacts, contact_has_id(id));
        }
        r.is_some()
    }

    /// Records contact `email`, seen at time `now` (see
    /// `DbState::upsert_contact`), and returns its identifier.
    pub fn upsert_contact_at(&mut self, email: &str, display_name: Option<&str>, now: i64) -> (r:
        AppResult<i64>)
        requires
            old(self).wf(),
        ensures
            final(self).wf(),
            (final(self)@, r) == old(self)@.upsert_contact(
                email@,
                opt_str_view(display_name),
                now,
            ),
    {
        let ghost before = self@;
        let ghost dn = match display_name {
            Some(n) => Some(n@),
            None => None,
        };
        match self.find_contact_by_email(email) {
            Some(i) => {
                let old_row = self.contacts[i].copy();
                let name = match display_name {
                    Some(n) => Some(owned(n)),
                    None => old_row.display_name,
                };
                let id = old_row.id;
                let row = Contact {
                    id,
                    email: old_row.email,
                    display_name: name,
                    avatar_url: old_row.avatar_url,
                    last_seen: Some(now),
                };
                self.contacts.set(i, row);
                let ghost after = self@;
                let ghost c = before.contacts[i as int];
                assert(after.contacts =~= before.contacts.update(
                    i as int,
                    crate::models::ContactView {
                        display_name: match dn {
                            Some(n) => Some(n),
                            None => c.display_name,
                        },
                        last_seen: Some(now),
                        ..c
                    },
                ));
                proof {
                    assert forall|k: int| 0 <= k < after.members.len() implies after.has_contact(
                        #[trigger] after.members[k].contact_id,
                    ) by {
                        let w = choose|w: int|
                            0 <= w < before.contacts.len() && #[trigger] before.contacts[w].id
                                == before.members[k].contact_id;
                        assert(after.contacts[w].id == before.contacts[w].id);
                    }
                }
                Ok(id)
            },
            None => {
                if self.seq_contact == i64::MAX {
                    return Err(AppError::Database(DbError::Full));
                }
                let id = self.seq_contact + 1;
                let row = Contact {
                    id,
                    email: owned(email),
                    display_name: owned_opt(display_name),
                    avatar_url: None,
                    last_seen: Some(now),
                };
                self.contacts.push(row);
                self.seq_contact = id;
                self.last_rowid = id;
                let ghost after = self@;
                proof {
                    lemma_first_index(before.contacts, contact_has_email(email@));
                    assert(after.contacts =~= before.contacts.push(
                        crate::models::ContactView {
                            id,
                            email: email@,
                            display_name: dn,
                            avatar_url: None,
                            last_seen: Some(now),
                        },
                    ));
                    assert forall|k: int| 0 <= k < after.members.len() implies after.has_contact(
                        #[trigger] after.members[k].contact_id,
                    ) by {
                        let w = choose|w: int|
                            0 <= w < before.contacts.len() && #[trigger] before.contacts[w].id
                                == before.members[k].contact_id;
                        assert(after.contacts[w] == before.contacts[w]);
                    }
                }
                Ok(id)
            },
        }
    }

    /// Records contact `email` as seen now (see `upsert_contact_at`).
    pub fn upsert_contact(&mut self, email: &str, display_name: Option<&str>) -> (r: AppResult<i64>)
        requires
            old(self).wf(),
        ensures
            final(self).wf(),
            exists|now: i64|
                (final(self)@, r) == #[trigger] old(self)@.upsert_contact(
                    email@,
                    opt_str_view(display_name),
                    now,
                ),
    {
        let now = now_unix();
        self.upsert_contact_at(email, display_name, now)
    }

    /// The contact with address `email`, if any.
    pub fn get_contact_by_email(&self, email: &str) -> (r: AppResult<Option<Contact>>)
        ensures
            r matches Ok(o) && match self@.contact_by_email(email@) {
                Some(c) => o matches Some(x) && x@ == c,
                None => o is None,
            },
    {
        match self.find_contact_by_email(email) {
            Some(i) => Ok(Some(self.contacts[i].copy())),
            None => Ok(None),
        }
    }

    /// `rows` ordered by display name, then address.
    fn sort_contacts(rows: &Vec<Contact>) -> (r: Vec<Contact>)
        ensures
            row_views(r@) == contacts_in_order(row_views(rows@)),
    {
        let mut keys: Vec<ContactKey> = Vec::new();
        let mut i: usize = 0;
        while i < rows.len()
            invariant
                i <= rows.len(),
                keys@.len() == i,
                forall|k: int| 0 <= k < i ==> #[trigger] keys@[k]@ == contact_key(rows@[k]@),
            decreases rows.len() - i,
        {
            let name = match &rows[i].display_name {
                Some(n) => Some(chars_of(n.as_str())),
                None => None,
            };
            keys.push(ContactKey { name, email: chars_of(rows[i].email.as_str()) });
            i = i + 1;
        }
        let ghost rv = row_views(rows@);
        assert(key_views(keys@) =~= rv.map_values(|c: ContactView| contact_key(c)));
        let pos = sort_positions(&keys);
        proof {
            crate::order::lemma_stable_order_len::<ContactKey>(key_views(keys@), keys@.len() as int);
        }
        let r = select_rows(rows, &pos);
        assert(row_views(r@) =~= contacts_in_order(rv));
        r
    }

    /// All contacts by display name, then address.
    pub fn list_contacts(&self) -> (r: AppResult<Vec<Contact>>)
        ensures
            r matches Ok(v) && row_views(v@) == self@.contacts_sorted(),
    {
        assert(row_views(self.contacts@) == self@.contacts);
        Ok(Self::sort_contacts(&self.contacts))
    }

    /// The contacts whose address or display name contains `query` (see
    /// `DbState::contact_search`).
    pub fn search_contacts(&self, query: &str) -> (r: AppResult<Vec<Contact>>)
        ensures
            r matches Ok(v) && row_views(v@) == self@.contact_search(query@),
    {
        let q = chars_of(query);
        let filter = ContactQuery { query: q };
        let found = filter_rows(&self.contacts, &filter);
        assert(row_views(self.contacts@) == self@.contacts);
        assert(selected::<Contact, ContactQuery>(&filter) =~= contact_matches(query@));
        let sorted = Self::sort_contacts(&found);
        let n = crate::db::rows::limit_count(CONTACT_SEARCH_LIMIT as i64, sorted.len());
        let mut r: Vec<Contact> = Vec::new();
        let mut i: usize = 0;
        while i < n
            invariant
                n <= sorted.len(),
                i <= n,
                row_views(r@) == row_views(sorted@).take(i as int),
            decreases n - i,
        {
            let ghost b = row_views(r@);
            r.push(sorted[i].copy());
            assert(row_views(r@) =~= b.push(sorted@[i as int]@));
            assert(row_views(sorted@).take(i + 1) =~= row_views(sorted@).take(i as int).push(
                sorted@[i as int]@,
            ));
            i = i + 1;
        }
        Ok(r)
    }
}

/// Recording a known address again answers the same identifier, and a
/// display name once given is kept when none is given.
pub proof fn lemma_upsert_contact_idempotent(
    s: DbState,
    email: Seq<char>,
    name: Option<Seq<char>>,
    t1: i64,
    t2: i64,
)
    requires
        s.wf(),
        s.upsert_contact(email, name, t1).1 is Ok,
    ensures
        ({
            let (s1, r1) = s.upsert_contact(email, name, t1);
            let (s2, r2) = s1.upsert_contact(email, None, t2);
            &&& r2 == r1
            &&& s2.contact_by_email(email) matches Some(c) && c.display_name == match name {
                Some(n) => Some(n),
                None => match s.contact_by_email(email) {
                    Some(c0) => c0.display_name,
                    None => None,
                },
            }
        }),
{
    let (s1, r1) = s.upsert_contact(email, name, t1);
    lemma_first_index(s.contacts, contact_has_email(email));
    match first_index(s.contacts, contact_has_email(email)) {
        Some(i) => {
            lemma_first_index(s1.contacts, contact_has_email(email));
            assert(s1.contacts[i].email == email);
            lemma_first_index_at(s1.contacts, contact_has_email(email), i);
            let (s2, r2) = s1.upsert_contact(email, None, t2);
            assert(s2.contacts[i].email == email);
            lemma_first_index_at(s2.contacts, contact_has_email(email), i);
        },
        None => {
            let n = s.contacts.len() as int;
            assert(s1.contacts[n].email == email);
            assert forall|k: int| 0 <= k < n implies !contact_has_email(email)(#[trigger] s1.contacts[k]) by {
                assert(s1.contacts[k] == s.contacts[k]);
            }
            lemma_first_index_at(s1.contacts, contact_has_email(email), n);
            let (s2, r2) = s1.upsert_contact(email, None, t2);
            assert forall|k: int| 0 <= k < n implies !contact_has_email(email)(#[trigger] s2.contacts[k]) by {
                assert(s2.contacts[k] == s1.contacts[k]);
            }
            assert(s2.contacts[n].email == email);
            lemma_first_index_at(s2.contacts, contact_has_email(email), n);
        },
    }
}

} // verus!
