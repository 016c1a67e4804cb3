use vstd::prelude::*;

use crate::contact::{
    email_key, email_ok, email_taken_msg, validated, Contact, ContactView,
};
use crate::field_errors::FieldErrors;
use crate::text::{field_contains, is_substring};

verus! {

/// How many contacts one page of a listing holds.
pub const PAGE_SIZE: usize = 10;

/// The views of a sequence of contacts.
pub open spec fn views(v: Seq<Contact>) -> Seq<ContactView> {
    v.map_values(|c: Contact| c@)
}

/// Whether some contact of `s` has id `id`.
pub open spec fn has_id(s: Seq<ContactView>, id: u64) -> bool {
    exists|i: int| 0 <= i < s.len() && #[trigger] s[i].id == Some(id)
}

/// The position of the contact with id `id` (meaningful when `has_id`).
pub open spec fn index_of(s: Seq<ContactView>, id: u64) -> int {
    choose|i: int| 0 <= i < s.len() && #[trigger] s[i].id == Some(id)
}

/// Every stored contact has an id and no errors, and no id occurs twice.
pub open spec fn store_ok(s: Seq<ContactView>) -> bool {
    &&& forall|i: int| 0 <= i < s.len() ==> (#[trigger] s[i]).id is Some
    &&& forall|i: int| 0 <= i < s.len() ==> (#[trigger] s[i]).errors == Map::<Seq<char>, Seq<char>>::empty()
    &&& forall|i: int, j: int| 0 <= i < j < s.len() ==> (#[trigger] s[i]).id != (#[trigger] s[j]).id
}

/// The id of a contact, or 0 where it has none.
pub open spec fn id_value(c: ContactView) -> u64 {
    match c.id {
        Some(k) => k,
        None => 0,
    }
}

/// The largest id in `s`, if `s` is not empty.
pub open spec fn max_key(s: Seq<ContactView>) -> Option<u64>
    decreases s.len(),
{
    if s.len() == 0 {
        None
    } else {
        let k = id_value(s.last());
        match max_key(s.drop_last()) {
            Some(m) => if m >= k { Some(m) } else { Some(k) },
            None => Some(k),
        }
    }
}

/// The id that the next new contact gets: one more than the largest id,
/// where an empty store counts as having largest id 1.
pub open spec fn next_id(s: Seq<ContactView>) -> int {
    match max_key(s) {
        Some(m) => m + 1,
        None => 2,
    }
}

/// `s` with `c` stored under its id: in place where that id is present,
/// at the end otherwise.
pub open spec fn put(s: Seq<ContactView>, c: ContactView) -> Seq<ContactView> {
    if has_id(s, id_value(c)) {
        s.update(index_of(s, id_value(c)), c)
    } else {
        s.push(c)
    }
}

/// `s` without the contact of id `id`.
pub open spec fn remove_id(s: Seq<ContactView>, id: u64) -> Seq<ContactView> {
    if has_id(s, id) {
        s.remove(index_of(s, id))
    } else {
        s
    }
}

/// Whether a contact other than `c` (by id) has exactly `c`'s email.
pub open spec fn email_conflict(s: Seq<ContactView>, c: ContactView) -> bool {
    exists|i: int| 0 <= i < s.len() && #[trigger] s[i].email == c.email && s[i].id != c.id
}

/// The form in which a valid contact is stored.
pub open spec fn saved_view(s: Seq<ContactView>, c: ContactView) -> ContactView {
    ContactView {
        id: Some(
            match c.id {
                Some(k) => k,
                None => next_id(s) as u64,
            },
        ),
        errors: Map::empty(),
        ..c
    }
}

/// The contact as handed back when its email is already taken.
pub open spec fn rejected_taken(c: ContactView) -> ContactView {
    ContactView { errors: Map::empty().insert(email_key(), email_taken_msg()), ..c }
}

/// Whether an optional field holds `q`.
pub open spec fn text_matches(field: Option<Seq<char>>, q: Seq<char>) -> bool {
    match field {
        Some(t) => is_substring(q, t),
        None => false,
    }
}

/// Whether `q` occurs in the first name, last name, phone or email of `c`.
pub open spec fn contact_matches(c: ContactView, q: Seq<char>) -> bool {
    text_matches(c.first, q) || text_matches(c.last, q) || text_matches(c.phone, q)
        || text_matches(c.email, q)
}

/// The contacts of `s` that match `q`, in store order.
pub open spec fn matching(s: Seq<ContactView>, q: Seq<char>) -> Seq<ContactView>
    decreases s.len(),
{
    if s.len() == 0 {
        Seq::empty()
    } else {
        let rest = matching(s.drop_last(), q);
        if contact_matches(s.last(), q) {
            rest.push(s.last())
        } else {
            rest
        }
    }
}

/// Page `page` (counted from 1) of `s`.
pub open spec fn page_of(s: Seq<ContactView>, page: int) -> Seq<ContactView> {
    let start = (page - 1) * PAGE_SIZE;
    if start >= s.len() {
        Seq::empty()
    } else if start + PAGE_SIZE >= s.len() {
        s.subrange(start, s.len() as int)
    } else {
        s.subrange(start, start + PAGE_SIZE)
    }
}

/// A contact as read back from storage: its error map is dropped.
pub open spec fn loaded_view(c: ContactView) -> ContactView {
    ContactView { errors: Map::empty(), ..c }
}

/// The store that results from storing each of `s` in turn.
pub open spec fn load(s: Seq<ContactView>) -> Seq<ContactView>
    decreases s.len(),
{
    if s.len() == 0 {
        Seq::empty()
    } else {
        put(load(s.drop_last()), loaded_view(s.last()))
    }
}

/// The in-memory collection of contacts, keyed by id.
pub struct ContactStore {
    contacts: Vec<Contact>,
}

impl View for ContactStore {
    type V = Seq<ContactView>;

    closed spec fn view(&self) -> Seq<ContactView> {
        views(self.contacts@)
    }
}

proof fn lemma_index_of_unique(s: Seq<ContactView>, id: u64, i: int)
    requires
        store_ok(s),
        0 <= i < s.len(),
        s[i].id == Some(id),
    ensures
        has_id(s, id),
        index_of(s, id) == i,
{
    assert(has_id(s, id));
    let j = index_of(s, id);
    if j < i {
        assert(s[j].id != s[i].id);
    } else if i < j {
        assert(s[i].id != s[j].id);
    }
}

impl ContactStore {
    /// Each contact is consistent and the view is a valid store.
    pub closed spec fn wf(&self) -> bool {
        &&& forall|i: int| 0 <= i < self.contacts@.len() ==> (#[trigger] self.contacts@[i]).wf()
        &&& store_ok(self@)
    }

    /// A well-formed store's view satisfies `store_ok`.
    pub proof fn lemma_view_ok(&self)
        requires
            self.wf(),
        ensures
            store_ok(self@),
    {
    }

    /// An empty store.
    pub fn new() -> (r: ContactStore)
        ensures
            r.wf(),
            r@ == Seq::<ContactView>::empty(),
    {
        let r = ContactStore { contacts: Vec::new() };
        assert(r@ =~= Seq::<ContactView>::empty());
        r
    }

    /// How many contacts are stored.
    pub fn count(&self) -> (r: usize)
        ensures
            r == self@.len(),
    {
        self.contacts.len()
    }

    fn position(&self, id: u64) -> (r: Option<usize>)
        requires
            self.wf(),
        ensures
            r is None <==> !has_id(self@, id),
            r matches Some(i) ==> i < self@.len() && index_of(self@, id) == i,
    {
        let mut i: usize = 0;
        while i < self.contacts.len()
            invariant
                self.wf(),
                0 <= i <= self@.len(),
                forall|j: int| 0 <= j < i ==> self@[j].id != Some(id),
            decreases self@.len() - i,
        {
            if self.contacts[i].id == Some(id) {
                proof {
                    lemma_index_of_unique(self@, id, i as int);
                }
                return Some(i);
            }
            i = i + 1;
        }
        None
    }

    /// The contact with id `id`, or `None` where no contact has it.
    pub fn find(&self, id: u64) -> (r: Option<Contact>)
        requires
            self.wf(),
        ensures
            r is None <==> !has_id(self@, id),
            r matches Some(c) ==> c.wf() && c@ == self@[index_of(self@, id)],
    {
        match self.position(id) {
            Some(i) => Some(self.contacts[i].duplicate()),
            None => None,
        }
    }

    /// The largest stored id, or 1 where the store is empty.
    pub fn max_id(&self) -> (r: u64)
        requires
            self.wf(),
        ensures
            r == match max_key(self@) {
                Some(m) => m,
                None => 1,
            },
    {
        let mut best: Option<u64> = None;
        let mut i: usize = 0;
        while i < self.contacts.len()
            invariant
                self.wf(),
                0 <= i <= self@.len(),
                best == max_key(self@.subrange(0, i as int)),
            decreases self@.len() - i,
        {
            assert(self@.subrange(0, i + 1).drop_last() =~= self@.subrange(0, i as int));
            let k = match self.contacts[i].id {
                Some(k) => k,
                None => 0,
            };
            best = match best {
                Some(m) => if m >= k { Some(m) } else { Some(k) },
                None => Some(k),
            };
            i = i + 1;
        }
        assert(self@.subrange(0, self@.len() as int) =~= self@);
        match best {
            Some(m) => m,
            None => 1,
        }
    }

    /// Stores `c` under its id, in place where the id is present.
    fn put(&mut self, c: Contact)
        requires
            old(self).wf(),
            c.wf(),
            c@.id is Some,
            c@.errors == Map::<Seq<char>, Seq<char>>::empty(),
        ensures
            final(self).wf(),
            final(self)@ == put(old(self)@, c@),
    {
        let ghost s0 = self@;
        let ghost v0 = self.contacts@;
        let ghost cv = c@;
        let id = match c.id {
            Some(k) => k,
            None => 0,
        };
        match self.position(id) {
            Some(i) => {
                self.contacts.set(i, c);
                assert(self@ =~= s0.update(i as int, cv));
            },
            None => {
                self.contacts.push(c);
                assert(self@ =~= s0.push(cv));
                assert forall|i: int, j: int| 0 <= i < j < self@.len() implies (#[trigger] self@[i]).id
                    != (#[trigger] self@[j]).id by {
                    if j == s0.len() {
                        assert(s0[i].id != Some(id));
                    }
                }
            },
        }
        assert forall|i: int| 0 <= i < self.contacts@.len() implies (
        #[trigger] self.contacts@[i]).wf() by {
            if i < v0.len() && self.contacts@[i] != c {
                assert(self.contacts@[i] == v0[i]);
            }
        }
    }

    /// Whether a contact other than `c` (by id) has exactly `c`'s email.
    fn email_taken(&self, c: &Contact) -> (r: bool)
        requires
            self.wf(),
        ensures
            r == email_conflict(self@, c@),
    {
        let mut i: usize = 0;
        while i < self.contacts.len()
            invariant
                self.wf(),
                0 <= i <= self@.len(),
                forall|j: int| 0 <= j < i ==> !(#[trigger] self@[j].email == c@.email && self@[j].id != c@.id),
            decreases self@.len() - i,
        {
            let other = &self.contacts[i];
            assert(self@[i as int] == other@);
            if same_text(&other.email, &c.email) && !same_id(other.id, c.id) {
                assert(self@[i as int].email == c@.email && self@[i as int].id != c@.id);
                return true;
            }
            i = i + 1;
        }
        false
    }

    /// Runs the field checks on `contact`, then checks that no other contact
    /// has its email, recording the problem found; returns whether it passed.
    fn validate(&self, contact: &mut Contact) -> (r: bool)
        requires
            self.wf(),
            old(contact).wf(),
        ensures
            final(contact).wf(),
            r == (email_ok(old(contact)@.email) && !email_conflict(self@, old(contact)@)),
            final(contact)@ == if email_ok(old(contact)@.email) && email_conflict(
                self@,
                old(contact)@,
            ) {
                rejected_taken(old(contact)@)
            } else {
                validated(old(contact)@)
            },
    {
        let ghost given = contact@;
        if !contact.validate() {
            return false;
        }
        if self.email_taken(contact) {
            contact.errors.insert("email".to_owned(), "Email Already Exists".to_owned());
            proof {
                reveal_strlit("email");
                reveal_strlit("Email Already Exists");
                assert("email"@ =~= email_key());
                assert(contact@.errors =~= rejected_taken(given).errors);
            }
            return false;
        }
        true
    }

    /// Whether a new contact can still be given an id.
    pub fn has_free_id(&self) -> (r: bool)
        requires
            self.wf(),
        ensures
            r == (next_id(self@) <= u64::MAX),
    {
        self.max_id() < u64::MAX
    }

    /// Validates `contact` and stores it, giving it the next id where it has none.
    ///
    /// Fails, leaving the store as it was and handing the contact back with its
    /// errors, where the email is missing or empty, or where another contact
    /// already has the same email.
    pub fn save(&mut self, contact: Contact) -> (r: Result<(), Contact>)
        requires
            old(self).wf(),
            contact.wf(),
            contact.id is Some || next_id(old(self)@) <= u64::MAX,
        ensures
            final(self).wf(),
            !email_ok(contact@.email) ==> {
                &&& final(self)@ == old(self)@
                &&& r matches Err(e) && e.wf() && e@ == validated(contact@)
            },
            email_ok(contact@.email) && email_conflict(old(self)@, contact@) ==> {
                &&& final(self)@ == old(self)@
                &&& r matches Err(e) && e.wf() && e@ == rejected_taken(contact@)
            },
            email_ok(contact@.email) && !email_conflict(old(self)@, contact@) ==> {
                &&& r is Ok
                &&& final(self)@ == put(old(self)@, saved_view(old(self)@, contact@))
            },
    {
        let mut contact = contact;
        if !self.validate(&mut contact) {
            return Err(contact);
        }
        if contact.id.is_none() {
            let m = self.max_id();
            contact.id = Some(m + 1);
        }
        self.put(contact);
        Ok(())
    }

    /// Removes the contact with `contact`'s id; nothing happens where no
    /// contact has it.
    pub fn delete(&mut self, contact: Contact)
        requires
            old(self).wf(),
            contact.id is Some,
        ensures
            final(self).wf(),
            final(self)@ == remove_id(old(self)@, contact.id.unwrap()),
    {
        let id = match contact.id {
            Some(k) => k,
            None => 0,
        };
        let ghost s0 = self@;
        let ghost v0 = self.contacts@;
        match self.position(id) {
            Some(i) => {
                self.contacts.remove(i);
                assert(self@ =~= s0.remove(i as int));
                assert forall|a: int, b: int| 0 <= a < b < self@.len() implies (#[trigger] self@[a]).id
                    != (#[trigger] self@[b]).id by {
                    let a0 = if a < i { a } else { a + 1 };
                    let b0 = if b < i { b } else { b + 1 };
                    assert(self@[a] == s0[a0]);
                    assert(self@[b] == s0[b0]);
                }
                assert forall|k: int| 0 <= k < self.contacts@.len() implies (
                #[trigger] self.contacts@[k]).wf() by {
                    let k0 = if k < i { k } else { k + 1 };
                    assert(self.contacts@[k] == v0[k0]);
                }
                assert forall|k: int| 0 <= k < self@.len() implies (#[trigger] self@[k]).id is Some
                    && self@[k].errors == Map::<Seq<char>, Seq<char>>::empty() by {
                    let k0 = if k < i { k } else { k + 1 };
                    assert(self@[k] == s0[k0]);
                }
            },
            None => {},
        }
    }

    /// Page `page` of the listing: at most `PAGE_SIZE` contacts, from
    /// position `(page - 1) * PAGE_SIZE` on.
    pub fn all(&self, page: usize) -> (r: Vec<Contact>)
        requires
            self.wf(),
            page >= 1,
        ensures
            views(r@) == page_of(self@, page as int),
            forall|i: int| 0 <= i < r@.len() ==> (#[trigger] r@[i]).wf(),
    {
        let len = self.contacts.len();
        let start = match (page - 1).checked_mul(PAGE_SIZE) {
            Some(s) => s,
            None => {
                let r: Vec<Contact> = Vec::new();
                assert(views(r@) =~= page_of(self@, page as int));
                return r;
            },
        };
        if start >= len {
            let r: Vec<Contact> = Vec::new();
            assert(views(r@) =~= page_of(self@, page as int));
            return r;
        }
        let end = if len - start > PAGE_SIZE {
            start + PAGE_SIZE
        } else {
            len
        };
        let mut r: Vec<Contact> = Vec::new();
        let mut i: usize = start;
        while i < end
            invariant
                self.wf(),
                start <= i <= end <= self@.len(),
                views(r@) == self@.subrange(start as int, i as int),
                forall|j: int| 0 <= j < r@.len() ==> (#[trigger] r@[j]).wf(),
            decreases end - i,
        {
            let ghost before = r@;
            let c = self.contacts[i].duplicate();
            r.push(c);
            assert(views(r@) =~= views(before).push(self@[i as int]));
            i = i + 1;
            assert(views(r@) =~= self@.subrange(start as int, i as int));
        }
        assert(views(r@) =~= page_of(self@, page as int));
        r
    }

    /// Every contact that has `query` in its first name, last name, phone or
    /// email, in store order.
    pub fn search(&self, query: &str) -> (r: Vec<Contact>)
        requires
            self.wf(),
        ensures
            views(r@) == matching(self@, query@),
            forall|i: int| 0 <= i < r@.len() ==> (#[trigger] r@[i]).wf(),
    {
        let mut r: Vec<Contact> = Vec::new();
        let mut i: usize = 0;
        while i < self.contacts.len()
            invariant
                self.wf(),
                0 <= i <= self@.len(),
                views(r@) == matching(self@.subrange(0, i as int), query@),
                forall|j: int| 0 <= j < r@.len() ==> (#[trigger] r@[j]).wf(),
            decreases self@.len() - i,
        {
            assert(self@.subrange(0, i + 1).drop_last() =~= self@.subrange(0, i as int));
            let c = &self.contacts[i];
            assert(self@[i as int] == c@);
            if field_contains(&c.first, query) || field_contains(&c.last, query)
                || field_contains(&c.phone, query) || field_contains(&c.email, query) {
                let ghost before = r@;
                r.push(c.duplicate());
                assert(views(r@) =~= views(before).push(c@));
            }
            i = i + 1;
        }
        assert(self@.subrange(0, self@.len() as int) =~= self@);
        r
    }

    /// Copies of all stored contacts, in store order: what gets persisted.
    pub fn snapshot(&self) -> (r: Vec<Contact>)
        requires
            self.wf(),
        ensures
            views(r@) == self@,
            forall|i: int| 0 <= i < r@.len() ==> (#[trigger] r@[i]).wf(),
    {
        let mut r: Vec<Contact> = Vec::new();
        let mut i: usize = 0;
        while i < self.contacts.len()
            invariant
                self.wf(),
                0 <= i <= self@.len(),
                views(r@) == self@.subrange(0, i as int),
                forall|j: int| 0 <= j < r@.len() ==> (#[trigger] r@[j]).wf(),
            decreases self@.len() - i,
        {
            let ghost before = r@;
            r.push(self.contacts[i].duplicate());
            assert(views(r@) =~= views(before).push(self@[i as int]));
            i = i + 1;
            assert(views(r@) =~= self@.subrange(0, i as int));
        }
        assert(views(r@) =~= self@);
        r
    }

    /// A store holding `list`, each contact stored in turn under its id (a
    /// later one replaces an earlier one of the same id) with its errors
    /// dropped; `None` where some contact has no id.
    pub fn from_contacts(list: Vec<Contact>) -> (r: Option<ContactStore>)
        requires
            forall|i: int| 0 <= i < list@.len() ==> (#[trigger] list@[i]).wf(),
        ensures
            r is None <==> exists|i: int| 0 <= i < list@.len() && (#[trigger] list@[i]).id is None,
            r matches Some(s) ==> s.wf() && s@ == load(views(list@)),
    {
        let mut k: usize = 0;
        while k < list.len()
            invariant
                0 <= k <= list@.len(),
                forall|j: int| 0 <= j < k ==> (#[trigger] list@[j]).id is Some,
            decreases list@.len() - k,
        {
            if list[k].id.is_none() {
                return None;
            }
            k = k + 1;
        }
        let ghost lv = views(list@);
        let mut store = ContactStore::new();
        let mut i: usize = 0;
        while i < list.len()
            invariant
                0 <= i <= list@.len(),
                lv == views(list@),
                forall|j: int| 0 <= j < list@.len() ==> (#[trigger] list@[j]).id is Some,
                forall|j: int| 0 <= j < list@.len() ==> (#[trigger] list@[j]).wf(),
                store.wf(),
                store@ == load(lv.subrange(0, i as int)),
            decreases list@.len() - i,
        {
            assert(lv.subrange(0, i + 1).drop_last() =~= lv.subrange(0, i as int));
            let d = list[i].duplicate();
            let c = Contact {
                id: d.id,
                first: d.first,
                last: d.last,
                phone: d.phone,
                email: d.email,
                errors: FieldErrors::new(),
            };
            assert(c@ == loaded_view(lv[i as int]));
            store.put(c);
            i = i + 1;
        }
        assert(lv.subrange(0, lv.len() as int) =~= lv);
        Some(store)
    }
}

fn same_text(a: &Option<String>, b: &Option<String>) -> (r: bool)
    ensures
        r == (crate::contact::opt_view(*a) == crate::contact::opt_view(*b)),
{
    match (a, b) {
        (Some(x), Some(y)) => *x == *y,
        (None, None) => true,
        _ => false,
    }
}

fn same_id(a: Option<u64>, b: Option<u64>) -> (r: bool)
    ensures
        r == (a == b),
{
    match (a, b) {
        (Some(x), Some(y)) => x == y,
        (None, None) => true,
        _ => false,
    }
}

} // verus!
