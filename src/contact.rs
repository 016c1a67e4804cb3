use vstd::prelude::*;

use crate::field_errors::FieldErrors;

verus! {

/// The key under which an email problem is reported.
pub open spec fn email_key() -> Seq<char> {
    seq!['e', 'm', 'a', 'i', 'l']
}

/// The message for a missing or empty email.
pub open spec fn email_required_msg() -> Seq<char> {
    "Email Required"@
}

/// The message for an email that another contact already has.
pub open spec fn email_taken_msg() -> Seq<char> {
    "Email Already Exists"@
}

/// The characters of an optional string.
pub open spec fn opt_view(o: Option<String>) -> Option<Seq<char>> {
    match o {
        Some(s) => Some(s@),
        None => None,
    }
}

/// A contact as a mathematical value.
pub struct ContactView {
    pub id: Option<u64>,
    pub first: Option<Seq<char>>,
    pub last: Option<Seq<char>>,
    pub phone: Option<Seq<char>>,
    pub email: Option<Seq<char>>,
    pub errors: Map<Seq<char>, Seq<char>>,
}

/// Whether an email is present and non-empty.
pub open spec fn email_ok(email: Option<Seq<char>>) -> bool {
    match email {
        Some(e) => e.len() > 0,
        None => false,
    }
}

/// The error map that a fresh validation pass produces for `email`.
pub open spec fn validation_errors(email: Option<Seq<char>>) -> Map<Seq<char>, Seq<char>> {
    if email_ok(email) {
        Map::empty()
    } else {
        Map::empty().insert(email_key(), email_required_msg())
    }
}

/// `c` after a fresh validation pass: its errors recomputed from its email.
pub open spec fn validated(c: ContactView) -> ContactView {
    ContactView { errors: validation_errors(c.email), ..c }
}

/// A person record. `id` is absent until the contact is first saved;
/// `errors` holds the problems found by the latest validation pass.
pub struct Contact {
    pub id: Option<u64>,
    pub first: Option<String>,
    pub last: Option<String>,
    pub phone: Option<String>,
    pub email: Option<String>,
    pub errors: FieldErrors,
}

impl View for Contact {
    type V = ContactView;

    open spec fn view(&self) -> ContactView {
        ContactView {
            id: self.id,
            first: opt_view(self.first),
            last: opt_view(self.last),
            phone: opt_view(self.phone),
            email: opt_view(self.email),
            errors: self.errors@,
        }
    }
}

fn copy_text(o: &Option<String>) -> (r: Option<String>)
    ensures
        opt_view(r) == opt_view(*o),
{
    match o {
        Some(s) => Some(s.clone()),
        None => None,
    }
}

impl Default for Contact {
    fn default() -> (r: Contact)
        ensures
            r.wf(),
            r@ == (ContactView {
                id: None,
                first: None,
                last: None,
                phone: None,
                email: None,
                errors: Map::empty(),
            }),
    {
        Contact {
            id: None,
            first: None,
            last: None,
            phone: None,
            email: None,
            errors: FieldErrors::new(),
        }
    }
}

impl Contact {
    /// The error map is consistent.
    pub open spec fn wf(&self) -> bool {
        self.errors.wf()
    }

    /// A contact with the given fields, no id and no errors.
    pub fn new(
        first: Option<String>,
        last: Option<String>,
        phone: Option<String>,
        email: Option<String>,
    ) -> (r: Contact)
        ensures
            r.wf(),
            r@ == (ContactView {
                id: None,
                first: opt_view(first),
                last: opt_view(last),
                phone: opt_view(phone),
                email: opt_view(email),
                errors: Map::empty(),
            }),
    {
        Contact { id: None, first, last, phone, email, errors: FieldErrors::new() }
    }

    /// Recomputes `errors` from the current fields, replacing what was there,
    /// and returns whether the contact is valid. The email is required.
    pub fn validate(&mut self) -> (r: bool)
        requires
            old(self).wf(),
        ensures
            final(self).wf(),
            final(self)@ == validated(old(self)@),
            r == email_ok(old(self)@.email),
    {
        self.errors = FieldErrors::new();
        let missing = match &self.email {
            Some(e) => e.unicode_len() == 0,
            None => true,
        };
        if missing {
            self.errors.insert("email".to_owned(), "Email Required".to_owned());
            proof {
                reveal_strlit("email");
                assert("email"@ =~= email_key());
            }
        }
        let r = self.errors.is_empty();
        proof {
            if missing {
                assert(self.errors@.contains_key(email_key()));
            }
        }
        assert(self.errors@ =~= validation_errors(old(self)@.email));
        r
    }

    /// Replaces the four editable fields; absent values overwrite present ones.
    pub fn update(
        &mut self,
        first: Option<String>,
        last: Option<String>,
        phone: Option<String>,
        email: Option<String>,
    )
        ensures
            final(self)@ == (ContactView {
                first: opt_view(first),
                last: opt_view(last),
                phone: opt_view(phone),
                email: opt_view(email),
                ..old(self)@
            }),
            final(self).errors == old(self).errors,
    {
        self.first = first;
        self.last = last;
        self.phone = phone;
        self.email = email;
    }

    /// A copy with the same view.
    pub fn duplicate(&self) -> (r: Contact)
        requires
            self.wf(),
        ensures
            r.wf(),
            r@ == self@,
    {
        Contact {
            id: self.id,
            first: copy_text(&self.first),
            last: copy_text(&self.last),
            phone: copy_text(&self.phone),
            email: copy_text(&self.email),
            errors: self.errors.duplicate(),
        }
    }
}

} // verus!
