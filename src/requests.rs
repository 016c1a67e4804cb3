use vstd::prelude::*;

use crate::contact::{email_ok, email_required_msg, opt_view, Contact, ContactView};

verus! {

/// The query of a listing request: a search term, if any.
pub struct ContactsParams {
    pub q: Option<String>,
}

/// The query of an inline email check.
pub struct ContactsEmailParams {
    pub email: Option<String>,
}

/// The fields of a submitted contact form.
pub struct NewContact {
    pub first_name: Option<String>,
    pub last_name: Option<String>,
    pub phone: Option<String>,
    pub email: Option<String>,
}

/// The contact that a submitted form describes: no id and no errors yet.
pub open spec fn form_contact(n: NewContact) -> ContactView {
    ContactView {
        id: None,
        first: opt_view(n.first_name),
        last: opt_view(n.last_name),
        phone: opt_view(n.phone),
        email: opt_view(n.email),
        errors: Map::empty(),
    }
}

impl NewContact {
    /// The contact that the form describes.
    pub fn into_contact(self) -> (r: Contact)
        ensures
            r.wf(),
            r@ == form_contact(self),
    {
        Contact::new(self.first_name, self.last_name, self.phone, self.email)
    }
}

/// Whether an optional string holds exactly `word`.
fn holds_word(s: &Option<String>, word: &str) -> (r: bool)
    ensures
        r == (opt_view(*s) == Some(word@)),
{
    match s {
        Some(t) => *t == word.to_owned(),
        None => false,
    }
}

/// Whether a listing request renders only the rows of the result (a
/// live-search keystroke) rather than the whole page.
pub fn renders_rows_only(params: &ContactsParams, trigger: &Option<String>) -> (r: bool)
    ensures
        r == (params.q is Some && opt_view(*trigger) == Some("search"@)),
{
    params.q.is_some() && holds_word(trigger, "search")
}

/// Whether a delete request came from the delete button, and so is answered
/// with a redirect to the listing.
pub fn redirects_after_delete(trigger: &Option<String>) -> (r: bool)
    ensures
        r == (opt_view(*trigger) == Some("delete-btn"@)),
{
    holds_word(trigger, "delete-btn")
}

/// The inline feedback for `email` as the new email of `contact`: the
/// message that validation records for the email, or an empty string.
pub fn email_feedback(contact: Contact, params: ContactsEmailParams) -> (r: String)
    requires
        contact.wf(),
    ensures
        r@ == if email_ok(opt_view(params.email)) {
            Seq::<char>::empty()
        } else {
            email_required_msg()
        },
{
    let mut contact = contact;
    contact.email = params.email;
    contact.validate();
    let key = "email";
    proof {
        reveal_strlit("email");
        assert(key@ =~= crate::contact::email_key());
    }
    match contact.errors.get(key) {
        Some(m) => m.clone(),
        None => String::new(),
    }
}

} // verus!
