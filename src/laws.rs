use vstd::prelude::*;

use crate::contact::{email_ok, validated, ContactView};
use crate::store::{
    contact_matches, email_conflict, has_id, index_of, load, loaded_view, matching, page_of, put,
    saved_view, store_ok, PAGE_SIZE,
};
use crate::text::is_substring;

verus! {

/// Validating twice in a row gives what validating once gives: each pass
/// recomputes the error map from the fields alone.
pub proof fn lemma_validate_idempotent(c: ContactView)
    ensures
        validated(validated(c)) == validated(c),
{
}

/// Once a contact with a non-empty email has been saved, any other contact
/// (by id) with that same email conflicts with it, so saving it fails.
pub proof fn lemma_duplicate_email_rejected(s: Seq<ContactView>, a: ContactView, b: ContactView)
    requires
        store_ok(s),
        email_ok(a.email),
        !email_conflict(s, a),
        b.email == a.email,
        b.id != saved_view(s, a).id,
    ensures
        email_conflict(put(s, saved_view(s, a)), b),
{
    let c = saved_view(s, a);
    let t = put(s, c);
    let k = if has_id(s, c.id.unwrap()) {
        index_of(s, c.id.unwrap())
    } else {
        s.len() as int
    };
    assert(t[k] == c);
    assert(t[k].email == b.email && t[k].id != b.id);
}

/// A stored contact keeps its own email: in a store without two equal
/// emails, saving it again with the same email meets no conflict.
pub proof fn lemma_own_email_accepted(s: Seq<ContactView>, i: int, c: ContactView)
    requires
        store_ok(s),
        0 <= i < s.len(),
        c.id == s[i].id,
        c.email == s[i].email,
        emails_distinct(s),
    ensures
        !email_conflict(s, c),
{
    assert forall|j: int| 0 <= j < s.len() && #[trigger] s[j].email == c.email implies s[j].id
        == c.id by {
        if j < i {
            assert(s[j].email != s[i].email);
        } else if i < j {
            assert(s[i].email != s[j].email);
        }
    }
}

proof fn lemma_empty_occurs(t: Seq<char>)
    ensures
        is_substring(Seq::empty(), t),
{
    let e = Seq::<char>::empty();
    assert(t.subrange(0, 0 + e.len() as int) =~= e);
}

/// No two contacts of `s` have the same email.
pub open spec fn emails_distinct(s: Seq<ContactView>) -> bool {
    forall|i: int, j: int| 0 <= i < j < s.len() ==> (#[trigger] s[i]).email != (#[trigger] s[j]).email
}

/// A successful save keeps emails distinct: a store built up by saves
/// never holds two contacts with the same email.
pub proof fn lemma_save_keeps_emails_distinct(s: Seq<ContactView>, c: ContactView)
    requires
        store_ok(s),
        emails_distinct(s),
        !email_conflict(s, c),
    ensures
        emails_distinct(put(s, saved_view(s, c))),
{
    let v = saved_view(s, c);
    let t = put(s, v);
    let id = v.id.unwrap();
    if has_id(s, id) {
        let k = index_of(s, id);
        assert forall|i: int, j: int| 0 <= i < j < t.len() implies (#[trigger] t[i]).email
            != (#[trigger] t[j]).email by {
            if i == k {
                assert(s[j].id != s[k].id);
                assert(!(s[j].email == c.email && s[j].id != c.id));
            } else if j == k {
                assert(s[i].id != s[k].id);
                assert(!(s[i].email == c.email && s[i].id != c.id));
            }
        }
    } else {
        assert forall|i: int, j: int| 0 <= i < j < t.len() implies (#[trigger] t[i]).email
            != (#[trigger] t[j]).email by {
            if j == s.len() {
                assert(s[i].id != Some(id));
                assert(!(s[i].email == c.email && s[i].id != c.id));
            }
        }
    }
}

/// The empty query matches every contact that has at least one field.
pub proof fn lemma_empty_query_matches_all(s: Seq<ContactView>)
    requires
        forall|i: int|
            0 <= i < s.len() ==> {
                ||| (#[trigger] s[i]).first is Some
                ||| s[i].last is Some
                ||| s[i].phone is Some
                ||| s[i].email is Some
            },
    ensures
        matching(s, Seq::empty()) == s,
    decreases s.len(),
{
    if s.len() > 0 {
        lemma_empty_query_matches_all(s.drop_last());
        let c = s.last();
        assert(s[s.len() - 1] == c);
        let e = Seq::<char>::empty();
        if let Some(t) = c.first {
            lemma_empty_occurs(t);
        }
        if let Some(t) = c.last {
            lemma_empty_occurs(t);
        }
        if let Some(t) = c.phone {
            lemma_empty_occurs(t);
        }
        if let Some(t) = c.email {
            lemma_empty_occurs(t);
        }
        assert(contact_matches(c, e));
        assert(s.drop_last().push(c) =~= s);
    }
}

/// Reloading what a store persists gives back the same store, ids and
/// field values included.
pub proof fn lemma_reload_round_trip(s: Seq<ContactView>)
    requires
        store_ok(s),
    ensures
        load(s) == s,
    decreases s.len(),
{
    if s.len() > 0 {
        let p = s.drop_last();
        let c = s.last();
        assert(s[s.len() - 1] == c);
        assert(store_ok(p)) by {
            assert forall|i: int, j: int| 0 <= i < j < p.len() implies (#[trigger] p[i]).id
                != (#[trigger] p[j]).id by {
                assert(p[i] == s[i] && p[j] == s[j]);
            }
        }
        lemma_reload_round_trip(p);
        assert(loaded_view(c) == c);
        let id = c.id.unwrap();
        if has_id(p, id) {
            let j = index_of(p, id);
            assert(p[j] == s[j]);
            assert(s[j].id != s[s.len() - 1].id);
        }
        assert(p.push(c) =~= s);
    }
}

/// Two different pages of a listing share no contact.
pub proof fn lemma_pages_disjoint(s: Seq<ContactView>, p: int, q: int)
    requires
        store_ok(s),
        1 <= p < q,
    ensures
        forall|a: int, b: int|
            0 <= a < page_of(s, p).len() && 0 <= b < page_of(s, q).len() ==> (#[trigger] page_of(
                s,
                p,
            )[a]).id != (#[trigger] page_of(s, q)[b]).id,
{
    let sp = (p - 1) * PAGE_SIZE;
    let sq = (q - 1) * PAGE_SIZE;
    assert(sq >= sp + PAGE_SIZE) by (nonlinear_arith)
        requires
            1 <= p < q,
            sp == (p - 1) * 10,
            sq == (q - 1) * 10,
    ;
    assert forall|a: int, b: int|
        0 <= a < page_of(s, p).len() && 0 <= b < page_of(s, q).len() implies (#[trigger] page_of(
            s,
            p,
        )[a]).id != (#[trigger] page_of(s, q)[b]).id by {
        assert(page_of(s, p)[a] == s[sp + a]);
        assert(page_of(s, q)[b] == s[sq + b]);
    }
}

} // verus!
