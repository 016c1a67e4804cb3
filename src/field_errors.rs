use vstd::prelude::*;

verus! {

/// A mapping from a field name to a human-readable validation message.
///
/// Entries are kept in a vector whose keys are pairwise distinct; the ghost
/// map is the mathematical value that contracts speak of.
pub struct FieldErrors {
    entries: Vec<(String, String)>,
    model: Ghost<Map<Seq<char>, Seq<char>>>,
}

impl View for FieldErrors {
    type V = Map<Seq<char>, Seq<char>>;

    closed spec fn view(&self) -> Map<Seq<char>, Seq<char>> {
        self.model@
    }
}

impl FieldErrors {
    /// The entries and the ghost map agree, and no key occurs twice.
    pub closed spec fn wf(&self) -> bool {
        &&& forall|i: int|
            0 <= i < self.entries@.len() ==> {
                &&& #[trigger] self.model@.contains_key(self.entries@[i].0@)
                &&& self.model@[self.entries@[i].0@] == self.entries@[i].1@
            }
        &&& forall|k: Seq<char>|
            #[trigger] self.model@.contains_key(k) ==> exists|i: int|
                0 <= i < self.entries@.len() && #[trigger] self.entries@[i].0@ == k
        &&& forall|i: int, j: int|
            0 <= i < j < self.entries@.len() ==> #[trigger] self.entries@[i].0@
                != #[trigger] self.entries@[j].0@
    }

    /// An empty map.
    pub fn new() -> (r: FieldErrors)
        ensures
            r.wf(),
            r@ == Map::<Seq<char>, Seq<char>>::empty(),
    {
        FieldErrors { entries: Vec::new(), model: Ghost(Map::empty()) }
    }

    /// Whether the map holds no entry.
    pub fn is_empty(&self) -> (r: bool)
        requires
            self.wf(),
        ensures
            r == (self@ == Map::<Seq<char>, Seq<char>>::empty()),
    {
        if self.entries.len() == 0 {
            assert(self@ =~= Map::<Seq<char>, Seq<char>>::empty());
            true
        } else {
            assert(self@.contains_key(self.entries@[0].0@));
            false
        }
    }

    /// The index of the entry for `field`, if any.
    fn position(&self, field: &String) -> (r: Option<usize>)
        requires
            self.wf(),
        ensures
            r is None <==> !self@.contains_key(field@),
            r matches Some(i) ==> i < self.entries@.len() && self.entries@[i as int].0@ == field@,
    {
        let mut i: usize = 0;
        while i < self.entries.len()
            invariant
                self.wf(),
                0 <= i <= self.entries@.len(),
                forall|j: int| 0 <= j < i ==> self.entries@[j].0@ != field@,
            decreases self.entries@.len() - i,
        {
            if self.entries[i].0 == *field {
                return Some(i);
            }
            i = i + 1;
        }
        None
    }

    /// The message recorded for `field`, if any.
    pub fn get(&self, field: &str) -> (r: Option<&String>)
        requires
            self.wf(),
        ensures
            r is None <==> !self@.contains_key(field@),
            r matches Some(m) ==> self@.contains_key(field@) && m@ == self@[field@],
    {
        let key = field.to_owned();
        match self.position(&key) {
            Some(i) => Some(&self.entries[i].1),
            None => None,
        }
    }

    /// Records `message` for `field`, replacing any earlier message for it.
    pub fn insert(&mut self, field: String, message: String)
        requires
            old(self).wf(),
        ensures
            final(self).wf(),
            final(self)@ == old(self)@.insert(field@, message@),
    {
        let ghost m0 = self.model@;
        let ghost e0 = self.entries@;
        let ghost fk = field@;
        let ghost new_model = m0.insert(field@, message@);
        let pos = self.position(&field);
        let ghost at: int = match pos {
            Some(i) => i as int,
            None => e0.len() as int,
        };
        match pos {
            Some(i) => {
                self.entries.set(i, (field, message));
            },
            None => {
                self.entries.push((field, message));
            },
        }
        self.model = Ghost(new_model);
        assert(self.entries@[at].0@ == fk);
        assert forall|k: Seq<char>| #[trigger] self.model@.contains_key(k) implies exists|j: int|
            0 <= j < self.entries@.len() && #[trigger] self.entries@[j].0@ == k by {
            if k != fk {
                assert(m0.contains_key(k));
                let j = choose|j: int| 0 <= j < e0.len() && #[trigger] e0[j].0@ == k;
                assert(self.entries@[j].0@ == k);
            } else {
                assert(self.entries@[at].0@ == k);
            }
        }
    }

    /// A copy holding the same entries.
    pub fn duplicate(&self) -> (r: FieldErrors)
        requires
            self.wf(),
        ensures
            r.wf(),
            r@ == self@,
    {
        let mut entries: Vec<(String, String)> = Vec::new();
        let mut i: usize = 0;
        while i < self.entries.len()
            invariant
                self.wf(),
                0 <= i <= self.entries@.len(),
                entries@ == self.entries@.subrange(0, i as int),
            decreases self.entries@.len() - i,
        {
            let field = self.entries[i].0.clone();
            let message = self.entries[i].1.clone();
            entries.push((field, message));
            i = i + 1;
            assert(entries@ =~= self.entries@.subrange(0, i as int));
        }
        assert(entries@ =~= self.entries@);
        let r = FieldErrors { entries, model: Ghost(self.model@) };
        assert(r.entries@ == self.entries@);
        assert(r.model@ == self.model@);
        assert(r.wf());
        r
    }

    /// The entries as (field, message) pairs, each field once.
    pub fn pairs(&self) -> (r: Vec<(String, String)>)
        requires
            self.wf(),
        ensures
            forall|i: int|
                0 <= i < r@.len() ==> {
                    &&& self@.contains_key(#[trigger] r@[i].0@)
                    &&& self@[r@[i].0@] == r@[i].1@
                },
            forall|k: Seq<char>|
                #[trigger] self@.contains_key(k) ==> exists|i: int|
                    0 <= i < r@.len() && #[trigger] r@[i].0@ == k,
    {
        let copy = self.duplicate();
        assert forall|i: int| 0 <= i < copy.entries@.len() implies self@.contains_key(
            #[trigger] copy.entries@[i].0@,
        ) by {
            assert(copy.model@.contains_key(copy.entries@[i].0@));
        }
        copy.entries
    }
}

} // verus!
