//! The table of open sessions.

use vstd::prelude::*;

verus! {

/// The open sessions, each under its identifier.
///
/// No identifier occurs twice.
pub struct SessionMap<S> {
    entries: Vec<(String, S)>,
}

impl<S> View for SessionMap<S> {
    type V = Map<Seq<char>, S>;

    closed spec fn view(&self) -> Map<Seq<char>, S> {
        Map::new(
            |id: Seq<char>| exists|i: int| self.holds_at(id, i),
            |id: Seq<char>| self.entries@[choose|i: int| self.holds_at(id, i)].1,
        )
    }
}

impl<S> SessionMap<S> {
    spec fn holds_at(&self, id: Seq<char>, i: int) -> bool {
        0 <= i < self.entries@.len() && self.entries@[i].0@ == id
    }

    /// Whether no identifier occurs twice.
    pub closed spec fn wf(&self) -> bool {
        forall|i: int, j: int|
            0 <= i < j < self.entries@.len() ==> (#[trigger] self.entries@[i]).0@ != (
            #[trigger] self.entries@[j]).0@
    }

    proof fn lemma_entry(&self, id: Seq<char>, i: int)
        requires
            self.wf(),
            self.holds_at(id, i),
        ensures
            self@.contains_key(id),
            self@[id] == self.entries@[i].1,
    {
        let k = choose|k: int| self.holds_at(id, k);
        assert(self.holds_at(id, k));
        if k != i {
            assert(self.entries@[i].0@ != self.entries@[k].0@);
        }
    }

    proof fn lemma_replace(before: Self, after: Self, id: Seq<char>, i: int, session: S)
        requires
            before.wf(),
            before.holds_at(id, i),
            after.entries@ == before.entries@.update(i, (before.entries@[i].0, session)),
        ensures
            after.wf(),
            after@ == before@.insert(id, session),
    {
        assert forall|j: int, k: int| 0 <= j < k < after.entries@.len() implies (
        #[trigger] after.entries@[j]).0@ != (#[trigger] after.entries@[k]).0@ by {
            assert(before.entries@[j].0@ != before.entries@[k].0@);
        }
        assert forall|other: Seq<char>| after@.contains_key(other) == before@.insert(
            id,
            session,
        ).contains_key(other) by {
            if after@.contains_key(other) {
                let k = choose|k: int| after.holds_at(other, k);
                assert(before.holds_at(other, k));
            }
            if before@.contains_key(other) {
                let k = choose|k: int| before.holds_at(other, k);
                assert(after.holds_at(other, k));
            }
            assert(after.holds_at(id, i));
        }
        assert forall|other: Seq<char>| after@.contains_key(other) implies after@[other]
            == before@.insert(id, session)[other] by {
            let k = choose|k: int| after.holds_at(other, k);
            after.lemma_entry(other, k);
            before.lemma_entry(other, k);
            if other == id && k != i {
                assert(after.entries@[i].0@ != after.entries@[k].0@);
            }
        }
        assert(after@ == before@.insert(id, session));
    }

    /// A table without sessions.
    pub fn new() -> (map: Self)
        ensures
            map.wf(),
            map@ == Map::<Seq<char>, S>::empty(),
    {
        let map = SessionMap { entries: Vec::new() };
        assert(map@ == Map::<Seq<char>, S>::empty());
        map
    }

    fn find(&self, id: &String) -> (place: Option<usize>)
        requires
            self.wf(),
        ensures
            match place {
                Some(i) => self.holds_at(id@, i as int),
                None => !self@.contains_key(id@),
            },
    {
        let mut i: usize = 0;
        while i < self.entries.len()
            invariant
                i <= self.entries@.len(),
                forall|k: int| 0 <= k < i ==> !#[trigger] self.holds_at(id@, k),
            decreases self.entries@.len() - i,
        {
            if self.entries[i].0 == *id {
                return Some(i);
            }
            i = i + 1;
        }
        None
    }

    /// The session under `id`.
    pub fn get(&self, id: &String) -> (session: Option<&S>)
        requires
            self.wf(),
        ensures
            match session {
                Some(s) => self@.contains_key(id@) && *s == self@[id@],
                None => !self@.contains_key(id@),
            },
    {
        match self.find(id) {
            Some(i) => {
                proof {
                    self.lemma_entry(id@, i as int);
                }
                Some(&self.entries[i].1)
            },
            None => None,
        }
    }

    /// The session under `id`, to be changed in place.
    pub fn get_mut(&mut self, id: &String) -> (session: Option<&mut S>)
        requires
            old(self).wf(),
        ensures
            final(self).wf(),
            match session {
                Some(s) => {
                    &&& old(self)@.contains_key(id@)
                    &&& *s == old(self)@[id@]
                    &&& final(self)@ == old(self)@.insert(id@, *final(s))
                },
                None => !old(self)@.contains_key(id@) && final(self)@ == old(self)@,
            },
    {
        match self.find(id) {
            Some(i) => {
                proof {
                    self.lemma_entry(id@, i as int);
                    assert forall|after: Self, session: S|
                        #![trigger after@, self@.insert(id@, session)]
                        after.entries@ == self.entries@.update(
                            i as int,
                            (self.entries@[i as int].0, session),
                        ) implies after.wf() && after@ == self@.insert(id@, session) by {
                        Self::lemma_replace(*self, after, id@, i as int, session);
                    }
                }
                let entry = &mut self.entries[i];
                Some(&mut entry.1)
            },
            None => None,
        }
    }

    /// Puts `session` under `id`, in place of the one that was there.
    pub fn insert(&mut self, id: String, session: S)
        requires
            old(self).wf(),
        ensures
            final(self).wf(),
            final(self)@ == old(self)@.insert(id@, session),
    {
        match self.find(&id) {
            Some(i) => {
                let ghost before = *self;
                self.entries[i].1 = session;
                proof {
                    Self::lemma_replace(before, *self, id@, i as int, session);
                }
            },
            None => {
                let ghost before = *self;
                self.entries.push((id, session));
                proof {
                    Self::lemma_push(before, *self, id, session);
                }
            },
        }
    }

    proof fn lemma_push(before: Self, after: Self, id: String, session: S)
        requires
            before.wf(),
            !before@.contains_key(id@),
            after.entries@ == before.entries@.push((id, session)),
        ensures
            after.wf(),
            after@ == before@.insert(id@, session),
    {
        let n = before.entries@.len() as int;
        assert forall|k: int| 0 <= k < n implies (#[trigger] before.entries@[k]).0@ != id@ by {
            if before.entries@[k].0@ == id@ {
                assert(before.holds_at(id@, k));
            }
        }
        assert forall|j: int, k: int| 0 <= j < k < after.entries@.len() implies (
        #[trigger] after.entries@[j]).0@ != (#[trigger] after.entries@[k]).0@ by {
            assert(after.entries@[j] == before.entries@[j]);
            if k < n {
                assert(after.entries@[k] == before.entries@[k]);
            }
        }
        assert(after.holds_at(id@, n));
        after.lemma_entry(id@, n);
        assert forall|other: Seq<char>| after@.contains_key(other) == before@.insert(
            id@,
            session,
        ).contains_key(other) by {
            if after@.contains_key(other) && other != id@ {
                let k = choose|k: int| after.holds_at(other, k);
                assert(before.holds_at(other, k));
            }
            if before@.contains_key(other) {
                let k = choose|k: int| before.holds_at(other, k);
                assert(after.holds_at(other, k));
            }
        }
        assert forall|other: Seq<char>| after@.contains_key(other) implies after@[other]
            == before@.insert(id@, session)[other] by {
            if other != id@ {
                let k = choose|k: int| after.holds_at(other, k);
                after.lemma_entry(other, k);
                before.lemma_entry(other, k);
            }
        }
        assert(after@ == before@.insert(id@, session));
    }

    /// Takes the session under `id` out of the table.
    pub fn remove(&mut self, id: &String) -> (session: Option<S>)
        requires
            old(self).wf(),
        ensures
            final(self).wf(),
            final(self)@ == old(self)@.remove(id@),
            match session {
                Some(s) => old(self)@.contains_key(id@) && s == old(self)@[id@],
                None => !old(self)@.contains_key(id@),
            },
    {
        match self.find(id) {
            Some(i) => {
                let ghost before = *self;
                proof {
                    self.lemma_entry(id@, i as int);
                }
                let (_, session) = self.entries.remove(i);
                proof {
                    Self::lemma_remove(before, *self, id@, i as int);
                }
                Some(session)
            },
            None => {
                assert(self@ == self@.remove(id@));
                None
            },
        }
    }

    proof fn lemma_remove(before: Self, after: Self, id: Seq<char>, i: int)
        requires
            before.wf(),
            before.holds_at(id, i),
            after.entries@ == before.entries@.remove(i),
        ensures
            after.wf(),
            after@ == before@.remove(id),
    {
        assert forall|j: int, k: int| 0 <= j < k < after.entries@.len() implies (
        #[trigger] after.entries@[j]).0@ != (#[trigger] after.entries@[k]).0@ by {
            let j0 = if j < i { j } else { j + 1 };
            let k0 = if k < i { k } else { k + 1 };
            assert(before.entries@[j0].0@ != before.entries@[k0].0@);
        }
        assert forall|other: Seq<char>| after@.contains_key(other) == before@.remove(
            id,
        ).contains_key(other) by {
            if after@.contains_key(other) {
                let k = choose|k: int| after.holds_at(other, k);
                let k0 = if k < i { k } else { k + 1 };
                assert(before.holds_at(other, k0));
                if k0 < i {
                    assert(before.entries@[k0].0@ != before.entries@[i].0@);
                } else {
                    assert(before.entries@[i].0@ != before.entries@[k0].0@);
                }
            }
            if before@.contains_key(other) && other != id {
                let k0 = choose|k: int| before.holds_at(other, k);
                assert(k0 != i);
                assert(after.holds_at(other, if k0 < i { k0 } else { k0 - 1 }));
            }
        }
        assert forall|other: Seq<char>| after@.contains_key(other) implies after@[other]
            == before@.remove(id)[other] by {
            let k = choose|k: int| after.holds_at(other, k);
            let k0 = if k < i { k } else { k + 1 };
            after.lemma_entry(other, k);
            before.lemma_entry(other, k0);
        }
        assert(after@ == before@.remove(id));
    }
}

} // verus!
