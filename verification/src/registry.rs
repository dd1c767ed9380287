use crate::backend::Handle;
use crate::text::same_text;
use vstd::prelude::*;

verus! {

/// One backend of a registry: its identifier and the shared handle.
struct Entry {
    identifier: &'static str,
    handle: Handle,
}

/// The mapping that a list of entries stands for: each entry is inserted
/// under its identifier, the first one first.
spec fn listed(entries: Seq<Entry>) -> Map<Seq<char>, Handle>
    decreases entries.len(),
{
    if entries.len() == 0 {
        Map::empty()
    } else {
        listed(entries.drop_last()).insert(entries.last().identifier@, entries.last().handle)
    }
}

/// No identifier occurs twice among the entries.
spec fn distinct(entries: Seq<Entry>) -> bool {
    forall|i: int, j: int|
        0 <= i < j < entries.len() ==> entries[i].identifier@ != entries[j].identifier@
}

/// The keys of `listed` are the identifiers of the entries, and there are
/// finitely many of them.
proof fn lemma_listed_keys(entries: Seq<Entry>)
    ensures
        listed(entries).dom().finite(),
        forall|id: Seq<char>|
            listed(entries).dom().contains(id) <==> exists|i: int|
                0 <= i < entries.len() && #[trigger] entries[i].identifier@ == id,
    decreases entries.len(),
{
    if entries.len() > 0 {
        let front = entries.drop_last();
        lemma_listed_keys(front);
        assert forall|id: Seq<char>|
            listed(entries).dom().contains(id) implies exists|i: int|
            0 <= i < entries.len() && #[trigger] entries[i].identifier@ == id by {
            if id == entries.last().identifier@ {
                assert(entries[entries.len() - 1].identifier@ == id);
            } else {
                let i = choose|i: int| 0 <= i < front.len() && #[trigger] front[i].identifier@ == id;
                assert(entries[i].identifier@ == id);
            }
        }
        assert forall|id: Seq<char>|
            (exists|i: int| 0 <= i < entries.len() && #[trigger] entries[i].identifier@ == id)
            implies listed(entries).dom().contains(id) by {
            let i = choose|i: int| 0 <= i < entries.len() && #[trigger] entries[i].identifier@ == id;
            if i < front.len() {
                assert(front[i].identifier@ == id);
            }
        }
    }
}

/// Where no identifier occurs twice, each entry is found under its
/// identifier, and the mapping has as many keys as there are entries.
proof fn lemma_listed_distinct(entries: Seq<Entry>)
    requires
        distinct(entries),
    ensures
        listed(entries).len() == entries.len(),
        forall|i: int|
            0 <= i < entries.len() ==> listed(entries)[#[trigger] entries[i].identifier@]
                == entries[i].handle,
    decreases entries.len(),
{
    if entries.len() > 0 {
        let front = entries.drop_last();
        assert(distinct(front)) by {
            assert forall|i: int, j: int| 0 <= i < j < front.len() implies front[i].identifier@
                != front[j].identifier@ by {
                assert(entries[i].identifier@ != entries[j].identifier@);
            }
        }
        lemma_listed_distinct(front);
        lemma_listed_keys(front);
        let id = entries.last().identifier@;
        assert(!listed(front).dom().contains(id)) by {
            if listed(front).dom().contains(id) {
                let i = choose|i: int| 0 <= i < front.len() && #[trigger] front[i].identifier@ == id;
                assert(entries[i].identifier@ != entries[entries.len() - 1].identifier@);
            }
        }
        assert forall|i: int| 0 <= i < entries.len() implies
            listed(entries)[#[trigger] entries[i].identifier@] == entries[i].handle by {
            if i < front.len() {
                assert(front[i].identifier@ == entries[i].identifier@);
                assert(entries[i].identifier@ != entries[entries.len() - 1].identifier@);
            }
        }
    }
}

/// Replacing the handle of one entry is an insertion under its identifier.
proof fn lemma_listed_replace(entries: Seq<Entry>, at: int, entry: Entry)
    requires
        distinct(entries),
        0 <= at < entries.len(),
        entry.identifier@ == entries[at].identifier@,
    ensures
        distinct(entries.update(at, entry)),
        listed(entries.update(at, entry)) == listed(entries).insert(
            entry.identifier@,
            entry.handle,
        ),
{
    let after = entries.update(at, entry);
    assert(distinct(after)) by {
        assert forall|i: int, j: int| 0 <= i < j < after.len() implies after[i].identifier@
            != after[j].identifier@ by {
            assert(entries[i].identifier@ != entries[j].identifier@);
        }
    }
    lemma_listed_keys(entries);
    lemma_listed_keys(after);
    lemma_listed_distinct(entries);
    lemma_listed_distinct(after);
    let want = listed(entries).insert(entry.identifier@, entry.handle);
    assert forall|id: Seq<char>| listed(after).dom().contains(id) implies want.dom().contains(
        id,
    ) by {
        let i = choose|i: int| 0 <= i < after.len() && #[trigger] after[i].identifier@ == id;
        assert(entries[i].identifier@ == id);
    }
    assert forall|id: Seq<char>| want.dom().contains(id) implies listed(after).dom().contains(
        id,
    ) by {
        if id == entry.identifier@ {
            assert(after[at].identifier@ == id);
        } else {
            let i = choose|i: int| 0 <= i < entries.len() && #[trigger] entries[i].identifier@ == id;
            assert(after[i].identifier@ == id);
        }
    }
    assert forall|id: Seq<char>| listed(after).dom().contains(id) implies listed(after)[id]
        == want[id] by {
        let i = choose|i: int| 0 <= i < after.len() && #[trigger] after[i].identifier@ == id;
        assert(listed(after)[after[i].identifier@] == after[i].handle);
        if i != at {
            assert(listed(entries)[entries[i].identifier@] == entries[i].handle);
            assert(entries[i].identifier@ != entries[at].identifier@);
        }
    }
    assert(listed(after) =~= want);
}

/// The backends that are available, each under its identifier.
///
/// A backend that could not be constructed has no entry: asking for it gives
/// `None`, never a placeholder or an error. The handles are shared, so a caller
/// that holds one cannot assume to be its only user.
pub struct Registry {
    entries: Vec<Entry>,
}

impl View for Registry {
    type V = Map<Seq<char>, Handle>;

    closed spec fn view(&self) -> Map<Seq<char>, Handle> {
        listed(self.entries@)
    }
}

impl Registry {
    #[verifier::type_invariant]
    spec fn keys_unique(self) -> bool {
        distinct(self.entries@)
    }

    /// A registry without backends.
    pub fn new() -> (registry: Registry)
        ensures
            registry@ == Map::<Seq<char>, Handle>::empty(),
    {
        Registry { entries: Vec::new() }
    }

    /// The number of backends.
    pub fn len(&self) -> (n: usize)
        ensures
            self@.dom().finite(),
            n == self@.len(),
    {
        proof {
            use_type_invariant(self);
            lemma_listed_keys(self.entries@);
            lemma_listed_distinct(self.entries@);
        }
        self.entries.len()
    }

    /// Whether there is no backend at all.
    pub fn is_empty(&self) -> (empty: bool)
        ensures
            empty == (self@ == Map::<Seq<char>, Handle>::empty()),
    {
        proof {
            lemma_listed_keys(self.entries@);
            if self.entries@.len() > 0 {
                assert(self.entries@[0].identifier@ == self.entries@[0].identifier@);
                assert(self@.dom().contains(self.entries@[0].identifier@));
            }
        }
        self.entries.len() == 0
    }

    fn position(&self, identifier: &str) -> (found: Option<usize>)
        ensures
            match found {
                Some(at) => at < self.entries@.len() && self.entries@[at as int].identifier@
                    == identifier@,
                None => forall|i: int|
                    0 <= i < self.entries@.len() ==> self.entries@[i].identifier@ != identifier@,
            },
    {
        let mut at: usize = 0;
        while at < self.entries.len()
            invariant
                at <= self.entries@.len(),
                forall|i: int| 0 <= i < at ==> self.entries@[i].identifier@ != identifier@,
            decreases self.entries@.len() - at,
        {
            if same_text(self.entries[at].identifier, identifier) {
                return Some(at);
            }
            at += 1;
        }
        None
    }

    /// Whether a backend stands under `identifier`.
    pub fn contains_key(&self, identifier: &str) -> (present: bool)
        ensures
            present == self@.dom().contains(identifier@),
    {
        proof {
            lemma_listed_keys(self.entries@);
        }
        self.position(identifier).is_some()
    }

    /// The backend under `identifier`, or `None` where there is none.
    pub fn get(&self, identifier: &str) -> (handle: Option<&Handle>)
        ensures
            match handle {
                Some(h) => self@.dom().contains(identifier@) && *h == self@[identifier@],
                None => !self@.dom().contains(identifier@),
            },
    {
        proof {
            use_type_invariant(self);
            lemma_listed_keys(self.entries@);
            lemma_listed_distinct(self.entries@);
        }
        match self.position(identifier) {
            Some(at) => Some(&self.entries[at].handle),
            None => None,
        }
    }

    /// The identifiers of all backends, each once. Their order is that of
    /// insertion, which callers should not rely on.
    pub fn identifiers(&self) -> (names: Vec<&'static str>)
        ensures
            names@.len() == self@.len(),
            forall|i: int| 0 <= i < names@.len() ==> self@.dom().contains(#[trigger] names@[i]@),
            forall|id: Seq<char>|
                self@.dom().contains(id) ==> exists|i: int|
                    0 <= i < names@.len() && #[trigger] names@[i]@ == id,
            forall|i: int, j: int| 0 <= i < j < names@.len() ==> names@[i]@ != names@[j]@,
    {
        proof {
            use_type_invariant(self);
            lemma_listed_keys(self.entries@);
            lemma_listed_distinct(self.entries@);
        }
        let mut names: Vec<&'static str> = Vec::new();
        let mut at: usize = 0;
        while at < self.entries.len()
            invariant
                at <= self.entries@.len(),
                names@.len() == at,
                forall|i: int| 0 <= i < at ==> names@[i]@ == self.entries@[i].identifier@,
            decreases self.entries@.len() - at,
        {
            names.push(self.entries[at].identifier);
            at += 1;
        }
        proof {
            assert forall|i: int| 0 <= i < names@.len() implies self@.dom().contains(
                #[trigger] names@[i]@,
            ) by {
                assert(self.entries@[i].identifier@ == names@[i]@);
            }
            assert forall|id: Seq<char>| self@.dom().contains(id) implies exists|i: int|
                0 <= i < names@.len() && #[trigger] names@[i]@ == id by {
                let i = choose|i: int|
                    0 <= i < self.entries@.len() && #[trigger] self.entries@[i].identifier@ == id;
                assert(names@[i]@ == id);
            }
        }
        names
    }

    /// Puts `handle` under `identifier`. A backend that stood there before is
    /// replaced; every other entry stays as it is.
    pub fn insert(&mut self, identifier: &'static str, handle: Handle)
        ensures
            final(self)@ == old(self)@.insert(identifier@, handle),
    {
        proof {
            use_type_invariant(&*self);
        }
        let found = self.position(identifier);
        let mut taken = Registry::new();
        std::mem::swap(self, &mut taken);
        let mut entries = taken.entries;
        let entry = Entry { identifier, handle };
        match found {
            Some(at) => {
                proof {
                    lemma_listed_replace(entries@, at as int, entry);
                }
                entries.set(at, entry);
            },
            None => {
                proof {
                    assert(entries@.push(entry).drop_last() =~= entries@);
                }
                entries.push(entry);
            },
        }
        *self = Registry { entries };
    }
}

} // verus!
