//! Records by their names.
use vstd::prelude::*;
use crate::text;

verus! {

/// The records of a list by their names; a later one counts.
pub open spec fn records_of<E>(list: Seq<(String, E)>) -> Map<Seq<char>, E>
    decreases list.len(),
{
    if list.len() == 0 {
        Map::empty()
    } else {
        records_of(list.drop_last()).insert(list.last().0@, list.last().1)
    }
}

/// Whether no name stands twice in a list.
pub open spec fn names_differ<E>(list: Seq<(String, E)>) -> bool {
    forall|i: int, j: int| 0 <= i < j < list.len() ==> list[i].0@ != list[j].0@
}

/// Records by their names, each name once.
#[derive(Debug)]
pub struct Registry<E> {
    list: Vec<(String, E)>,
}

impl<E> View for Registry<E> {
    type V = Map<Seq<char>, E>;

    closed spec fn view(&self) -> Map<Seq<char>, E> {
        records_of(self.list@)
    }
}

impl<E> Registry<E> {
    /// Whether each name stands once.
    pub closed spec fn wf(&self) -> bool {
        names_differ(self.list@)
    }

    /// No records.
    pub fn new() -> (registry: Registry<E>)
        ensures
            registry.wf(),
            registry@ == Map::<Seq<char>, E>::empty(),
    {
        Registry { list: Vec::new() }
    }

    /// How many records there are.
    pub fn len(&self) -> (n: usize)
        ensures
            n == self.names().len(),
    {
        self.list.len()
    }

    /// The names, in the order the records are walked.
    pub closed spec fn names(&self) -> Seq<Seq<char>> {
        self.list@.map_values(|record: (String, E)| record.0@)
    }

    /// The `i`-th record that is walked.
    pub fn at(&self, i: usize) -> (record: (&String, &E))
        requires
            self.wf(),
            i < self.names().len(),
        ensures
            record.0@ == self.names()[i as int],
            self@.contains_key(record.0@),
            self@[record.0@] == *record.1,
    {
        proof {
            lemma_record_at(self.list@, i as int);
        }
        (&self.list[i].0, &self.list[i].1)
    }

    /// Walking the records meets every name once.
    pub proof fn lemma_walk(&self)
        requires
            self.wf(),
        ensures
            forall|i: int|
                0 <= i < self.names().len() ==> self@.contains_key(#[trigger] self.names()[i]),
            forall|name: Seq<char>| #[trigger]
                self@.contains_key(name) ==> self.names().contains(name),
            self.names().no_duplicates(),
    {
        lemma_names(self.list@);
        assert forall|i: int| 0 <= i < self.names().len() implies self@.contains_key(
            #[trigger] self.names()[i],
        ) by {
            lemma_record_at(self.list@, i);
        }
        assert forall|name: Seq<char>| #[trigger] self@.contains_key(name) implies self.names().contains(
            name,
        ) by {
            let i = choose|i: int|
                0 <= i < self.list@.len() && (#[trigger] self.list@[i]).0@ == name;
            assert(self.names()[i] == name);
        }
    }

    fn find(&self, name: &str) -> (at: Option<usize>)
        requires
            self.wf(),
        ensures
            match at {
                Some(at) => at < self.list@.len() && self.list@[at as int].0@ == name@
                    && self@.contains_key(name@) && self@[name@] == self.list@[at as int].1,
                None => !self@.contains_key(name@),
            },
    {
        let mut i: usize = 0;
        while i < self.list.len()
            invariant
                0 <= i <= self.list@.len(),
                self.wf(),
                forall|j: int| 0 <= j < i ==> (#[trigger] self.list@[j]).0@ != name@,
            decreases self.list@.len() - i,
        {
            if text::same(self.list[i].0.as_str(), name) {
                proof {
                    lemma_record_at(self.list@, i as int);
                }
                return Some(i);
            }
            i += 1;
        }
        proof {
            lemma_names(self.list@);
        }
        None
    }

    /// The record of `name`.
    pub fn get(&self, name: &str) -> (found: Option<&E>)
        requires
            self.wf(),
        ensures
            match found {
                Some(record) => self@.contains_key(name@) && self@[name@] == *record,
                None => !self@.contains_key(name@),
            },
    {
        match self.find(name) {
            Some(at) => Some(&self.list[at].1),
            None => None,
        }
    }

    /// Takes the record of `name` out.
    pub fn remove(&mut self, name: &str) -> (removed: Option<E>)
        requires
            old(self).wf(),
        ensures
            final(self).wf(),
            match removed {
                Some(record) => old(self)@.contains_key(name@) && old(self)@[name@] == record
                    && final(self)@ == old(self)@.remove(name@),
                None => !old(self)@.contains_key(name@) && final(self)@ == old(self)@,
            },
    {
        match self.find(name) {
            Some(at) => {
                let ghost before = self.list@;
                let (_, record) = self.list.remove(at);
                proof {
                    lemma_removed(before, at as int);
                    let after = self.list@;
                    assert forall|i: int, j: int| 0 <= i < j < after.len() implies after[i].0@
                        != after[j].0@ by {
                        let k = if i < at {
                            i
                        } else {
                            i + 1
                        };
                        let l = if j < at {
                            j
                        } else {
                            j + 1
                        };
                        assert(before[k].0@ != before[l].0@);
                    }
                }
                Some(record)
            },
            None => None,
        }
    }

    /// Sets the record of `name`.
    pub fn insert(&mut self, name: &str, record: E)
        requires
            old(self).wf(),
        ensures
            final(self).wf(),
            final(self)@ == old(self)@.insert(name@, record),
    {
        let ghost start = self@;
        let _ = self.remove(name);
        let ghost before = self.list@;
        self.list.push((name.to_owned(), record));
        proof {
            lemma_names(before);
            assert(self.list@.drop_last() =~= before);
            assert forall|i: int, j: int| 0 <= i < j < self.list@.len() implies self.list@[i].0@
                != self.list@[j].0@ by {
                if j == before.len() {
                    assert(before[i].0@ != name@) by {
                        if before[i].0@ == name@ {
                            assert(records_of(before).contains_key(name@));
                        }
                    }
                }
            }
            assert(start.remove(name@).insert(name@, record) =~= start.insert(name@, record));
            assert(start.insert(name@, record) =~= records_of(before).insert(name@, record));
        }
    }
}

proof fn lemma_names<E>(list: Seq<(String, E)>)
    ensures
        forall|name: Seq<char>|
            #[trigger] records_of(list).contains_key(name) <==> exists|i: int|
                0 <= i < list.len() && (#[trigger] list[i]).0@ == name,
    decreases list.len(),
{
    if list.len() > 0 {
        lemma_names(list.drop_last());
        let front = list.drop_last();
        assert forall|name: Seq<char>| #[trigger] records_of(list).contains_key(name) implies exists|
            i: int,
        | 0 <= i < list.len() && (#[trigger] list[i]).0@ == name by {
            if list.last().0@ == name {
                assert(list[list.len() - 1].0@ == name);
            } else {
                assert(records_of(front).contains_key(name));
                let i = choose|i: int| 0 <= i < front.len() && (#[trigger] front[i]).0@ == name;
                assert(list[i].0@ == name);
            }
        }
        assert forall|name: Seq<char>|
            exists|i: int| 0 <= i < list.len() && (#[trigger] list[i]).0@ == name implies
        #[trigger] records_of(list).contains_key(name) by {
            let i = choose|i: int| 0 <= i < list.len() && (#[trigger] list[i]).0@ == name;
            if i < front.len() {
                assert(front[i].0@ == name);
                assert(records_of(front).contains_key(name));
            }
        }
    }
}

proof fn lemma_record_at<E>(list: Seq<(String, E)>, at: int)
    requires
        0 <= at < list.len(),
        names_differ(list),
    ensures
        records_of(list).contains_key(list[at].0@),
        records_of(list)[list[at].0@] == list[at].1,
    decreases list.len(),
{
    if at < list.len() - 1 {
        assert(list.drop_last()[at] == list[at]);
        assert(list[at].0@ != list[list.len() - 1].0@);
        lemma_record_at(list.drop_last(), at);
    }
}

proof fn lemma_removed<E>(list: Seq<(String, E)>, at: int)
    requires
        0 <= at < list.len(),
        names_differ(list),
    ensures
        records_of(list.remove(at)) == records_of(list).remove(list[at].0@),
    decreases list.len(),
{
    let front = list.drop_last();
    let name = list[at].0@;
    if at < list.len() - 1 {
        assert(front[at] == list[at]);
        assert(name != list[list.len() - 1].0@);
        lemma_removed(front, at);
        assert(list.remove(at).drop_last() =~= front.remove(at));
        assert(records_of(front).remove(name).insert(list.last().0@, list.last().1)
            =~= records_of(front).insert(list.last().0@, list.last().1).remove(name));
    } else {
        assert(list.remove(at) =~= front);
        lemma_names(front);
        assert(!records_of(front).contains_key(name)) by {
            if records_of(front).contains_key(name) {
                let i = choose|i: int| 0 <= i < front.len() && (#[trigger] front[i]).0@ == name;
                assert(list[i].0@ == name);
            }
        }
        assert(records_of(list).remove(name) =~= records_of(front));
    }
}

} // verus!
