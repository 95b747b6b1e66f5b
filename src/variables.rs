//! The store of story variables: named signed counters that scripted actions write and
//! pre-conditions read. A name that was never written reads as 0.

use vstd::prelude::*;

verus! {

/// The store that the entries `s` describe: each name bound to the value of its last entry.
pub open spec fn store_of(s: Seq<(String, i64)>) -> Map<Seq<char>, i64>
    decreases s.len(),
{
    if s.len() == 0 {
        Map::empty()
    } else {
        store_of(s.drop_last()).insert(s.last().0@, s.last().1)
    }
}

/// What reading `name` in `vars` yields: its value, or 0 for a name never written.
pub open spec fn read(vars: Map<Seq<char>, i64>, name: Seq<char>) -> i64 {
    if vars.contains_key(name) {
        vars[name]
    } else {
        0
    }
}

/// Entries at `i` and after that do not bind `k` leave what `k` reads as it was before `i`.
proof fn lemma_store_skip(s: Seq<(String, i64)>, k: Seq<char>, i: int)
    requires
        0 <= i <= s.len(),
        forall|j: int| i <= j < s.len() ==> s[j].0@ != k,
    ensures
        store_of(s).contains_key(k) == store_of(s.take(i)).contains_key(k),
        store_of(s)[k] == store_of(s.take(i))[k],
    decreases s.len(),
{
    if s.len() > i {
        lemma_store_skip(s.drop_last(), k, i);
        assert(s.drop_last().take(i) =~= s.take(i));
    } else {
        assert(s.take(i) =~= s);
    }
}

/// Rewriting the value of the last entry of `k` rebinds `k` and nothing else.
proof fn lemma_store_rewrite(s: Seq<(String, i64)>, i: int, v: i64)
    requires
        0 <= i < s.len(),
        forall|j: int| i < j < s.len() ==> s[j].0@ != s[i].0@,
    ensures
        store_of(s.update(i, (s[i].0, v))) == store_of(s).insert(s[i].0@, v),
    decreases s.len(),
{
    let t = s.update(i, (s[i].0, v));
    if i == s.len() - 1 {
        assert(t.drop_last() =~= s.drop_last());
        assert(store_of(t) =~= store_of(s).insert(s[i].0@, v));
    } else {
        lemma_store_rewrite(s.drop_last(), i, v);
        assert(t.drop_last() =~= s.drop_last().update(i, (s[i].0, v)));
        assert(store_of(t) =~= store_of(s).insert(s[i].0@, v));
    }
}

/// A collection of variables available for story scripting.
#[derive(Clone, Debug)]
pub struct Variables {
    entries: Vec<(String, i64)>,
}

impl View for Variables {
    type V = Map<Seq<char>, i64>;

    closed spec fn view(&self) -> Map<Seq<char>, i64> {
        store_of(self.entries@)
    }
}

impl Default for Variables {
    /// An empty store, in which every name reads as 0.
    fn default() -> (r: Variables)
        ensures
            r@ == Map::<Seq<char>, i64>::empty(),
    {
        Variables { entries: Vec::new() }
    }
}

impl Variables {
    /// The index of the last entry of `name`, if any.
    fn find(&self, name: &String) -> (r: Option<usize>)
        ensures
            match r {
                Some(i) => {
                    &&& i < self.entries@.len()
                    &&& self.entries@[i as int].0@ == name@
                    &&& forall|j: int| i < j < self.entries@.len() ==> self.entries@[j].0@ != name@
                },
                None => forall|j: int| 0 <= j < self.entries@.len() ==> self.entries@[j].0@ != name@,
            },
    {
        let mut i: usize = self.entries.len();
        while i > 0
            invariant
                i <= self.entries@.len(),
                forall|j: int| i <= j < self.entries@.len() ==> self.entries@[j].0@ != name@,
            decreases i,
        {
            i = i - 1;
            if self.entries[i].0 == *name {
                return Some(i);
            }
        }
        None
    }

    /// Gets the value of a specific variable.
    pub fn get(&self, name: &str) -> (r: i64)
        ensures
            r == read(self@, name@),
    {
        let key = name.to_owned();
        match self.find(&key) {
            Some(i) => {
                proof {
                    lemma_store_skip(self.entries@, name@, i + 1);
                    assert(self.entries@.take(i + 1).drop_last() =~= self.entries@.take(i as int));
                }
                self.entries[i].1
            },
            None => {
                proof {
                    lemma_store_skip(self.entries@, name@, 0);
                    assert(self.entries@.take(0) =~= Seq::<(String, i64)>::empty());
                }
                0
            },
        }
    }

    /// Gets an exclusive reference to a specific variable, which first holds what the variable
    /// reads as. A name that was never written is bound to 0 first.
    pub fn get_mut(&mut self, name: &str) -> (r: &mut i64)
        ensures
            *r == read(old(self)@, name@),
            final(self)@ == old(self)@.insert(name@, *final(r)),
    {
        let key = name.to_owned();
        match self.find(&key) {
            Some(i) => {
                proof {
                    lemma_store_skip(self.entries@, name@, i + 1);
                    assert(self.entries@.take(i + 1).drop_last() =~= self.entries@.take(i as int));
                    assert forall|v: i64|
                        #[trigger] store_of(self.entries@.update(i as int, (self.entries@[i as int].0, v)))
                            == store_of(self.entries@).insert(name@, v) by {
                        lemma_store_rewrite(self.entries@, i as int, v);
                    }
                }
                let entry = &mut self.entries[i];
                &mut entry.1
            },
            None => {
                proof {
                    lemma_store_skip(self.entries@, name@, 0);
                    assert(self.entries@.take(0) =~= Seq::<(String, i64)>::empty());
                }
                self.entries.push((key, 0));
                let last = self.entries.len() - 1;
                proof {
                    let s = self.entries@;
                    assert(s.drop_last() =~= old(self).entries@);
                    assert forall|v: i64|
                        #[trigger] store_of(s.update(last as int, (s[last as int].0, v)))
                            == store_of(s).insert(name@, v) by {
                        lemma_store_rewrite(s, last as int, v);
                    }
                }
                let entry = &mut self.entries[last];
                &mut entry.1
            },
        }
    }
}

} // verus!
