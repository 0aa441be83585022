//! The assistant's configuration: bookmarks from spoken site names to URLs.
use vstd::prelude::*;

use crate::text::str_eq;

verus! {

/// The configuration read from `argus.toml`: a table of bookmarks, each name
/// bound to one URL.
pub struct ArgusConfig {
    bookmarks: Vec<(String, String)>,
    model: Ghost<Map<Seq<char>, Seq<char>>>,
}

/// The map that a list of (name, URL) pairs denotes when later pairs override
/// earlier ones with the same name.
pub open spec fn pairs_map(pairs: Seq<(String, String)>) -> Map<Seq<char>, Seq<char>>
    decreases pairs.len(),
{
    if pairs.len() == 0 {
        Map::empty()
    } else {
        pairs_map(pairs.drop_last()).insert(pairs.last().0@, pairs.last().1@)
    }
}

/// The table holds each name once, and exactly the bindings of `m`.
pub closed spec fn table_ok(b: Seq<(String, String)>, m: Map<Seq<char>, Seq<char>>) -> bool {
    &&& forall|i: int|
        0 <= i < b.len() ==> m.contains_key(#[trigger] b[i].0@) && m[b[i].0@] == b[i].1@
    &&& forall|k: Seq<char>|
        #[trigger] m.contains_key(k) ==> exists|i: int| 0 <= i < b.len() && #[trigger] b[i].0@ == k
    &&& forall|i: int, j: int|
        0 <= i < b.len() && 0 <= j < b.len() && i != j ==> #[trigger] b[i].0@ != #[trigger] b[j].0@
}

impl View for ArgusConfig {
    type V = Map<Seq<char>, Seq<char>>;

    closed spec fn view(&self) -> Map<Seq<char>, Seq<char>> {
        self.model@
    }
}

impl ArgusConfig {
    #[verifier::type_invariant]
    closed spec fn wf(&self) -> bool {
        table_ok(self.bookmarks@, self.model@)
    }

    /// A configuration without bookmarks.
    pub fn new() -> (c: Self)
        ensures
            c@ == Map::<Seq<char>, Seq<char>>::empty(),
    {
        ArgusConfig { bookmarks: Vec::new(), model: Ghost(Map::empty()) }
    }

    fn position(&self, name: &str) -> (r: Option<usize>)
        ensures
            r matches Some(i) ==> i < self.bookmarks@.len() && self.bookmarks@[i as int].0@ == name@,
            r is None ==> !self@.contains_key(name@),
    {
        proof {
            use_type_invariant(self);
        }
        let mut i: usize = 0;
        while i < self.bookmarks.len()
            invariant
                i <= self.bookmarks@.len(),
                forall|j: int| 0 <= j < i ==> #[trigger] self.bookmarks@[j].0@ != name@,
            decreases self.bookmarks@.len() - i,
        {
            if str_eq(self.bookmarks[i].0.as_str(), name) {
                return Some(i);
            }
            i = i + 1;
        }
        None
    }

    /// This configuration with `name` bound to `url`, replacing any earlier
    /// binding of `name`.
    pub fn with_bookmark(self, name: String, url: String) -> (c: Self)
        ensures
            c@ == self@.insert(name@, url@),
    {
        proof {
            use_type_invariant(&self);
        }
        let pos = self.position(name.as_str());
        let ArgusConfig { bookmarks, model } = self;
        let mut bookmarks = bookmarks;
        let ghost b = bookmarks@;
        let ghost m = model@.insert(name@, url@);
        match pos {
            Some(i) => {
                bookmarks.set(i, (name, url));
                proof {
                    let nb = bookmarks@;
                    assert forall|k: Seq<char>| #[trigger] m.contains_key(k) implies exists|j: int|
                        0 <= j < nb.len() && #[trigger] nb[j].0@ == k by {
                        if k != nb[i as int].0@ {
                            let j = choose|j: int| 0 <= j < b.len() && #[trigger] b[j].0@ == k;
                            assert(nb[j].0@ == k);
                        }
                    }
                }
            },
            None => {
                bookmarks.push((name, url));
                proof {
                    let nb = bookmarks@;
                    assert forall|k: Seq<char>| #[trigger] m.contains_key(k) implies exists|j: int|
                        0 <= j < nb.len() && #[trigger] nb[j].0@ == k by {
                        if k != nb[b.len() as int].0@ {
                            let j = choose|j: int| 0 <= j < b.len() && #[trigger] b[j].0@ == k;
                            assert(nb[j].0@ == k);
                        }
                    }
                    assert forall|i: int| 0 <= i < b.len() implies #[trigger] nb[i].0@ != nb[b.len() as int].0@ by {
                        assert(b[i] == nb[i]);
                    }
                }
            },
        }
        assert(table_ok(bookmarks@, m));
        ArgusConfig { bookmarks, model: Ghost(m) }
    }

    /// Binds `name` to `url`, replacing any earlier binding of `name`.
    pub fn insert_bookmark(&mut self, name: String, url: String)
        ensures
            final(self)@ == old(self)@.insert(name@, url@),
    {
        let mut c = ArgusConfig::new();
        std::mem::swap(self, &mut c);
        let c = c.with_bookmark(name, url);
        *self = c;
    }

    /// The bookmarks, each name once, in no particular order.
    pub fn entries(&self) -> (r: &Vec<(String, String)>)
        ensures
            forall|i: int| 0 <= i < r@.len() ==> self@.contains_key(#[trigger] r@[i].0@) && self@[r@[i].0@] == r@[i].1@,
            forall|k: Seq<char>| #[trigger] self@.contains_key(k) ==> exists|i: int| 0 <= i < r@.len() && #[trigger] r@[i].0@ == k,
            forall|i: int, j: int| 0 <= i < r@.len() && 0 <= j < r@.len() && i != j ==> #[trigger] r@[i].0@ != #[trigger] r@[j].0@,
    {
        proof {
            use_type_invariant(self);
        }
        &self.bookmarks
    }

    /// A configuration holding the given bookmarks; where a name occurs more
    /// than once, its last URL wins.
    pub fn from_pairs(pairs: &Vec<(String, String)>) -> (c: Self)
        ensures
            c@ == pairs_map(pairs@),
    {
        let mut c = ArgusConfig::new();
        let mut i: usize = 0;
        while i < pairs.len()
            invariant
                i <= pairs@.len(),
                    c@ == pairs_map(pairs@.take(i as int)),
            decreases pairs@.len() - i,
        {
            let name = pairs[i].0.clone();
            let url = pairs[i].1.clone();
            c.insert_bookmark(name, url);
            proof {
                assert(pairs@.take(i + 1).drop_last() =~= pairs@.take(i as int));
            }
            i = i + 1;
        }
        assert(pairs@.take(pairs@.len() as int) =~= pairs@);
        c
    }

    /// The URL bound to `name`, if any.
    pub fn bookmark(&self, name: &str) -> (r: Option<String>)
        ensures
            r is Some <==> self@.contains_key(name@),
            r matches Some(url) ==> url@ == self@[name@],
    {
        proof {
            use_type_invariant(self);
        }
        match self.position(name) {
            Some(i) => Some(self.bookmarks[i].1.clone()),
            None => None,
        }
    }
}

} // verus!
