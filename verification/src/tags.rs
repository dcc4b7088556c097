//! String key/value annotations attached to a sample.
//!
//! A `Tags` value is a mapping from string keys to string values, with
//! keys unique and no ordering guarantee. Its mathematical view is a
//! `Map<Seq<char>, Seq<char>>`.

use vstd::prelude::*;

verus! {

/// A set of string key/value tags; keys are unique.
pub struct Tags {
    pairs: Vec<(String, String)>,
}

impl Tags {
    /// Keys are pairwise distinct.
    #[verifier::type_invariant]
    spec fn inv(self) -> bool {
        forall|i: int, j: int|
            0 <= i < self.pairs@.len() && 0 <= j < self.pairs@.len() && i != j
                ==> self.pairs@[i].0@ != self.pairs@[j].0@
    }

    /// Whether some pair carries the key.
    spec fn spec_has_key(self, key: Seq<char>) -> bool {
        exists|i: int| 0 <= i < self.pairs@.len() && self.pairs@[i].0@ == key
    }

    /// The index of the pair carrying the key, when one exists.
    spec fn key_index(self, key: Seq<char>) -> int {
        choose|i: int| 0 <= i < self.pairs@.len() && self.pairs@[i].0@ == key
    }

    /// Creates an empty set of tags.
    pub fn new() -> (r: Self)
        ensures
            r@ == Map::<Seq<char>, Seq<char>>::empty(),
    {
        let r = Tags { pairs: Vec::new() };
        proof {
            assert(r@ =~= Map::<Seq<char>, Seq<char>>::empty());
        }
        r
    }

    /// Inserts a key/value pair, replacing the value if the key is
    /// already present.
    pub fn insert(&mut self, key: String, value: String)
        ensures
            final(self)@ == old(self)@.insert(key@, value@),
    {
        proof {
            use_type_invariant(&*self);
        }
        let ghost pre = *self;
        let mut pairs: Vec<(String, String)> = Vec::new();
        core::mem::swap(&mut pairs, &mut self.pairs);
        let ghost orig = pairs@;
        match find_key(&pairs, &key) {
            Some(i) => {
                pairs.set(i, (key, value));
                proof {
                    assert(forall|j: int|
                        0 <= j < pairs@.len() ==> pairs@[j].0@ == orig[j].0@);
                }
                self.pairs = pairs;
                proof {
                    lemma_replace_view(pre, *self, i as int, key@, value@);
                }
            },
            None => {
                pairs.push((key, value));
                proof {
                    assert(pairs@.subrange(0, orig.len() as int) =~= orig);
                }
                self.pairs = pairs;
                proof {
                    lemma_append_view(pre, *self, key@, value@);
                }
            },
        }
    }

    /// Whether the tags contain the key, regardless of its value.
    pub fn contains_key(&self, key: &str) -> (r: bool)
        ensures
            r == self@.dom().contains(key@),
    {
        proof {
            use_type_invariant(self);
        }
        let owned = key.to_owned();
        match find_key(&self.pairs, &owned) {
            Some(i) => {
                proof {
                    lemma_view_present(*self, key@, i as int);
                }
                true
            },
            None => {
                proof {
                    lemma_view_absent(*self, key@);
                }
                false
            },
        }
    }

    /// The key/value pairs, in some order: one pair per key of the
    /// view, each mapped to its value.
    pub fn to_pairs(&self) -> (r: Vec<(String, String)>)
        ensures
            forall|i: int|
                0 <= i < r@.len() ==> #[trigger] self@.dom().contains(r@[i].0@)
                    && self@[r@[i].0@] == r@[i].1@,
            forall|k: Seq<char>|
                #[trigger] self@.dom().contains(k) ==> exists|i: int|
                    0 <= i < r@.len() && r@[i].0@ == k,
            forall|i: int, j: int|
                0 <= i < r@.len() && 0 <= j < r@.len() && i != j ==> r@[i].0@ != r@[j].0@,
    {
        proof {
            use_type_invariant(self);
        }
        let n = self.pairs.len();
        let mut pairs: Vec<(String, String)> = Vec::new();
        let mut i: usize = 0;
        while i < n
            invariant
                i <= n,
                n == self.pairs@.len(),
                pairs@.len() == i,
                forall|j: int| 0 <= j < i ==> pairs@[j] == self.pairs@[j],
            decreases n - i,
        {
            let k = self.pairs[i].0.clone();
            let v = self.pairs[i].1.clone();
            pairs.push((k, v));
            i += 1;
        }
        proof {
            assert(pairs@ =~= self.pairs@);
            assert forall|j: int|
                0 <= j < pairs@.len() implies #[trigger] self@.dom().contains(pairs@[j].0@)
                && self@[pairs@[j].0@] == pairs@[j].1@ by {
                lemma_view_present(*self, pairs@[j].0@, j);
            }
            assert forall|k: Seq<char>| #[trigger] self@.dom().contains(k) implies exists|j: int|
                0 <= j < pairs@.len() && pairs@[j].0@ == k by {
                assert(self.spec_has_key(k));
                let j = self.key_index(k);
                assert(pairs@[j].0@ == k);
            }
        }
        pairs
    }

    /// The value under the key, or `None` when the key is absent.
    pub fn get(&self, key: &str) -> (r: Option<&String>)
        ensures
            match r {
                Some(v) => self@.dom().contains(key@) && v@ == self@[key@],
                None => !self@.dom().contains(key@),
            },
    {
        proof {
            use_type_invariant(self);
        }
        let owned = key.to_owned();
        match find_key(&self.pairs, &owned) {
            Some(i) => {
                proof {
                    lemma_view_present(*self, key@, i as int);
                }
                Some(&self.pairs[i].1)
            },
            None => {
                proof {
                    lemma_view_absent(*self, key@);
                }
                None
            },
        }
    }
}

impl View for Tags {
    type V = Map<Seq<char>, Seq<char>>;

    closed spec fn view(&self) -> Map<Seq<char>, Seq<char>> {
        Map::new(
            |k: Seq<char>| self.spec_has_key(k),
            |k: Seq<char>| self.pairs@[self.key_index(k)].1@,
        )
    }
}

impl Clone for Tags {
    /// The copy carries exactly the tags of the original.
    fn clone(&self) -> (r: Self)
        ensures
            r@ == self@,
    {
        proof {
            use_type_invariant(self);
        }
        let n = self.pairs.len();
        let mut pairs: Vec<(String, String)> = Vec::new();
        let mut i: usize = 0;
        while i < n
            invariant
                i <= n,
                n == self.pairs@.len(),
                pairs@.len() == i,
                forall|j: int| 0 <= j < i ==> pairs@[j] == self.pairs@[j],
            decreases n - i,
        {
            let k = self.pairs[i].0.clone();
            let v = self.pairs[i].1.clone();
            pairs.push((k, v));
            i += 1;
        }
        proof {
            assert(pairs@ =~= self.pairs@);
        }
        let r = Tags { pairs };
        proof {
            assert forall|k: Seq<char>| r.spec_has_key(k) == self.spec_has_key(k) by {
                if self.spec_has_key(k) {
                    let j = self.key_index(k);
                    assert(r.pairs@[j].0@ == k);
                }
                if r.spec_has_key(k) {
                    let j = r.key_index(k);
                    assert(self.pairs@[j].0@ == k);
                }
            }
            assert(r@ =~= self@);
        }
        r
    }
}

/// The index of the first pair whose key equals `key`.
fn find_key(pairs: &Vec<(String, String)>, key: &String) -> (r: Option<usize>)
    ensures
        match r {
            Some(i) => {
                &&& 0 <= i < pairs@.len()
                &&& pairs@[i as int].0@ == key@
                &&& forall|j: int| 0 <= j < i ==> pairs@[j].0@ != key@
            },
            None => forall|j: int| 0 <= j < pairs@.len() ==> pairs@[j].0@ != key@,
        },
{
    let n = pairs.len();
    let mut i: usize = 0;
    while i < n
        invariant
            i <= n,
            n == pairs@.len(),
            forall|j: int| 0 <= j < i ==> pairs@[j].0@ != key@,
        decreases n - i,
    {
        if pairs[i].0 == *key {
            return Some(i);
        }
        i += 1;
    }
    None
}

/// A pair carrying the key makes the view contain the key, mapped to
/// that pair's value.
proof fn lemma_view_present(t: Tags, key: Seq<char>, i: int)
    requires
        t.inv(),
        0 <= i < t.pairs@.len(),
        t.pairs@[i].0@ == key,
    ensures
        t@.dom().contains(key),
        t@[key] == t.pairs@[i].1@,
{
    assert(t.spec_has_key(key));
    let j = t.key_index(key);
    assert(0 <= j < t.pairs@.len() && t.pairs@[j].0@ == key);
    assert(j == i);
}

/// With no pair carrying the key, the view does not contain it.
proof fn lemma_view_absent(t: Tags, key: Seq<char>)
    requires
        forall|j: int| 0 <= j < t.pairs@.len() ==> t.pairs@[j].0@ != key,
    ensures
        !t@.dom().contains(key),
{
    assert(!t.spec_has_key(key));
}

/// Replacing the value of the pair that carries the key inserts the
/// pair into the view.
proof fn lemma_replace_view(pre: Tags, post: Tags, i: int, key: Seq<char>, value: Seq<char>)
    requires
        pre.inv(),
        post.inv(),
        post.pairs@.len() == pre.pairs@.len(),
        0 <= i < pre.pairs@.len(),
        pre.pairs@[i].0@ == key,
        post.pairs@[i].0@ == key,
        post.pairs@[i].1@ == value,
        forall|j: int| 0 <= j < post.pairs@.len() && j != i ==> post.pairs@[j] == pre.pairs@[j],
    ensures
        post@ == pre@.insert(key, value),
{
    assert forall|k: Seq<char>| true implies {
        &&& post@.dom().contains(k) == pre@.insert(key, value).dom().contains(k)
        &&& (post@.dom().contains(k) ==> post@[k] == pre@.insert(key, value)[k])
    } by {
        if k == key {
            lemma_view_present(pre, key, i);
            lemma_view_present(post, key, i);
        } else {
            if pre.spec_has_key(k) {
                let j = pre.key_index(k);
                assert(pre.pairs@[j].0@ == k);
                assert(j != i);
                assert(post.pairs@[j].0@ == k);
                lemma_view_present(pre, k, j);
                lemma_view_present(post, k, j);
            } else {
                assert forall|j: int| 0 <= j < post.pairs@.len()
                    implies post.pairs@[j].0@ != k by {
                    if j != i {
                        assert(post.pairs@[j] == pre.pairs@[j]);
                    }
                }
                lemma_view_absent(post, k);
                lemma_view_absent(pre, k);
            }
        }
    }
    assert(post@ =~= pre@.insert(key, value));
}

/// Appending a pair with a key that no pair carries inserts the pair
/// into the view.
proof fn lemma_append_view(pre: Tags, post: Tags, key: Seq<char>, value: Seq<char>)
    requires
        pre.inv(),
        post.inv(),
        post.pairs@.len() == pre.pairs@.len() + 1,
        post.pairs@.subrange(0, pre.pairs@.len() as int) == pre.pairs@,
        post.pairs@.last().0@ == key,
        post.pairs@.last().1@ == value,
        forall|j: int| 0 <= j < pre.pairs@.len() ==> pre.pairs@[j].0@ != key,
    ensures
        post@ == pre@.insert(key, value),
{
    let pn = pre.pairs@.len() as int;
    assert forall|j: int| 0 <= j < pn implies post.pairs@[j] == pre.pairs@[j] by {
        assert(post.pairs@.subrange(0, pn)[j] == post.pairs@[j]);
    }
    assert forall|k: Seq<char>| true implies {
        &&& post@.dom().contains(k) == pre@.insert(key, value).dom().contains(k)
        &&& (post@.dom().contains(k) ==> post@[k] == pre@.insert(key, value)[k])
    } by {
        if k == key {
            lemma_view_present(post, key, pn);
            lemma_view_absent(pre, key);
        } else {
            if pre.spec_has_key(k) {
                let j = pre.key_index(k);
                assert(pre.pairs@[j].0@ == k);
                assert(post.pairs@[j].0@ == k);
                lemma_view_present(pre, k, j);
                lemma_view_present(post, k, j);
            } else {
                assert forall|j: int| 0 <= j < post.pairs@.len()
                    implies post.pairs@[j].0@ != k by {
                    if j < pn {
                        assert(post.pairs@[j] == pre.pairs@[j]);
                    }
                }
                lemma_view_absent(post, k);
                lemma_view_absent(pre, k);
            }
        }
    }
    assert(post@ =~= pre@.insert(key, value));
}

} // verus!
