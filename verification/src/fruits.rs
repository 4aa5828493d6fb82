//! The fruit resource: the list operations behind the toy REST
//! endpoints — find, upsert, delete and list, always acting on the
//! first entry carrying a given id.

use vstd::prelude::*;

verus! {

/// A fruit record.
#[derive(Debug)]
pub struct Fruit {
    pub id: u32,
    pub name: String,
}

impl Clone for Fruit {
    fn clone(&self) -> (r: Self)
        ensures
            r == *self,
    {
        Fruit { id: self.id, name: self.name.clone() }
    }
}

/// The fruit collection.
pub struct FruitList {
    pub fruits: Vec<Fruit>,
}

/// The first position holding the given id, if any.
pub open spec fn first_fruit_index(s: Seq<Fruit>, id: u32) -> Option<int>
    decreases s.len(),
{
    if s.len() == 0 {
        None
    } else if s[0].id == id {
        Some(0)
    } else {
        match first_fruit_index(s.drop_first(), id) {
            Some(i) => Some(i + 1),
            None => None,
        }
    }
}

/// What `first_fruit_index` finds: a valid position holding the id with
/// no earlier one, or the assurance that no position holds it.
pub proof fn lemma_first_fruit_index(s: Seq<Fruit>, id: u32)
    ensures
        match first_fruit_index(s, id) {
            Some(i) => {
                &&& 0 <= i < s.len()
                &&& s[i].id == id
                &&& forall|j: int| 0 <= j < i ==> s[j].id != id
            },
            None => forall|j: int| 0 <= j < s.len() ==> s[j].id != id,
        },
    decreases s.len(),
{
    if s.len() > 0 && s[0].id != id {
        lemma_first_fruit_index(s.drop_first(), id);
        match first_fruit_index(s.drop_first(), id) {
            Some(i) => {
                assert forall|j: int| 0 <= j < i + 1 implies s[j].id != id by {
                    if j > 0 {
                        assert(s.drop_first()[j - 1] == s[j]);
                    }
                }
            },
            None => {
                assert forall|j: int| 0 <= j < s.len() implies s[j].id != id by {
                    if j > 0 {
                        assert(s.drop_first()[j - 1] == s[j]);
                    }
                }
            },
        }
    }
}

/// The position the search loop stops at is the first with the id.
proof fn lemma_first_index_found(s: Seq<Fruit>, id: u32, k: int)
    requires
        0 <= k < s.len(),
        s[k].id == id,
        forall|j: int| 0 <= j < k ==> s[j].id != id,
    ensures
        first_fruit_index(s, id) == Some(k),
{
    lemma_first_fruit_index(s, id);
    match first_fruit_index(s, id) {
        Some(i) => {
            if i < k {
                assert(s[i].id != id);
            }
            if k < i {
                assert(s[k].id != id);
            }
        },
        None => {
            assert(s[k].id != id);
        },
    }
}

impl FruitList {
    /// An empty collection.
    pub fn new() -> (r: Self)
        ensures
            r.fruits@ == Seq::<Fruit>::empty(),
    {
        FruitList { fruits: Vec::new() }
    }

    /// Returns the first fruit with the given id, if any.
    pub fn get_fruit(&self, id: u32) -> (r: Option<Fruit>)
        ensures
            match r {
                Some(f) => first_fruit_index(self.fruits@, id) matches Some(i)
                    && f == self.fruits@[i],
                None => first_fruit_index(self.fruits@, id) is None,
            },
    {
        let n = self.fruits.len();
        let mut k: usize = 0;
        while k < n
            invariant
                n == self.fruits.len(),
                0 <= k <= n,
                forall|j: int| 0 <= j < k ==> self.fruits@[j].id != id,
            decreases n - k,
        {
            if self.fruits[k].id == id {
                proof {
                    lemma_first_index_found(self.fruits@, id, k as int);
                }
                return Some(self.fruits[k].clone());
            }
            k += 1;
        }
        proof {
            lemma_first_fruit_index(self.fruits@, id);
        }
        None
    }

    /// Replaces the first fruit with the given fruit's id, or appends the
    /// fruit when no entry has its id.
    pub fn update_fruit(&mut self, fruit: Fruit)
        ensures
            match first_fruit_index(old(self).fruits@, fruit.id) {
                Some(i) => final(self).fruits@ == old(self).fruits@.update(i, fruit),
                None => final(self).fruits@ == old(self).fruits@.push(fruit),
            },
    {
        let n = self.fruits.len();
        let mut k: usize = 0;
        while k < n
            invariant
                n == self.fruits.len(),
                self.fruits@ == old(self).fruits@,
                0 <= k <= n,
                forall|j: int| 0 <= j < k ==> self.fruits@[j].id != fruit.id,
            decreases n - k,
        {
            if self.fruits[k].id == fruit.id {
                proof {
                    lemma_first_index_found(self.fruits@, fruit.id, k as int);
                }
                self.fruits.remove(k);
                self.fruits.insert(k, fruit);
                proof {
                    assert(final(self).fruits@ =~= old(self).fruits@.update(
                        k as int,
                        fruit,
                    ));
                }
                return ;
            }
            k += 1;
        }
        proof {
            lemma_first_fruit_index(self.fruits@, fruit.id);
        }
        self.fruits.push(fruit);
    }

    /// Removes the first fruit with the given id, if any.
    pub fn delete_fruit(&mut self, id: u32)
        ensures
            match first_fruit_index(old(self).fruits@, id) {
                Some(i) => final(self).fruits@ == old(self).fruits@.remove(i),
                None => final(self).fruits@ == old(self).fruits@,
            },
    {
        let n = self.fruits.len();
        let mut k: usize = 0;
        while k < n
            invariant
                n == self.fruits.len(),
                self.fruits@ == old(self).fruits@,
                0 <= k <= n,
                forall|j: int| 0 <= j < k ==> self.fruits@[j].id != id,
            decreases n - k,
        {
            if self.fruits[k].id == id {
                proof {
                    lemma_first_index_found(self.fruits@, id, k as int);
                }
                self.fruits.remove(k);
                return ;
            }
            k += 1;
        }
        proof {
            lemma_first_fruit_index(self.fruits@, id);
        }
    }

    /// The whole collection, in order.
    pub fn get_fruits(&self) -> (r: &Vec<Fruit>)
        ensures
            r == self.fruits,
    {
        &self.fruits
    }
}

} // verus!
