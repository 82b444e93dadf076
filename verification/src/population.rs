//! The members of a service group by identifier, in the order of the identifiers.

use vstd::prelude::*;

use crate::assoc::{as_map, distinct, keys_of, lemma_entry, lemma_insert, lemma_place, lemma_update};
use crate::member::{CensusMember, CensusMemberView};
use crate::text::{
    before, lemma_before_asymmetric, lemma_before_irreflexive, lemma_before_total,
    lemma_before_transitive, stands_before,
};

verus! {

/// Members by identifier.
pub type Members = Map<Seq<char>, CensusMemberView>;

/// Each identifier stands before all that follow it.
pub open spec fn ascending(ids: Seq<Seq<char>>) -> bool {
    forall|i: int, j: int| 0 <= i < j < ids.len() ==> before(#[trigger] ids[i], #[trigger] ids[j])
}

/// `ids` are the identifiers of the members, in ascending order.
pub open spec fn is_roll(ids: Seq<Seq<char>>, members: Members) -> bool {
    &&& ascending(ids)
    &&& forall|id: Seq<char>| #[trigger] ids.contains(id) <==> members.contains_key(id)
}

/// The identifiers of the members in ascending order.
pub open spec fn roll(members: Members) -> Seq<Seq<char>> {
    choose|ids: Seq<Seq<char>>| is_roll(ids, members)
}

proof fn lemma_ascending_unique(a: Seq<Seq<char>>, b: Seq<Seq<char>>)
    requires
        ascending(a),
        ascending(b),
        forall|id: Seq<char>| #[trigger] a.contains(id) <==> b.contains(id),
    ensures
        a == b,
    decreases a.len(),
{
    if a.len() == 0 {
        if b.len() > 0 {
            assert(b.contains(b[0]));
            assert(a.contains(b[0]));
        }
        assert(a =~= b);
    } else {
        assert(a.contains(a.last()));
        assert(b.contains(a.last()));
        assert(b.contains(b.last()));
        assert(a.contains(b.last()));
        let i = choose|i: int| 0 <= i < b.len() && b[i] == a.last();
        let j = choose|j: int| 0 <= j < a.len() && a[j] == b.last();
        if i < b.len() - 1 && j < a.len() - 1 {
            assert(before(b[i], b[b.len() - 1]));
            assert(before(a[j], a[a.len() - 1]));
            lemma_before_asymmetric(a.last(), b.last());
        }
        assert(a.last() == b.last());
        let x = a.drop_last();
        let y = b.drop_last();
        assert forall|id: Seq<char>| #[trigger] x.contains(id) <==> y.contains(id) by {
            if x.contains(id) {
                let k = choose|k: int| 0 <= k < x.len() && x[k] == id;
                assert(before(a[k], a[a.len() - 1]));
                lemma_before_irreflexive(id);
                assert(a.contains(a[k]));
                let l = choose|l: int| 0 <= l < b.len() && b[l] == id;
                assert(y[l] == id);
            }
            if y.contains(id) {
                let k = choose|k: int| 0 <= k < y.len() && y[k] == id;
                assert(before(b[k], b[b.len() - 1]));
                lemma_before_irreflexive(id);
                assert(b.contains(b[k]));
                assert(a.contains(id));
                let l = choose|l: int| 0 <= l < a.len() && a[l] == id;
                assert(x[l] == id);
            }
        }
        lemma_ascending_unique(x, y);
        assert(a =~= x.push(a.last()));
        assert(b =~= y.push(b.last()));
    }
}

/// There is but one ascending order of the identifiers.
pub proof fn lemma_roll_unique(ids: Seq<Seq<char>>, members: Members)
    requires
        is_roll(ids, members),
    ensures
        roll(members) == ids,
{
    lemma_ascending_unique(roll(members), ids);
}

/// Members by identifier, kept in ascending order of the identifiers.
#[derive(Debug)]
pub struct Population {
    entries: Vec<(String, CensusMember)>,
}

impl View for Population {
    type V = Members;

    closed spec fn view(&self) -> Members {
        as_map(self.listing())
    }
}

impl Population {
    closed spec fn listing(&self) -> Seq<(Seq<char>, CensusMemberView)> {
        self.entries@.map_values(|e: (String, CensusMember)| (e.0@, e.1@))
    }

    /// The members stand in ascending order of their identifiers, each identifier once.
    pub closed spec fn wf(&self) -> bool {
        forall|i: int, j: int|
            0 <= i < j < self.listing().len() ==> before(
                (#[trigger] self.listing()[i]).0,
                (#[trigger] self.listing()[j]).0,
            )
    }

    proof fn lemma_distinct(&self)
        requires
            self.wf(),
        ensures
            distinct(self.listing()),
    {
        assert forall|i: int, j: int|
            0 <= i < self.listing().len() && 0 <= j < self.listing().len() && i
                != j implies (#[trigger] self.listing()[i]).0 != (#[trigger] self.listing()[j]).0 by {
            lemma_before_irreflexive(self.listing()[i].0);
        }
    }

    proof fn lemma_roll(&self)
        requires
            self.wf(),
        ensures
            is_roll(roll(self@), self@),
            roll(self@) == keys_of(self.listing()),
            forall|i: int|
                0 <= i < self.listing().len() ==> {
                    &&& self@.contains_key((#[trigger] self.listing()[i]).0)
                    &&& self@[self.listing()[i].0] == self.listing()[i].1
                },
    {
        self.lemma_distinct();
        let s = self.listing();
        let ids = keys_of(s);
        assert forall|i: int| 0 <= i < s.len() implies self@.contains_key((#[trigger] s[i]).0)
            && self@[s[i].0] == s[i].1 by {
            lemma_entry(s, i);
        }
        assert forall|id: Seq<char>| #[trigger] ids.contains(id) <==> self@.contains_key(id) by {
            if ids.contains(id) {
                let i = choose|i: int| 0 <= i < ids.len() && ids[i] == id;
                assert(s[i].0 == id);
            }
            if self@.contains_key(id) {
                let i = lemma_place(s, id);
                assert(ids[i] == id);
            }
        }
        assert forall|i: int, j: int| 0 <= i < j < ids.len() implies before(
            #[trigger] ids[i],
            #[trigger] ids[j],
        ) by {
            assert(before(s[i].0, s[j].0));
        }
        lemma_roll_unique(ids, self@);
    }

    /// The roll of a population holds each of its identifiers, and nothing else, in
    /// ascending order.
    pub proof fn lemma_is_roll(&self)
        requires
            self.wf(),
        ensures
            is_roll(roll(self@), self@),
    {
        self.lemma_roll();
    }

    /// No members.
    pub fn new() -> (r: Self)
        ensures
            r.wf(),
            r@ == Map::<Seq<char>, CensusMemberView>::empty(),
    {
        let r = Population { entries: Vec::new() };
        assert(r@ =~= Map::<Seq<char>, CensusMemberView>::empty());
        r
    }

    /// The number of members.
    pub fn len(&self) -> (r: usize)
        requires
            self.wf(),
        ensures
            r == roll(self@).len(),
    {
        proof {
            self.lemma_roll();
        }
        self.entries.len()
    }

    /// The place of the first entry whose identifier does not stand before `id`.
    fn place(&self, id: &String) -> (r: usize)
        requires
            self.wf(),
        ensures
            r <= self.listing().len(),
            forall|i: int| 0 <= i < r ==> before((#[trigger] self.listing()[i]).0, id@),
            forall|i: int|
                r <= i < self.listing().len() ==> !before((#[trigger] self.listing()[i]).0, id@),
            self@.contains_key(id@) <==> r < self.listing().len() && self.listing()[r as int].0
                == id@,
    {
        let mut r: usize = 0;
        while r < self.entries.len() && stands_before(self.entries[r].0.as_str(), id.as_str())
            invariant
                r <= self.entries@.len(),
                self.entries@.len() == self.listing().len(),
                forall|i: int| 0 <= i < r ==> before((#[trigger] self.listing()[i]).0, id@),
            decreases self.entries@.len() - r,
        {
            r = r + 1;
        }
        proof {
            let s = self.listing();
            self.lemma_distinct();
            assert forall|i: int| r <= i < s.len() implies !before((#[trigger] s[i]).0, id@) by {
                if i > r && before(s[i].0, id@) {
                    assert(before(s[r as int].0, s[i].0));
                    lemma_before_transitive(s[r as int].0, s[i].0, id@);
                }
            }
            if self@.contains_key(id@) {
                let i = lemma_place(s, id@);
                lemma_before_irreflexive(id@);
                if i > r {
                    assert(before(s[r as int].0, s[i].0));
                }
            }
            if r < s.len() && s[r as int].0 == id@ {
                lemma_entry(s, r as int);
            }
        }
        r
    }

    /// The member with this identifier.
    pub fn get(&self, id: &String) -> (r: Option<&CensusMember>)
        requires
            self.wf(),
        ensures
            r is Some <==> self@.contains_key(id@),
            r matches Some(member) ==> member@ == self@[id@],
    {
        let i = self.place(id);
        if i < self.entries.len() && self.entries[i].0 == *id {
            proof {
                self.lemma_distinct();
                assert(self.listing()[i as int].0 == id@);
                lemma_entry(self.listing(), i as int);
            }
            Some(&self.entries[i].1)
        } else {
            None
        }
    }

    /// The member that stands at a place of the roll.
    pub fn member_at(&self, i: usize) -> (r: &CensusMember)
        requires
            self.wf(),
            i < roll(self@).len(),
        ensures
            r@ == self@[roll(self@)[i as int]],
    {
        proof {
            self.lemma_roll();
            assert(self@[self.listing()[i as int].0] == self.listing()[i as int].1);
        }
        &self.entries[i].1
    }

    /// The identifier that stands at a place of the roll.
    pub fn id_at(&self, i: usize) -> (r: &String)
        requires
            self.wf(),
            i < roll(self@).len(),
        ensures
            r@ == roll(self@)[i as int],
    {
        proof {
            self.lemma_roll();
        }
        &self.entries[i].0
    }

    /// The member with this identifier, to be changed.
    pub fn get_mut(&mut self, id: &String) -> (r: Option<&mut CensusMember>)
        requires
            old(self).wf(),
        ensures
            final(self).wf(),
            r is Some <==> old(self)@.contains_key(id@),
            r matches Some(member) ==> {
                &&& (*member)@ == old(self)@[id@]
                &&& final(self)@ == old(self)@.insert(id@, (*final(member))@)
            },
            r is None ==> final(self)@ == old(self)@,
    {
        let i = self.place(id);
        if i < self.entries.len() && self.entries[i].0 == *id {
            proof {
                self.lemma_distinct();
                assert(self.listing()[i as int].0 == id@);
                lemma_entry(self.listing(), i as int);
                self.lemma_member_changed(i as int);
            }
            Some(&mut self.entries[i].1)
        } else {
            None
        }
    }

    /// The member that stands at a place of the roll, to be changed.
    pub fn member_at_mut(&mut self, i: usize) -> (r: &mut CensusMember)
        requires
            old(self).wf(),
            i < roll(old(self)@).len(),
        ensures
            final(self).wf(),
            (*r)@ == old(self)@[roll(old(self)@)[i as int]],
            final(self)@ == old(self)@.insert(roll(old(self)@)[i as int], (*final(r))@),
    {
        proof {
            self.lemma_roll();
            assert(self@[self.listing()[i as int].0] == self.listing()[i as int].1);
            self.lemma_member_changed(i as int);
        }
        &mut self.entries[i].1
    }

    /// The member with this identifier, to be changed: where there was none, a new one of
    /// which nothing was heard yet.
    pub fn entry(&mut self, id: &String) -> (r: &mut CensusMember)
        requires
            old(self).wf(),
        ensures
            final(self).wf(),
            (*r)@ == (if old(self)@.contains_key(id@) {
                old(self)@[id@]
            } else {
                CensusMemberView::unknown()
            }),
            final(self)@ == old(self)@.insert(id@, (*final(r))@),
    {
        let i = self.place(id);
        if i < self.entries.len() && self.entries[i].0 == *id {
            proof {
                self.lemma_distinct();
                assert(self.listing()[i as int].0 == id@);
                lemma_entry(self.listing(), i as int);
            }
        } else {
            let ghost s = self.listing();
            let ghost newcomer = (id@, CensusMemberView::unknown());
            proof {
                self.lemma_distinct();
                lemma_insert(s, i as int, id@, CensusMemberView::unknown());
            }
            self.entries.insert(i, (id.clone(), CensusMember::default()));
            proof {
                let t = self.listing();
                assert(t =~= s.insert(i as int, newcomer));
                assert forall|a: int, b: int| 0 <= a < b < t.len() implies before(
                    (#[trigger] t[a]).0,
                    (#[trigger] t[b]).0,
                ) by {
                    let x = if a < i {
                        a
                    } else {
                        a - 1
                    };
                    let y = if b < i {
                        b
                    } else {
                        b - 1
                    };
                    if a == i {
                        assert(!before(s[y].0, id@));
                        lemma_entry(s, y);
                        lemma_before_total(s[y].0, id@);
                    } else if b == i {
                        assert(before(s[x].0, id@));
                    } else {
                        assert(before(s[x].0, s[y].0));
                    }
                }
                assert(self@ == old(self)@.insert(id@, CensusMemberView::unknown()));
                assert(self.listing()[i as int] == newcomer);
            }
        }
        proof {
            self.lemma_member_changed(i as int);
            assert forall|m: CensusMemberView|
                #[trigger] self@.insert(id@, m) == old(self)@.insert(id@, m) by {
                assert(self@.insert(id@, m) =~= old(self)@.insert(id@, m));
            }
        }
        &mut self.entries[i].1
    }

    /// `after` differs from this population at most in the member at place `i`.
    closed spec fn changed_at(&self, after: Self, i: int) -> bool {
        &&& 0 <= i < self.entries@.len()
        &&& after.entries@ == self.entries@.update(i, after.entries@[i])
        &&& after.entries@[i].0 == self.entries@[i].0
    }

    /// To change the member at one place keeps the order, and replaces that member.
    proof fn lemma_member_changed(&self, i: int)
        requires
            self.wf(),
            0 <= i < self.listing().len(),
        ensures
            forall|after: Self|
                #![trigger after.wf()]
                #![trigger after@]
                self.changed_at(after, i) ==> {
                    &&& after.wf()
                    &&& after@ == self@.insert(self.listing()[i].0, after.entries@[i].1@)
                },
    {
        self.lemma_distinct();
        assert forall|after: Self|
            #![trigger after.wf()]
            #![trigger after@]
            self.changed_at(after, i) implies after.wf() && after@ == self@.insert(
            self.listing()[i].0,
            after.entries@[i].1@,
        ) by {
            let s = self.listing();
            let t = after.listing();
            let member = after.entries@[i].1@;
            assert(t =~= s.update(i, (s[i].0, member)));
            lemma_update(s, i, member);
            assert forall|a: int, b: int| 0 <= a < b < t.len() implies before(
                (#[trigger] t[a]).0,
                (#[trigger] t[b]).0,
            ) by {
                assert(before(s[a].0, s[b].0));
            }
        }
    }
}

} // verus!
