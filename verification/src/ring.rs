//! The census of the whole ring: every service group that was heard of.

use vstd::prelude::*;

use crate::assoc::{
    as_map, distinct, keys_of, lemma_entry, lemma_insert, lemma_place, lemma_update,
};
use crate::group::{CensusGroup, CensusGroupView};
use crate::member::{CensusMember, CensusMemberView};
use crate::rumor::{
    election_id, ElectionRumor, ElectionUpdateRumor, ElectionView, Health, MemberList,
    MemberListView, MemberView, RumorKeyView, RumorStore, RumorStoreView, ServiceGroup,
    ServiceGroupView, ServiceRumor, ServiceRumorView,
};

verus! {

/// The census of a ring of supervisors, as one of its members keeps it.
#[derive(Debug)]
pub struct CensusRing {
    /// Whether the last update brought anything new.
    pub changed: bool,
    /// The service groups, in the order in which they were first heard of.
    pub census_groups: Vec<CensusGroup>,
    /// The member that keeps this census.
    pub local_member_id: String,
    pub last_service_counter: usize,
    pub last_election_counter: usize,
    pub last_election_update_counter: usize,
    pub last_membership_counter: usize,
}

pub struct CensusRingView {
    pub changed: bool,
    /// The service groups.
    pub groups: Map<ServiceGroupView, CensusGroupView>,
    /// The order in which the service groups were first heard of.
    pub order: Seq<ServiceGroupView>,
    pub local_member_id: Seq<char>,
    pub last_service_counter: nat,
    pub last_election_counter: nat,
    pub last_election_update_counter: nat,
    pub last_membership_counter: nat,
}

/// Specifies `from` of std's conversion of a type into itself, which every type has. Claimed:
/// it returns its argument unchanged.
pub assume_specification<Value>[ <Value as From<Value>>::from ](value: Value) -> (r: Value)
    ensures
        r == value,
;

/// Groups, each under the service group it is of.
pub open spec fn group_list(groups: Seq<CensusGroup>) -> Seq<(ServiceGroupView, CensusGroupView)> {
    groups.map_values(|g: CensusGroup| (g@.service_group, g@))
}

impl View for CensusRing {
    type V = CensusRingView;

    open spec fn view(&self) -> CensusRingView {
        CensusRingView {
            changed: self.changed,
            groups: as_map(group_list(self.census_groups@)),
            order: keys_of(group_list(self.census_groups@)),
            local_member_id: self.local_member_id@,
            last_service_counter: self.last_service_counter as nat,
            last_election_counter: self.last_election_counter as nat,
            last_election_update_counter: self.last_election_update_counter as nat,
            last_membership_counter: self.last_membership_counter as nat,
        }
    }
}

impl CensusRingView {
    /// A census that nothing was heard for yet.
    pub open spec fn fresh(local_member_id: Seq<char>) -> CensusRingView {
        CensusRingView {
            changed: false,
            groups: Map::empty(),
            order: Seq::empty(),
            local_member_id,
            last_service_counter: 0,
            last_election_counter: 0,
            last_election_update_counter: 0,
            last_membership_counter: 0,
        }
    }

    /// The census with a group put in the place of the group of the same service group, or
    /// added where there was none.
    pub open spec fn with_group(self, group: CensusGroupView) -> CensusRingView {
        CensusRingView {
            groups: self.groups.insert(group.service_group, group),
            order: if self.groups.contains_key(group.service_group) {
                self.order
            } else {
                self.order.push(group.service_group)
            },
            ..self
        }
    }

    /// The group of a service group, or one of which nothing was heard yet.
    pub open spec fn group_or_fresh(self, sg: ServiceGroupView) -> CensusGroupView {
        if self.groups.contains_key(sg) {
            self.groups[sg]
        } else {
            CensusGroupView::fresh(sg, self.local_member_id)
        }
    }

    /// The census after one key of the store of service rumors was taken up: a malformed key
    /// is passed over, and a service group not heard of before gets its group.
    pub open spec fn with_service_key(self, key: RumorKeyView<ServiceRumorView>) -> CensusRingView {
        match key.service_group {
            Some(sg) => self.with_group(self.group_or_fresh(sg).with_service_rumors(key.rumors)),
            None => self,
        }
    }

    /// The census after keys of the store of service rumors were taken up, one after the other.
    pub open spec fn with_service_keys(
        self,
        keys: Seq<RumorKeyView<ServiceRumorView>>,
    ) -> CensusRingView
        decreases keys.len(),
    {
        if keys.len() == 0 {
            self
        } else {
            self.with_service_keys(keys.drop_last()).with_service_key(keys.last())
        }
    }

    /// The census after one key of the store of elections was taken up: a malformed key, and
    /// the election of a service group not heard of, are passed over.
    pub open spec fn with_election_key(self, key: RumorKeyView<ElectionView>) -> CensusRingView {
        match key.service_group {
            Some(sg) => if self.groups.contains_key(sg) {
                self.with_group(self.groups[sg].with_election(key.rumor(election_id())))
            } else {
                self
            },
            None => self,
        }
    }

    /// The census after keys of the store of elections were taken up, one after the other.
    pub open spec fn with_election_keys(
        self,
        keys: Seq<RumorKeyView<ElectionView>>,
    ) -> CensusRingView
        decreases keys.len(),
    {
        if keys.len() == 0 {
            self
        } else {
            self.with_election_keys(keys.drop_last()).with_election_key(keys.last())
        }
    }

    /// The census after one key of the store of update elections was taken up: a malformed
    /// key, and the election of a service group not heard of, are passed over.
    pub open spec fn with_update_election_key(
        self,
        key: RumorKeyView<ElectionView>,
    ) -> CensusRingView {
        match key.service_group {
            Some(sg) => if self.groups.contains_key(sg) {
                self.with_group(self.groups[sg].with_update_election(key.rumor(election_id())))
            } else {
                self
            },
            None => self,
        }
    }

    /// The census after keys of the store of update elections were taken up, one after the
    /// other.
    pub open spec fn with_update_election_keys(
        self,
        keys: Seq<RumorKeyView<ElectionView>>,
    ) -> CensusRingView
        decreases keys.len(),
    {
        if keys.len() == 0 {
            self
        } else {
            self.with_update_election_keys(keys.drop_last()).with_update_election_key(keys.last())
        }
    }

    /// The group at place `i` of the order is the first that has a member with this identifier.
    pub open spec fn home_at(self, id: Seq<char>, i: int) -> bool {
        &&& 0 <= i < self.order.len()
        &&& self.groups[self.order[i]].population.contains_key(id)
        &&& forall|j: int|
            0 <= j < i ==> !self.groups[#[trigger] self.order[j]].population.contains_key(id)
    }

    /// Whether any group has a member with this identifier.
    pub open spec fn has_home(self, id: Seq<char>) -> bool {
        exists|i: int| self.home_at(id, i)
    }

    /// The first group that has a member with this identifier.
    pub open spec fn home(self, id: Seq<char>) -> ServiceGroupView {
        self.order[choose|i: int| self.home_at(id, i)]
    }

    /// The census with a member of a group replaced.
    pub open spec fn with_census_member(
        self,
        sg: ServiceGroupView,
        id: Seq<char>,
        member: CensusMemberView,
    ) -> CensusRingView {
        self.with_group(
            CensusGroupView {
                population: self.groups[sg].population.insert(id, member),
                ..self.groups[sg]
            },
        )
    }

    /// The census after one member of the list was taken up: the first group that has a
    /// member with its identifier learns of its address and, where that is known, its health.
    pub open spec fn with_listed(self, listed: (MemberView, Option<Health>)) -> CensusRingView {
        let (member, health) = listed;
        if self.has_home(member.id) {
            let sg = self.home(member.id);
            let found = self.groups[sg].population[member.id].with_member(member);
            self.with_census_member(
                sg,
                member.id,
                match health {
                    Some(h) => found.with_health(h),
                    None => found,
                },
            )
        } else {
            self
        }
    }

    /// The census after members of the list were taken up, one after the other.
    pub open spec fn with_listed_all(
        self,
        members: Seq<(MemberView, Option<Health>)>,
    ) -> CensusRingView
        decreases members.len(),
    {
        if members.len() == 0 {
            self
        } else {
            self.with_listed_all(members.drop_last()).with_listed(members.last())
        }
    }

    /// The census with a note that there was something new.
    pub open spec fn noting_change(self) -> CensusRingView {
        CensusRingView { changed: true, ..self }
    }

    /// The census after a store of service rumors was looked at: it is taken up only where
    /// its counter has passed the one last seen, moved on by `offset`.
    pub open spec fn with_service_store(
        self,
        offset: nat,
        store: RumorStoreView<ServiceRumorView>,
    ) -> CensusRingView {
        let seen = CensusRingView {
            last_service_counter: self.last_service_counter + offset,
            ..self
        };
        if store.update_counter <= seen.last_service_counter {
            seen
        } else {
            CensusRingView {
                last_service_counter: store.update_counter,
                ..seen.noting_change().with_service_keys(store.keys)
            }
        }
    }

    /// The census after a store of elections was looked at: it is taken up only where its
    /// counter has passed the one last seen.
    pub open spec fn with_election_store(
        self,
        store: RumorStoreView<ElectionView>,
    ) -> CensusRingView {
        if store.update_counter <= self.last_election_counter {
            self
        } else {
            CensusRingView {
                last_election_counter: store.update_counter,
                ..self.noting_change().with_election_keys(store.keys)
            }
        }
    }

    /// The census after a store of update elections was looked at: it is taken up only where
    /// its counter has passed the one last seen.
    pub open spec fn with_update_election_store(
        self,
        store: RumorStoreView<ElectionView>,
    ) -> CensusRingView {
        if store.update_counter <= self.last_election_update_counter {
            self
        } else {
            CensusRingView {
                last_election_update_counter: store.update_counter,
                ..self.noting_change().with_update_election_keys(store.keys)
            }
        }
    }

    /// The census after the list of members was looked at: it is taken up only where its
    /// counter has passed the one last seen.
    pub open spec fn with_member_list(self, list: MemberListView) -> CensusRingView {
        if list.update_counter <= self.last_membership_counter {
            self
        } else {
            CensusRingView {
                last_membership_counter: list.update_counter,
                ..self.noting_change().with_listed_all(list.members)
            }
        }
    }

    /// The census after everything that was heard was looked at.
    pub open spec fn updated(
        self,
        offset: nat,
        services: RumorStoreView<ServiceRumorView>,
        elections: RumorStoreView<ElectionView>,
        update_elections: RumorStoreView<ElectionView>,
        members: MemberListView,
    ) -> CensusRingView {
        CensusRingView { changed: false, ..self }.with_service_store(
            offset,
            services,
        ).with_election_store(elections).with_update_election_store(
            update_elections,
        ).with_member_list(members)
    }

    /// Whether an update with these stores can be made: the counter of the service rumors,
    /// moved on by `offset`, is a number of the machine, and each key of a store of elections
    /// that would be taken up holds an election.
    pub open spec fn accepts(
        self,
        offset: nat,
        elections: RumorStoreView<ElectionView>,
        update_elections: RumorStoreView<ElectionView>,
    ) -> bool {
        &&& self.last_service_counter + offset <= usize::MAX
        &&& elections.update_counter > self.last_election_counter ==> elections.elections_held()
        &&& update_elections.update_counter > self.last_election_update_counter
            ==> update_elections.elections_held()
    }
}

/// `a` and `b` agree on everything but the groups.
pub open spec fn same_notes(a: CensusRingView, b: CensusRingView) -> bool {
    b == (CensusRingView { groups: b.groups, order: b.order, ..a })
}

/// To take up service rumors touches nothing but the groups.
pub proof fn lemma_service_keys_frame(
    ring: CensusRingView,
    keys: Seq<RumorKeyView<ServiceRumorView>>,
)
    ensures
        same_notes(ring, ring.with_service_keys(keys)),
    decreases keys.len(),
{
    if keys.len() > 0 {
        lemma_service_keys_frame(ring, keys.drop_last());
    }
}

/// To take up elections touches nothing but the groups.
pub proof fn lemma_election_keys_frame(
    ring: CensusRingView,
    keys: Seq<RumorKeyView<ElectionView>>,
)
    ensures
        same_notes(ring, ring.with_election_keys(keys)),
    decreases keys.len(),
{
    if keys.len() > 0 {
        lemma_election_keys_frame(ring, keys.drop_last());
    }
}

/// To take up update elections touches nothing but the groups.
pub proof fn lemma_update_election_keys_frame(
    ring: CensusRingView,
    keys: Seq<RumorKeyView<ElectionView>>,
)
    ensures
        same_notes(ring, ring.with_update_election_keys(keys)),
    decreases keys.len(),
{
    if keys.len() > 0 {
        lemma_update_election_keys_frame(ring, keys.drop_last());
    }
}

/// To take up members of the list touches nothing but the groups.
pub proof fn lemma_listed_frame(ring: CensusRingView, members: Seq<(MemberView, Option<Health>)>)
    ensures
        same_notes(ring, ring.with_listed_all(members)),
    decreases members.len(),
{
    if members.len() > 0 {
        lemma_listed_frame(ring, members.drop_last());
    }
}

impl CensusRing {
    /// Each service group has but one group, whose members are in order; every group names
    /// the same member as the keeper of the census.
    pub open spec fn wf(&self) -> bool {
        &&& distinct(group_list(self.census_groups@))
        &&& forall|i: int|
            0 <= i < self.census_groups@.len() ==> {
                &&& (#[trigger] self.census_groups@[i]).wf()
                &&& self.census_groups@[i]@.local_member_id == self.local_member_id@
            }
    }

    proof fn lemma_listed(&self, i: int)
        requires
            self.wf(),
            0 <= i < self.census_groups@.len(),
        ensures
            self@.order.len() == self.census_groups@.len(),
            self@.order[i] == self.census_groups@[i]@.service_group,
            self@.groups.contains_key(self@.order[i]),
            self@.groups[self@.order[i]] == self.census_groups@[i]@,
    {
        lemma_entry(group_list(self.census_groups@), i);
    }

    /// `after` differs from this census at most in the group at place `i`.
    spec fn changed_at(&self, after: Self, i: int) -> bool {
        &&& 0 <= i < self.census_groups@.len()
        &&& after.census_groups@ == self.census_groups@.update(i, after.census_groups@[i])
        &&& after.census_groups@[i].wf()
        &&& after.census_groups@[i]@.service_group == self.census_groups@[i]@.service_group
        &&& after.census_groups@[i]@.local_member_id == self.census_groups@[i]@.local_member_id
        &&& after.changed == self.changed
        &&& after.local_member_id == self.local_member_id
        &&& after.last_service_counter == self.last_service_counter
        &&& after.last_election_counter == self.last_election_counter
        &&& after.last_election_update_counter == self.last_election_update_counter
        &&& after.last_membership_counter == self.last_membership_counter
    }

    /// To change one group keeps the census well-formed, and replaces that group.
    proof fn lemma_group_changed(&self, i: int)
        requires
            self.wf(),
            0 <= i < self.census_groups@.len(),
        ensures
            forall|after: Self|
                #![trigger after.wf()]
                #![trigger after@]
                self.changed_at(after, i) ==> {
                    &&& after.wf()
                    &&& after@ == self@.with_group(after.census_groups@[i]@)
                },
    {
        assert forall|after: Self|
            #![trigger after.wf()]
            #![trigger after@]
            self.changed_at(after, i) implies after.wf() && after@ == self@.with_group(
            after.census_groups@[i]@,
        ) by {
            let s = group_list(self.census_groups@);
            let t = group_list(after.census_groups@);
            let group = after.census_groups@[i]@;
            assert(t =~= s.update(i, (s[i].0, group)));
            lemma_update(s, i, group);
            lemma_entry(s, i);
            assert(keys_of(t) =~= keys_of(s));
        }
    }

    /// A census that nothing was heard for yet, kept by the member whose identifier
    /// `local_member_id` converts into.
    pub fn new<I: Into<String>>(local_member_id: I) -> (r: Self)
        ensures
            r.wf(),
            exists|id: String|
                #[trigger] call_ensures(I::into, (local_member_id,), id) && r@
                    == CensusRingView::fresh(id@) && r.local_member_id == id,
            !r.changed,
            r.census_groups@.len() == 0,
            r.last_service_counter == 0,
            r.last_election_counter == 0,
            r.last_election_update_counter == 0,
            r.last_membership_counter == 0,
    {
        let r = CensusRing {
            changed: false,
            census_groups: Vec::new(),
            local_member_id: local_member_id.into(),
            last_service_counter: 0,
            last_election_counter: 0,
            last_election_update_counter: 0,
            last_membership_counter: 0,
        };
        assert(r@.groups =~= Map::empty());
        assert(r@.order =~= Seq::empty());
        r
    }

    /// A census that nothing was heard for yet, kept by the member with this identifier.
    pub fn kept_by(local_member_id: String) -> (r: Self)
        ensures
            r.wf(),
            r@ == CensusRingView::fresh(local_member_id@),
            r.local_member_id@ == local_member_id@,
            !r.changed,
            r.census_groups@.len() == 0,
            r.last_service_counter == 0,
            r.last_election_counter == 0,
            r.last_election_update_counter == 0,
            r.last_membership_counter == 0,
    {
        CensusRing::new(local_member_id)
    }

    /// The place of the group of a service group.
    fn position(&self, sg: &ServiceGroup) -> (r: Option<usize>)
        requires
            self.wf(),
        ensures
            r is Some <==> self@.groups.contains_key(sg@),
            r matches Some(i) ==> {
                &&& i < self.census_groups@.len()
                &&& self.census_groups@[i as int]@.service_group == sg@
                &&& self.census_groups@[i as int]@ == self@.groups[sg@]
            },
            r is None ==> forall|i: int|
                0 <= i < self.census_groups@.len() ==> (
                #[trigger] self.census_groups@[i]).service_group@ != sg@,
    {
        let mut i: usize = 0;
        while i < self.census_groups.len()
            invariant
                self.wf(),
                i <= self.census_groups@.len(),
                forall|j: int|
                    0 <= j < i ==> (#[trigger] self.census_groups@[j])@.service_group != sg@,
            decreases self.census_groups@.len() - i,
        {
            if self.census_groups[i].service_group.same_as(sg) {
                proof {
                    self.lemma_listed(i as int);
                }
                return Some(i);
            }
            i = i + 1;
        }
        proof {
            if self@.groups.contains_key(sg@) {
                let j = lemma_place(group_list(self.census_groups@), sg@);
                assert(self.census_groups@[j]@.service_group == sg@);
            }
        }
        None
    }

    /// The group of a service group, if it was heard of.
    pub fn census_group_for(&self, sg: &ServiceGroup) -> (r: Option<&CensusGroup>)
        requires
            self.wf(),
        ensures
            r is Some <==> self@.groups.contains_key(sg@),
            r matches Some(group) ==> group.wf() && group@ == self@.groups[sg@],
            r is Some <==> exists|i: int|
                0 <= i < self.census_groups@.len() && (
                #[trigger] self.census_groups@[i]).service_group@ == sg@,
            r matches Some(group) ==> self.census_groups@.contains(*group)
                && group.service_group@ == sg@,
    {
        match self.position(sg) {
            Some(i) => Some(&self.census_groups[i]),
            None => None,
        }
    }

    /// The groups, in the order in which their service groups were first heard of.
    pub fn groups(&self) -> (r: Vec<&CensusGroup>)
        requires
            self.wf(),
        ensures
            r@.len() == self@.order.len(),
            forall|i: int|
                0 <= i < r@.len() ==> {
                    &&& (#[trigger] r@[i]).wf()
                    &&& r@[i]@ == self@.groups[self@.order[i]]
                },
            r@.len() == self.census_groups@.len(),
            forall|i: int| 0 <= i < r@.len() ==> *(#[trigger] r@[i]) == self.census_groups@[i],
    {
        let mut r: Vec<&CensusGroup> = Vec::new();
        let mut i: usize = 0;
        while i < self.census_groups.len()
            invariant
                self.wf(),
                i <= self.census_groups@.len(),
                r@.len() == i,
                forall|j: int|
                    0 <= j < i ==> {
                        &&& (#[trigger] r@[j]).wf()
                        &&& r@[j]@ == self@.groups[self@.order[j]]
                    },
                forall|j: int| 0 <= j < i ==> *(#[trigger] r@[j]) == self.census_groups@[j],
            decreases self.census_groups@.len() - i,
        {
            proof {
                self.lemma_listed(i as int);
            }
            r.push(&self.census_groups[i]);
            i = i + 1;
        }
        r
    }

    /// Looks at everything that was heard, takes up what is new, and notes whether there was
    /// anything.
    pub fn update_from_rumors(
        &mut self,
        service_rumor_offset: usize,
        service_rumors: &RumorStore<ServiceRumor>,
        election_rumors: &RumorStore<ElectionRumor>,
        election_update_rumors: &RumorStore<ElectionUpdateRumor>,
        member_list: &MemberList,
    )
        requires
            old(self).wf(),
            old(self)@.accepts(
                service_rumor_offset as nat,
                election_rumors@,
                election_update_rumors@,
            ),
        ensures
            final(self).wf(),
            final(self)@ == old(self)@.updated(
                service_rumor_offset as nat,
                service_rumors@,
                election_rumors@,
                election_update_rumors@,
                member_list@,
            ),
            final(self).local_member_id@ == old(self).local_member_id@,
            final(self).changed == {
                ||| service_rumors.update_counter > old(self).last_service_counter
                    + service_rumor_offset
                ||| election_rumors.update_counter > old(self).last_election_counter
                ||| election_update_rumors.update_counter > old(self).last_election_update_counter
                ||| member_list.update_counter > old(self).last_membership_counter
            },
    {
        self.changed = false;
        let ghost quiet = self@;
        self.update_from_service_store(service_rumor_offset, service_rumors);
        proof {
            let seen = CensusRingView {
                last_service_counter: quiet.last_service_counter + service_rumor_offset as nat,
                ..quiet
            };
            lemma_service_keys_frame(seen.noting_change(), service_rumors@.keys);
        }
        let ghost served = self@;
        self.update_from_election_store(election_rumors);
        proof {
            lemma_election_keys_frame(served.noting_change(), election_rumors@.keys);
        }
        self.update_from_election_update_store(election_update_rumors);
        self.update_from_member_list(member_list);
    }

    /// Whether an update with these stores can be made.
    pub fn accepts(
        &self,
        service_rumor_offset: usize,
        election_rumors: &RumorStore<ElectionRumor>,
        election_update_rumors: &RumorStore<ElectionUpdateRumor>,
    ) -> (r: bool)
        ensures
            r == self@.accepts(
                service_rumor_offset as nat,
                election_rumors@,
                election_update_rumors@,
            ),
            r == {
                &&& self.last_service_counter + service_rumor_offset <= usize::MAX
                &&& election_rumors.update_counter > self.last_election_counter ==> forall|i: int|
                    0 <= i < election_rumors.keys@.len() ==> exists|j: int|
                        0 <= j < (#[trigger] election_rumors.keys@[i]).rumors@.len() && (
                        #[trigger] election_rumors.keys@[i].rumors@[j]).0@ == "election"@
                &&& election_update_rumors.update_counter > self.last_election_update_counter
                    ==> forall|i: int|
                    0 <= i < election_update_rumors.keys@.len() ==> exists|j: int|
                        0 <= j < (#[trigger] election_update_rumors.keys@[i]).rumors@.len() && (
                        #[trigger] election_update_rumors.keys@[i].rumors@[j]).0@ == "election"@
            },
    {
        service_rumor_offset <= usize::MAX - self.last_service_counter && (
        election_rumors.update_counter <= self.last_election_counter
            || election_rumors.elections_held()) && (election_update_rumors.update_counter
            <= self.last_election_update_counter || election_update_rumors.elections_held())
    }

    /// Takes up the rumors of one service group, which gets its group here where it was not
    /// heard of before.
    fn update_group_from_service_rumors(
        &mut self,
        sg: &ServiceGroup,
        rumors: &Vec<(String, ServiceRumor)>,
    )
        requires
            old(self).wf(),
        ensures
            final(self).wf(),
            final(self)@ == old(self)@.with_group(
                old(self)@.group_or_fresh(sg@).with_service_rumors(
                    rumors@.map_values(|e: (String, ServiceRumor)| (e.0@, e.1@)),
                ),
            ),
    {
        match self.position(sg) {
            Some(i) => {
                proof {
                    self.lemma_group_changed(i as int);
                }
                self.census_groups[i].update_from_service_rumors(rumors);
            },
            None => {
                let mut group = CensusGroup::new(sg.clone(), &self.local_member_id);
                group.update_from_service_rumors(rumors);
                let ghost s = group_list(self.census_groups@);
                self.census_groups.push(group);
                proof {
                    let t = group_list(self.census_groups@);
                    assert(t =~= s.insert(s.len() as int, (group@.service_group, group@)));
                    lemma_insert(s, s.len() as int, group@.service_group, group@);
                    assert(keys_of(t) =~= keys_of(s).push(group@.service_group));
                }
            },
        }
    }

    /// Looks at the store of service rumors.
    pub fn update_from_service_store(
        &mut self,
        service_rumor_offset: usize,
        service_rumors: &RumorStore<ServiceRumor>,
    )
        requires
            old(self).wf(),
            old(self)@.last_service_counter + service_rumor_offset <= usize::MAX,
        ensures
            final(self).wf(),
            final(self)@ == old(self)@.with_service_store(
                service_rumor_offset as nat,
                service_rumors@,
            ),
            final(self).local_member_id@ == old(self).local_member_id@,
            final(self).changed == (old(self).changed || service_rumors.update_counter > old(self).last_service_counter
                + service_rumor_offset),
            final(self).last_service_counter == (if service_rumors.update_counter > old(self).last_service_counter
                + service_rumor_offset {
                service_rumors.update_counter as int
            } else {
                old(self).last_service_counter + service_rumor_offset
            }),
            final(self).last_election_counter == old(self).last_election_counter,
            final(self).last_election_update_counter == old(self).last_election_update_counter,
            final(self).last_membership_counter == old(self).last_membership_counter,
    {
        self.last_service_counter = self.last_service_counter + service_rumor_offset;
        if service_rumors.update_counter <= self.last_service_counter {
            return;
        }
        let ghost seen = self@;
        let ghost keys = service_rumors@.keys;
        self.changed = true;
        let mut i: usize = 0;
        assert(keys.take(0) =~= Seq::empty());
        while i < service_rumors.keys.len()
            invariant
                i <= service_rumors.keys@.len(),
                keys == service_rumors@.keys,
                self.wf(),
                self@ == seen.noting_change().with_service_keys(keys.take(i as int)),
            decreases service_rumors.keys@.len() - i,
        {
            let key = &service_rumors.keys[i];
            proof {
                assert(keys.take(i + 1).drop_last() =~= keys.take(i as int));
                assert(keys.take(i + 1).last() == key@);
            }
            match &key.service_group {
                Some(sg) => self.update_group_from_service_rumors(sg, &key.rumors),
                None => {},
            }
            i = i + 1;
        }
        assert(keys.take(i as int) =~= keys);
        proof {
            lemma_service_keys_frame(seen.noting_change(), keys);
        }
        self.last_service_counter = service_rumors.update_counter;
    }

    /// Looks at the store of elections.
    pub fn update_from_election_store(&mut self, election_rumors: &RumorStore<ElectionRumor>)
        requires
            old(self).wf(),
            election_rumors@.update_counter > old(self)@.last_election_counter
                ==> election_rumors@.elections_held(),
        ensures
            final(self).wf(),
            final(self)@ == old(self)@.with_election_store(election_rumors@),
            final(self).local_member_id@ == old(self).local_member_id@,
            final(self).changed == (old(self).changed || election_rumors.update_counter
                > old(self).last_election_counter),
            final(self).last_service_counter == old(self).last_service_counter,
            final(self).last_election_counter == (if election_rumors.update_counter > old(self).last_election_counter {
                election_rumors.update_counter
            } else {
                old(self).last_election_counter
            }),
            final(self).last_election_update_counter == old(self).last_election_update_counter,
            final(self).last_membership_counter == old(self).last_membership_counter,
    {
        if election_rumors.update_counter <= self.last_election_counter {
            return;
        }
        let ghost keys = election_rumors@.keys;
        self.changed = true;
        let mut i: usize = 0;
        assert(keys.take(0) =~= Seq::empty());
        while i < election_rumors.keys.len()
            invariant
                i <= election_rumors.keys@.len(),
                keys == election_rumors@.keys,
                election_rumors@.elections_held(),
                self.wf(),
                self@ == old(self)@.noting_change().with_election_keys(keys.take(i as int)),
            decreases election_rumors.keys@.len() - i,
        {
            let key = &election_rumors.keys[i];
            proof {
                assert(keys.take(i + 1).drop_last() =~= keys.take(i as int));
                assert(keys.take(i + 1).last() == key@);
                assert(keys[i as int].has_rumor(election_id()));
            }
            let election = &key.rumors[key.find_election().unwrap()].1;
            match &key.service_group {
                Some(sg) => match self.position(sg) {
                    Some(g) => {
                        proof {
                            self.lemma_group_changed(g as int);
                        }
                        self.census_groups[g].update_from_election_rumor(election);
                    },
                    None => {},
                },
                None => {},
            }
            i = i + 1;
        }
        assert(keys.take(i as int) =~= keys);
        proof {
            lemma_election_keys_frame(old(self)@.noting_change(), keys);
        }
        self.last_election_counter = election_rumors.update_counter;
    }

    /// Looks at the store of update elections.
    pub fn update_from_election_update_store(
        &mut self,
        election_update_rumors: &RumorStore<ElectionUpdateRumor>,
    )
        requires
            old(self).wf(),
            election_update_rumors@.update_counter > old(self)@.last_election_update_counter
                ==> election_update_rumors@.elections_held(),
        ensures
            final(self).wf(),
            final(self)@ == old(self)@.with_update_election_store(election_update_rumors@),
            final(self).local_member_id@ == old(self).local_member_id@,
            final(self).changed == (old(self).changed || election_update_rumors.update_counter
                > old(self).last_election_update_counter),
            final(self).last_service_counter == old(self).last_service_counter,
            final(self).last_election_counter == old(self).last_election_counter,
            final(self).last_election_update_counter == (if election_update_rumors.update_counter > old(self).last_election_update_counter {
                election_update_rumors.update_counter
            } else {
                old(self).last_election_update_counter
            }),
            final(self).last_membership_counter == old(self).last_membership_counter,
    {
        if election_update_rumors.update_counter <= self.last_election_update_counter {
            return;
        }
        let ghost keys = election_update_rumors@.keys;
        self.changed = true;
        let mut i: usize = 0;
        assert(keys.take(0) =~= Seq::empty());
        while i < election_update_rumors.keys.len()
            invariant
                i <= election_update_rumors.keys@.len(),
                keys == election_update_rumors@.keys,
                election_update_rumors@.elections_held(),
                self.wf(),
                self@ == old(self)@.noting_change().with_update_election_keys(keys.take(i as int)),
            decreases election_update_rumors.keys@.len() - i,
        {
            let key = &election_update_rumors.keys[i];
            proof {
                assert(keys.take(i + 1).drop_last() =~= keys.take(i as int));
                assert(keys.take(i + 1).last() == key@);
                assert(keys[i as int].has_rumor(election_id()));
            }
            let election = &key.rumors[key.find_election().unwrap()].1;
            match &key.service_group {
                Some(sg) => match self.position(sg) {
                    Some(g) => {
                        proof {
                            self.lemma_group_changed(g as int);
                        }
                        self.census_groups[g].update_from_election_update_rumor(election);
                    },
                    None => {},
                },
                None => {},
            }
            i = i + 1;
        }
        assert(keys.take(i as int) =~= keys);
        proof {
            lemma_update_election_keys_frame(old(self)@.noting_change(), keys);
        }
        self.last_election_update_counter = election_update_rumors.update_counter;
    }

    /// Looks at the list of members.
    pub fn update_from_member_list(&mut self, member_list: &MemberList)
        requires
            old(self).wf(),
        ensures
            final(self).wf(),
            final(self)@ == old(self)@.with_member_list(member_list@),
            final(self).local_member_id@ == old(self).local_member_id@,
            final(self).changed == (old(self).changed || member_list.update_counter
                > old(self).last_membership_counter),
            final(self).last_service_counter == old(self).last_service_counter,
            final(self).last_election_counter == old(self).last_election_counter,
            final(self).last_election_update_counter == old(self).last_election_update_counter,
            final(self).last_membership_counter == (if member_list.update_counter > old(self).last_membership_counter {
                member_list.update_counter
            } else {
                old(self).last_membership_counter
            }),
    {
        if member_list.update_counter <= self.last_membership_counter {
            return;
        }
        let ghost listed = member_list@.members;
        self.changed = true;
        let mut i: usize = 0;
        assert(listed.take(0) =~= Seq::empty());
        while i < member_list.members.len()
            invariant
                i <= member_list.members@.len(),
                listed == member_list@.members,
                self.wf(),
                self@ == old(self)@.noting_change().with_listed_all(listed.take(i as int)),
            decreases member_list.members@.len() - i,
        {
            let member = &member_list.members[i].0;
            let health = member_list.members[i].1;
            proof {
                assert(listed.take(i + 1).drop_last() =~= listed.take(i as int));
                assert(listed.take(i + 1).last() == (member@, health));
            }
            if let Some(census_member) = self.find_member_mut(&member.id) {
                census_member.update_from_member(member);
                if let Some(health) = health {
                    census_member.update_from_health(health);
                }
            }
            i = i + 1;
        }
        assert(listed.take(i as int) =~= listed);
        proof {
            lemma_listed_frame(old(self)@.noting_change(), listed);
        }
        self.last_membership_counter = member_list.update_counter;
    }

    /// The member with this identifier in the first group that has one, to be changed.
    pub fn find_member_mut(&mut self, member_id: &String) -> (r: Option<&mut CensusMember>)
        requires
            old(self).wf(),
        ensures
            final(self).wf(),
            r is Some <==> old(self)@.has_home(member_id@),
            r matches Some(member) ==> {
                let sg = old(self)@.home(member_id@);
                &&& (*member)@ == old(self)@.groups[sg].population[member_id@]
                &&& final(self)@ == old(self)@.with_census_member(
                    sg,
                    member_id@,
                    (*final(member))@,
                )
            },
            r is None ==> final(self)@ == old(self)@,
            r is Some <==> exists|i: int|
                0 <= i < old(self).census_groups@.len() && (
                #[trigger] old(self).census_groups@[i]).population@.contains_key(member_id@),
    {
        let mut i: usize = 0;
        while i < self.census_groups.len()
            invariant
                *self == *old(self),
                self.wf(),
                i <= self.census_groups@.len(),
                forall|j: int|
                    0 <= j < i ==> !(#[trigger] self.census_groups@[j]).population@.contains_key(
                        member_id@,
                    ),
                forall|j: int|
                    0 <= j < i ==> !self@.groups[#[trigger] self@.order[j]].population.contains_key(
                        member_id@,
                    ),
            decreases self.census_groups@.len() - i,
        {
            proof {
                self.lemma_listed(i as int);
            }
            if self.census_groups[i].population.get(member_id).is_some() {
                proof {
                    assert(self@.home_at(member_id@, i as int));
                    let k = choose|k: int| self@.home_at(member_id@, k);
                    assert(k == i) by {
                        if k < i {
                            assert(!self@.groups[self@.order[k]].population.contains_key(
                                member_id@,
                            ));
                        }
                    }
                    self.lemma_group_changed(i as int);
                }
                return self.census_groups[i].find_member_mut(member_id);
            }
            i = i + 1;
        }
        None
    }
}

} // verus!
