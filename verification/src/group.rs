//! A service group, as the census knows it.

use vstd::prelude::*;

use crate::member::{CensusMember, CensusMemberView};
use crate::population::{is_roll, lemma_roll_unique, roll, Members, Population};
use crate::rumor::{
    opt_text, ElectionPhase, ElectionRumor, ElectionUpdateRumor, ElectionView, ServiceGroup,
    ServiceGroupView, ServiceRumor, ServiceRumorView,
};
use crate::text::{before, lemma_before_asymmetric, stands_before};

verus! {

/// What came of the last election of a leader.
#[derive(Debug, Clone, Copy, PartialEq, Eq)]
pub enum ElectionStatus {
    NoElection,
    ElectionInProgress,
    ElectionNoQuorum,
    ElectionFinished,
}

/// A service group: its members, and what its elections came to.
#[derive(Debug)]
pub struct CensusGroup {
    pub service_group: ServiceGroup,
    pub election_status: ElectionStatus,
    pub leader_id: Option<String>,
    /// The member that keeps this census.
    pub local_member_id: String,
    pub population: Population,
    pub update_leader_id: Option<String>,
}

pub struct CensusGroupView {
    pub service_group: ServiceGroupView,
    pub election_status: ElectionStatus,
    pub leader_id: Option<Seq<char>>,
    pub local_member_id: Seq<char>,
    pub population: Members,
    pub update_leader_id: Option<Seq<char>>,
}

impl View for CensusGroup {
    type V = CensusGroupView;

    open spec fn view(&self) -> CensusGroupView {
        CensusGroupView {
            service_group: self.service_group@,
            election_status: self.election_status,
            leader_id: opt_text(self.leader_id),
            local_member_id: self.local_member_id@,
            population: self.population@,
            update_leader_id: opt_text(self.update_leader_id),
        }
    }
}

/// What an election rumor says of the election of its group.
pub open spec fn status_of(phase: ElectionPhase) -> ElectionStatus {
    match phase {
        ElectionPhase::Running => ElectionStatus::ElectionInProgress,
        ElectionPhase::NoQuorum => ElectionStatus::ElectionNoQuorum,
        ElectionPhase::Finished => ElectionStatus::ElectionFinished,
    }
}

/// The member with this identifier, or one of which nothing was heard yet.
pub open spec fn member_or_unknown(members: Members, id: Seq<char>) -> CensusMemberView {
    if members.contains_key(id) {
        members[id]
    } else {
        CensusMemberView::unknown()
    }
}

/// The members after service rumors were taken up, one after the other.
pub open spec fn joined(
    members: Members,
    sg: ServiceGroupView,
    rumors: Seq<(Seq<char>, ServiceRumorView)>,
) -> Members
    decreases rumors.len(),
{
    if rumors.len() == 0 {
        members
    } else {
        let earlier = joined(members, sg, rumors.drop_last());
        let (id, rumor) = rumors.last();
        earlier.insert(id, member_or_unknown(earlier, id).with_service_rumor(sg, rumor))
    }
}

/// The member that an election has made a leader: the one it names, if it is finished and
/// the group has such a member.
pub open spec fn winner(members: Members, election: ElectionView) -> Option<Seq<char>> {
    if exists|id: Seq<char>|
        #[trigger] members.contains_key(id) && election.won_by(members[id].member_id) {
        Some(election.member_id)
    } else {
        None
    }
}

/// The last of `ids` that stands before `me`.
pub open spec fn last_before(ids: Seq<Seq<char>>, me: Seq<char>) -> Option<Seq<char>>
    decreases ids.len(),
{
    if ids.len() == 0 {
        None
    } else if before(ids.last(), me) {
        Some(ids.last())
    } else {
        last_before(ids.drop_last(), me)
    }
}

impl CensusGroupView {
    /// A group of which nothing was heard yet.
    pub open spec fn fresh(sg: ServiceGroupView, local_member_id: Seq<char>) -> CensusGroupView {
        CensusGroupView {
            service_group: sg,
            election_status: ElectionStatus::NoElection,
            leader_id: None,
            local_member_id,
            population: Map::empty(),
            update_leader_id: None,
        }
    }

    /// The group after service rumors were taken up.
    pub open spec fn with_service_rumors(
        self,
        rumors: Seq<(Seq<char>, ServiceRumorView)>,
    ) -> CensusGroupView {
        CensusGroupView {
            population: joined(self.population, self.service_group, rumors),
            ..self
        }
    }

    /// The group after an election of a leader.
    pub open spec fn with_election(self, election: ElectionView) -> CensusGroupView {
        CensusGroupView {
            leader_id: winner(self.population, election),
            election_status: status_of(election.status),
            population: self.population.map_values(
                |m: CensusMemberView| m.with_election(election),
            ),
            ..self
        }
    }

    /// The group after an election of an update leader.
    pub open spec fn with_update_election(self, election: ElectionView) -> CensusGroupView {
        CensusGroupView {
            update_leader_id: winner(self.population, election),
            population: self.population.map_values(
                |m: CensusMemberView| m.with_update_election(election),
            ),
            ..self
        }
    }

    /// The identifier under which the group has the member that keeps this census.
    pub open spec fn me_id(self) -> Option<Seq<char>> {
        self.known(Some(self.local_member_id))
    }

    /// The identifier, if the group has a member with it.
    pub open spec fn known(self, id: Option<Seq<char>>) -> Option<Seq<char>> {
        match id {
            Some(i) => if self.population.contains_key(i) {
                id
            } else {
                None
            },
            None => None,
        }
    }

    /// Whether the member with this identifier is alive.
    pub open spec fn is_alive(self, id: Seq<char>) -> bool {
        self.population[id].alive == Some(true)
    }

    /// Whether the member with this identifier is alive and calls itself by the name of the
    /// member that keeps this census.
    pub open spec fn is_namesake(self, id: Seq<char>) -> bool {
        self.is_alive(id) && self.population[id].member_id
            == self.population[self.local_member_id].member_id
    }

    /// The identifiers of those members, in ascending order.
    pub open spec fn namesakes(self) -> Seq<Seq<char>> {
        roll(self.population).filter(|id: Seq<char>| self.is_namesake(id))
    }

    /// Where the member that keeps this census stands in the order of the identifiers: at the
    /// first member alive that bears its name, which in a group whose members stand under their
    /// own identifiers is itself, and at its own identifier where none alive does.
    pub open spec fn standing(self) -> Seq<char> {
        if self.namesakes().len() > 0 {
            self.namesakes()[0]
        } else {
            self.local_member_id
        }
    }

    /// Whether the member with this identifier is alive, and another than the one that keeps
    /// this census.
    pub open spec fn is_alive_peer(self, id: Seq<char>) -> bool {
        self.is_alive(id) && id != self.standing()
    }

    /// The identifiers of the alive peers, in ascending order.
    pub open spec fn alive_peers(self) -> Seq<Seq<char>> {
        roll(self.population).filter(|id: Seq<char>| self.is_alive_peer(id))
    }

    /// The identifier of the previous peer: the last alive peer that stands before the member
    /// that keeps this census, and the last one of all where none does. There is none exactly
    /// where there are no alive peers, or where the member that keeps this census does not
    /// belong to the group.
    pub open spec fn previous_peer_id(self) -> Option<Seq<char>> {
        let peers = self.alive_peers();
        if !self.population.contains_key(self.local_member_id) || peers.len() == 0 {
            None
        } else {
            match last_before(peers, self.standing()) {
                Some(id) => Some(id),
                None => Some(peers.last()),
            }
        }
    }

    /// What a look-up of an identifier gives.
    pub open spec fn found(self, id: Option<Seq<char>>, r: Option<&CensusMember>) -> bool {
        &&& r is Some <==> id is Some
        &&& r matches Some(member) ==> member@ == self.population[id->0]
    }
}

/// The members at the first `n` places of the roll are changed, and no others.
spec fn changed_up_to(
    members: Members,
    now: Members,
    ids: Seq<Seq<char>>,
    n: int,
    change: spec_fn(CensusMemberView) -> CensusMemberView,
) -> bool {
    &&& now.dom() == members.dom()
    &&& forall|j: int|
        0 <= j < ids.len() ==> now[#[trigger] ids[j]] == if j < n {
            change(members[ids[j]])
        } else {
            members[ids[j]]
        }
}

proof fn lemma_same_roll(
    members: Members,
    now: Members,
    ids: Seq<Seq<char>>,
    n: int,
    change: spec_fn(CensusMemberView) -> CensusMemberView,
)
    requires
        is_roll(ids, members),
        changed_up_to(members, now, ids, n, change),
    ensures
        is_roll(ids, now),
        roll(now) == ids,
{
    assert forall|id: Seq<char>| #[trigger] ids.contains(id) <==> now.contains_key(id) by {
        assert(now.dom().contains(id) == members.dom().contains(id));
    }
    lemma_roll_unique(ids, now);
}

proof fn lemma_changed_one_more(
    members: Members,
    now: Members,
    ids: Seq<Seq<char>>,
    n: int,
    change: spec_fn(CensusMemberView) -> CensusMemberView,
)
    requires
        is_roll(ids, members),
        0 <= n < ids.len(),
        exists|earlier: Members|
            {
                &&& #[trigger] changed_up_to(members, earlier, ids, n, change)
                &&& now == earlier.insert(ids[n], change(members[ids[n]]))
            },
    ensures
        changed_up_to(members, now, ids, n + 1, change),
{
    assert(ids.contains(ids[n]));
    assert(now.dom() =~= members.dom());
    assert forall|j: int| 0 <= j < ids.len() implies now[#[trigger] ids[j]] == if j < n + 1 {
        change(members[ids[j]])
    } else {
        members[ids[j]]
    } by {
        if j < n {
            lemma_before_asymmetric(ids[j], ids[n]);
        } else if j > n {
            lemma_before_asymmetric(ids[n], ids[j]);
        }
    }
}

proof fn lemma_changed_all(
    members: Members,
    now: Members,
    ids: Seq<Seq<char>>,
    change: spec_fn(CensusMemberView) -> CensusMemberView,
)
    requires
        is_roll(ids, members),
        changed_up_to(members, now, ids, ids.len() as int, change),
    ensures
        now == members.map_values(change),
{
    assert forall|id: Seq<char>| #[trigger] members.contains_key(id) implies now[id] == change(
        members[id],
    ) by {
        assert(ids.contains(id));
        let j = choose|j: int| 0 <= j < ids.len() && ids[j] == id;
        assert(now[ids[j]] == change(members[ids[j]]));
    }
    assert(now =~= members.map_values(change));
}

/// One of the first `n` members has won.
spec fn won_up_to(members: Members, ids: Seq<Seq<char>>, n: int, election: ElectionView) -> bool {
    exists|j: int| 0 <= j < n && election.won_by(members[#[trigger] ids[j]].member_id)
}

spec fn winner_up_to(
    members: Members,
    ids: Seq<Seq<char>>,
    n: int,
    election: ElectionView,
) -> Option<Seq<char>> {
    if won_up_to(members, ids, n, election) {
        Some(election.member_id)
    } else {
        None
    }
}

proof fn lemma_winner_one_more(
    members: Members,
    ids: Seq<Seq<char>>,
    n: int,
    election: ElectionView,
)
    requires
        0 <= n < ids.len(),
    ensures
        won_up_to(members, ids, n + 1, election) <==> (won_up_to(members, ids, n, election)
            || election.won_by(members[ids[n]].member_id)),
{
    if won_up_to(members, ids, n, election) {
        let j = choose|j: int| 0 <= j < n && election.won_by(members[#[trigger] ids[j]].member_id);
        assert(0 <= j < n + 1 && election.won_by(members[ids[j]].member_id));
    }
}

proof fn lemma_winner(members: Members, ids: Seq<Seq<char>>, election: ElectionView)
    requires
        is_roll(ids, members),
    ensures
        winner_up_to(members, ids, ids.len() as int, election) == winner(members, election),
{
    if won_up_to(members, ids, ids.len() as int, election) {
        let j = choose|j: int|
            0 <= j < ids.len() && election.won_by(members[#[trigger] ids[j]].member_id);
        assert(ids.contains(ids[j]));
        assert(members.contains_key(ids[j]));
    }
    if exists|id: Seq<char>|
        #[trigger] members.contains_key(id) && election.won_by(members[id].member_id) {
        let id = choose|id: Seq<char>|
            #[trigger] members.contains_key(id) && election.won_by(members[id].member_id);
        assert(ids.contains(id));
        let j = choose|j: int| 0 <= j < ids.len() && ids[j] == id;
        assert(election.won_by(members[ids[j]].member_id));
    }
}

/// There is a winner where the election is finished and a member bears the name it gives.
proof fn lemma_winner_by_name(members: Members, election: ElectionView)
    ensures
        winner(members, election) is Some <==> election.status is Finished && exists|id: Seq<char>|
            #[trigger] members.contains_key(id) && members[id].member_id == election.member_id,
        winner(members, election) matches Some(id) ==> id == election.member_id,
{
    if election.status is Finished && exists|id: Seq<char>| #[trigger] members.contains_key(id)
        && members[id].member_id == election.member_id {
        let id = choose|id: Seq<char>| #[trigger] members.contains_key(id)
            && members[id].member_id == election.member_id;
        assert(members.contains_key(id) && election.won_by(members[id].member_id));
    }
}

impl CensusGroup {
    /// The members stand in the order of their identifiers, each identifier once.
    pub open spec fn wf(&self) -> bool {
        self.population.wf()
    }

    /// A group of which nothing was heard yet.
    pub fn new(sg: ServiceGroup, local_member_id: &String) -> (r: Self)
        ensures
            r.wf(),
            r@ == CensusGroupView::fresh(sg@, local_member_id@),
            r.service_group == sg,
            r.election_status is NoElection,
            r.leader_id is None,
            r.update_leader_id is None,
            r.local_member_id@ == local_member_id@,
            r.population@ == Map::<Seq<char>, CensusMemberView>::empty(),
    {
        CensusGroup {
            service_group: sg,
            election_status: ElectionStatus::NoElection,
            local_member_id: local_member_id.clone(),
            population: Population::new(),
            leader_id: None,
            update_leader_id: None,
        }
    }

    /// The member that keeps this census, if it belongs to the group.
    pub fn me(&self) -> (r: Option<&CensusMember>)
        requires
            self.wf(),
        ensures
            self@.found(self@.me_id(), r),
            r is Some <==> self.population@.contains_key(self.local_member_id@),
            r matches Some(member) ==> member@ == self.population@[self.local_member_id@],
    {
        self.population.get(&self.local_member_id)
    }

    /// The leader, if one was elected.
    pub fn leader(&self) -> (r: Option<&CensusMember>)
        requires
            self.wf(),
        ensures
            self@.found(self@.known(self@.leader_id), r),
            r is Some <==> self.leader_id is Some && self.population@.contains_key(
                self.leader_id->0@,
            ),
            r matches Some(member) ==> member@ == self.population@[self.leader_id->0@],
    {
        match &self.leader_id {
            Some(id) => self.population.get(id),
            None => None,
        }
    }

    /// The update leader, if one was elected.
    pub fn update_leader(&self) -> (r: Option<&CensusMember>)
        requires
            self.wf(),
        ensures
            self@.found(self@.known(self@.update_leader_id), r),
            r is Some <==> self.update_leader_id is Some && self.population@.contains_key(
                self.update_leader_id->0@,
            ),
            r matches Some(member) ==> member@ == self.population@[self.update_leader_id->0@],
    {
        match &self.update_leader_id {
            Some(id) => self.population.get(id),
            None => None,
        }
    }

    /// The members, in the order of their identifiers.
    pub fn members(&self) -> (r: Vec<&CensusMember>)
        requires
            self.wf(),
        ensures
            is_roll(roll(self@.population), self@.population),
            r@.len() == roll(self@.population).len(),
            forall|i: int|
                0 <= i < r@.len() ==> (#[trigger] r@[i])@ == self@.population[roll(
                    self@.population,
                )[i]],
            exists|ids: Seq<Seq<char>>|
                {
                    &&& #[trigger] ids.len() == r@.len()
                    &&& forall|i: int, j: int|
                        0 <= i < j < ids.len() ==> before(#[trigger] ids[i], #[trigger] ids[j])
                    &&& forall|id: Seq<char>|
                        self.population@.contains_key(id) <==> #[trigger] ids.contains(id)
                    &&& forall|i: int|
                        0 <= i < ids.len() ==> r@[i]@ == self.population@[#[trigger] ids[i]]
                },
    {
        proof {
            self.population.lemma_is_roll();
        }
        let n = self.population.len();
        let mut r: Vec<&CensusMember> = Vec::new();
        let mut i: usize = 0;
        while i < n
            invariant
                self.wf(),
                i <= n,
                n == roll(self@.population).len(),
                is_roll(roll(self@.population), self@.population),
                r@.len() == i,
                forall|j: int|
                    0 <= j < i ==> (#[trigger] r@[j])@ == self@.population[roll(
                        self@.population,
                    )[j]],
            decreases n - i,
        {
            r.push(self.population.member_at(i));
            i = i + 1;
        }
        proof {
            let ids = roll(self@.population);
            assert(is_roll(ids, self@.population));
            assert forall|i: int| 0 <= i < ids.len() implies r@[i]@
                == self.population@[#[trigger] ids[i]] by {
                assert(r@[i]@ == self@.population[ids[i]]);
            }
        }
        r
    }

    /// The identifier at which the member that keeps this census stands.
    fn standing(&self, me: &CensusMember) -> (r: &String)
        requires
            self.wf(),
            self@.population.contains_key(self@.local_member_id),
            me@ == self@.population[self@.local_member_id],
        ensures
            r@ == self@.standing(),
    {
        let ghost ids = roll(self@.population);
        let ghost pred = |id: Seq<char>| self@.is_namesake(id);
        let n = self.population.len();
        let mut standing: &String = &self.local_member_id;
        let mut found = false;
        let mut i: usize = 0;
        assert(ids.take(0).filter(pred) =~= Seq::empty()) by {
            reveal(Seq::filter);
        }
        while i < n
            invariant
                self.wf(),
                i <= n,
                n == ids.len(),
                ids == roll(self@.population),
                pred == (|id: Seq<char>| self@.is_namesake(id)),
                me@ == self@.population[self@.local_member_id],
                found == (ids.take(i as int).filter(pred).len() > 0),
                standing@ == (if found {
                    ids.take(i as int).filter(pred)[0]
                } else {
                    self@.local_member_id
                }),
            decreases n - i,
        {
            let member = self.population.member_at(i);
            proof {
                reveal(Seq::filter);
                assert(ids.take(i + 1).drop_last() =~= ids.take(i as int));
                assert(ids.take(i + 1).last() == ids[i as int]);
            }
            if !found && member.alive.unwrap_or(false) && member.member_id == me.member_id {
                standing = self.population.id_at(i);
                found = true;
            }
            i = i + 1;
        }
        assert(ids.take(n as int) =~= ids);
        assert(ids.take(n as int).filter(pred) == self@.namesakes());
        standing
    }

    /// The previous alive peer: the peer to the left of the member that keeps this census in
    /// the ordered list of members, the last one where there is none to the left. `None` where
    /// there are no alive peers, and where that member does not belong to the group.
    pub fn previous_peer(&self) -> (r: Option<&CensusMember>)
        requires
            self.wf(),
        ensures
            self@.found(self@.previous_peer_id(), r),
            r is Some <==> self@.previous_peer_id() is Some,
            r matches Some(member) ==> member@ == self.population@[self@.previous_peer_id()->0],
    {
        let me = match self.me() {
            Some(me) => me,
            None => {
                return None;
            },
        };
        let standing = self.standing(me);
        let ghost ids = roll(self@.population);
        let ghost pred = |id: Seq<char>| self@.is_alive_peer(id);
        let n = self.population.len();
        let mut left: Option<&CensusMember> = None;
        let mut last: Option<&CensusMember> = None;
        let mut i: usize = 0;
        assert(ids.take(0).filter(pred) =~= Seq::empty()) by {
            reveal(Seq::filter);
        }
        while i < n
            invariant
                self.wf(),
                i <= n,
                n == ids.len(),
                ids == roll(self@.population),
                pred == (|id: Seq<char>| self@.is_alive_peer(id)),
                standing@ == self@.standing(),
                ({
                    let peers = ids.take(i as int).filter(pred);
                    &&& last is Some <==> peers.len() > 0
                    &&& last matches Some(m) ==> m@ == self@.population[peers.last()]
                    &&& self@.found(last_before(peers, standing@), left)
                }),
            decreases n - i,
        {
            let member = self.population.member_at(i);
            let id = self.population.id_at(i);
            let ghost earlier = ids.take(i as int).filter(pred);
            proof {
                reveal(Seq::filter);
                assert(ids.take(i + 1).drop_last() =~= ids.take(i as int));
                assert(ids.take(i + 1).last() == ids[i as int]);
                assert(earlier.push(id@).drop_last() =~= earlier);
            }
            if member.alive.unwrap_or(false) && *id != *standing {
                if stands_before(id.as_str(), standing.as_str()) {
                    left = Some(member);
                }
                last = Some(member);
            }
            i = i + 1;
        }
        assert(ids.take(n as int) =~= ids);
        assert(ids.take(n as int).filter(pred) == self@.alive_peers());
        match left {
            Some(member) => Some(member),
            None => last,
        }
    }

    /// Takes up service rumors, each under the identifier of its member.
    pub fn update_from_service_rumors(&mut self, rumors: &Vec<(String, ServiceRumor)>)
        requires
            old(self).wf(),
        ensures
            final(self).wf(),
            final(self)@ == old(self)@.with_service_rumors(
                rumors@.map_values(|e: (String, ServiceRumor)| (e.0@, e.1@)),
            ),
            final(self).service_group == old(self).service_group,
            final(self).election_status == old(self).election_status,
            final(self).leader_id == old(self).leader_id,
            final(self).update_leader_id == old(self).update_leader_id,
            final(self).local_member_id == old(self).local_member_id,
    {
        let ghost heard = rumors@.map_values(|e: (String, ServiceRumor)| (e.0@, e.1@));
        let ghost before = self@;
        let mut i: usize = 0;
        assert(heard.take(0) =~= Seq::empty());
        while i < rumors.len()
            invariant
                i <= rumors@.len(),
                heard == rumors@.map_values(|e: (String, ServiceRumor)| (e.0@, e.1@)),
                self.wf(),
                self@ == before.with_service_rumors(heard.take(i as int)),
                self.service_group == old(self).service_group,
                self.election_status == old(self).election_status,
                self.leader_id == old(self).leader_id,
                self.update_leader_id == old(self).update_leader_id,
                self.local_member_id == old(self).local_member_id,
            decreases rumors@.len() - i,
        {
            let member = self.population.entry(&rumors[i].0);
            member.update_from_service_rumor(&self.service_group, &rumors[i].1);
            proof {
                assert(heard.take(i + 1).drop_last() =~= heard.take(i as int));
                assert(heard.take(i + 1).last() == heard[i as int]);
            }
            i = i + 1;
        }
        assert(heard.take(i as int) =~= heard);
    }

    /// Takes up an election of a leader.
    pub fn update_from_election_rumor(&mut self, election: &ElectionRumor)
        requires
            old(self).wf(),
        ensures
            final(self).wf(),
            final(self)@ == old(self)@.with_election(election@),
            final(self).service_group == old(self).service_group,
            final(self).local_member_id == old(self).local_member_id,
            final(self).update_leader_id == old(self).update_leader_id,
            final(self).election_status is ElectionInProgress <==> election.status is Running,
            final(self).election_status is ElectionNoQuorum <==> election.status is NoQuorum,
            final(self).election_status is ElectionFinished <==> election.status is Finished,
            final(self).leader_id is Some <==> election.status is Finished && exists|id: Seq<char>|
                #[trigger] old(self).population@.contains_key(id)
                    && old(self).population@[id].member_id == election.member_id@,
            final(self).leader_id matches Some(id) ==> id@ == election.member_id@,
            final(self).population@.dom() == old(self).population@.dom(),
            forall|id: Seq<char>| #[trigger]
                final(self).population@.contains_key(id) ==> {
                    let m = old(self).population@[id];
                    let won = election.status is Finished && m.member_id == election.member_id@;
                    final(self).population@[id] == (CensusMemberView {
                        leader: Some(won),
                        follower: Some(election.status is Finished && !won),
                        election_is_running: Some(election.status is Running),
                        election_is_no_quorum: Some(election.status is NoQuorum),
                        election_is_finished: Some(election.status is Finished),
                        ..m
                    })
                },
    {
        let ghost members = self@.population;
        let ghost ids = roll(members);
        let ghost change = |m: CensusMemberView| m.with_election(election@);
        proof {
            self.population.lemma_is_roll();
        }
        self.leader_id = None;
        let n = self.population.len();
        let mut i: usize = 0;
        while i < n
            invariant
                i <= n,
                n == ids.len(),
                ids == roll(members),
                is_roll(ids, members),
                change == (|m: CensusMemberView| m.with_election(election@)),
                members == old(self)@.population,
                self.wf(),
                changed_up_to(members, self@.population, ids, i as int, change),
                self@ == (CensusGroupView {
                    population: self@.population,
                    leader_id: self@.leader_id,
                    ..old(self)@
                }),
                self@.leader_id == winner_up_to(members, ids, i as int, election@),
                self.service_group == old(self).service_group,
                self.local_member_id == old(self).local_member_id,
                self.update_leader_id == old(self).update_leader_id,
            decreases n - i,
        {
            proof {
                lemma_same_roll(members, self@.population, ids, i as int, change);
            }
            let member = self.population.member_at_mut(i);
            if member.update_from_election_rumor(election) {
                self.leader_id = Some(member.member_id.clone());
            }
            proof {
                lemma_changed_one_more(members, self@.population, ids, i as int, change);
                lemma_winner_one_more(members, ids, i as int, election@);
            }
            i = i + 1;
        }
        proof {
            lemma_changed_all(members, self@.population, ids, change);
            lemma_winner(members, ids, election@);
            lemma_winner_by_name(members, election@);
            assert(self.population@.dom() =~= members.dom());
        }
        match election.status {
            ElectionPhase::Running => {
                self.election_status = ElectionStatus::ElectionInProgress;
            },
            ElectionPhase::NoQuorum => {
                self.election_status = ElectionStatus::ElectionNoQuorum;
            },
            ElectionPhase::Finished => {
                self.election_status = ElectionStatus::ElectionFinished;
            },
        }
    }

    /// Takes up an election of an update leader.
    pub fn update_from_election_update_rumor(&mut self, election: &ElectionUpdateRumor)
        requires
            old(self).wf(),
        ensures
            final(self).wf(),
            final(self)@ == old(self)@.with_update_election(election@),
            final(self).service_group == old(self).service_group,
            final(self).local_member_id == old(self).local_member_id,
            final(self).leader_id == old(self).leader_id,
            final(self).election_status == old(self).election_status,
            final(self).update_leader_id is Some <==> election.status is Finished && exists|id: Seq<char>|
                #[trigger] old(self).population@.contains_key(id)
                    && old(self).population@[id].member_id == election.member_id@,
            final(self).update_leader_id matches Some(id) ==> id@ == election.member_id@,
            final(self).population@.dom() == old(self).population@.dom(),
            forall|id: Seq<char>| #[trigger]
                final(self).population@.contains_key(id) ==> {
                    let m = old(self).population@[id];
                    let won = election.status is Finished && m.member_id == election.member_id@;
                    final(self).population@[id] == (CensusMemberView {
                        update_leader: Some(won),
                        update_follower: Some(election.status is Finished && !won),
                        update_election_is_running: Some(election.status is Running),
                        update_election_is_no_quorum: Some(election.status is NoQuorum),
                        update_election_is_finished: Some(election.status is Finished),
                        ..m
                    })
                },
    {
        let ghost members = self@.population;
        let ghost ids = roll(members);
        let ghost change = |m: CensusMemberView| m.with_update_election(election@);
        proof {
            self.population.lemma_is_roll();
        }
        self.update_leader_id = None;
        let n = self.population.len();
        let mut i: usize = 0;
        while i < n
            invariant
                i <= n,
                n == ids.len(),
                ids == roll(members),
                is_roll(ids, members),
                change == (|m: CensusMemberView| m.with_update_election(election@)),
                members == old(self)@.population,
                self.wf(),
                changed_up_to(members, self@.population, ids, i as int, change),
                self@ == (CensusGroupView {
                    population: self@.population,
                    update_leader_id: self@.update_leader_id,
                    ..old(self)@
                }),
                self@.update_leader_id == winner_up_to(members, ids, i as int, election@),
                self.service_group == old(self).service_group,
                self.local_member_id == old(self).local_member_id,
                self.leader_id == old(self).leader_id,
                self.election_status == old(self).election_status,
            decreases n - i,
        {
            proof {
                lemma_same_roll(members, self@.population, ids, i as int, change);
            }
            let member = self.population.member_at_mut(i);
            if member.update_from_election_update_rumor(election) {
                self.update_leader_id = Some(member.member_id.clone());
            }
            proof {
                lemma_changed_one_more(members, self@.population, ids, i as int, change);
                lemma_winner_one_more(members, ids, i as int, election@);
            }
            i = i + 1;
        }
        proof {
            lemma_changed_all(members, self@.population, ids, change);
            lemma_winner(members, ids, election@);
            lemma_winner_by_name(members, election@);
            assert(self.population@.dom() =~= members.dom());
        }
    }

    /// The member with this identifier, to be changed.
    pub fn find_member_mut(&mut self, member_id: &String) -> (r: Option<&mut CensusMember>)
        requires
            old(self).wf(),
        ensures
            final(self).wf(),
            r is Some <==> old(self)@.population.contains_key(member_id@),
            r matches Some(member) ==> {
                &&& (*member)@ == old(self)@.population[member_id@]
                &&& final(self)@ == (CensusGroupView {
                    population: old(self)@.population.insert(member_id@, (*final(member))@),
                    ..old(self)@
                })
            },
            r is None ==> final(self)@ == old(self)@,
    {
        self.population.get_mut(member_id)
    }
}

} // verus!
