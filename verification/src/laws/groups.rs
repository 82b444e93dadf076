//! Who is who in a group, and what is heard about a group as a whole.

use vstd::prelude::*;

use crate::group::{joined, CensusGroupView};
use crate::laws::elections::keyed;
use crate::laws::members::{
    fare, no_fare, no_part, part, part_in, said, update_part,
};
use crate::population::Members;
use crate::rumor::{ElectionView, ServiceGroupView, ServiceRumorView};

verus! {

/// The member that keeps the census is the one under its identifier, if the group has it; in a
/// group whose members stand under their own identifiers, it bears that name.
pub proof fn law_me_is_the_keeper(group: CensusGroupView)
    ensures
        group.me_id() is Some <==> group.population.contains_key(group.local_member_id),
        group.me_id() is Some ==> group.me_id() == Some(group.local_member_id),
        keyed(group) && group.me_id() is Some ==> group.population[group.me_id()->0].member_id
            == group.local_member_id,
{
}

/// Who keeps the census does not change with elections and service rumors, and neither does
/// who that is, once the group has it.
pub proof fn law_me_stays(
    group: CensusGroupView,
    election: ElectionView,
    rumors: Seq<(Seq<char>, ServiceRumorView)>,
)
    ensures
        group.with_election(election).me_id() == group.me_id(),
        group.with_update_election(election).me_id() == group.me_id(),
        group.me_id() is Some ==> group.with_service_rumors(rumors).me_id() == group.me_id(),
{
    if group.population.contains_key(group.local_member_id) {
        lemma_joined_member(
            group.population,
            group.service_group,
            rumors,
            group.local_member_id,
        );
    }
}

/// A leader is known exactly where one is named and the group has a member under that name.
pub proof fn law_known_leader(group: CensusGroupView, id: Option<Seq<char>>)
    ensures
        group.known(id) is Some <==> id is Some && group.population.contains_key(id->0),
        group.known(id) is Some ==> group.known(id) == id,
{
}

/// What service rumors leave of a member, spoken of or not.
proof fn lemma_joined_member(
    members: Members,
    sg: ServiceGroupView,
    rumors: Seq<(Seq<char>, ServiceRumorView)>,
    id: Seq<char>,
)
    ensures
        ({
            let now = joined(members, sg, rumors);
            &&& members.contains_key(id) ==> {
                &&& now.contains_key(id)
                &&& part(now[id]) == part(members[id])
                &&& update_part(now[id]) == update_part(members[id])
                &&& fare(now[id]) == fare(members[id])
                &&& now[id].persistent == members[id].persistent
                &&& now[id].initialized == members[id].initialized
            }
            &&& !members.contains_key(id) && now.contains_key(id) ==> {
                &&& part(now[id]) == no_part()
                &&& update_part(now[id]) == no_part()
                &&& fare(now[id]) == no_fare()
                &&& now[id].persistent is None
                &&& now[id].initialized is None
            }
            &&& (forall|j: int| 0 <= j < rumors.len() ==> (#[trigger] rumors[j]).0 != id) ==> {
                &&& now.contains_key(id) == members.contains_key(id)
                &&& members.contains_key(id) ==> now[id] == members[id]
            }
        }),
    decreases rumors.len(),
{
    if rumors.len() > 0 {
        let rest = rumors.drop_last();
        lemma_joined_member(members, sg, rest, id);
        if forall|j: int| 0 <= j < rumors.len() ==> (#[trigger] rumors[j]).0 != id {
            assert forall|j: int| 0 <= j < rest.len() implies (#[trigger] rest[j]).0 != id by {
                assert(rumors[j].0 != id);
            }
            assert(rumors[rumors.len() - 1].0 != id);
        }
    }
}

/// Service rumors touch the members they are about, and of these neither elections nor health.
/// The group keeps its leaders and what its election has come to; members that no rumor is
/// about stay as they are; one that is new has no part in any election.
pub proof fn law_service_rumors_leave_the_rest(
    group: CensusGroupView,
    rumors: Seq<(Seq<char>, ServiceRumorView)>,
    id: Seq<char>,
)
    ensures
        ({
            let after = group.with_service_rumors(rumors);
            let (was, now) = (group.population, after.population);
            &&& after.service_group == group.service_group
            &&& after.local_member_id == group.local_member_id
            &&& after.leader_id == group.leader_id
            &&& after.election_status == group.election_status
            &&& after.update_leader_id == group.update_leader_id
            &&& was.contains_key(id) ==> {
                &&& now.contains_key(id)
                &&& part(now[id]) == part(was[id])
                &&& update_part(now[id]) == update_part(was[id])
                &&& fare(now[id]) == fare(was[id])
                &&& now[id].persistent == was[id].persistent
                &&& now[id].initialized == was[id].initialized
            }
            &&& !was.contains_key(id) && now.contains_key(id) ==> {
                &&& part(now[id]) == no_part()
                &&& update_part(now[id]) == no_part()
                &&& fare(now[id]) == no_fare()
                &&& now[id].persistent is None
                &&& now[id].initialized is None
            }
            &&& (forall|j: int| 0 <= j < rumors.len() ==> (#[trigger] rumors[j]).0 != id) ==> {
                &&& now.contains_key(id) == was.contains_key(id)
                &&& was.contains_key(id) ==> now[id] == was[id]
            }
        }),
{
    lemma_joined_member(group.population, group.service_group, rumors, id);
}

/// An election is noted in the whole group: every member agrees with the group on how far it
/// has come; its leader is the member it names where it is finished and a member bears that
/// name, and there is none otherwise. What members say of themselves, the update leader, and
/// health are not touched, and nobody is added or dropped.
pub proof fn law_election_is_noted_in_the_group(
    group: CensusGroupView,
    election: ElectionView,
    id: Seq<char>,
)
    ensures
        ({
            let after = group.with_election(election);
            let (was, now) = (group.population, after.population);
            &&& after.service_group == group.service_group
            &&& after.local_member_id == group.local_member_id
            &&& after.update_leader_id == group.update_leader_id
            &&& after.election_status is ElectionInProgress <==> election.status is Running
            &&& after.election_status is ElectionNoQuorum <==> election.status is NoQuorum
            &&& after.election_status is ElectionFinished <==> election.status is Finished
            &&& after.leader_id is Some <==> election.status is Finished && exists|other: Seq<char>|
                #[trigger] was.contains_key(other) && was[other].member_id == election.member_id
            &&& after.leader_id is Some ==> after.leader_id == Some(election.member_id)
            &&& now.contains_key(id) == was.contains_key(id)
            &&& now.contains_key(id) ==> {
                &&& part(now[id]) == part_in(
                    election.status,
                    election.member_id,
                    was[id].member_id,
                )
                &&& said(now[id]) == said(was[id])
                &&& update_part(now[id]) == update_part(was[id])
                &&& fare(now[id]) == fare(was[id])
                &&& now[id].persistent == was[id].persistent
                &&& now[id].initialized == was[id].initialized
            }
        }),
{
    lemma_winner_by_name(group, election);
}

/// What `law_election_is_noted_in_the_group` says of elections holds of update elections too,
/// which the group has no status of.
pub proof fn law_update_election_is_noted_in_the_group(
    group: CensusGroupView,
    election: ElectionView,
    id: Seq<char>,
)
    ensures
        ({
            let after = group.with_update_election(election);
            let (was, now) = (group.population, after.population);
            &&& after.service_group == group.service_group
            &&& after.local_member_id == group.local_member_id
            &&& after.leader_id == group.leader_id
            &&& after.election_status == group.election_status
            &&& after.update_leader_id is Some <==> election.status is Finished && exists|
                other: Seq<char>,
            |
                #[trigger] was.contains_key(other) && was[other].member_id == election.member_id
            &&& after.update_leader_id is Some ==> after.update_leader_id == Some(
                election.member_id,
            )
            &&& now.contains_key(id) == was.contains_key(id)
            &&& now.contains_key(id) ==> {
                &&& update_part(now[id]) == part_in(
                    election.status,
                    election.member_id,
                    was[id].member_id,
                )
                &&& said(now[id]) == said(was[id])
                &&& part(now[id]) == part(was[id])
                &&& fare(now[id]) == fare(was[id])
                &&& now[id].persistent == was[id].persistent
                &&& now[id].initialized == was[id].initialized
            }
        }),
{
    lemma_winner_by_name(group, election);
}

proof fn lemma_winner_by_name(group: CensusGroupView, election: ElectionView)
    ensures
        ({
            let won = crate::group::winner(group.population, election);
            &&& won is Some <==> election.status is Finished && exists|other: Seq<char>|
                #[trigger] group.population.contains_key(other)
                    && group.population[other].member_id == election.member_id
            &&& won is Some ==> won == Some(election.member_id)
        }),
{
    let members = group.population;
    if election.status is Finished && exists|other: Seq<char>| #[trigger] members.contains_key(
        other,
    ) && members[other].member_id == election.member_id {
        let other = choose|other: Seq<char>| #[trigger] members.contains_key(other)
            && members[other].member_id == election.member_id;
        assert(members.contains_key(other) && election.won_by(members[other].member_id));
    }
}

} // verus!
