//! What elections do to a group.

use vstd::prelude::*;

use crate::group::{winner, CensusGroupView};
use crate::member::CensusMemberView;
use crate::rumor::{ElectionPhase, ElectionView};

verus! {

/// Every member of the group stands under its own identifier.
pub open spec fn keyed(group: CensusGroupView) -> bool {
    forall|id: Seq<char>| #[trigger]
        group.population.contains_key(id) ==> group.population[id].member_id == id
}

/// The member that an election has made a leader: the one it names, if it is finished and
/// the group has that member.
pub open spec fn elected(group: CensusGroupView, election: ElectionView) -> Option<Seq<char>> {
    if election.status == ElectionPhase::Finished && group.population.contains_key(
        election.member_id,
    ) {
        Some(election.member_id)
    } else {
        None
    }
}

proof fn lemma_winner_is_elected(group: CensusGroupView, election: ElectionView)
    requires
        keyed(group),
    ensures
        winner(group.population, election) == elected(group, election),
{
    if elected(group, election) is Some {
        assert(group.population.contains_key(election.member_id));
        assert(election.won_by(group.population[election.member_id].member_id));
    }
}

/// After an election the leader of the group is the member that the election names, if it is
/// finished and the group has that member, and there is none otherwise. That member and no
/// other is marked as the leader; of a finished election all others are followers, of any
/// other election nobody is.
pub proof fn law_election_makes_the_leader(group: CensusGroupView, election: ElectionView)
    requires
        keyed(group),
    ensures
        ({
            let after = group.with_election(election);
            let leader = elected(group, election);
            &&& after.known(after.leader_id) == leader
            &&& after.population.dom() == group.population.dom()
            &&& forall|id: Seq<char>| #[trigger]
                after.population.contains_key(id) ==> {
                    let m = after.population[id];
                    &&& m.leader == Some(leader == Some(id))
                    &&& m.follower == Some(
                        election.status == ElectionPhase::Finished && leader != Some(id),
                    )
                }
        }),
{
    lemma_winner_is_elected(group, election);
    assert(group.with_election(election).population.dom() =~= group.population.dom());
}

/// What `law_election_makes_the_leader` says of leaders holds of update leaders too.
pub proof fn law_update_election_makes_the_update_leader(
    group: CensusGroupView,
    election: ElectionView,
)
    requires
        keyed(group),
    ensures
        ({
            let after = group.with_update_election(election);
            let leader = elected(group, election);
            &&& after.known(after.update_leader_id) == leader
            &&& after.population.dom() == group.population.dom()
            &&& forall|id: Seq<char>| #[trigger]
                after.population.contains_key(id) ==> {
                    let m = after.population[id];
                    &&& m.update_leader == Some(leader == Some(id))
                    &&& m.update_follower == Some(
                        election.status == ElectionPhase::Finished && leader != Some(id),
                    )
                }
        }),
{
    lemma_winner_is_elected(group, election);
    assert(group.with_update_election(election).population.dom() =~= group.population.dom());
}

/// Who won does not depend on what earlier elections made of the members.
proof fn lemma_winner_after(
    group: CensusGroupView,
    change: spec_fn(CensusMemberView) -> CensusMemberView,
    election: ElectionView,
)
    requires
        forall|m: CensusMemberView| (#[trigger] change(m)).member_id == m.member_id,
    ensures
        winner(group.population.map_values(change), election) == winner(
            group.population,
            election,
        ),
{
    let now = group.population.map_values(change);
    if winner(group.population, election) is Some {
        let id = choose|id: Seq<char>|
            #[trigger] group.population.contains_key(id) && election.won_by(
                group.population[id].member_id,
            );
        assert(now.contains_key(id) && election.won_by(now[id].member_id));
    }
    if winner(now, election) is Some {
        let id = choose|id: Seq<char>|
            #[trigger] now.contains_key(id) && election.won_by(now[id].member_id);
        assert(group.population.contains_key(id) && election.won_by(
            group.population[id].member_id,
        ));
    }
}

/// Only the last election of a leader counts, and so to take up the same one again changes
/// nothing.
pub proof fn law_last_election_counts(
    group: CensusGroupView,
    first: ElectionView,
    last: ElectionView,
)
    ensures
        group.with_election(first).with_election(last) == group.with_election(last),
        group.with_election(last).with_election(last) == group.with_election(last),
{
    lemma_winner_after(group, |m: CensusMemberView| m.with_election(first), last);
    lemma_winner_after(group, |m: CensusMemberView| m.with_election(last), last);
    assert(group.with_election(first).with_election(last).population =~= group.with_election(
        last,
    ).population);
    assert(group.with_election(last).with_election(last).population =~= group.with_election(
        last,
    ).population);
}

/// Only the last election of an update leader counts, and so to take up the same one again
/// changes nothing.
pub proof fn law_last_update_election_counts(
    group: CensusGroupView,
    first: ElectionView,
    last: ElectionView,
)
    ensures
        group.with_update_election(first).with_update_election(last)
            == group.with_update_election(last),
        group.with_update_election(last).with_update_election(last)
            == group.with_update_election(last),
{
    lemma_winner_after(group, |m: CensusMemberView| m.with_update_election(first), last);
    lemma_winner_after(group, |m: CensusMemberView| m.with_update_election(last), last);
    assert(group.with_update_election(first).with_update_election(last).population
        =~= group.with_update_election(last).population);
    assert(group.with_update_election(last).with_update_election(last).population
        =~= group.with_update_election(last).population);
}

/// The two kinds of election do not touch each other.
pub proof fn law_elections_are_independent(
    group: CensusGroupView,
    election: ElectionView,
    update_election: ElectionView,
)
    ensures
        group.with_election(election).with_update_election(update_election)
            == group.with_update_election(update_election).with_election(election),
{
    lemma_winner_after(group, |m: CensusMemberView| m.with_election(election), update_election);
    lemma_winner_after(
        group,
        |m: CensusMemberView| m.with_update_election(update_election),
        election,
    );
    assert(group.with_election(election).with_update_election(update_election).population
        =~= group.with_update_election(update_election).with_election(election).population);
}

} // verus!
