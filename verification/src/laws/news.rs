//! What an update has no news of stays, and what it has news of is as it was said: for every
//! group and every member, note by note.

use vstd::prelude::*;

use crate::assoc::{as_map, distinct, lemma_entry};
use crate::group::{member_or_unknown, CensusGroupView};
use crate::laws::groups::{
    law_election_is_noted_in_the_group, law_service_rumors_leave_the_rest,
    law_update_election_is_noted_in_the_group,
};
use crate::laws::members::{
    fare, law_nothing_is_known_at_first, no_fare, no_part, part, part_in, update_part,
};
use crate::laws::order::{
    distinct_groups, distinct_ids, found_alike, law_each_election_key_changes_its_group,
    law_each_listed_member_changes_one, law_each_rumor_changes_its_member,
    law_each_service_key_changes_its_group, law_each_update_election_key_changes_its_group, lists,
    names,
};
use crate::laws::outcome::{has_member, identity, speaks};
use crate::laws::records::law_election_of_a_key;
use crate::laws::updates::{
    lemma_home, lemma_orderly_after_election_keys, lemma_orderly_after_listed,
    lemma_orderly_after_service_keys, orderly,
};
use crate::member::CensusMemberView;
use crate::ring::{
    lemma_election_keys_frame, lemma_listed_frame, lemma_service_keys_frame,
    lemma_update_election_keys_frame, CensusRingView,
};
use crate::rumor::{
    election_id, ElectionView, Health, MemberListView, MemberView, RumorKeyView, RumorStoreView,
    ServiceGroupView, ServiceRumorView, SysInfoView,
};

verus! {

// ---------------------------------------------------------------------------------------
// One facet of a group, followed through an update
// ---------------------------------------------------------------------------------------

proof fn lemma_facet_service_keys<A>(
    facet: spec_fn(CensusGroupView) -> A,
    sg: ServiceGroupView,
    ring: CensusRingView,
    keys: Seq<RumorKeyView<ServiceRumorView>>,
)
    requires
        orderly(ring),
        forall|i: int, g: CensusGroupView|
            0 <= i < keys.len() && keys[i].service_group == Some(sg) ==> facet(
                #[trigger] g.with_service_rumors(keys[i].rumors),
            ) == facet(g),
    ensures
        orderly(ring.with_service_keys(keys)),
        facet(ring.with_service_keys(keys).group_or_fresh(sg)) == facet(ring.group_or_fresh(sg)),
    decreases keys.len(),
{
    lemma_orderly_after_service_keys(ring, keys);
    lemma_service_keys_frame(ring, keys);
    if keys.len() > 0 {
        let rest = keys.drop_last();
        let last = keys[keys.len() - 1];
        assert forall|i: int, g: CensusGroupView|
            0 <= i < rest.len() && rest[i].service_group == Some(sg) implies facet(
            #[trigger] g.with_service_rumors(rest[i].rumors),
        ) == facet(g) by {
            assert(rest[i] == keys[i]);
            assert(facet(g.with_service_rumors(keys[i].rumors)) == facet(g));
        }
        lemma_facet_service_keys(facet, sg, ring, rest);
        lemma_orderly_after_service_keys(ring, rest);
        lemma_service_keys_frame(ring, rest);
        let earlier = ring.with_service_keys(rest);
        assert(ring.with_service_keys(keys) == earlier.with_service_key(last));
        if let Some(named) = last.service_group {
            let g = earlier.group_or_fresh(named);
            assert(g.service_group == named);
            if named == sg {
                assert(facet(g.with_service_rumors(keys[keys.len() - 1].rumors)) == facet(g));
            }
        }
    }
}

proof fn lemma_facet_election_keys<A>(
    facet: spec_fn(CensusGroupView) -> A,
    sg: ServiceGroupView,
    ring: CensusRingView,
    keys: Seq<RumorKeyView<ElectionView>>,
)
    requires
        orderly(ring),
        forall|i: int, g: CensusGroupView|
            0 <= i < keys.len() && keys[i].service_group == Some(sg) ==> facet(
                #[trigger] g.with_election(keys[i].rumor(election_id())),
            ) == facet(g),
    ensures
        orderly(ring.with_election_keys(keys)),
        ring.with_election_keys(keys).groups.contains_key(sg) == ring.groups.contains_key(sg),
        facet(ring.with_election_keys(keys).group_or_fresh(sg)) == facet(ring.group_or_fresh(sg)),
    decreases keys.len(),
{
    lemma_orderly_after_election_keys(ring, keys);
    lemma_election_keys_frame(ring, keys);
    if keys.len() > 0 {
        let rest = keys.drop_last();
        let last = keys[keys.len() - 1];
        assert forall|i: int, g: CensusGroupView|
            0 <= i < rest.len() && rest[i].service_group == Some(sg) implies facet(
            #[trigger] g.with_election(rest[i].rumor(election_id())),
        ) == facet(g) by {
            assert(rest[i] == keys[i]);
            assert(facet(g.with_election(keys[i].rumor(election_id()))) == facet(g));
        }
        lemma_facet_election_keys(facet, sg, ring, rest);
        lemma_orderly_after_election_keys(ring, rest);
        lemma_election_keys_frame(ring, rest);
        let earlier = ring.with_election_keys(rest);
        assert(ring.with_election_keys(keys) == earlier.with_election_key(last));
        if last.service_group == Some(sg) && earlier.groups.contains_key(sg) {
            let g = earlier.groups[sg];
            assert(facet(g.with_election(keys[keys.len() - 1].rumor(election_id()))) == facet(g));
        }
    }
}

proof fn lemma_facet_update_election_keys<A>(
    facet: spec_fn(CensusGroupView) -> A,
    sg: ServiceGroupView,
    ring: CensusRingView,
    keys: Seq<RumorKeyView<ElectionView>>,
)
    requires
        orderly(ring),
        forall|i: int, g: CensusGroupView|
            0 <= i < keys.len() && keys[i].service_group == Some(sg) ==> facet(
                #[trigger] g.with_update_election(keys[i].rumor(election_id())),
            ) == facet(g),
    ensures
        orderly(ring.with_update_election_keys(keys)),
        ring.with_update_election_keys(keys).groups.contains_key(sg) == ring.groups.contains_key(sg),
        facet(ring.with_update_election_keys(keys).group_or_fresh(sg)) == facet(ring.group_or_fresh(sg)),
    decreases keys.len(),
{
    lemma_orderly_after_election_keys(ring, keys);
    lemma_update_election_keys_frame(ring, keys);
    if keys.len() > 0 {
        let rest = keys.drop_last();
        let last = keys[keys.len() - 1];
        assert forall|i: int, g: CensusGroupView|
            0 <= i < rest.len() && rest[i].service_group == Some(sg) implies facet(
            #[trigger] g.with_update_election(rest[i].rumor(election_id())),
        ) == facet(g) by {
            assert(rest[i] == keys[i]);
            assert(facet(g.with_update_election(keys[i].rumor(election_id()))) == facet(g));
        }
        lemma_facet_update_election_keys(facet, sg, ring, rest);
        lemma_orderly_after_election_keys(ring, rest);
        lemma_update_election_keys_frame(ring, rest);
        let earlier = ring.with_update_election_keys(rest);
        assert(ring.with_update_election_keys(keys) == earlier.with_update_election_key(last));
        if last.service_group == Some(sg) && earlier.groups.contains_key(sg) {
            let g = earlier.groups[sg];
            assert(facet(g.with_update_election(keys[keys.len() - 1].rumor(election_id()))) == facet(g));
        }
    }
}

/// The group after one of its members was found in the list.
spec fn touched(g: CensusGroupView, listed: (MemberView, Option<Health>)) -> CensusGroupView {
    let id = listed.0.id;
    CensusGroupView {
        population: g.population.insert(id, found_alike(g.population[id], listed)),
        ..g
    }
}

proof fn lemma_facet_listed<A>(
    facet: spec_fn(CensusGroupView) -> A,
    sg: ServiceGroupView,
    ring: CensusRingView,
    members: Seq<(MemberView, Option<Health>)>,
)
    requires
        orderly(ring),
        forall|i: int, g: CensusGroupView|
            0 <= i < members.len() && g.population.contains_key(members[i].0.id) ==> facet(
                #[trigger] touched(g, members[i]),
            ) == facet(g),
    ensures
        orderly(ring.with_listed_all(members)),
        ring.with_listed_all(members).groups.contains_key(sg) == ring.groups.contains_key(sg),
        facet(ring.with_listed_all(members).group_or_fresh(sg)) == facet(ring.group_or_fresh(sg)),
    decreases members.len(),
{
    lemma_listed_frame(ring, members);
    if members.len() > 0 {
        let rest = members.drop_last();
        let last = members[members.len() - 1];
        assert forall|i: int, g: CensusGroupView|
            0 <= i < rest.len() && g.population.contains_key(rest[i].0.id) implies facet(
            #[trigger] touched(g, rest[i]),
        ) == facet(g) by {
            assert(rest[i] == members[i]);
            assert(facet(touched(g, members[i])) == facet(g));
        }
        lemma_facet_listed(facet, sg, ring, rest);
        lemma_listed_frame(ring, rest);
        let earlier = ring.with_listed_all(rest);
        assert(ring.with_listed_all(members) == earlier.with_listed(last));
        lemma_orderly_after_listed(earlier, last);
        if earlier.has_home(last.0.id) {
            lemma_home(earlier, last.0.id);
            let home = earlier.home(last.0.id);
            let g = earlier.groups[home];
            assert(earlier.with_listed(last) == earlier.with_group(touched(g, last)));
            assert(facet(touched(g, members[members.len() - 1])) == facet(g));
        }
    }
}

/// The census within an update, after the service rumors.
spec fn served(
    ring: CensusRingView,
    offset: nat,
    services: RumorStoreView<ServiceRumorView>,
) -> CensusRingView {
    CensusRingView { changed: false, ..ring }.with_service_store(offset, services)
}

proof fn lemma_facet_served<A>(
    facet: spec_fn(CensusGroupView) -> A,
    sg: ServiceGroupView,
    ring: CensusRingView,
    offset: nat,
    services: RumorStoreView<ServiceRumorView>,
)
    requires
        orderly(ring),
    ensures
        orderly(served(ring, offset, services)),
        served(ring, offset, services).local_member_id == ring.local_member_id,
        served(ring, offset, services).last_election_counter == ring.last_election_counter,
        served(ring, offset, services).last_election_update_counter
            == ring.last_election_update_counter,
        served(ring, offset, services).last_membership_counter == ring.last_membership_counter,
        services.update_counter <= ring.last_service_counter + offset || (forall|
            i: int,
            g: CensusGroupView,
        |
            0 <= i < services.keys.len() && services.keys[i].service_group == Some(sg) ==> facet(
                #[trigger] g.with_service_rumors(services.keys[i].rumors),
            ) == facet(g)) ==> facet(served(ring, offset, services).group_or_fresh(sg)) == facet(
            ring.group_or_fresh(sg),
        ),
{
    let quiet = CensusRingView { changed: false, ..ring };
    let seen = CensusRingView {
        last_service_counter: quiet.last_service_counter + offset,
        ..quiet
    };
    let start = seen.noting_change();
    assert(orderly(quiet) && orderly(seen) && orderly(start));
    lemma_service_keys_frame(start, services.keys);
    lemma_orderly_after_service_keys(start, services.keys);
    let taken = start.with_service_keys(services.keys);
    let after = served(ring, offset, services);
    if services.update_counter > ring.last_service_counter + offset {
        assert(after.groups == taken.groups && after.order == taken.order);
        if forall|i: int, g: CensusGroupView|
            0 <= i < services.keys.len() && services.keys[i].service_group == Some(sg) ==> facet(
                #[trigger] g.with_service_rumors(services.keys[i].rumors),
            ) == facet(g) {
            lemma_facet_service_keys(facet, sg, start, services.keys);
            assert(after.group_or_fresh(sg) == taken.group_or_fresh(sg));
            assert(start.group_or_fresh(sg) == ring.group_or_fresh(sg));
        }
        assert(orderly(after));
    } else {
        assert(after.group_or_fresh(sg) == ring.group_or_fresh(sg));
        assert(orderly(after));
    }
}

proof fn lemma_facet_election_store<A>(
    facet: spec_fn(CensusGroupView) -> A,
    sg: ServiceGroupView,
    ring: CensusRingView,
    store: RumorStoreView<ElectionView>,
)
    requires
        orderly(ring),
        store.update_counter <= ring.last_election_counter || (forall|i: int| !names(store.keys, sg, i)) || (forall|
            g: CensusGroupView,
            e: ElectionView,
        |
            facet(#[trigger] g.with_election(e)) == facet(g)),
    ensures
        orderly(ring.with_election_store(store)),
        ring.with_election_store(store).local_member_id == ring.local_member_id,
        ring.with_election_store(store).groups.contains_key(sg) == ring.groups.contains_key(sg),
        facet(ring.with_election_store(store).group_or_fresh(sg)) == facet(ring.group_or_fresh(sg)),
{
    let start = ring.noting_change();
    assert(orderly(start));
    lemma_election_keys_frame(start, store.keys);
    let taken = start.with_election_keys(store.keys);
    let after = ring.with_election_store(store);
    if store.update_counter > ring.last_election_counter {
        assert forall|i: int, g: CensusGroupView|
            0 <= i < store.keys.len() && store.keys[i].service_group == Some(sg) implies facet(
            #[trigger] g.with_election(store.keys[i].rumor(election_id())),
        ) == facet(g) by {
            assert(names(store.keys, sg, i));
        }
        lemma_facet_election_keys(facet, sg, start, store.keys);
        assert(after.group_or_fresh(sg) == taken.group_or_fresh(sg));
        assert(start.group_or_fresh(sg) == ring.group_or_fresh(sg));
        assert(orderly(after));
    }
}

proof fn lemma_facet_update_election_store<A>(
    facet: spec_fn(CensusGroupView) -> A,
    sg: ServiceGroupView,
    ring: CensusRingView,
    store: RumorStoreView<ElectionView>,
)
    requires
        orderly(ring),
        store.update_counter <= ring.last_election_update_counter || (forall|i: int| !names(store.keys, sg, i)) || (forall|
            g: CensusGroupView,
            e: ElectionView,
        |
            facet(#[trigger] g.with_update_election(e)) == facet(g)),
    ensures
        orderly(ring.with_update_election_store(store)),
        ring.with_update_election_store(store).local_member_id == ring.local_member_id,
        ring.with_update_election_store(store).groups.contains_key(sg) == ring.groups.contains_key(sg),
        facet(ring.with_update_election_store(store).group_or_fresh(sg)) == facet(ring.group_or_fresh(sg)),
{
    let start = ring.noting_change();
    assert(orderly(start));
    lemma_update_election_keys_frame(start, store.keys);
    let taken = start.with_update_election_keys(store.keys);
    let after = ring.with_update_election_store(store);
    if store.update_counter > ring.last_election_update_counter {
        assert forall|i: int, g: CensusGroupView|
            0 <= i < store.keys.len() && store.keys[i].service_group == Some(sg) implies facet(
            #[trigger] g.with_update_election(store.keys[i].rumor(election_id())),
        ) == facet(g) by {
            assert(names(store.keys, sg, i));
        }
        lemma_facet_update_election_keys(facet, sg, start, store.keys);
        assert(after.group_or_fresh(sg) == taken.group_or_fresh(sg));
        assert(start.group_or_fresh(sg) == ring.group_or_fresh(sg));
        assert(orderly(after));
    }
}

proof fn lemma_facet_list<A>(
    facet: spec_fn(CensusGroupView) -> A,
    sg: ServiceGroupView,
    ring: CensusRingView,
    list: MemberListView,
)
    requires
        orderly(ring),
        list.update_counter <= ring.last_membership_counter || (forall|
            i: int,
            g: CensusGroupView,
        |
            0 <= i < list.members.len() && g.population.contains_key(list.members[i].0.id) ==> facet(
                #[trigger] touched(g, list.members[i]),
            ) == facet(g)),
    ensures
        orderly(ring.with_member_list(list)),
        ring.with_member_list(list).local_member_id == ring.local_member_id,
        ring.with_member_list(list).groups.contains_key(sg) == ring.groups.contains_key(sg),
        facet(ring.with_member_list(list).group_or_fresh(sg)) == facet(ring.group_or_fresh(sg)),
{
    let start = ring.noting_change();
    assert(orderly(start));
    lemma_listed_frame(start, list.members);
    let taken = start.with_listed_all(list.members);
    let after = ring.with_member_list(list);
    if list.update_counter > ring.last_membership_counter {
        lemma_facet_listed(facet, sg, start, list.members);
        assert(after.group_or_fresh(sg) == taken.group_or_fresh(sg));
        assert(start.group_or_fresh(sg) == ring.group_or_fresh(sg));
        assert(orderly(after));
    }
}

/// The counters that the elections leave alone.
proof fn lemma_counters_within(
    ring: CensusRingView,
    elections: RumorStoreView<ElectionView>,
    update_elections: RumorStoreView<ElectionView>,
)
    ensures
        ring.with_election_store(elections).last_election_update_counter
            == ring.last_election_update_counter,
        ring.with_election_store(elections).last_membership_counter
            == ring.last_membership_counter,
        ring.with_update_election_store(update_elections).last_membership_counter
            == ring.last_membership_counter,
{
    lemma_election_keys_frame(ring.noting_change(), elections.keys);
    lemma_update_election_keys_frame(ring.noting_change(), update_elections.keys);
}

/// What `id` is in a group: the member, or one of which nothing was heard.
spec fn seen_as(g: CensusGroupView, id: Seq<char>) -> CensusMemberView {
    member_or_unknown(g.population, id)
}

proof fn lemma_seen_as(ring: CensusRingView, sg: ServiceGroupView, id: Seq<char>)
    ensures
        has_member(ring, sg, id) ==> seen_as(ring.group_or_fresh(sg), id)
            == ring.groups[sg].population[id],
        !has_member(ring, sg, id) ==> seen_as(ring.group_or_fresh(sg), id)
            == CensusMemberView::unknown(),
{
}

// ---------------------------------------------------------------------------------------
// What an update has no news of
// ---------------------------------------------------------------------------------------

/// What an update has no election of stays: where the store of elections is not ahead, or no key
/// of it names the group, the group keeps its leader and what its election has come to, and its
/// members their parts, whatever the service rumors, the update elections and the list bring. A
/// group, or a member, that is new has no leader, and no part.
pub proof fn law_leaders_stay_without_an_election(
    ring: CensusRingView,
    offset: nat,
    services: RumorStoreView<ServiceRumorView>,
    elections: RumorStoreView<ElectionView>,
    update_elections: RumorStoreView<ElectionView>,
    members: MemberListView,
    sg: ServiceGroupView,
    id: Seq<char>,
)
    requires
        orderly(ring),
        elections.update_counter <= ring.last_election_counter || forall|i: int|
            !names(elections.keys, sg, i),
    ensures
        ({
            let after = ring.updated(offset, services, elections, update_elections, members);
            &&& ring.groups.contains_key(sg) ==> {
                &&& after.groups[sg].leader_id == ring.groups[sg].leader_id
                &&& after.groups[sg].election_status == ring.groups[sg].election_status
            }
            &&& !ring.groups.contains_key(sg) && after.groups.contains_key(sg) ==> {
                &&& after.groups[sg].leader_id is None
                &&& after.groups[sg].election_status is NoElection
            }
            &&& has_member(after, sg, id) && has_member(ring, sg, id) ==> part(
                after.groups[sg].population[id],
            ) == part(ring.groups[sg].population[id])
            &&& has_member(after, sg, id) && !has_member(ring, sg, id) ==> part(
                after.groups[sg].population[id],
            ) == no_part()
        }),
{
    let facet = |g: CensusGroupView|
        (g.leader_id, g.election_status, part(seen_as(g, id)));
    lemma_seen_as(ring, sg, id);
    law_nothing_is_known_at_first();
    assert forall|i: int, g: CensusGroupView|
        0 <= i < services.keys.len() && services.keys[i].service_group == Some(
            sg,
        ) implies facet(#[trigger] g.with_service_rumors(services.keys[i].rumors)) == facet(g) by {
        law_service_rumors_leave_the_rest(g, services.keys[i].rumors, id);
    }
    lemma_facet_served(facet, sg, ring, offset, services);
    let a = served(ring, offset, services);
    lemma_facet_election_store(facet, sg, a, elections);
    lemma_counters_within(a, elections, update_elections);
    let b = a.with_election_store(elections);
    assert forall|g: CensusGroupView, e: ElectionView| facet(
        #[trigger] g.with_update_election(e),
    ) == facet(g) by {
        law_update_election_is_noted_in_the_group(g, e, id);
    }
    lemma_facet_update_election_store(facet, sg, b, update_elections);
    lemma_counters_within(b, elections, update_elections);
    let c = b.with_update_election_store(update_elections);
    lemma_facet_list(facet, sg, c, members);
    let d = c.with_member_list(members);
    assert(d == ring.updated(offset, services, elections, update_elections, members));
    lemma_seen_as(d, sg, id);
    if ring.groups.contains_key(sg) {
        crate::laws::outcome::law_what_is_new_was_named(
            ring,
            offset,
            services,
            elections,
            update_elections,
            members,
            sg,
            id,
        );
    }
}

/// What `law_leaders_stay_without_an_election` says of leaders holds of update leaders too.
pub proof fn law_update_leaders_stay_without_an_election(
    ring: CensusRingView,
    offset: nat,
    services: RumorStoreView<ServiceRumorView>,
    elections: RumorStoreView<ElectionView>,
    update_elections: RumorStoreView<ElectionView>,
    members: MemberListView,
    sg: ServiceGroupView,
    id: Seq<char>,
)
    requires
        orderly(ring),
        update_elections.update_counter <= ring.last_election_update_counter || forall|i: int|
            !names(update_elections.keys, sg, i),
    ensures
        ({
            let after = ring.updated(offset, services, elections, update_elections, members);
            &&& ring.groups.contains_key(sg) ==> {
                &&& after.groups[sg].update_leader_id == ring.groups[sg].update_leader_id
            }
            &&& !ring.groups.contains_key(sg) && after.groups.contains_key(sg) ==> {
                &&& after.groups[sg].update_leader_id is None
            }
            &&& has_member(after, sg, id) && has_member(ring, sg, id) ==> update_part(
                after.groups[sg].population[id],
            ) == update_part(ring.groups[sg].population[id])
            &&& has_member(after, sg, id) && !has_member(ring, sg, id) ==> update_part(
                after.groups[sg].population[id],
            ) == no_part()
        }),
{
    let facet = |g: CensusGroupView|
        (g.update_leader_id, update_part(seen_as(g, id)));
    lemma_seen_as(ring, sg, id);
    law_nothing_is_known_at_first();
    assert forall|i: int, g: CensusGroupView|
        0 <= i < services.keys.len() && services.keys[i].service_group == Some(
            sg,
        ) implies facet(#[trigger] g.with_service_rumors(services.keys[i].rumors)) == facet(g) by {
        law_service_rumors_leave_the_rest(g, services.keys[i].rumors, id);
    }
    lemma_facet_served(facet, sg, ring, offset, services);
    let a = served(ring, offset, services);
    assert forall|g: CensusGroupView, e: ElectionView| facet(#[trigger] g.with_election(e)) == facet(
        g,
    ) by {
        law_election_is_noted_in_the_group(g, e, id);
    }
    lemma_facet_election_store(facet, sg, a, elections);
    lemma_counters_within(a, elections, update_elections);
    let b = a.with_election_store(elections);
    lemma_facet_update_election_store(facet, sg, b, update_elections);
    lemma_counters_within(b, elections, update_elections);
    let c = b.with_update_election_store(update_elections);
    lemma_facet_list(facet, sg, c, members);
    let d = c.with_member_list(members);
    assert(d == ring.updated(offset, services, elections, update_elections, members));
    lemma_seen_as(d, sg, id);
    if ring.groups.contains_key(sg) {
        crate::laws::outcome::law_what_is_new_was_named(
            ring,
            offset,
            services,
            elections,
            update_elections,
            members,
            sg,
            id,
        );
    }
}

/// The health of a member stays where the list of members is not ahead, or says nothing of it,
/// whatever the service rumors and the elections bring; that of a member that is new is not
/// known. Whether the member is persistent stays too, where the list is not ahead or does not
/// have it.
pub proof fn law_health_stays_without_news(
    ring: CensusRingView,
    offset: nat,
    services: RumorStoreView<ServiceRumorView>,
    elections: RumorStoreView<ElectionView>,
    update_elections: RumorStoreView<ElectionView>,
    members: MemberListView,
    sg: ServiceGroupView,
    id: Seq<char>,
)
    requires
        orderly(ring),
        members.update_counter <= ring.last_membership_counter || forall|i: int|
            lists(members.members, id, i) ==> (#[trigger] members.members[i]).1 is None,
    ensures
        ({
            let after = ring.updated(offset, services, elections, update_elections, members);
            let unlisted = members.update_counter <= ring.last_membership_counter || forall|i: int|
                !lists(members.members, id, i);
            &&& has_member(after, sg, id) && has_member(ring, sg, id) ==> {
                &&& fare(after.groups[sg].population[id]) == fare(ring.groups[sg].population[id])
                &&& unlisted ==> after.groups[sg].population[id].persistent
                    == ring.groups[sg].population[id].persistent
            }
            &&& has_member(after, sg, id) && !has_member(ring, sg, id) ==> {
                &&& fare(after.groups[sg].population[id]) == no_fare()
                &&& unlisted ==> after.groups[sg].population[id].persistent is None
            }
        }),
{
    let unlisted = members.update_counter <= ring.last_membership_counter || forall|i: int|
        !lists(members.members, id, i);
    let facet = |g: CensusGroupView|
        (
            fare(seen_as(g, id)),
            if unlisted {
                seen_as(g, id).persistent
            } else {
                None
            },
        );
    lemma_seen_as(ring, sg, id);
    law_nothing_is_known_at_first();
    assert forall|i: int, g: CensusGroupView|
        0 <= i < services.keys.len() && services.keys[i].service_group == Some(
            sg,
        ) implies facet(#[trigger] g.with_service_rumors(services.keys[i].rumors)) == facet(g) by {
        law_service_rumors_leave_the_rest(g, services.keys[i].rumors, id);
    }
    lemma_facet_served(facet, sg, ring, offset, services);
    let a = served(ring, offset, services);
    assert forall|g: CensusGroupView, e: ElectionView| facet(#[trigger] g.with_election(e)) == facet(
        g,
    ) by {
        law_election_is_noted_in_the_group(g, e, id);
    }
    lemma_facet_election_store(facet, sg, a, elections);
    lemma_counters_within(a, elections, update_elections);
    let b = a.with_election_store(elections);
    assert forall|g: CensusGroupView, e: ElectionView| facet(
        #[trigger] g.with_update_election(e),
    ) == facet(g) by {
        law_update_election_is_noted_in_the_group(g, e, id);
    }
    lemma_facet_update_election_store(facet, sg, b, update_elections);
    lemma_counters_within(b, elections, update_elections);
    let c = b.with_update_election_store(update_elections);
    if members.update_counter > c.last_membership_counter {
        assert forall|i: int, g: CensusGroupView|
            0 <= i < members.members.len() && g.population.contains_key(
                members.members[i].0.id,
            ) implies facet(#[trigger] touched(g, members.members[i])) == facet(g) by {
            if members.members[i].0.id == id {
                assert(lists(members.members, id, i));
                assert(members.members[i].1 is None);
            }
        }
    }
    lemma_facet_list(facet, sg, c, members);
    let d = c.with_member_list(members);
    assert(d == ring.updated(offset, services, elections, update_elections, members));
    lemma_seen_as(d, sg, id);
}

/// What a member said of itself stays where the service rumors are not ahead, or none of them
/// stands under its identifier, whatever the elections bring and the list says of others; and
/// its gossip address stays where the list has no news of it either.
pub proof fn law_what_was_said_stays_without_news(
    ring: CensusRingView,
    offset: nat,
    services: RumorStoreView<ServiceRumorView>,
    elections: RumorStoreView<ElectionView>,
    update_elections: RumorStoreView<ElectionView>,
    members: MemberListView,
    sg: ServiceGroupView,
    id: Seq<char>,
)
    requires
        orderly(ring),
        services.update_counter <= ring.last_service_counter + offset || forall|i: int, j: int|
            !speaks(services.keys, sg, id, i, j),
        has_member(ring, sg, id),
    ensures
        ({
            let after = ring.updated(offset, services, elections, update_elections, members);
            let unlisted = members.update_counter <= ring.last_membership_counter || forall|i: int|
                !lists(members.members, id, i);
            let (was, now) = (ring.groups[sg].population[id], after.groups[sg].population[id]);
            &&& has_member(after, sg, id)
            &&& identity(now) == identity(was)
            &&& unlisted ==> now.sys == was.sys
        }),
{
    let unlisted = members.update_counter <= ring.last_membership_counter || forall|i: int|
        !lists(members.members, id, i);
    crate::laws::outcome::law_what_is_new_was_named(
        ring,
        offset,
        services,
        elections,
        update_elections,
        members,
        sg,
        id,
    );
    let facet = |g: CensusGroupView|
        (
            identity(seen_as(g, id)),
            if unlisted {
                seen_as(g, id).sys
            } else {
                SysInfoView::unknown()
            },
        );
    lemma_seen_as(ring, sg, id);
    law_nothing_is_known_at_first();
    assert forall|i: int, g: CensusGroupView|
        services.update_counter > ring.last_service_counter + offset && 0 <= i < services.keys.len() && services.keys[i].service_group == Some(
            sg,
        ) implies facet(#[trigger] g.with_service_rumors(services.keys[i].rumors)) == facet(g) by {
        law_service_rumors_leave_the_rest(g, services.keys[i].rumors, id);
        assert(names(services.keys, sg, i));
        assert forall|j: int| 0 <= j < services.keys[i].rumors.len() implies (
        #[trigger] services.keys[i].rumors[j]).0 != id by {
            assert(!speaks(services.keys, sg, id, i, j));
        }
    }
    lemma_facet_served(facet, sg, ring, offset, services);
    let a = served(ring, offset, services);
    assert forall|g: CensusGroupView, e: ElectionView| facet(#[trigger] g.with_election(e)) == facet(
        g,
    ) by {
        law_election_is_noted_in_the_group(g, e, id);
    }
    lemma_facet_election_store(facet, sg, a, elections);
    lemma_counters_within(a, elections, update_elections);
    let b = a.with_election_store(elections);
    assert forall|g: CensusGroupView, e: ElectionView| facet(
        #[trigger] g.with_update_election(e),
    ) == facet(g) by {
        law_update_election_is_noted_in_the_group(g, e, id);
    }
    lemma_facet_update_election_store(facet, sg, b, update_elections);
    lemma_counters_within(b, elections, update_elections);
    let c = b.with_update_election_store(update_elections);
    if members.update_counter > c.last_membership_counter {
        assert forall|i: int, g: CensusGroupView|
            0 <= i < members.members.len() && g.population.contains_key(
                members.members[i].0.id,
            ) implies facet(#[trigger] touched(g, members.members[i])) == facet(g) by {
            if members.members[i].0.id == id {
                assert(lists(members.members, id, i));
            }
        }
    }
    lemma_facet_list(facet, sg, c, members);
    let d = c.with_member_list(members);
    assert(d == ring.updated(offset, services, elections, update_elections, members));
    lemma_seen_as(d, sg, id);
}

/// No update says whether a member is initialized.
pub proof fn law_initialized_is_never_touched(
    ring: CensusRingView,
    offset: nat,
    services: RumorStoreView<ServiceRumorView>,
    elections: RumorStoreView<ElectionView>,
    update_elections: RumorStoreView<ElectionView>,
    members: MemberListView,
    sg: ServiceGroupView,
    id: Seq<char>,
)
    requires
        orderly(ring),
    ensures
        ({
            let after = ring.updated(offset, services, elections, update_elections, members);
            &&& has_member(after, sg, id) && has_member(ring, sg, id)
                ==> after.groups[sg].population[id].initialized
                == ring.groups[sg].population[id].initialized
            &&& has_member(after, sg, id) && !has_member(ring, sg, id)
                ==> after.groups[sg].population[id].initialized is None
        }),
{
    let facet = |g: CensusGroupView| seen_as(g, id).initialized;
    lemma_seen_as(ring, sg, id);
    law_nothing_is_known_at_first();
    assert forall|i: int, g: CensusGroupView|
        0 <= i < services.keys.len() && services.keys[i].service_group == Some(
            sg,
        ) implies facet(#[trigger] g.with_service_rumors(services.keys[i].rumors)) == facet(g) by {
        law_service_rumors_leave_the_rest(g, services.keys[i].rumors, id);
    }
    lemma_facet_served(facet, sg, ring, offset, services);
    let a = served(ring, offset, services);
    assert forall|g: CensusGroupView, e: ElectionView| facet(#[trigger] g.with_election(e)) == facet(
        g,
    ) by {
        law_election_is_noted_in_the_group(g, e, id);
    }
    lemma_facet_election_store(facet, sg, a, elections);
    lemma_counters_within(a, elections, update_elections);
    let b = a.with_election_store(elections);
    assert forall|g: CensusGroupView, e: ElectionView| facet(
        #[trigger] g.with_update_election(e),
    ) == facet(g) by {
        law_update_election_is_noted_in_the_group(g, e, id);
    }
    lemma_facet_update_election_store(facet, sg, b, update_elections);
    lemma_counters_within(b, elections, update_elections);
    let c = b.with_update_election_store(update_elections);
    lemma_facet_list(facet, sg, c, members);
    let d = c.with_member_list(members);
    assert(d == ring.updated(offset, services, elections, update_elections, members));
    lemma_seen_as(d, sg, id);
}

// ---------------------------------------------------------------------------------------
// What an update has news of
// ---------------------------------------------------------------------------------------

/// The rumor at place `j` of the key at place `i` is the election of the service group: the
/// first that stands under the identifier `election`.
pub open spec fn holds_election(
    keys: Seq<RumorKeyView<ElectionView>>,
    sg: ServiceGroupView,
    i: int,
    j: int,
) -> bool {
    &&& names(keys, sg, i)
    &&& 0 <= j < keys[i].rumors.len()
    &&& keys[i].rumors[j].0 == "election"@
    &&& forall|k: int| 0 <= k < j ==> (#[trigger] keys[i].rumors[k]).0 != "election"@
}

proof fn lemma_orderly_after_elections(ring: CensusRingView, store: RumorStoreView<ElectionView>)
    requires
        orderly(ring),
    ensures
        orderly(ring.with_election_store(store)),
{
    let start = ring.noting_change();
    assert(orderly(start));
    lemma_orderly_after_election_keys(start, store.keys);
    lemma_election_keys_frame(start, store.keys);
    let taken = start.with_election_keys(store.keys);
    assert(orderly(taken));
}

proof fn lemma_orderly_after_update_elections(
    ring: CensusRingView,
    store: RumorStoreView<ElectionView>,
)
    requires
        orderly(ring),
    ensures
        orderly(ring.with_update_election_store(store)),
{
    let start = ring.noting_change();
    assert(orderly(start));
    lemma_orderly_after_election_keys(start, store.keys);
    lemma_update_election_keys_frame(start, store.keys);
    let taken = start.with_update_election_keys(store.keys);
    assert(orderly(taken));
}

/// Update elections and the list touch neither leaders nor names.
proof fn lemma_election_tail(
    base: CensusRingView,
    update_elections: RumorStoreView<ElectionView>,
    members: MemberListView,
    sg: ServiceGroupView,
    id: Seq<char>,
)
    requires
        orderly(base),
    ensures
        ({
            let after = base.with_update_election_store(update_elections).with_member_list(members);
            let (g, h) = (base.groups[sg], after.groups[sg]);
            &&& after.groups.contains_key(sg) == base.groups.contains_key(sg)
            &&& base.groups.contains_key(sg) ==> {
                &&& h.leader_id == g.leader_id
                &&& h.election_status == g.election_status
                &&& h.population.contains_key(id) == g.population.contains_key(id)
                &&& h.population.contains_key(id) ==> {
                    &&& part(h.population[id]) == part(g.population[id])
                    &&& identity(h.population[id]) == identity(g.population[id])
                }
            }
        }),
{
    let facet = |g: CensusGroupView|
        (
            g.leader_id,
            g.election_status,
            g.population.contains_key(id),
            part(seen_as(g, id)),
            identity(seen_as(g, id)),
        );
    assert forall|g: CensusGroupView, e: ElectionView| facet(
        #[trigger] g.with_update_election(e),
    ) == facet(g) by {
        law_update_election_is_noted_in_the_group(g, e, id);
    }
    lemma_facet_update_election_store(facet, sg, base, update_elections);
    let b = base.with_update_election_store(update_elections);
    lemma_facet_list(facet, sg, b, members);
}

/// The list touches neither update leaders nor names.
proof fn lemma_update_election_tail(
    base: CensusRingView,
    members: MemberListView,
    sg: ServiceGroupView,
    id: Seq<char>,
)
    requires
        orderly(base),
    ensures
        ({
            let after = base.with_member_list(members);
            let (g, h) = (base.groups[sg], after.groups[sg]);
            &&& after.groups.contains_key(sg) == base.groups.contains_key(sg)
            &&& base.groups.contains_key(sg) ==> {
                &&& h.update_leader_id == g.update_leader_id
                &&& h.population.contains_key(id) == g.population.contains_key(id)
                &&& h.population.contains_key(id) ==> {
                    &&& update_part(h.population[id]) == update_part(g.population[id])
                    &&& identity(h.population[id]) == identity(g.population[id])
                }
            }
        }),
{
    let facet = |g: CensusGroupView|
        (
            g.update_leader_id,
            g.population.contains_key(id),
            update_part(seen_as(g, id)),
            identity(seen_as(g, id)),
        );
    lemma_facet_list(facet, sg, base, members);
}

/// An election that is taken up is in the census: every member of the group knows how far it has
/// come, whichever member it names, and agrees with the group on that; of a finished one the
/// member it names leads and every other follows; the group has the leader it names, if it is
/// finished and a member bears that name, and none otherwise.
pub proof fn law_election_is_in_the_census(
    ring: CensusRingView,
    offset: nat,
    services: RumorStoreView<ServiceRumorView>,
    elections: RumorStoreView<ElectionView>,
    update_elections: RumorStoreView<ElectionView>,
    members: MemberListView,
    sg: ServiceGroupView,
    id: Seq<char>,
    i: int,
    j: int,
)
    requires
        orderly(ring),
        elections.update_counter > ring.last_election_counter,
        distinct_groups(elections.keys),
        holds_election(elections.keys, sg, i, j),
        ring.updated(
            offset,
            services,
            elections,
            update_elections,
            members,
        ).groups.contains_key(sg),
    ensures
        ({
            let after = ring.updated(offset, services, elections, update_elections, members);
            let e = elections.keys[i].rumors[j].1;
            let now = after.groups[sg].population;
            &&& after.groups[sg].election_status is ElectionInProgress <==> e.status is Running
            &&& after.groups[sg].election_status is ElectionNoQuorum <==> e.status is NoQuorum
            &&& after.groups[sg].election_status is ElectionFinished <==> e.status is Finished
            &&& after.groups[sg].leader_id is Some <==> e.status is Finished && exists|
                other: Seq<char>,
            |
                #[trigger] now.contains_key(other) && now[other].member_id == e.member_id
            &&& after.groups[sg].leader_id is Some ==> after.groups[sg].leader_id == Some(
                e.member_id,
            )
            &&& now.contains_key(id) ==> part(now[id]) == part_in(
                e.status,
                e.member_id,
                now[id].member_id,
            )
        }),
{
    let e = elections.keys[i].rumors[j].1;
    let nothing = |g: CensusGroupView| true;
    lemma_facet_served(nothing, sg, ring, offset, services);
    let before = served(ring, offset, services);
    let start = before.noting_change();
    let base = before.with_election_store(elections);
    lemma_orderly_after_elections(before, elections);
    assert(orderly(start));
    law_each_election_key_changes_its_group(start, elections.keys);
    law_election_of_a_key(elections.keys[i]);
    assert(elections.keys[i].rumor(election_id()) == e);
    let after = ring.updated(offset, services, elections, update_elections, members);
    let old_group = start.groups[sg];
    assert(base.groups.contains_key(sg) == start.groups.contains_key(sg)) by {
        assert(base.groups.dom().contains(sg) == start.groups.dom().contains(sg));
    }
    lemma_election_tail(base, update_elections, members, sg, id);
    assert(base.with_update_election_store(update_elections).with_member_list(members) == after);
    assert(base.groups.contains_key(sg));
    assert(names(elections.keys, sg, i));
    assert(base.groups[sg] == old_group.with_election(e));
    law_election_is_noted_in_the_group(old_group, e, id);
    let was = old_group.population;
    let now = after.groups[sg].population;
    assert forall|other: Seq<char>| (#[trigger] now.contains_key(other) == was.contains_key(other))
        && (now.contains_key(other) ==> now[other].member_id == was[other].member_id) by {
        law_election_is_noted_in_the_group(old_group, e, other);
        lemma_election_tail(base, update_elections, members, sg, other);
    }
    if exists|other: Seq<char>| #[trigger] was.contains_key(other) && was[other].member_id
        == e.member_id {
        let other = choose|other: Seq<char>| #[trigger] was.contains_key(other)
            && was[other].member_id == e.member_id;
        assert(now.contains_key(other) == was.contains_key(other));
        assert(now.contains_key(other));
        assert(now[other].member_id == was[other].member_id);
    }
    if exists|other: Seq<char>| #[trigger] now.contains_key(other) && now[other].member_id
        == e.member_id {
        let other = choose|other: Seq<char>| #[trigger] now.contains_key(other)
            && now[other].member_id == e.member_id;
        assert(was.contains_key(other) && was[other].member_id == e.member_id);
    }
}

/// What `law_election_is_in_the_census` says of elections holds of update elections too, which
/// the group has no status of.
pub proof fn law_update_election_is_in_the_census(
    ring: CensusRingView,
    offset: nat,
    services: RumorStoreView<ServiceRumorView>,
    elections: RumorStoreView<ElectionView>,
    update_elections: RumorStoreView<ElectionView>,
    members: MemberListView,
    sg: ServiceGroupView,
    id: Seq<char>,
    i: int,
    j: int,
)
    requires
        orderly(ring),
        update_elections.update_counter > ring.last_election_update_counter,
        distinct_groups(update_elections.keys),
        holds_election(update_elections.keys, sg, i, j),
        ring.updated(
            offset,
            services,
            elections,
            update_elections,
            members,
        ).groups.contains_key(sg),
    ensures
        ({
            let after = ring.updated(offset, services, elections, update_elections, members);
            let e = update_elections.keys[i].rumors[j].1;
            let now = after.groups[sg].population;
            &&& after.groups[sg].update_leader_id is Some <==> e.status is Finished && exists|
                other: Seq<char>,
            |
                #[trigger] now.contains_key(other) && now[other].member_id == e.member_id
            &&& after.groups[sg].update_leader_id is Some ==> after.groups[sg].update_leader_id == Some(
                e.member_id,
            )
            &&& now.contains_key(id) ==> update_part(now[id]) == part_in(
                e.status,
                e.member_id,
                now[id].member_id,
            )
        }),
{
    let e = update_elections.keys[i].rumors[j].1;
    let nothing = |g: CensusGroupView| true;
    lemma_facet_served(nothing, sg, ring, offset, services);
    let a = served(ring, offset, services);
    lemma_orderly_after_elections(a, elections);
    lemma_counters_within(a, elections, update_elections);
    let before = a.with_election_store(elections);
    let start = before.noting_change();
    let base = before.with_update_election_store(update_elections);
    lemma_orderly_after_update_elections(before, update_elections);
    assert(orderly(start));
    law_each_update_election_key_changes_its_group(start, update_elections.keys);
    law_election_of_a_key(update_elections.keys[i]);
    assert(update_elections.keys[i].rumor(election_id()) == e);
    let after = ring.updated(offset, services, elections, update_elections, members);
    let old_group = start.groups[sg];
    assert(base.groups.contains_key(sg) == start.groups.contains_key(sg)) by {
        assert(base.groups.dom().contains(sg) == start.groups.dom().contains(sg));
    }
    lemma_update_election_tail(base, members, sg, id);
    assert(base.with_member_list(members) == after);
    assert(base.groups.contains_key(sg));
    assert(names(update_elections.keys, sg, i));
    assert(base.groups[sg] == old_group.with_update_election(e));
    law_update_election_is_noted_in_the_group(old_group, e, id);
    let was = old_group.population;
    let now = after.groups[sg].population;
    assert forall|other: Seq<char>| (#[trigger] now.contains_key(other) == was.contains_key(other))
        && (now.contains_key(other) ==> now[other].member_id == was[other].member_id) by {
        law_update_election_is_noted_in_the_group(old_group, e, other);
        lemma_update_election_tail(base, members, sg, other);
    }
    if exists|other: Seq<char>| #[trigger] was.contains_key(other) && was[other].member_id
        == e.member_id {
        let other = choose|other: Seq<char>| #[trigger] was.contains_key(other)
            && was[other].member_id == e.member_id;
        assert(now.contains_key(other) == was.contains_key(other));
        assert(now.contains_key(other));
        assert(now[other].member_id == was[other].member_id);
    }
    if exists|other: Seq<char>| #[trigger] now.contains_key(other) && now[other].member_id
        == e.member_id {
        let other = choose|other: Seq<char>| #[trigger] now.contains_key(other)
            && now[other].member_id == e.member_id;
        assert(was.contains_key(other) && was[other].member_id == e.member_id);
    }
}

/// What a service rumor leaves open stays as it was, also in an update that takes the rumor up:
/// the organization where the service group has none, the package where its identifier was
/// malformed; of a member that is new neither is known. Its gossip address is the one it says
/// itself, where the list of members has no news of it.
pub proof fn law_what_is_left_open_stays(
    ring: CensusRingView,
    offset: nat,
    services: RumorStoreView<ServiceRumorView>,
    elections: RumorStoreView<ElectionView>,
    update_elections: RumorStoreView<ElectionView>,
    members: MemberListView,
    sg: ServiceGroupView,
    id: Seq<char>,
    i: int,
    j: int,
)
    requires
        orderly(ring),
        services.update_counter > ring.last_service_counter + offset,
        distinct_groups(services.keys),
        speaks(services.keys, sg, id, i, j),
        distinct(services.keys[i].rumors),
    ensures
        ({
            let after = ring.updated(offset, services, elections, update_elections, members);
            let rumor = services.keys[i].rumors[j].1;
            let now = after.groups[sg].population[id];
            let unlisted = members.update_counter <= ring.last_membership_counter || forall|k: int|
                !lists(members.members, id, k);
            &&& has_member(after, sg, id)
            &&& sg.org is None && has_member(ring, sg, id) ==> now.org
                == ring.groups[sg].population[id].org
            &&& sg.org is None && !has_member(ring, sg, id) ==> now.org is None
            &&& rumor.pkg is None && has_member(ring, sg, id) ==> now.pkg
                == ring.groups[sg].population[id].pkg
            &&& rumor.pkg is None && !has_member(ring, sg, id) ==> now.pkg is None
            &&& unlisted && rumor.sys is Some ==> now.sys == rumor.sys->0
            &&& unlisted && rumor.sys is None ==> now.sys.gossip_ip.len() == 0
                && now.sys.gossip_port.len() == 0
        }),
{
    let unlisted = members.update_counter <= ring.last_membership_counter || forall|k: int|
        !lists(members.members, id, k);
    let rumor = services.keys[i].rumors[j].1;
    let quiet = CensusRingView { changed: false, ..ring };
    let seen = CensusRingView {
        last_service_counter: quiet.last_service_counter + offset,
        ..quiet
    };
    let start = seen.noting_change();
    assert(orderly(start));
    let nothing = |g: CensusGroupView| true;
    lemma_facet_served(nothing, sg, ring, offset, services);
    lemma_service_keys_frame(start, services.keys);
    law_each_service_key_changes_its_group(start, services.keys);
    let a = served(ring, offset, services);
    let key = services.keys[i];
    let old_group = start.group_or_fresh(sg);
    assert(old_group.service_group == sg);
    assert(names(services.keys, sg, i));
    assert(a.groups[sg] == old_group.with_service_rumors(key.rumors));
    law_each_rumor_changes_its_member(old_group.population, sg, key.rumors);
    lemma_entry(key.rumors, j);
    assert(as_map(key.rumors)[id] == rumor);
    assert(has_member(a, sg, id));
    assert(a.groups[sg].population[id] == seen_as(old_group, id).with_service_rumor(sg, rumor));
    lemma_seen_as(ring, sg, id);
    law_nothing_is_known_at_first();
    crate::laws::members::law_service_rumor_is_about_the_service(
        seen_as(old_group, id),
        sg,
        rumor,
    );
    let facet = |g: CensusGroupView|
        (
            g.population.contains_key(id),
            identity(seen_as(g, id)),
            if unlisted {
                seen_as(g, id).sys
            } else {
                SysInfoView::unknown()
            },
        );
    assert forall|g: CensusGroupView, e: ElectionView| facet(#[trigger] g.with_election(e)) == facet(
        g,
    ) by {
        law_election_is_noted_in_the_group(g, e, id);
    }
    assert forall|g: CensusGroupView, e: ElectionView| facet(
        #[trigger] g.with_update_election(e),
    ) == facet(g) by {
        law_update_election_is_noted_in_the_group(g, e, id);
    }
    lemma_facet_election_store(facet, sg, a, elections);
    lemma_counters_within(a, elections, update_elections);
    let b = a.with_election_store(elections);
    lemma_facet_update_election_store(facet, sg, b, update_elections);
    lemma_counters_within(b, elections, update_elections);
    let c = b.with_update_election_store(update_elections);
    if members.update_counter > c.last_membership_counter {
        assert forall|k: int, g: CensusGroupView|
            0 <= k < members.members.len() && g.population.contains_key(
                members.members[k].0.id,
            ) implies facet(#[trigger] touched(g, members.members[k])) == facet(g) by {
            if members.members[k].0.id == id {
                assert(lists(members.members, id, k));
            }
        }
    }
    lemma_facet_list(facet, sg, c, members);
    let d = c.with_member_list(members);
    assert(d == ring.updated(offset, services, elections, update_elections, members));
    lemma_seen_as(d, sg, id);
}

/// The group at place `k` of the order is the first that has a member with this identifier.
pub open spec fn first_group_with(ring: CensusRingView, id: Seq<char>, k: int) -> bool {
    &&& 0 <= k < ring.order.len()
    &&& has_member(ring, ring.order[k], id)
    &&& forall|l: int| 0 <= l < k ==> !has_member(ring, #[trigger] ring.order[l], id)
}

/// The list of members reaches one group. After an update that takes it up, the first group that
/// has the listed member knows it as persistent, with its address, and with its health where the
/// list has that; where the list has none, its health is what it was. In every other group that
/// has the member, its health and whether it is persistent are what they were.
pub proof fn law_list_reaches_the_first_group(
    ring: CensusRingView,
    offset: nat,
    services: RumorStoreView<ServiceRumorView>,
    elections: RumorStoreView<ElectionView>,
    update_elections: RumorStoreView<ElectionView>,
    members: MemberListView,
    sg: ServiceGroupView,
    id: Seq<char>,
    i: int,
    k: int,
)
    requires
        orderly(ring),
        members.update_counter > ring.last_membership_counter,
        distinct_ids(members.members),
        lists(members.members, id, i),
        first_group_with(
            ring.updated(offset, services, elections, update_elections, members),
            id,
            k,
        ),
        has_member(
            ring.updated(offset, services, elections, update_elections, members),
            sg,
            id,
        ),
    ensures
        ({
            let after = ring.updated(offset, services, elections, update_elections, members);
            let (member, health) = members.members[i];
            let now = after.groups[sg].population[id];
            let was = ring.groups[sg].population[id];
            &&& sg == after.order[k] ==> {
                &&& now.persistent == Some(true)
                &&& now.sys.gossip_ip == member.address
                &&& now.sys.gossip_port == crate::text::signed_numeral(member.gossip_port)
                &&& health matches Some(h) ==> {
                    &&& now.alive == Some(h is Alive)
                    &&& now.suspect == Some(h is Suspect)
                    &&& now.confirmed == Some(h is Confirmed)
                }
            }
            &&& sg != after.order[k] && has_member(ring, sg, id) ==> now.persistent
                == was.persistent
            &&& sg != after.order[k] && !has_member(ring, sg, id) ==> now.persistent is None
            &&& sg != after.order[k] || health is None ==> {
                &&& has_member(ring, sg, id) ==> fare(now) == fare(was)
                &&& !has_member(ring, sg, id) ==> fare(now) == no_fare()
            }
        }),
{
    let facet = |g: CensusGroupView| (fare(seen_as(g, id)), seen_as(g, id).persistent);
    lemma_seen_as(ring, sg, id);
    law_nothing_is_known_at_first();
    assert forall|n: int, g: CensusGroupView|
        0 <= n < services.keys.len() && services.keys[n].service_group == Some(sg) implies facet(
        #[trigger] g.with_service_rumors(services.keys[n].rumors),
    ) == facet(g) by {
        law_service_rumors_leave_the_rest(g, services.keys[n].rumors, id);
    }
    lemma_facet_served(facet, sg, ring, offset, services);
    let a = served(ring, offset, services);
    assert forall|g: CensusGroupView, e: ElectionView| facet(#[trigger] g.with_election(e)) == facet(
        g,
    ) by {
        law_election_is_noted_in_the_group(g, e, id);
    }
    lemma_facet_election_store(facet, sg, a, elections);
    lemma_counters_within(a, elections, update_elections);
    let b = a.with_election_store(elections);
    assert forall|g: CensusGroupView, e: ElectionView| facet(
        #[trigger] g.with_update_election(e),
    ) == facet(g) by {
        law_update_election_is_noted_in_the_group(g, e, id);
    }
    lemma_facet_update_election_store(facet, sg, b, update_elections);
    lemma_counters_within(b, elections, update_elections);
    let c = b.with_update_election_store(update_elections);
    let start = c.noting_change();
    assert(orderly(start));
    let d = c.with_member_list(members);
    assert(d == ring.updated(offset, services, elections, update_elections, members));
    law_each_listed_member_changes_one(start, members.members);
    let taken = start.with_listed_all(members.members);
    assert(d.groups == taken.groups && d.order == taken.order);
    assert forall|x: ServiceGroupView| #[trigger] has_member(start, x, id) == has_member(
        d,
        x,
        id,
    ) by {
        assert(start.groups.dom().contains(x) == taken.groups.dom().contains(x));
        if start.groups.contains_key(x) {
            assert(start.groups[x].population.dom().contains(id)
                == taken.groups[x].population.dom().contains(id));
        }
    }
    assert forall|l: int| 0 <= l < start.order.len() implies has_member(
        start,
        #[trigger] start.order[l],
        id,
    ) == start.groups[start.order[l]].population.contains_key(id) by {
        assert(start.order.contains(start.order[l]));
    }
    assert(start.home_at(id, k)) by {
        assert(has_member(start, start.order[k], id));
        assert forall|l: int| 0 <= l < k implies !start.groups[
            #[trigger] start.order[l]
        ].population.contains_key(id) by {
            assert(!has_member(d, d.order[l], id));
            assert(has_member(start, start.order[l], id) == has_member(d, start.order[l], id));
        }
    }
    let m = choose|m: int| start.home_at(id, m);
    assert(m == k) by {
        if m < k {
            assert(!start.groups[start.order[m]].population.contains_key(id));
        } else if k < m {
            assert(!start.groups[start.order[k]].population.contains_key(id));
        }
    }
    assert(start.home(id) == d.order[k]);
    lemma_seen_as(start, sg, id);
    assert(has_member(start, sg, id));
    assert(start.group_or_fresh(sg) == c.group_or_fresh(sg));
    if sg == d.order[k] {
        assert(d.groups[sg].population[id] == found_alike(
            start.groups[sg].population[id],
            members.members[i],
        ));
    } else {
        assert(taken.groups[sg].population[id] == start.groups[sg].population[id]);
    }
}

} // verus!
