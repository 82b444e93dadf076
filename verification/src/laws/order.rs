//! The order in which gossip is taken up does not matter, as long as nothing is heard twice.

use vstd::prelude::*;

use crate::assoc::{as_map, distinct, lemma_entry, lemma_place};
use crate::group::{joined, member_or_unknown};
use crate::laws::updates::orderly;
use crate::member::CensusMemberView;
use crate::population::Members;
use crate::ring::CensusRingView;
use crate::rumor::{
    election_id, ElectionView, Health, MemberView, RumorKeyView, ServiceGroupView,
    ServiceRumorView,
};

verus! {

/// The members after service rumors were taken up, said of each on its own: who spoke is
/// changed by its own rumor, everyone else stays.
pub open spec fn joined_at_once(
    members: Members,
    sg: ServiceGroupView,
    rumors: Map<Seq<char>, ServiceRumorView>,
) -> Members {
    Map::new(
        |id: Seq<char>| members.contains_key(id) || rumors.contains_key(id),
        |id: Seq<char>|
            if rumors.contains_key(id) {
                member_or_unknown(members, id).with_service_rumor(sg, rumors[id])
            } else {
                members[id]
            },
    )
}

/// Where no identifier occurs twice, each service rumor changes the member it stands under,
/// and nothing else.
pub proof fn law_each_rumor_changes_its_member(
    members: Members,
    sg: ServiceGroupView,
    rumors: Seq<(Seq<char>, ServiceRumorView)>,
)
    requires
        distinct(rumors),
    ensures
        joined(members, sg, rumors) == joined_at_once(members, sg, as_map(rumors)),
    decreases rumors.len(),
{
    let now = joined_at_once(members, sg, as_map(rumors));
    if rumors.len() == 0 {
        assert(now =~= members);
    } else {
        let rest = rumors.drop_last();
        let (id, rumor) = rumors.last();
        assert(distinct(rest));
        law_each_rumor_changes_its_member(members, sg, rest);
        let earlier = joined(members, sg, rest);
        assert(!as_map(rest).contains_key(id)) by {
            if as_map(rest).contains_key(id) {
                let i = lemma_place(rest, id);
                assert(rumors[i].0 != rumors[rumors.len() - 1].0);
            }
        }
        assert(as_map(rumors) =~= as_map(rest).insert(id, rumor)) by {
            crate::assoc::lemma_insert(rest, rest.len() as int, id, rumor);
            assert(rumors =~= rest.insert(rest.len() as int, (id, rumor)));
        }
        assert(joined(members, sg, rumors) =~= now);
    }
}

/// Two sequences hold the same.
pub open spec fn same_content<A>(a: Seq<A>, b: Seq<A>) -> bool {
    forall|x: A| #[trigger] a.contains(x) <==> b.contains(x)
}

/// Where no identifier occurs twice, the order of the service rumors does not matter.
pub proof fn law_order_of_rumors_is_irrelevant(
    members: Members,
    sg: ServiceGroupView,
    a: Seq<(Seq<char>, ServiceRumorView)>,
    b: Seq<(Seq<char>, ServiceRumorView)>,
)
    requires
        distinct(a),
        distinct(b),
        same_content(a, b),
    ensures
        joined(members, sg, a) == joined(members, sg, b),
{
    law_each_rumor_changes_its_member(members, sg, a);
    law_each_rumor_changes_its_member(members, sg, b);
    assert forall|id: Seq<char>| #[trigger] as_map(a).contains_key(id) <==> as_map(
        b,
    ).contains_key(id) by {
        if as_map(a).contains_key(id) {
            let i = lemma_place(a, id);
            assert(a.contains(a[i]));
            let j = choose|j: int| 0 <= j < b.len() && b[j] == a[i];
            lemma_entry(b, j);
        }
        if as_map(b).contains_key(id) {
            let i = lemma_place(b, id);
            assert(b.contains(b[i]));
            assert(a.contains(b[i]));
            let j = choose|j: int| 0 <= j < a.len() && a[j] == b[i];
            lemma_entry(a, j);
        }
    }
    assert forall|id: Seq<char>| #[trigger] as_map(a).contains_key(id) implies as_map(a)[id]
        == as_map(b)[id] by {
        let i = lemma_place(a, id);
        assert(a.contains(a[i]));
        let j = choose|j: int| 0 <= j < b.len() && b[j] == a[i];
        lemma_entry(b, j);
    }
    assert(as_map(a) =~= as_map(b));
}

/// No service group is named by two keys.
pub open spec fn distinct_groups<V>(keys: Seq<RumorKeyView<V>>) -> bool {
    forall|i: int, j: int|
        0 <= i < keys.len() && 0 <= j < keys.len() && i != j && (#[trigger] keys[i]).service_group
            is Some ==> keys[i].service_group != (#[trigger] keys[j]).service_group
}

/// The key at place `i` names the service group.
pub open spec fn names<V>(keys: Seq<RumorKeyView<V>>, sg: ServiceGroupView, i: int) -> bool {
    0 <= i < keys.len() && keys[i].service_group == Some(sg)
}

/// Where no service group is named twice, each key of the service rumors changes the group it
/// names, and nothing else.
pub proof fn law_each_service_key_changes_its_group(
    ring: CensusRingView,
    keys: Seq<RumorKeyView<ServiceRumorView>>,
)
    requires
        orderly(ring),
        distinct_groups(keys),
    ensures
        ({
            let after = ring.with_service_keys(keys);
            &&& forall|sg: ServiceGroupView, i: int| #[trigger]
                names(keys, sg, i) ==> {
                    &&& after.groups.contains_key(sg)
                    &&& after.groups[sg] == ring.group_or_fresh(sg).with_service_rumors(
                        keys[i].rumors,
                    )
                }
            &&& forall|sg: ServiceGroupView|
                (forall|i: int| !names(keys, sg, i)) ==> {
                    &&& #[trigger] after.groups.contains_key(sg) <==> ring.groups.contains_key(sg)
                    &&& after.groups[sg] == ring.groups[sg]
                }
        }),
    decreases keys.len(),
{
    if keys.len() > 0 {
        let rest = keys.drop_last();
        assert(distinct_groups(rest)) by {
            assert forall|i: int, j: int|
                0 <= i < rest.len() && 0 <= j < rest.len() && i != j && (
                #[trigger] rest[i]).service_group is Some implies rest[i].service_group != (
            #[trigger] rest[j]).service_group by {
                assert(keys[i].service_group != keys[j].service_group);
            }
        }
        law_each_service_key_changes_its_group(ring, rest);
        crate::ring::lemma_service_keys_frame(ring, rest);
        let earlier = ring.with_service_keys(rest);
        let after = ring.with_service_keys(keys);
        let last = keys.len() - 1;
        assert forall|sg: ServiceGroupView, i: int| #[trigger] names(keys, sg, i) implies
            after.groups.contains_key(sg) && after.groups[sg] == ring.group_or_fresh(
            sg,
        ).with_service_rumors(keys[i].rumors) by {
            if i == last {
                assert forall|j: int| !names(rest, sg, j) by {
                    if names(rest, sg, j) {
                        assert(keys[j].service_group != keys[last].service_group);
                    }
                }
                assert(earlier.group_or_fresh(sg) == ring.group_or_fresh(sg)) by {
                    assert(earlier.groups.contains_key(sg) <==> ring.groups.contains_key(sg));
                }
            } else {
                assert(names(rest, sg, i));
                assert(keys[i].service_group != keys[last].service_group);
                lemma_fresh_or_own(ring, rest, keys[last]);
            }
        }
        assert forall|sg: ServiceGroupView| (forall|i: int| !names(keys, sg, i)) implies (
        #[trigger] after.groups.contains_key(sg) <==> ring.groups.contains_key(sg))
            && after.groups[sg] == ring.groups[sg] by {
            assert(!names(keys, sg, last));
            assert forall|i: int| !names(rest, sg, i) by {
                assert(!names(keys, sg, i));
            }
            assert(earlier.groups.contains_key(sg) <==> ring.groups.contains_key(sg));
            lemma_fresh_or_own(ring, rest, keys[last]);
        }
    }
}

/// The group that a key works on is of the service group that the key names.
proof fn lemma_fresh_or_own(
    ring: CensusRingView,
    keys: Seq<RumorKeyView<ServiceRumorView>>,
    key: RumorKeyView<ServiceRumorView>,
)
    requires
        orderly(ring),
    ensures
        key.service_group matches Some(sg) ==> ring.with_service_keys(keys).group_or_fresh(
            sg,
        ).service_group == sg,
{
    crate::laws::updates::lemma_orderly_after_service_keys(ring, keys);
}

/// Where no service group is named twice, the order of the keys of the service rumors does
/// not matter to any group.
pub proof fn law_order_of_service_keys_is_irrelevant(
    ring: CensusRingView,
    a: Seq<RumorKeyView<ServiceRumorView>>,
    b: Seq<RumorKeyView<ServiceRumorView>>,
)
    requires
        orderly(ring),
        distinct_groups(a),
        distinct_groups(b),
        same_content(a, b),
    ensures
        ring.with_service_keys(a).groups == ring.with_service_keys(b).groups,
{
    law_each_service_key_changes_its_group(ring, a);
    law_each_service_key_changes_its_group(ring, b);
    let x = ring.with_service_keys(a);
    let y = ring.with_service_keys(b);
    assert forall|sg: ServiceGroupView| #![trigger x.groups.contains_key(sg)]
        (x.groups.contains_key(sg) <==> y.groups.contains_key(sg)) && x.groups[sg]
            == y.groups[sg] by {
        lemma_named_in_both(a, b, sg);
        if exists|i: int| names(a, sg, i) {
            let i = choose|i: int| names(a, sg, i);
            let j = choose|j: int| names(b, sg, j) && b[j] == a[i];
            assert(names(b, sg, j));
        } else {
            assert(y.groups.contains_key(sg) <==> ring.groups.contains_key(sg));
        }
    }
    assert(x.groups =~= y.groups);
}

proof fn lemma_named_in_both<V>(
    a: Seq<RumorKeyView<V>>,
    b: Seq<RumorKeyView<V>>,
    sg: ServiceGroupView,
)
    requires
        same_content(a, b),
    ensures
        forall|i: int| #[trigger] names(a, sg, i) ==> exists|j: int|
            #[trigger] names(b, sg, j) && b[j] == a[i],
        (exists|i: int| names(a, sg, i)) <==> (exists|j: int| names(b, sg, j)),
{
    assert forall|i: int| #[trigger] names(a, sg, i) implies exists|j: int|
        #[trigger] names(b, sg, j) && b[j] == a[i] by {
        assert(a.contains(a[i]));
        let j = choose|j: int| 0 <= j < b.len() && b[j] == a[i];
        assert(names(b, sg, j));
    }
    if exists|j: int| names(b, sg, j) {
        let j = choose|j: int| names(b, sg, j);
        assert(b.contains(b[j]));
        assert(a.contains(b[j]));
        let i = choose|i: int| 0 <= i < a.len() && a[i] == b[j];
        assert(names(a, sg, i));
    }
}

/// Where no service group is named twice, each key of the elections changes the group it
/// names, if that was heard of, and nothing else.
pub proof fn law_each_election_key_changes_its_group(
    ring: CensusRingView,
    keys: Seq<RumorKeyView<ElectionView>>,
)
    requires
        orderly(ring),
        distinct_groups(keys),
    ensures
        ({
            let after = ring.with_election_keys(keys);
            &&& after.groups.dom() == ring.groups.dom()
            &&& after.order == ring.order
            &&& forall|sg: ServiceGroupView, i: int|
                #[trigger] names(keys, sg, i) && ring.groups.contains_key(sg)
                    ==> after.groups[sg] == ring.groups[sg].with_election(
                    keys[i].rumor(election_id()),
                )
            &&& forall|sg: ServiceGroupView|
                (forall|i: int| !names(keys, sg, i)) ==> #[trigger] after.groups[sg]
                    == ring.groups[sg]
        }),
    decreases keys.len(),
{
    if keys.len() > 0 {
        let rest = keys.drop_last();
        assert(distinct_groups(rest)) by {
            assert forall|i: int, j: int|
                0 <= i < rest.len() && 0 <= j < rest.len() && i != j && (
                #[trigger] rest[i]).service_group is Some implies rest[i].service_group != (
            #[trigger] rest[j]).service_group by {
                assert(keys[i].service_group != keys[j].service_group);
            }
        }
        law_each_election_key_changes_its_group(ring, rest);
        let earlier = ring.with_election_keys(rest);
        crate::laws::updates::lemma_orderly_after_election_keys(ring, rest);
        let after = ring.with_election_keys(keys);
        let last = keys.len() - 1;
        assert(after.groups.dom() =~= ring.groups.dom());
        assert forall|sg: ServiceGroupView, i: int|
            #[trigger] names(keys, sg, i) && ring.groups.contains_key(sg) implies after.groups[sg]
            == ring.groups[sg].with_election(keys[i].rumor(election_id())) by {
            assert(earlier.groups.dom().contains(sg));
            if i == last {
                assert forall|j: int| !names(rest, sg, j) by {
                    if names(rest, sg, j) {
                        assert(keys[j].service_group != keys[last].service_group);
                    }
                }
                assert(earlier.groups[sg] == ring.groups[sg]);
            } else {
                assert(names(rest, sg, i));
                assert(keys[i].service_group != keys[last].service_group);
            }
        }
        assert forall|sg: ServiceGroupView| (forall|i: int| !names(keys, sg, i)) implies
            #[trigger] after.groups[sg] == ring.groups[sg] by {
            assert(!names(keys, sg, last));
            assert forall|i: int| !names(rest, sg, i) by {
                assert(!names(keys, sg, i));
            }
            assert(earlier.groups[sg] == ring.groups[sg]);
        }
    }
}

/// Where no service group is named twice, each key of the update elections changes the group
/// it names, if that was heard of, and nothing else.
pub proof fn law_each_update_election_key_changes_its_group(
    ring: CensusRingView,
    keys: Seq<RumorKeyView<ElectionView>>,
)
    requires
        orderly(ring),
        distinct_groups(keys),
    ensures
        ({
            let after = ring.with_update_election_keys(keys);
            &&& after.groups.dom() == ring.groups.dom()
            &&& after.order == ring.order
            &&& forall|sg: ServiceGroupView, i: int|
                #[trigger] names(keys, sg, i) && ring.groups.contains_key(sg)
                    ==> after.groups[sg] == ring.groups[sg].with_update_election(
                    keys[i].rumor(election_id()),
                )
            &&& forall|sg: ServiceGroupView|
                (forall|i: int| !names(keys, sg, i)) ==> #[trigger] after.groups[sg]
                    == ring.groups[sg]
        }),
    decreases keys.len(),
{
    if keys.len() > 0 {
        let rest = keys.drop_last();
        assert(distinct_groups(rest)) by {
            assert forall|i: int, j: int|
                0 <= i < rest.len() && 0 <= j < rest.len() && i != j && (
                #[trigger] rest[i]).service_group is Some implies rest[i].service_group != (
            #[trigger] rest[j]).service_group by {
                assert(keys[i].service_group != keys[j].service_group);
            }
        }
        law_each_update_election_key_changes_its_group(ring, rest);
        let earlier = ring.with_update_election_keys(rest);
        crate::laws::updates::lemma_orderly_after_election_keys(ring, rest);
        let after = ring.with_update_election_keys(keys);
        let last = keys.len() - 1;
        assert(after.groups.dom() =~= ring.groups.dom());
        assert forall|sg: ServiceGroupView, i: int|
            #[trigger] names(keys, sg, i) && ring.groups.contains_key(sg) implies after.groups[sg]
            == ring.groups[sg].with_update_election(keys[i].rumor(election_id())) by {
            assert(earlier.groups.dom().contains(sg));
            if i == last {
                assert forall|j: int| !names(rest, sg, j) by {
                    if names(rest, sg, j) {
                        assert(keys[j].service_group != keys[last].service_group);
                    }
                }
                assert(earlier.groups[sg] == ring.groups[sg]);
            } else {
                assert(names(rest, sg, i));
                assert(keys[i].service_group != keys[last].service_group);
            }
        }
        assert forall|sg: ServiceGroupView| (forall|i: int| !names(keys, sg, i)) implies
            #[trigger] after.groups[sg] == ring.groups[sg] by {
            assert(!names(keys, sg, last));
            assert forall|i: int| !names(rest, sg, i) by {
                assert(!names(keys, sg, i));
            }
            assert(earlier.groups[sg] == ring.groups[sg]);
        }
    }
}

/// Where no service group is named twice, the order of the keys of the elections of either
/// kind does not matter.
pub proof fn law_order_of_election_keys_is_irrelevant(
    ring: CensusRingView,
    a: Seq<RumorKeyView<ElectionView>>,
    b: Seq<RumorKeyView<ElectionView>>,
)
    requires
        orderly(ring),
        distinct_groups(a),
        distinct_groups(b),
        same_content(a, b),
    ensures
        ring.with_election_keys(a) == ring.with_election_keys(b),
        ring.with_update_election_keys(a) == ring.with_update_election_keys(b),
{
    law_each_election_key_changes_its_group(ring, a);
    law_each_election_key_changes_its_group(ring, b);
    law_each_update_election_key_changes_its_group(ring, a);
    law_each_update_election_key_changes_its_group(ring, b);
    crate::ring::lemma_election_keys_frame(ring, a);
    crate::ring::lemma_election_keys_frame(ring, b);
    crate::ring::lemma_update_election_keys_frame(ring, a);
    crate::ring::lemma_update_election_keys_frame(ring, b);
    let (x, y) = (ring.with_election_keys(a), ring.with_election_keys(b));
    let (u, v) = (ring.with_update_election_keys(a), ring.with_update_election_keys(b));
    assert forall|sg: ServiceGroupView| ring.groups.contains_key(sg) implies #[trigger] x.groups[sg]
        == y.groups[sg] && u.groups[sg] == v.groups[sg] by {
        lemma_named_in_both(a, b, sg);
        if exists|i: int| names(a, sg, i) {
            let i = choose|i: int| names(a, sg, i);
            let j = choose|j: int| names(b, sg, j) && b[j] == a[i];
            assert(names(b, sg, j));
        } else {
            assert(y.groups[sg] == ring.groups[sg]);
            assert(u.groups[sg] == ring.groups[sg]);
            assert(v.groups[sg] == ring.groups[sg]);
        }
    }
    assert(x.groups =~= y.groups);
    assert forall|sg: ServiceGroupView| ring.groups.contains_key(sg) implies #[trigger] u.groups[sg]
        == v.groups[sg] by {
        assert(x.groups[sg] == y.groups[sg]);
    }
    assert(u.groups =~= v.groups);
}

/// A member as the list knows it, after the list was taken up.
pub open spec fn found_alike(
    m: CensusMemberView,
    listed: (MemberView, Option<Health>),
) -> CensusMemberView {
    match listed.1 {
        Some(h) => m.with_member(listed.0).with_health(h),
        None => m.with_member(listed.0),
    }
}

/// No identifier is listed twice.
pub open spec fn distinct_ids(members: Seq<(MemberView, Option<Health>)>) -> bool {
    forall|i: int, j: int|
        0 <= i < members.len() && 0 <= j < members.len() && i != j ==> (
        #[trigger] members[i]).0.id != (#[trigger] members[j]).0.id
}

/// The member at place `i` of the list is the one with this identifier.
pub open spec fn lists(
    members: Seq<(MemberView, Option<Health>)>,
    id: Seq<char>,
    i: int,
) -> bool {
    0 <= i < members.len() && members[i].0.id == id
}

/// Two censuses have the same groups in the same order, with members of the same identifiers.
pub open spec fn same_shape(a: CensusRingView, b: CensusRingView) -> bool {
    &&& a.order == b.order
    &&& a.groups.dom() == b.groups.dom()
    &&& forall|sg: ServiceGroupView|
        a.groups.contains_key(sg) ==> (#[trigger] a.groups[sg]).population.dom()
            == b.groups[sg].population.dom()
}

/// Censuses of the same shape have each member in the same first group.
pub proof fn lemma_same_home(a: CensusRingView, b: CensusRingView, id: Seq<char>)
    requires
        orderly(a),
        same_shape(a, b),
    ensures
        a.has_home(id) == b.has_home(id),
        a.has_home(id) ==> a.home(id) == b.home(id),
{
    assert forall|i: int| #[trigger] a.home_at(id, i) <==> b.home_at(id, i) by {
        assert forall|j: int| 0 <= j < a.order.len() implies a.groups[
            #[trigger] a.order[j]
        ].population.contains_key(id) == b.groups[b.order[j]].population.contains_key(id) by {
            assert(a.order.contains(a.order[j]));
            assert(a.groups[a.order[j]].population.dom().contains(id)
                == b.groups[a.order[j]].population.dom().contains(id));
        }
    }
    if a.has_home(id) {
        let i = choose|i: int| a.home_at(id, i);
        assert(b.home_at(id, i));
        let j = choose|j: int| b.home_at(id, j);
        assert(a.home_at(id, j));
        assert(i == j);
    }
    if b.has_home(id) {
        let j = choose|j: int| b.home_at(id, j);
        assert(a.home_at(id, j));
    }
}

/// Where no identifier is listed twice, each listed member changes the member of that
/// identifier in the first group that has one, and nothing else: no other group, no other
/// member, and of the groups nothing but their members.
pub proof fn law_each_listed_member_changes_one(
    ring: CensusRingView,
    members: Seq<(MemberView, Option<Health>)>,
)
    requires
        orderly(ring),
        distinct_ids(members),
    ensures
        ({
            let after = ring.with_listed_all(members);
            &&& same_shape(ring, after)
            &&& orderly(after)
            &&& forall|sg: ServiceGroupView|
                ring.groups.contains_key(sg) ==> #[trigger] after.groups[sg] == (
                crate::group::CensusGroupView {
                    population: after.groups[sg].population,
                    ..ring.groups[sg]
                })
            &&& forall|id: Seq<char>, i: int|
                #[trigger] lists(members, id, i) && ring.has_home(id)
                    ==> after.groups[ring.home(id)].population[id] == found_alike(
                    ring.groups[ring.home(id)].population[id],
                    members[i],
                )
            &&& forall|sg: ServiceGroupView, id: Seq<char>|
                ring.groups.contains_key(sg) && ring.groups[sg].population.contains_key(id) && (
                !ring.has_home(id) || ring.home(id) != sg || forall|i: int| !lists(members, id, i))
                    ==> #[trigger] after.groups[sg].population[id]
                    == ring.groups[sg].population[id]
        }),
    decreases members.len(),
{
    if members.len() > 0 {
        let rest = members.drop_last();
        assert(distinct_ids(rest)) by {
            assert forall|i: int, j: int|
                0 <= i < rest.len() && 0 <= j < rest.len() && i != j implies (
            #[trigger] rest[i]).0.id != (#[trigger] rest[j]).0.id by {
                assert(members[i].0.id != members[j].0.id);
            }
        }
        law_each_listed_member_changes_one(ring, rest);
        let earlier = ring.with_listed_all(rest);
        let after = ring.with_listed_all(members);
        let last = members.len() - 1;
        let me = members[last].0.id;
        assert(after == earlier.with_listed(members[last]));
        lemma_same_home(ring, earlier, me);
        crate::laws::updates::lemma_orderly_after_listed(earlier, members[last]);
        if earlier.has_home(me) {
            let home = earlier.home(me);
            crate::laws::updates::lemma_home(earlier, me);
            assert(earlier.groups.dom().contains(home));
            assert(after.groups.dom() =~= ring.groups.dom());
            assert forall|sg: ServiceGroupView| ring.groups.contains_key(sg) implies (
            #[trigger] ring.groups[sg]).population.dom() == after.groups[sg].population.dom() by {
                assert(after.groups[sg].population.dom() =~= earlier.groups[sg].population.dom());
            }
            assert forall|sg: ServiceGroupView| ring.groups.contains_key(
                sg,
            ) implies #[trigger] after.groups[sg] == (crate::group::CensusGroupView {
                population: after.groups[sg].population,
                ..ring.groups[sg]
            }) by {
                assert(earlier.groups[sg] == (crate::group::CensusGroupView {
                    population: earlier.groups[sg].population,
                    ..ring.groups[sg]
                }));
            }
        }
        assert forall|id: Seq<char>, i: int|
            #[trigger] lists(members, id, i) && ring.has_home(
                id,
            ) implies after.groups[ring.home(id)].population[id] == found_alike(
            ring.groups[ring.home(id)].population[id],
            members[i],
        ) by {
            crate::laws::updates::lemma_home(ring, id);
            if i == last {
                assert forall|j: int| !lists(rest, id, j) by {
                    if lists(rest, id, j) {
                        assert(members[j].0.id != members[last].0.id);
                    }
                }
                assert(earlier.groups[ring.home(id)].population[id]
                    == ring.groups[ring.home(id)].population[id]);
            } else {
                assert(lists(rest, id, i));
                assert(members[i].0.id != members[last].0.id);
            }
        }
        assert forall|sg: ServiceGroupView, id: Seq<char>|
            ring.groups.contains_key(sg) && ring.groups[sg].population.contains_key(id) && (
            !ring.has_home(id) || ring.home(id) != sg || forall|i: int|
                !lists(members, id, i)) implies #[trigger] after.groups[sg].population[id]
            == ring.groups[sg].population[id] by {
            if forall|i: int| !lists(members, id, i) {
                assert(!lists(members, id, last));
                assert forall|i: int| !lists(rest, id, i) by {
                    assert(!lists(members, id, i));
                }
            }
            assert(earlier.groups[sg].population[id] == ring.groups[sg].population[id]);
        }
    }
}

/// Where no identifier is listed twice, the order of the list does not matter.
pub proof fn law_order_of_the_list_is_irrelevant(
    ring: CensusRingView,
    a: Seq<(MemberView, Option<Health>)>,
    b: Seq<(MemberView, Option<Health>)>,
)
    requires
        orderly(ring),
        distinct_ids(a),
        distinct_ids(b),
        same_content(a, b),
    ensures
        ring.with_listed_all(a) == ring.with_listed_all(b),
{
    law_each_listed_member_changes_one(ring, a);
    law_each_listed_member_changes_one(ring, b);
    crate::ring::lemma_listed_frame(ring, a);
    crate::ring::lemma_listed_frame(ring, b);
    let x = ring.with_listed_all(a);
    let y = ring.with_listed_all(b);
    assert forall|sg: ServiceGroupView| #[trigger] x.groups.contains_key(sg) implies x.groups[sg]
        == y.groups[sg] by {
        assert(ring.groups.dom().contains(sg));
        let before = ring.groups[sg].population;
        assert forall|id: Seq<char>| #[trigger] before.contains_key(
            id,
        ) implies x.groups[sg].population[id] == y.groups[sg].population[id] by {
            if ring.has_home(id) && ring.home(id) == sg && exists|i: int| lists(a, id, i) {
                let i = choose|i: int| lists(a, id, i);
                assert(a.contains(a[i]));
                let j = choose|j: int| 0 <= j < b.len() && b[j] == a[i];
                assert(lists(b, id, j));
            } else if ring.has_home(id) && ring.home(id) == sg {
                assert forall|j: int| !lists(b, id, j) by {
                    if lists(b, id, j) {
                        assert(b.contains(b[j]));
                        assert(a.contains(b[j]));
                        let i = choose|i: int| 0 <= i < a.len() && a[i] == b[j];
                        assert(lists(a, id, i));
                    }
                }
                assert(x.groups[sg].population[id] == before[id]);
                assert(y.groups[sg].population[id] == before[id]);
            } else {
                assert(x.groups[sg].population[id] == before[id]);
                assert(y.groups[sg].population[id] == before[id]);
            }
        }
        assert(ring.groups[sg].population.dom() == x.groups[sg].population.dom());
        assert(ring.groups[sg].population.dom() == y.groups[sg].population.dom());
        assert(x.groups[sg].population =~= y.groups[sg].population);
    }
    assert(x.groups =~= y.groups);
}

} // verus!
