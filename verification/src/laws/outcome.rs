//! What an update as a whole comes to: what members say of themselves is in the census, and
//! who was elected leads.

use vstd::prelude::*;

use crate::assoc::{as_map, distinct, lemma_entry};
use crate::config::{config_of, toml_table};
use crate::group::{joined, status_of};
use crate::laws::elections::{
    elected, keyed, law_election_makes_the_leader, law_update_election_makes_the_update_leader,
};
use crate::laws::order::{
    distinct_groups, distinct_ids, law_each_election_key_changes_its_group,
    law_each_listed_member_changes_one, law_each_rumor_changes_its_member,
    law_each_service_key_changes_its_group, law_each_update_election_key_changes_its_group,
    lemma_same_home, lists, names, same_shape,
};
use crate::laws::updates::{
    everyone, keyed_rumors, kept_by_elections, kept_by_listing, kept_by_update_elections,
    law_members_stand_under_their_ids, law_update_keeps_orderly,
    lemma_home, lemma_kept_by_election_store, lemma_kept_by_member_list,
    lemma_kept_by_update_election_store, lemma_orderly_after_service_keys, lemma_orderly_steps,
    orderly,
};
use crate::member::CensusMemberView;
use crate::population::Members;
use crate::ring::{
    lemma_election_keys_frame, lemma_service_keys_frame, lemma_update_election_keys_frame,
    CensusRingView,
};
use crate::rumor::{
    election_id, ElectionView, Health, MemberListView, MemberView, PackageIdentView, RumorKeyView,
    RumorStoreView, ServiceGroupView, ServiceRumorView, SysInfoView,
};

verus! {

/// What a member says of itself: its name, its service group, its package, its configuration
/// and its system, but for the gossip address, which the list of members knows better.
pub struct Identity {
    pub member_id: Seq<char>,
    pub service: Seq<char>,
    pub group: Seq<char>,
    pub org: Option<Seq<char>>,
    pub pkg: Option<PackageIdentView>,
    pub cfg: Map<String, toml::value::Value>,
    pub ip: Seq<char>,
    pub hostname: Seq<char>,
    pub http_gateway_ip: Seq<char>,
    pub http_gateway_port: Seq<char>,
}

/// What a member says of itself.
pub open spec fn identity(m: CensusMemberView) -> Identity {
    Identity {
        member_id: m.member_id,
        service: m.service,
        group: m.group,
        org: m.org,
        pkg: m.pkg,
        cfg: m.cfg,
        ip: m.sys.ip,
        hostname: m.sys.hostname,
        http_gateway_ip: m.sys.http_gateway_ip,
        http_gateway_port: m.sys.http_gateway_port,
    }
}

/// The members of `r` say of themselves what those of `base` do.
spec fn same_identities(base: CensusRingView, r: CensusRingView) -> bool {
    &&& orderly(r)
    &&& same_shape(base, r)
    &&& forall|sg: ServiceGroupView, id: Seq<char>|
        base.groups.contains_key(sg) && base.groups[sg].population.contains_key(id) ==> identity(
            #[trigger] r.groups[sg].population[id],
        ) == identity(base.groups[sg].population[id])
}

/// The leaders of the groups of `r` are those of `base`.
spec fn same_leaders(base: CensusRingView, r: CensusRingView) -> bool {
    &&& orderly(r)
    &&& same_shape(base, r)
    &&& forall|sg: ServiceGroupView|
        base.groups.contains_key(sg) ==> {
            &&& (#[trigger] r.groups[sg]).leader_id == base.groups[sg].leader_id
            &&& r.groups[sg].election_status == base.groups[sg].election_status
        }
    &&& forall|sg: ServiceGroupView, id: Seq<char>|
        base.groups.contains_key(sg) && base.groups[sg].population.contains_key(id) ==> (
        #[trigger] r.groups[sg].population[id]).leader == base.groups[sg].population[id].leader
}

/// The update leaders of the groups of `r` are those of `base`.
spec fn same_update_leaders(base: CensusRingView, r: CensusRingView) -> bool {
    &&& orderly(r)
    &&& same_shape(base, r)
    &&& forall|sg: ServiceGroupView|
        base.groups.contains_key(sg) ==> (#[trigger] r.groups[sg]).update_leader_id
            == base.groups[sg].update_leader_id
    &&& forall|sg: ServiceGroupView, id: Seq<char>|
        base.groups.contains_key(sg) && base.groups[sg].population.contains_key(id) ==> (
        #[trigger] r.groups[sg].population[id]).update_leader
            == base.groups[sg].population[id].update_leader
}

/// To take up an election of either kind, or a listed member, adds nobody.
proof fn lemma_same_shape_steps(
    base: CensusRingView,
    r: CensusRingView,
    key: RumorKeyView<ElectionView>,
    listed: (MemberView, Option<Health>),
)
    requires
        orderly(r),
        same_shape(base, r),
    ensures
        orderly(r.with_election_key(key)),
        orderly(r.with_update_election_key(key)),
        orderly(r.with_listed(listed)),
        same_shape(base, r.with_election_key(key)),
        same_shape(base, r.with_update_election_key(key)),
        same_shape(base, r.with_listed(listed)),
{
    let o = |x: CensusRingView| orderly(x);
    lemma_orderly_steps(Seq::empty());
    assert(o(r.with_election_key(key)));
    assert(o(r.with_update_election_key(key)));
    assert(o(r.with_listed(listed)));
    if r.has_home(listed.0.id) {
        lemma_home(r, listed.0.id);
    }
    let (a, b, c) = (
        r.with_election_key(key),
        r.with_update_election_key(key),
        r.with_listed(listed),
    );
    assert(a.groups.dom() =~= r.groups.dom());
    assert(b.groups.dom() =~= r.groups.dom());
    assert(c.groups.dom() =~= r.groups.dom());
    assert forall|sg: ServiceGroupView| base.groups.contains_key(sg) implies (
    #[trigger] base.groups[sg]).population.dom() == a.groups[sg].population.dom()
        && base.groups[sg].population.dom() == b.groups[sg].population.dom()
        && base.groups[sg].population.dom() == c.groups[sg].population.dom() by {
        assert(r.groups.dom().contains(sg));
        assert(a.groups[sg].population.dom() =~= r.groups[sg].population.dom());
        assert(b.groups[sg].population.dom() =~= r.groups[sg].population.dom());
        assert(c.groups[sg].population.dom() =~= r.groups[sg].population.dom());
    }
}

proof fn lemma_identities_kept(base: CensusRingView)
    ensures
        kept_by_elections(|r: CensusRingView| same_identities(base, r)),
        kept_by_update_elections(|r: CensusRingView| same_identities(base, r)),
        kept_by_listing(|r: CensusRingView| same_identities(base, r)),
{
    let p = |r: CensusRingView| same_identities(base, r);
    let nobody = (arbitrary::<MemberView>(), None::<Health>);
    let no_key = arbitrary::<RumorKeyView<ElectionView>>();
    assert forall|r: CensusRingView, key: RumorKeyView<ElectionView>| p(r) implies p(
        #[trigger] r.with_election_key(key),
    ) by {
        lemma_same_shape_steps(base, r, key, nobody);
        lemma_contained(base, r);
    }
    assert forall|r: CensusRingView, key: RumorKeyView<ElectionView>| p(r) implies p(
        #[trigger] r.with_update_election_key(key),
    ) by {
        lemma_same_shape_steps(base, r, key, nobody);
        lemma_contained(base, r);
    }
    assert forall|r: CensusRingView, listed: (MemberView, Option<Health>)| p(r) implies p(
        #[trigger] r.with_listed(listed),
    ) by {
        lemma_same_shape_steps(base, r, no_key, listed);
        lemma_contained(base, r);
        if r.has_home(listed.0.id) {
            lemma_home(r, listed.0.id);
        }
    }
}

proof fn lemma_contained(base: CensusRingView, r: CensusRingView)
    requires
        same_shape(base, r),
    ensures
        forall|sg: ServiceGroupView| #[trigger]
            base.groups.contains_key(sg) == r.groups.contains_key(sg),
        forall|sg: ServiceGroupView, id: Seq<char>|
            base.groups.contains_key(sg) ==> #[trigger] r.groups[sg].population.contains_key(id)
                == base.groups[sg].population.contains_key(id),
{
    assert forall|sg: ServiceGroupView| #[trigger]
        base.groups.contains_key(sg) == r.groups.contains_key(sg) by {
        assert(base.groups.dom().contains(sg) == r.groups.dom().contains(sg));
    }
    assert forall|sg: ServiceGroupView, id: Seq<char>| base.groups.contains_key(
        sg,
    ) implies #[trigger] r.groups[sg].population.contains_key(id)
        == base.groups[sg].population.contains_key(id) by {
        assert(base.groups[sg].population.dom().contains(id)
            == r.groups[sg].population.dom().contains(id));
    }
}

proof fn lemma_leaders_kept(base: CensusRingView)
    ensures
        kept_by_update_elections(|r: CensusRingView| same_leaders(base, r)),
        kept_by_listing(|r: CensusRingView| same_leaders(base, r)),
        kept_by_listing(|r: CensusRingView| same_update_leaders(base, r)),
{
    let p = |r: CensusRingView| same_leaders(base, r);
    let q = |r: CensusRingView| same_update_leaders(base, r);
    let nobody = (arbitrary::<MemberView>(), None::<Health>);
    let no_key = arbitrary::<RumorKeyView<ElectionView>>();
    assert forall|r: CensusRingView, key: RumorKeyView<ElectionView>| p(r) implies p(
        #[trigger] r.with_update_election_key(key),
    ) by {
        lemma_same_shape_steps(base, r, key, nobody);
        lemma_contained(base, r);
    }
    assert forall|r: CensusRingView, listed: (MemberView, Option<Health>)| p(r) implies p(
        #[trigger] r.with_listed(listed),
    ) by {
        lemma_same_shape_steps(base, r, no_key, listed);
        lemma_contained(base, r);
        if r.has_home(listed.0.id) {
            lemma_home(r, listed.0.id);
        }
    }
    assert forall|r: CensusRingView, listed: (MemberView, Option<Health>)| q(r) implies q(
        #[trigger] r.with_listed(listed),
    ) by {
        lemma_same_shape_steps(base, r, no_key, listed);
        lemma_contained(base, r);
        if r.has_home(listed.0.id) {
            lemma_home(r, listed.0.id);
        }
    }
}

/// A store of elections of which nothing is new.
spec fn silence() -> RumorStoreView<ElectionView> {
    RumorStoreView { update_counter: 0, keys: Seq::empty() }
}

/// A list of members of which nothing is new.
spec fn nobody_listed() -> MemberListView {
    MemberListView { update_counter: 0, members: Seq::empty() }
}

/// The census within an update, after the service rumors.
spec fn after_services(
    ring: CensusRingView,
    offset: nat,
    services: RumorStoreView<ServiceRumorView>,
) -> CensusRingView {
    CensusRingView { changed: false, ..ring }.with_service_store(offset, services)
}

proof fn lemma_after_services(
    ring: CensusRingView,
    offset: nat,
    services: RumorStoreView<ServiceRumorView>,
)
    ensures
        after_services(ring, offset, services) == ring.updated(
            offset,
            services,
            silence(),
            silence(),
            nobody_listed(),
        ),
        after_services(ring, offset, services).last_election_counter
            == ring.last_election_counter,
        after_services(ring, offset, services).last_election_update_counter
            == ring.last_election_update_counter,
{
    let quiet = CensusRingView { changed: false, ..ring };
    let seen = CensusRingView {
        last_service_counter: quiet.last_service_counter + offset,
        ..quiet
    };
    lemma_service_keys_frame(seen.noting_change(), services.keys);
}

/// The key at place `i` names the service group, and its rumor at place `j` stands under the
/// identifier.
pub open spec fn speaks(
    keys: Seq<RumorKeyView<ServiceRumorView>>,
    sg: ServiceGroupView,
    id: Seq<char>,
    i: int,
    j: int,
) -> bool {
    names(keys, sg, i) && 0 <= j < keys[i].rumors.len() && keys[i].rumors[j].0 == id
}

/// Whether the census has the group, and the group a member with this identifier.
pub open spec fn has_member(ring: CensusRingView, sg: ServiceGroupView, id: Seq<char>) -> bool {
    ring.groups.contains_key(sg) && ring.groups[sg].population.contains_key(id)
}

proof fn lemma_joined_dom(
    members: Members,
    sg: ServiceGroupView,
    rumors: Seq<(Seq<char>, ServiceRumorView)>,
    id: Seq<char>,
)
    ensures
        joined(members, sg, rumors).contains_key(id) <==> (members.contains_key(id) || exists|j: int|
            0 <= j < rumors.len() && (#[trigger] rumors[j]).0 == id),
    decreases rumors.len(),
{
    if rumors.len() > 0 {
        let rest = rumors.drop_last();
        lemma_joined_dom(members, sg, rest, id);
        if exists|j: int| 0 <= j < rest.len() && (#[trigger] rest[j]).0 == id {
            let j = choose|j: int| 0 <= j < rest.len() && (#[trigger] rest[j]).0 == id;
            assert(rumors[j].0 == id);
        }
        if exists|j: int| 0 <= j < rumors.len() && (#[trigger] rumors[j]).0 == id {
            let j = choose|j: int| 0 <= j < rumors.len() && (#[trigger] rumors[j]).0 == id;
            if j < rest.len() {
                assert(rest[j].0 == id);
            }
        }
        assert(rumors[rumors.len() - 1] == rumors.last());
    }
}

proof fn lemma_named_by_service_keys(
    ring: CensusRingView,
    keys: Seq<RumorKeyView<ServiceRumorView>>,
    sg: ServiceGroupView,
    id: Seq<char>,
)
    requires
        orderly(ring),
    ensures
        ({
            let after = ring.with_service_keys(keys);
            &&& after.groups.contains_key(sg) <==> (ring.groups.contains_key(sg) || exists|i: int|
                names(keys, sg, i))
            &&& has_member(after, sg, id) <==> (has_member(ring, sg, id) || exists|i: int, j: int|
                speaks(keys, sg, id, i, j))
        }),
    decreases keys.len(),
{
    if keys.len() > 0 {
        let rest = keys.drop_last();
        let last = keys.len() - 1;
        let key = keys[last];
        lemma_named_by_service_keys(ring, rest, sg, id);
        lemma_orderly_after_service_keys(ring, rest);
        let earlier = ring.with_service_keys(rest);
        if let Some(named) = key.service_group {
            let old_group = earlier.group_or_fresh(named);
            assert(old_group.service_group == named);
            lemma_joined_dom(old_group.population, named, key.rumors, id);
        }
        if exists|i: int| names(rest, sg, i) {
            let i = choose|i: int| names(rest, sg, i);
            assert(names(keys, sg, i));
        }
        if exists|i: int| names(keys, sg, i) {
            let i = choose|i: int| names(keys, sg, i);
            if i < last {
                assert(names(rest, sg, i));
            }
        }
        if exists|i: int, j: int| speaks(rest, sg, id, i, j) {
            let (i, j) = choose|i: int, j: int| speaks(rest, sg, id, i, j);
            assert(speaks(keys, sg, id, i, j));
        }
        if exists|i: int, j: int| speaks(keys, sg, id, i, j) {
            let (i, j) = choose|i: int, j: int| speaks(keys, sg, id, i, j);
            if i < last {
                assert(speaks(rest, sg, id, i, j));
            }
        }
        if key.service_group == Some(sg) {
            assert(names(keys, sg, last));
            assert forall|j: int| 0 <= j < key.rumors.len() && (
            #[trigger] key.rumors[j]).0 == id implies speaks(keys, sg, id, last, j) by {}
        }
    }
}

/// What is new was named: after an update the census has the groups it had, and those that a
/// key of the service rumors names where these are ahead; and each of them has the members it
/// had, and those under whose identifiers such a key has a rumor. Elections and the list of
/// members add nobody, and nobody is dropped.
pub proof fn law_what_is_new_was_named(
    ring: CensusRingView,
    offset: nat,
    services: RumorStoreView<ServiceRumorView>,
    elections: RumorStoreView<ElectionView>,
    update_elections: RumorStoreView<ElectionView>,
    members: MemberListView,
    sg: ServiceGroupView,
    id: Seq<char>,
)
    requires
        orderly(ring),
    ensures
        ({
            let after = ring.updated(offset, services, elections, update_elections, members);
            let ahead = services.update_counter > ring.last_service_counter + offset;
            &&& after.groups.contains_key(sg) <==> (ring.groups.contains_key(sg) || ahead
                && exists|i: int| names(services.keys, sg, i))
            &&& has_member(after, sg, id) <==> (has_member(ring, sg, id) || ahead
                && exists|i: int, j: int| speaks(services.keys, sg, id, i, j))
        }),
{
    let quiet = CensusRingView { changed: false, ..ring };
    let seen = CensusRingView {
        last_service_counter: quiet.last_service_counter + offset,
        ..quiet
    };
    lemma_named_by_service_keys(seen.noting_change(), services.keys, sg, id);
    let base = after_services(ring, offset, services);
    lemma_after_services(ring, offset, services);
    law_update_keeps_orderly(ring, offset, services, silence(), silence(), nobody_listed());
    let p = |r: CensusRingView| same_identities(base, r);
    assert(p(base));
    lemma_identities_kept(base);
    let a = base.with_election_store(elections);
    lemma_kept_by_election_store(p, base, elections);
    let b = a.with_update_election_store(update_elections);
    lemma_kept_by_update_election_store(p, a, update_elections);
    let c = b.with_member_list(members);
    lemma_kept_by_member_list(p, b, members);
    assert(c == ring.updated(offset, services, elections, update_elections, members));
    assert(p(c));
    lemma_contained(base, c);
    assert(base.groups.contains_key(sg) == c.groups.contains_key(sg));
    assert(has_member(base, sg, id) == has_member(c, sg, id));
}

/// What a member says of itself in a service rumor is in the census once the rumor was taken
/// up, whatever else the update brings: the member is in the group that the key names, under
/// the identifier of the rumor, with its name, its service group, its configuration, its
/// system but for the gossip address, and its organization and package where the rumor has
/// them.
pub proof fn law_what_members_say_is_in_the_census(
    ring: CensusRingView,
    offset: nat,
    services: RumorStoreView<ServiceRumorView>,
    elections: RumorStoreView<ElectionView>,
    update_elections: RumorStoreView<ElectionView>,
    members: MemberListView,
    sg: ServiceGroupView,
    i: int,
    j: int,
)
    requires
        orderly(ring),
        services.update_counter > ring.last_service_counter + offset,
        distinct_groups(services.keys),
        names(services.keys, sg, i),
        distinct(services.keys[i].rumors),
        0 <= j < services.keys[i].rumors.len(),
    ensures
        ({
            let after = ring.updated(offset, services, elections, update_elections, members);
            let (id, rumor) = services.keys[i].rumors[j];
            let m = after.groups[sg].population[id];
            let sys = match rumor.sys {
                Some(said) => said,
                None => SysInfoView::unknown(),
            };
            &&& after.groups.contains_key(sg)
            &&& after.groups[sg].population.contains_key(id)
            &&& m.member_id == rumor.member_id
            &&& m.service == sg.service
            &&& m.group == sg.group
            &&& m.cfg == config_of(toml_table(rumor.cfg))
            &&& m.sys.ip == sys.ip
            &&& m.sys.hostname == sys.hostname
            &&& m.sys.http_gateway_ip == sys.http_gateway_ip
            &&& m.sys.http_gateway_port == sys.http_gateway_port
            &&& sg.org is Some ==> m.org == sg.org
            &&& rumor.pkg is Some ==> m.pkg == rumor.pkg
        }),
{
    let quiet = CensusRingView { changed: false, ..ring };
    let seen = CensusRingView {
        last_service_counter: quiet.last_service_counter + offset,
        ..quiet
    };
    let start = seen.noting_change();
    let base = after_services(ring, offset, services);
    let key = services.keys[i];
    let (id, rumor) = key.rumors[j];
    law_each_service_key_changes_its_group(start, services.keys);
    let old_group = start.group_or_fresh(sg);
    assert(old_group.service_group == sg);
    assert(base.groups[sg] == old_group.with_service_rumors(key.rumors));
    law_each_rumor_changes_its_member(old_group.population, sg, key.rumors);
    lemma_entry(key.rumors, j);
    assert(as_map(key.rumors)[id] == rumor);
    assert(base.groups[sg].population.contains_key(id));
    lemma_after_services(ring, offset, services);
    law_update_keeps_orderly(ring, offset, services, silence(), silence(), nobody_listed());
    let p = |r: CensusRingView| same_identities(base, r);
    assert(p(base));
    lemma_identities_kept(base);
    let a = base.with_election_store(elections);
    lemma_kept_by_election_store(p, base, elections);
    let b = a.with_update_election_store(update_elections);
    lemma_kept_by_update_election_store(p, a, update_elections);
    let c = b.with_member_list(members);
    lemma_kept_by_member_list(p, b, members);
    assert(c == ring.updated(offset, services, elections, update_elections, members));
    assert(p(c));
    lemma_contained(base, c);
    assert(identity(c.groups[sg].population[id]) == identity(base.groups[sg].population[id]));
}

/// Who was elected leads: after an update that takes up the election of a group, the leader
/// of the group is the member that the election names, if it is finished and the group has
/// that member, and there is none otherwise; that member and no other is marked as the leader.
pub proof fn law_who_was_elected_leads(
    ring: CensusRingView,
    offset: nat,
    services: RumorStoreView<ServiceRumorView>,
    elections: RumorStoreView<ElectionView>,
    update_elections: RumorStoreView<ElectionView>,
    members: MemberListView,
    sg: ServiceGroupView,
    i: int,
)
    requires
        orderly(ring),
        everyone(ring, |id: Seq<char>, m: CensusMemberView| m.member_id == id),
        keyed_rumors(services),
        elections.update_counter > ring.last_election_counter,
        distinct_groups(elections.keys),
        names(elections.keys, sg, i),
        ring.updated(
            offset,
            services,
            elections,
            update_elections,
            members,
        ).groups.contains_key(sg),
    ensures
        ({
            let after = ring.updated(offset, services, elections, update_elections, members);
            let group = after.groups[sg];
            let election = elections.keys[i].rumor(election_id());
            &&& group.known(group.leader_id) == elected(group, election)
            &&& group.election_status == status_of(election.status)
            &&& forall|id: Seq<char>| #[trigger]
                group.population.contains_key(id) ==> group.population[id].leader == Some(
                    elected(group, election) == Some(id),
                )
        }),
{
    let served = after_services(ring, offset, services);
    lemma_after_services(ring, offset, services);
    law_update_keeps_orderly(ring, offset, services, silence(), silence(), nobody_listed());
    law_members_stand_under_their_ids(
        ring,
        offset,
        services,
        silence(),
        silence(),
        nobody_listed(),
    );
    let start = served.noting_change();
    let base = served.with_election_store(elections);
    let election = elections.keys[i].rumor(election_id());
    law_each_election_key_changes_its_group(start, elections.keys);
    let o = |x: CensusRingView| orderly(x);
    lemma_orderly_steps(Seq::empty());
    lemma_kept_by_election_store(o, served, elections);
    assert(o(base));
    let p = |r: CensusRingView| same_leaders(base, r);
    assert(p(base));
    lemma_leaders_kept(base);
    let b = base.with_update_election_store(update_elections);
    lemma_kept_by_update_election_store(p, base, update_elections);
    let c = b.with_member_list(members);
    lemma_kept_by_member_list(p, b, members);
    assert(c == ring.updated(offset, services, elections, update_elections, members));
    assert(p(c));
    lemma_contained(base, c);
    assert(base.groups.contains_key(sg));
    assert(start.groups.dom().contains(sg));
    let old_group = start.groups[sg];
    assert(base.groups[sg] == old_group.with_election(election));
    assert(keyed(old_group)) by {
        assert forall|id: Seq<char>| #[trigger]
            old_group.population.contains_key(id) implies old_group.population[id].member_id
            == id by {
            assert(served.groups[sg].population.contains_key(id));
        }
    }
    law_election_makes_the_leader(old_group, election);
    let group = c.groups[sg];
    assert forall|id: Seq<char>| #[trigger]
        group.population.contains_key(id) == old_group.population.contains_key(id) by {
        assert(base.groups[sg].population.dom().contains(id)
            == old_group.population.dom().contains(id));
        assert(c.groups[sg].population.contains_key(id)
            == base.groups[sg].population.contains_key(id));
    }
    assert(elected(group, election) == elected(old_group, election)) by {
        assert(group.population.contains_key(election.member_id)
            == old_group.population.contains_key(election.member_id));
    }
    assert(group.leader_id == base.groups[sg].leader_id);
    assert(group.known(group.leader_id) == base.groups[sg].known(base.groups[sg].leader_id)) by {
        if let Some(id) = group.leader_id {
            assert(c.groups[sg].population.contains_key(id)
                == base.groups[sg].population.contains_key(id));
        }
    }
    assert forall|id: Seq<char>| #[trigger]
        group.population.contains_key(id) implies group.population[id].leader == Some(
        elected(group, election) == Some(id),
    ) by {
        assert(base.groups[sg].population.contains_key(id));
        assert(c.groups[sg].population[id].leader == base.groups[sg].population[id].leader);
    }
}

/// Who was elected to lead the update does so: what `law_who_was_elected_leads` says of
/// leaders holds of update leaders too.
pub proof fn law_who_was_elected_leads_the_update(
    ring: CensusRingView,
    offset: nat,
    services: RumorStoreView<ServiceRumorView>,
    elections: RumorStoreView<ElectionView>,
    update_elections: RumorStoreView<ElectionView>,
    members: MemberListView,
    sg: ServiceGroupView,
    i: int,
)
    requires
        orderly(ring),
        everyone(ring, |id: Seq<char>, m: CensusMemberView| m.member_id == id),
        keyed_rumors(services),
        update_elections.update_counter > ring.last_election_update_counter,
        distinct_groups(update_elections.keys),
        names(update_elections.keys, sg, i),
        ring.updated(
            offset,
            services,
            elections,
            update_elections,
            members,
        ).groups.contains_key(sg),
    ensures
        ({
            let after = ring.updated(offset, services, elections, update_elections, members);
            let group = after.groups[sg];
            let election = update_elections.keys[i].rumor(election_id());
            &&& group.known(group.update_leader_id) == elected(group, election)
            &&& forall|id: Seq<char>| #[trigger]
                group.population.contains_key(id) ==> group.population[id].update_leader == Some(
                    elected(group, election) == Some(id),
                )
        }),
{
    let served = after_services(ring, offset, services);
    lemma_after_services(ring, offset, services);
    lemma_election_keys_frame(served.noting_change(), elections.keys);
    let voted = served.with_election_store(elections);
    assert(voted == ring.updated(offset, services, elections, silence(), nobody_listed()));
    law_update_keeps_orderly(ring, offset, services, elections, silence(), nobody_listed());
    law_members_stand_under_their_ids(
        ring,
        offset,
        services,
        elections,
        silence(),
        nobody_listed(),
    );
    let start = voted.noting_change();
    let base = voted.with_update_election_store(update_elections);
    let election = update_elections.keys[i].rumor(election_id());
    law_each_update_election_key_changes_its_group(start, update_elections.keys);
    let o = |x: CensusRingView| orderly(x);
    lemma_orderly_steps(Seq::empty());
    lemma_kept_by_update_election_store(o, voted, update_elections);
    assert(o(base));
    let p = |r: CensusRingView| same_update_leaders(base, r);
    assert(p(base));
    lemma_leaders_kept(base);
    let c = base.with_member_list(members);
    lemma_kept_by_member_list(p, base, members);
    assert(c == ring.updated(offset, services, elections, update_elections, members));
    assert(p(c));
    lemma_contained(base, c);
    assert(base.groups.contains_key(sg));
    assert(start.groups.dom().contains(sg));
    let old_group = start.groups[sg];
    assert(base.groups[sg] == old_group.with_update_election(election));
    assert(keyed(old_group)) by {
        assert forall|id: Seq<char>| #[trigger]
            old_group.population.contains_key(id) implies old_group.population[id].member_id
            == id by {
            assert(voted.groups[sg].population.contains_key(id));
        }
    }
    law_update_election_makes_the_update_leader(old_group, election);
    let group = c.groups[sg];
    assert forall|id: Seq<char>| #[trigger]
        group.population.contains_key(id) == old_group.population.contains_key(id) by {
        assert(base.groups[sg].population.dom().contains(id)
            == old_group.population.dom().contains(id));
        assert(c.groups[sg].population.contains_key(id)
            == base.groups[sg].population.contains_key(id));
    }
    assert(elected(group, election) == elected(old_group, election)) by {
        assert(group.population.contains_key(election.member_id)
            == old_group.population.contains_key(election.member_id));
    }
    assert(group.known(group.update_leader_id) == base.groups[sg].known(
        base.groups[sg].update_leader_id,
    )) by {
        if let Some(id) = group.update_leader_id {
            assert(c.groups[sg].population.contains_key(id)
                == base.groups[sg].population.contains_key(id));
        }
    }
    assert forall|id: Seq<char>| #[trigger]
        group.population.contains_key(id) implies group.population[id].update_leader == Some(
        elected(group, election) == Some(id),
    ) by {
        assert(base.groups[sg].population.contains_key(id));
        assert(c.groups[sg].population[id].update_leader
            == base.groups[sg].population[id].update_leader);
    }
}

/// What the list of members says of a member is in the census once the list was taken up:
/// the first group that has the member knows it as persistent, with its address, and with its
/// health where the list has it.
pub proof fn law_what_the_list_says_is_in_the_census(
    ring: CensusRingView,
    offset: nat,
    services: RumorStoreView<ServiceRumorView>,
    elections: RumorStoreView<ElectionView>,
    update_elections: RumorStoreView<ElectionView>,
    members: MemberListView,
    id: Seq<char>,
    i: int,
)
    requires
        orderly(ring),
        members.update_counter > ring.last_membership_counter,
        distinct_ids(members.members),
        lists(members.members, id, i),
        ring.updated(offset, services, elections, update_elections, members).has_home(id),
    ensures
        ({
            let after = ring.updated(offset, services, elections, update_elections, members);
            let (member, health) = members.members[i];
            let m = after.groups[after.home(id)].population[id];
            &&& m.persistent == Some(true)
            &&& m.sys.gossip_ip == member.address
            &&& m.sys.gossip_port == crate::text::signed_numeral(member.gossip_port)
            &&& health matches Some(h) ==> {
                &&& m.alive == Some(h == Health::Alive)
                &&& m.suspect == Some(h == Health::Suspect)
                &&& m.confirmed == Some(h == Health::Confirmed)
            }
        }),
{
    let served = after_services(ring, offset, services);
    lemma_after_services(ring, offset, services);
    lemma_election_keys_frame(served.noting_change(), elections.keys);
    let voted = served.with_election_store(elections);
    lemma_update_election_keys_frame(voted.noting_change(), update_elections.keys);
    let base = voted.with_update_election_store(update_elections);
    assert(base == ring.updated(offset, services, elections, update_elections, nobody_listed()));
    law_update_keeps_orderly(
        ring,
        offset,
        services,
        elections,
        update_elections,
        nobody_listed(),
    );
    let quiet = CensusRingView { changed: false, ..ring };
    let seen = CensusRingView {
        last_service_counter: quiet.last_service_counter + offset,
        ..quiet
    };
    lemma_service_keys_frame(seen.noting_change(), services.keys);
    assert(base.last_membership_counter == ring.last_membership_counter);
    let start = base.noting_change();
    let taken = start.with_listed_all(members.members);
    let after = base.with_member_list(members);
    assert(after == ring.updated(offset, services, elections, update_elections, members));
    law_each_listed_member_changes_one(start, members.members);
    lemma_same_home(start, after, id);
    assert(taken.groups[start.home(id)].population[id]
        == after.groups[after.home(id)].population[id]);
}

} // verus!
