//! What holds of every update: when it notes a change, and what it keeps.

use vstd::prelude::*;

use crate::group::{joined, member_or_unknown, CensusGroupView};
use crate::member::CensusMemberView;
use crate::population::Members;
use crate::ring::{
    lemma_election_keys_frame, lemma_listed_frame, lemma_service_keys_frame,
    lemma_update_election_keys_frame, CensusRing, CensusRingView,
};
use crate::rumor::{
    election_id, ElectionView, Health, MemberListView, MemberView, RumorKeyView, RumorStoreView,
    ServiceGroupView, ServiceRumorView,
};

verus! {

// ---------------------------------------------------------------------------------------
// When an update brings something new
// ---------------------------------------------------------------------------------------

/// Whether one of the counters has passed what the census last saw of it.
pub open spec fn any_news(
    ring: CensusRingView,
    offset: nat,
    services: RumorStoreView<ServiceRumorView>,
    elections: RumorStoreView<ElectionView>,
    update_elections: RumorStoreView<ElectionView>,
    members: MemberListView,
) -> bool {
    ||| services.update_counter > ring.last_service_counter + offset
    ||| elections.update_counter > ring.last_election_counter
    ||| update_elections.update_counter > ring.last_election_update_counter
    ||| members.update_counter > ring.last_membership_counter
}

/// The greater of two numbers.
pub open spec fn greater(a: nat, b: nat) -> nat {
    if a >= b {
        a
    } else {
        b
    }
}

/// What an update does to everything but the groups.
proof fn lemma_notes_after(
    ring: CensusRingView,
    offset: nat,
    services: RumorStoreView<ServiceRumorView>,
    elections: RumorStoreView<ElectionView>,
    update_elections: RumorStoreView<ElectionView>,
    members: MemberListView,
)
    ensures
        ({
            let after = ring.updated(offset, services, elections, update_elections, members);
            after == (CensusRingView {
                changed: any_news(ring, offset, services, elections, update_elections, members),
                groups: after.groups,
                order: after.order,
                local_member_id: ring.local_member_id,
                last_service_counter: greater(
                    ring.last_service_counter + offset,
                    services.update_counter,
                ),
                last_election_counter: greater(
                    ring.last_election_counter,
                    elections.update_counter,
                ),
                last_election_update_counter: greater(
                    ring.last_election_update_counter,
                    update_elections.update_counter,
                ),
                last_membership_counter: greater(
                    ring.last_membership_counter,
                    members.update_counter,
                ),
            })
        }),
{
    let quiet = CensusRingView { changed: false, ..ring };
    let seen = CensusRingView {
        last_service_counter: quiet.last_service_counter + offset,
        ..quiet
    };
    lemma_service_keys_frame(seen.noting_change(), services.keys);
    let a = quiet.with_service_store(offset, services);
    lemma_election_keys_frame(a.noting_change(), elections.keys);
    let b = a.with_election_store(elections);
    lemma_update_election_keys_frame(b.noting_change(), update_elections.keys);
    let c = b.with_update_election_store(update_elections);
    lemma_listed_frame(c.noting_change(), members.members);
}

/// An update notes a change exactly where one of the counters has passed what the census
/// last saw of it.
pub proof fn law_changed_iff_news(
    ring: CensusRingView,
    offset: nat,
    services: RumorStoreView<ServiceRumorView>,
    elections: RumorStoreView<ElectionView>,
    update_elections: RumorStoreView<ElectionView>,
    members: MemberListView,
)
    ensures
        ring.updated(offset, services, elections, update_elections, members).changed <==> any_news(
            ring,
            offset,
            services,
            elections,
            update_elections,
            members,
        ),
{
    lemma_notes_after(ring, offset, services, elections, update_elections, members);
}

/// An update without news keeps everything but the note of a change and the counter of the
/// service rumors, which moves on by the offset.
pub proof fn law_no_news_no_change(
    ring: CensusRingView,
    offset: nat,
    services: RumorStoreView<ServiceRumorView>,
    elections: RumorStoreView<ElectionView>,
    update_elections: RumorStoreView<ElectionView>,
    members: MemberListView,
)
    requires
        !any_news(ring, offset, services, elections, update_elections, members),
    ensures
        ring.updated(offset, services, elections, update_elections, members) == (CensusRingView {
            changed: false,
            last_service_counter: ring.last_service_counter + offset,
            ..ring
        }),
{
}

/// To make the same update again changes nothing but the note of a change, which it takes back,
/// and the counter of the service rumors, which moves on by the offset.
pub proof fn law_same_update_again(
    ring: CensusRingView,
    offset: nat,
    services: RumorStoreView<ServiceRumorView>,
    elections: RumorStoreView<ElectionView>,
    update_elections: RumorStoreView<ElectionView>,
    members: MemberListView,
    next_offset: nat,
)
    ensures
        ({
            let after = ring.updated(offset, services, elections, update_elections, members);
            after.updated(next_offset, services, elections, update_elections, members) == (
            CensusRingView {
                changed: false,
                last_service_counter: after.last_service_counter + next_offset,
                ..after
            })
        }),
{
    let after = ring.updated(offset, services, elections, update_elections, members);
    lemma_notes_after(ring, offset, services, elections, update_elections, members);
    law_no_news_no_change(after, next_offset, services, elections, update_elections, members);
}

/// After an update each counter is the greater of the one last seen, that of the service rumors
/// moved on by the offset, and the one just seen. So no counter ever goes back; and the keeper
/// of the census stays the same.
pub proof fn law_counters_never_go_back(
    ring: CensusRingView,
    offset: nat,
    services: RumorStoreView<ServiceRumorView>,
    elections: RumorStoreView<ElectionView>,
    update_elections: RumorStoreView<ElectionView>,
    members: MemberListView,
)
    ensures
        ({
            let after = ring.updated(offset, services, elections, update_elections, members);
            &&& after.local_member_id == ring.local_member_id
            &&& after.last_service_counter == greater(
                ring.last_service_counter + offset,
                services.update_counter,
            )
            &&& after.last_election_counter == greater(
                ring.last_election_counter,
                elections.update_counter,
            )
            &&& after.last_election_update_counter == greater(
                ring.last_election_update_counter,
                update_elections.update_counter,
            )
            &&& after.last_membership_counter == greater(
                ring.last_membership_counter,
                members.update_counter,
            )
            &&& after.last_service_counter >= ring.last_service_counter
            &&& after.last_election_counter >= ring.last_election_counter
            &&& after.last_election_update_counter >= ring.last_election_update_counter
            &&& after.last_membership_counter >= ring.last_membership_counter
        }),
{
    lemma_notes_after(ring, offset, services, elections, update_elections, members);
}

// ---------------------------------------------------------------------------------------
// What every update keeps
// ---------------------------------------------------------------------------------------

/// `a` and `b` have the same groups in the same order, and the same keeper.
pub open spec fn same_groups(a: CensusRingView, b: CensusRingView) -> bool {
    &&& a.groups == b.groups
    &&& a.order == b.order
    &&& a.local_member_id == b.local_member_id
}

/// To take up a key of the elections does not break `p`.
pub open spec fn kept_by_elections(p: spec_fn(CensusRingView) -> bool) -> bool {
    forall|r: CensusRingView, key: RumorKeyView<ElectionView>|
        p(r) ==> p(#[trigger] r.with_election_key(key))
}

/// To take up a key of the update elections does not break `p`.
pub open spec fn kept_by_update_elections(p: spec_fn(CensusRingView) -> bool) -> bool {
    forall|r: CensusRingView, key: RumorKeyView<ElectionView>|
        p(r) ==> p(#[trigger] r.with_update_election_key(key))
}

/// To take up a listed member does not break `p`.
pub open spec fn kept_by_listing(p: spec_fn(CensusRingView) -> bool) -> bool {
    forall|r: CensusRingView, listed: (MemberView, Option<Health>)|
        p(r) ==> p(#[trigger] r.with_listed(listed))
}

/// `p` depends on nothing but the groups and the keeper of the census.
pub open spec fn about_groups(p: spec_fn(CensusRingView) -> bool) -> bool {
    forall|a: CensusRingView, b: CensusRingView|
        #[trigger] p(a) && same_groups(a, b) ==> #[trigger] p(b)
}

/// A property of the groups that no single step of an update breaks.
pub open spec fn kept_by_steps(
    p: spec_fn(CensusRingView) -> bool,
    services: Seq<RumorKeyView<ServiceRumorView>>,
) -> bool {
    &&& about_groups(p)
    &&& forall|r: CensusRingView, key: RumorKeyView<ServiceRumorView>|
        p(r) && services.contains(key) ==> p(#[trigger] r.with_service_key(key))
    &&& kept_by_elections(p)
    &&& kept_by_update_elections(p)
    &&& kept_by_listing(p)
}

proof fn lemma_kept_by_service_keys(
    p: spec_fn(CensusRingView) -> bool,
    services: Seq<RumorKeyView<ServiceRumorView>>,
    ring: CensusRingView,
    n: int,
)
    requires
        kept_by_steps(p, services),
        p(ring),
        0 <= n <= services.len(),
    ensures
        p(ring.with_service_keys(services.take(n))),
    decreases n,
{
    if n > 0 {
        lemma_kept_by_service_keys(p, services, ring, n - 1);
        assert(services.take(n).drop_last() =~= services.take(n - 1));
        assert(services.take(n).last() == services[n - 1]);
        assert(services.contains(services[n - 1]));
    }
}

/// What no key of the elections breaks, the store of elections does not break.
pub proof fn lemma_kept_by_election_store(
    p: spec_fn(CensusRingView) -> bool,
    ring: CensusRingView,
    store: RumorStoreView<ElectionView>,
)
    requires
        about_groups(p),
        kept_by_elections(p),
        p(ring),
    ensures
        p(ring.with_election_store(store)),
{
    assert(p(ring.noting_change()));
    lemma_kept_by_election_keys(p, ring.noting_change(), store.keys);
    let taken = ring.noting_change().with_election_keys(store.keys);
    let after = ring.with_election_store(store);
    assert(same_groups(ring, after) || same_groups(taken, after));
    assert(p(after));
}

proof fn lemma_kept_by_election_keys(
    p: spec_fn(CensusRingView) -> bool,
    ring: CensusRingView,
    keys: Seq<RumorKeyView<ElectionView>>,
)
    requires
        kept_by_elections(p),
        p(ring),
    ensures
        p(ring.with_election_keys(keys)),
    decreases keys.len(),
{
    if keys.len() > 0 {
        lemma_kept_by_election_keys(p, ring, keys.drop_last());
    }
}

/// What no key of the update elections breaks, the store of update elections does not break.
pub proof fn lemma_kept_by_update_election_store(
    p: spec_fn(CensusRingView) -> bool,
    ring: CensusRingView,
    store: RumorStoreView<ElectionView>,
)
    requires
        about_groups(p),
        kept_by_update_elections(p),
        p(ring),
    ensures
        p(ring.with_update_election_store(store)),
{
    assert(p(ring.noting_change()));
    lemma_kept_by_update_election_keys(p, ring.noting_change(), store.keys);
    let taken = ring.noting_change().with_update_election_keys(store.keys);
    let after = ring.with_update_election_store(store);
    assert(same_groups(ring, after) || same_groups(taken, after));
    assert(p(after));
}

proof fn lemma_kept_by_update_election_keys(
    p: spec_fn(CensusRingView) -> bool,
    ring: CensusRingView,
    keys: Seq<RumorKeyView<ElectionView>>,
)
    requires
        kept_by_update_elections(p),
        p(ring),
    ensures
        p(ring.with_update_election_keys(keys)),
    decreases keys.len(),
{
    if keys.len() > 0 {
        lemma_kept_by_update_election_keys(p, ring, keys.drop_last());
    }
}

/// What no listed member breaks, the list of members does not break.
pub proof fn lemma_kept_by_member_list(
    p: spec_fn(CensusRingView) -> bool,
    ring: CensusRingView,
    list: MemberListView,
)
    requires
        about_groups(p),
        kept_by_listing(p),
        p(ring),
    ensures
        p(ring.with_member_list(list)),
{
    assert(p(ring.noting_change()));
    lemma_kept_by_listed(p, ring.noting_change(), list.members);
    let taken = ring.noting_change().with_listed_all(list.members);
    let after = ring.with_member_list(list);
    assert(same_groups(ring, after) || same_groups(taken, after));
    assert(p(after));
}

proof fn lemma_kept_by_listed(
    p: spec_fn(CensusRingView) -> bool,
    ring: CensusRingView,
    members: Seq<(MemberView, Option<Health>)>,
)
    requires
        kept_by_listing(p),
        p(ring),
    ensures
        p(ring.with_listed_all(members)),
    decreases members.len(),
{
    if members.len() > 0 {
        lemma_kept_by_listed(p, ring, members.drop_last());
    }
}

/// What no single step breaks, no update breaks.
proof fn lemma_kept_by_update(
    p: spec_fn(CensusRingView) -> bool,
    ring: CensusRingView,
    offset: nat,
    services: RumorStoreView<ServiceRumorView>,
    elections: RumorStoreView<ElectionView>,
    update_elections: RumorStoreView<ElectionView>,
    members: MemberListView,
)
    requires
        kept_by_steps(p, services.keys),
        p(ring),
    ensures
        p(ring.updated(offset, services, elections, update_elections, members)),
{
    let quiet = CensusRingView { changed: false, ..ring };
    assert(p(quiet));
    let seen = CensusRingView {
        last_service_counter: quiet.last_service_counter + offset,
        ..quiet
    };
    assert(p(seen));
    assert(p(seen.noting_change()));
    lemma_kept_by_service_keys(
        p,
        services.keys,
        seen.noting_change(),
        services.keys.len() as int,
    );
    assert(services.keys.take(services.keys.len() as int) =~= services.keys);
    let served = seen.noting_change().with_service_keys(services.keys);
    let a = quiet.with_service_store(offset, services);
    assert(same_groups(seen, a) || same_groups(served, a));
    assert(p(a));
    let b = a.with_election_store(elections);
    lemma_kept_by_election_store(p, a, elections);
    let c = b.with_update_election_store(update_elections);
    lemma_kept_by_update_election_store(p, b, update_elections);
    lemma_kept_by_member_list(p, c, members);
}

/// The groups of a census are in order: each stands under its own service group, once, and
/// names the keeper of the census as its local member.
pub open spec fn orderly(ring: CensusRingView) -> bool {
    &&& ring.order.no_duplicates()
    &&& forall|sg: ServiceGroupView|
        #[trigger] ring.order.contains(sg) <==> ring.groups.contains_key(sg)
    &&& forall|sg: ServiceGroupView|
        #[trigger] ring.groups.contains_key(sg) ==> {
            &&& ring.groups[sg].service_group == sg
            &&& ring.groups[sg].local_member_id == ring.local_member_id
        }
}

/// A well-formed census is orderly.
pub proof fn law_well_formed_is_orderly(ring: &CensusRing)
    requires
        ring.wf(),
    ensures
        orderly(ring@),
{
    let s = crate::ring::group_list(ring.census_groups@);
    assert forall|i: int| 0 <= i < s.len() implies ring@.order[i] == (#[trigger] s[i]).0
        && ring@.groups.contains_key(s[i].0) && ring@.groups[s[i].0] == s[i].1
        && s[i].0 == s[i].1.service_group && s[i].1.local_member_id == ring@.local_member_id by {
        crate::assoc::lemma_entry(s, i);
        assert(s[i] == (ring.census_groups@[i]@.service_group, ring.census_groups@[i]@));
    }
    assert forall|sg: ServiceGroupView| #[trigger]
        ring@.order.contains(sg) <==> ring@.groups.contains_key(sg) by {
        if ring@.order.contains(sg) {
            let i = choose|i: int| 0 <= i < ring@.order.len() && ring@.order[i] == sg;
            assert(s[i].0 == sg);
        }
        if ring@.groups.contains_key(sg) {
            let i = crate::assoc::lemma_place(s, sg);
            assert(ring@.order[i] == sg);
        }
    }
    assert forall|sg: ServiceGroupView| #[trigger] ring@.groups.contains_key(sg) implies
        ring@.groups[sg].service_group == sg && ring@.groups[sg].local_member_id
        == ring@.local_member_id by {
        let i = crate::assoc::lemma_place(s, sg);
        assert(ring@.groups[s[i].0] == s[i].1);
    }
    assert forall|i: int, j: int|
        0 <= i < ring@.order.len() && 0 <= j < ring@.order.len() && i != j implies ring@.order[i]
        != ring@.order[j] by {
        assert(s[i].0 != s[j].0);
    }
}

proof fn lemma_orderly_with_group(ring: CensusRingView, group: CensusGroupView)
    requires
        orderly(ring),
        group.local_member_id == ring.local_member_id,
    ensures
        orderly(ring.with_group(group)),
{
    let after = ring.with_group(group);
    let sg = group.service_group;
    if !ring.groups.contains_key(sg) {
        assert(!ring.order.contains(sg));
        assert(after.order.last() == sg);
        assert forall|x: ServiceGroupView| #[trigger]
            after.order.contains(x) <==> after.groups.contains_key(x) by {
            if after.order.contains(x) && x != sg {
                let i = choose|i: int| 0 <= i < after.order.len() && after.order[i] == x;
                assert(ring.order[i] == x);
                assert(ring.order.contains(x));
            }
            if after.groups.contains_key(x) && x != sg {
                assert(ring.order.contains(x));
                let i = choose|i: int| 0 <= i < ring.order.len() && ring.order[i] == x;
                assert(after.order[i] == x);
            }
            assert(after.order[ring.order.len() as int] == sg);
        }
        assert forall|i: int, j: int|
            0 <= i < after.order.len() && 0 <= j < after.order.len() && i
                != j implies after.order[i] != after.order[j] by {
            if i < ring.order.len() {
                assert(ring.order.contains(ring.order[i]));
            }
            if j < ring.order.len() {
                assert(ring.order.contains(ring.order[j]));
            }
        }
    } else {
        assert forall|x: ServiceGroupView| #[trigger]
            after.order.contains(x) <==> after.groups.contains_key(x) by {
            assert(ring.order.contains(x) <==> ring.groups.contains_key(x));
        }
    }
}

/// The first group that has a member is a group, and has that member.
pub proof fn lemma_home(ring: CensusRingView, id: Seq<char>)
    requires
        orderly(ring),
        ring.has_home(id),
    ensures
        ring.groups.contains_key(ring.home(id)),
        ring.groups[ring.home(id)].population.contains_key(id),
{
    let i = choose|i: int| ring.home_at(id, i);
    assert(ring.order.contains(ring.order[i]));
}

/// An orderly census stays orderly.
pub proof fn law_update_keeps_orderly(
    ring: CensusRingView,
    offset: nat,
    services: RumorStoreView<ServiceRumorView>,
    elections: RumorStoreView<ElectionView>,
    update_elections: RumorStoreView<ElectionView>,
    members: MemberListView,
)
    requires
        orderly(ring),
    ensures
        orderly(ring.updated(offset, services, elections, update_elections, members)),
{
    let p = |r: CensusRingView| orderly(r);
    lemma_orderly_steps(services.keys);
    lemma_kept_by_update(p, ring, offset, services, elections, update_elections, members);
}

/// No single step of an update makes a census disorderly.
pub proof fn lemma_orderly_steps(services: Seq<RumorKeyView<ServiceRumorView>>)
    ensures
        kept_by_steps(|r: CensusRingView| orderly(r), services),
{
    let p = |r: CensusRingView| orderly(r);
    assert forall|r: CensusRingView, key: RumorKeyView<ServiceRumorView>|
        p(r) && services.contains(key) implies p(#[trigger] r.with_service_key(key)) by {
        if let Some(sg) = key.service_group {
            lemma_orderly_with_group(r, r.group_or_fresh(sg).with_service_rumors(key.rumors));
        }
    }
    assert forall|r: CensusRingView, key: RumorKeyView<ElectionView>| p(r) implies p(
        #[trigger] r.with_election_key(key),
    ) by {
        if let Some(sg) = key.service_group {
            if r.groups.contains_key(sg) {
                lemma_orderly_with_group(r, r.groups[sg].with_election(key.rumor(election_id())));
            }
        }
    }
    assert forall|r: CensusRingView, key: RumorKeyView<ElectionView>| p(r) implies p(
        #[trigger] r.with_update_election_key(key),
    ) by {
        if let Some(sg) = key.service_group {
            if r.groups.contains_key(sg) {
                lemma_orderly_with_group(
                    r,
                    r.groups[sg].with_update_election(key.rumor(election_id())),
                );
            }
        }
    }
    assert forall|r: CensusRingView, listed: (MemberView, Option<Health>)| p(r) implies p(
        #[trigger] r.with_listed(listed),
    ) by {
        let id = listed.0.id;
        if r.has_home(id) {
            lemma_home(r, id);
            let group = r.with_listed(listed).groups[r.home(id)];
            lemma_orderly_with_group(r, group);
            assert(r.with_listed(listed) == r.with_group(group));
        }
    }
}

/// To take up service rumors keeps a census orderly.
pub proof fn lemma_orderly_after_service_keys(
    ring: CensusRingView,
    keys: Seq<RumorKeyView<ServiceRumorView>>,
)
    requires
        orderly(ring),
    ensures
        orderly(ring.with_service_keys(keys)),
{
    let p = |r: CensusRingView| orderly(r);
    lemma_orderly_steps(keys);
    lemma_kept_by_service_keys(p, keys, ring, keys.len() as int);
    assert(keys.take(keys.len() as int) =~= keys);
    assert(p(ring.with_service_keys(keys)));
}

/// To take up elections of either kind keeps a census orderly.
pub proof fn lemma_orderly_after_election_keys(
    ring: CensusRingView,
    keys: Seq<RumorKeyView<ElectionView>>,
)
    requires
        orderly(ring),
    ensures
        orderly(ring.with_election_keys(keys)),
        orderly(ring.with_update_election_keys(keys)),
{
    let p = |r: CensusRingView| orderly(r);
    lemma_orderly_steps(Seq::empty());
    lemma_kept_by_election_keys(p, ring, keys);
    lemma_kept_by_update_election_keys(p, ring, keys);
    assert(p(ring.with_election_keys(keys)));
    assert(p(ring.with_update_election_keys(keys)));
}

/// To take up a listed member keeps a census orderly.
pub proof fn lemma_orderly_after_listed(
    ring: CensusRingView,
    listed: (MemberView, Option<Health>),
)
    requires
        orderly(ring),
    ensures
        orderly(ring.with_listed(listed)),
{
    let p = |r: CensusRingView| orderly(r);
    lemma_orderly_steps(Seq::empty());
    assert(p(ring.with_listed(listed)));
}

/// Every group stands under its own service group, and names the keeper of the census as its
/// local member.
pub open spec fn in_place(ring: CensusRingView) -> bool {
    forall|sg: ServiceGroupView| #[trigger]
        ring.groups.contains_key(sg) ==> {
            &&& ring.groups[sg].service_group == sg
            &&& ring.groups[sg].local_member_id == ring.local_member_id
        }
}

proof fn lemma_service_keys_keep_groups_in_place(
    ring: CensusRingView,
    keys: Seq<RumorKeyView<ServiceRumorView>>,
)
    requires
        in_place(ring),
    ensures
        in_place(ring.with_service_keys(keys)),
    decreases keys.len(),
{
    if keys.len() > 0 {
        lemma_service_keys_keep_groups_in_place(ring, keys.drop_last());
    }
}

/// To look at a store of service rumors keeps every group under its own service group and with
/// the keeper of the census as its local member, and keeps that keeper.
pub proof fn law_service_store_keeps_groups_in_place(
    ring: CensusRingView,
    offset: nat,
    store: RumorStoreView<ServiceRumorView>,
)
    requires
        in_place(ring),
    ensures
        in_place(ring.with_service_store(offset, store)),
        ring.with_service_store(offset, store).local_member_id == ring.local_member_id,
{
    let seen = CensusRingView { last_service_counter: ring.last_service_counter + offset, ..ring };
    let start = seen.noting_change();
    assert(in_place(seen)) by {
        assert forall|sg: ServiceGroupView| #[trigger] seen.groups.contains_key(sg) implies
            seen.groups[sg].service_group == sg && seen.groups[sg].local_member_id
            == seen.local_member_id by {
            assert(ring.groups.contains_key(sg));
        }
    }
    assert(in_place(start)) by {
        assert forall|sg: ServiceGroupView| #[trigger] start.groups.contains_key(sg) implies
            start.groups[sg].service_group == sg && start.groups[sg].local_member_id
            == start.local_member_id by {
            assert(ring.groups.contains_key(sg));
        }
    }
    lemma_service_keys_keep_groups_in_place(start, store.keys);
    lemma_service_keys_frame(start, store.keys);
    let taken = start.with_service_keys(store.keys);
    let after = ring.with_service_store(offset, store);
    assert forall|sg: ServiceGroupView| #[trigger] after.groups.contains_key(sg) implies
        after.groups[sg].service_group == sg && after.groups[sg].local_member_id
        == after.local_member_id by {
        assert(seen.groups.contains_key(sg) || taken.groups.contains_key(sg));
    }
}

/// `b` has everything that `a` has: its groups, first and in their order, and in each of
/// them its members.
pub open spec fn grown(a: CensusRingView, b: CensusRingView) -> bool {
    &&& a.order.is_prefix_of(b.order)
    &&& forall|sg: ServiceGroupView| #[trigger]
        a.groups.contains_key(sg) ==> b.groups.contains_key(sg)
    &&& forall|sg: ServiceGroupView, id: Seq<char>|
        a.groups.contains_key(sg) && #[trigger] a.groups[sg].population.contains_key(id)
            ==> b.groups[sg].population.contains_key(id)
}

proof fn lemma_grown_with_group(first: CensusRingView, ring: CensusRingView, group: CensusGroupView)
    requires
        orderly(ring),
        grown(first, ring),
        ring.groups.contains_key(group.service_group) ==> forall|id: Seq<char>| #[trigger]
            ring.groups[group.service_group].population.contains_key(id)
                ==> group.population.contains_key(id),
    ensures
        grown(first, ring.with_group(group)),
{
    let after = ring.with_group(group);
    assert(first.order.is_prefix_of(after.order)) by {
        assert forall|i: int| 0 <= i < first.order.len() implies first.order[i]
            == after.order[i] by {
            assert(first.order =~= ring.order.subrange(0, first.order.len() as int));
            assert(first.order[i] == ring.order.subrange(0, first.order.len() as int)[i]);
        }
        assert(first.order =~= after.order.subrange(0, first.order.len() as int));
    }
    assert forall|sg: ServiceGroupView, id: Seq<char>|
        first.groups.contains_key(sg) && #[trigger] first.groups[sg].population.contains_key(
            id,
        ) implies after.groups[sg].population.contains_key(id) by {
        assert(ring.groups[sg].population.contains_key(id));
    }
}

proof fn lemma_joined_grows(
    members: Members,
    sg: ServiceGroupView,
    rumors: Seq<(Seq<char>, ServiceRumorView)>,
    id: Seq<char>,
)
    requires
        members.contains_key(id),
    ensures
        joined(members, sg, rumors).contains_key(id),
    decreases rumors.len(),
{
    if rumors.len() > 0 {
        lemma_joined_grows(members, sg, rumors.drop_last(), id);
    }
}

proof fn lemma_grown_steps(
    first: CensusRingView,
    services: Seq<RumorKeyView<ServiceRumorView>>,
)
    ensures
        kept_by_steps(|r: CensusRingView| orderly(r) && grown(first, r), services),
{
    let p = |r: CensusRingView| orderly(r) && grown(first, r);
    lemma_orderly_steps(services);
    let q = |r: CensusRingView| orderly(r);
    assert forall|r: CensusRingView, key: RumorKeyView<ServiceRumorView>|
        p(r) && services.contains(key) implies p(#[trigger] r.with_service_key(key)) by {
        assert(q(r.with_service_key(key)));
        if let Some(sg) = key.service_group {
            let old_group = r.group_or_fresh(sg);
            let group = old_group.with_service_rumors(key.rumors);
            assert forall|id: Seq<char>| #[trigger]
                old_group.population.contains_key(id) implies group.population.contains_key(
                id,
            ) by {
                lemma_joined_grows(
                    old_group.population,
                    old_group.service_group,
                    key.rumors,
                    id,
                );
            }
            lemma_grown_with_group(first, r, group);
        }
    }
    assert forall|r: CensusRingView, key: RumorKeyView<ElectionView>| p(r) implies p(
        #[trigger] r.with_election_key(key),
    ) by {
        assert(q(r.with_election_key(key)));
        if let Some(sg) = key.service_group {
            if r.groups.contains_key(sg) {
                lemma_grown_with_group(
                    first,
                    r,
                    r.groups[sg].with_election(key.rumor(election_id())),
                );
            }
        }
    }
    assert forall|r: CensusRingView, key: RumorKeyView<ElectionView>| p(r) implies p(
        #[trigger] r.with_update_election_key(key),
    ) by {
        assert(q(r.with_update_election_key(key)));
        if let Some(sg) = key.service_group {
            if r.groups.contains_key(sg) {
                lemma_grown_with_group(
                    first,
                    r,
                    r.groups[sg].with_update_election(key.rumor(election_id())),
                );
            }
        }
    }
    assert forall|r: CensusRingView, listed: (MemberView, Option<Health>)| p(r) implies p(
        #[trigger] r.with_listed(listed),
    ) by {
        assert(q(r.with_listed(listed)));
        let id = listed.0.id;
        if r.has_home(id) {
            lemma_home(r, id);
            let group = r.with_listed(listed).groups[r.home(id)];
            lemma_grown_with_group(first, r, group);
            assert(r.with_listed(listed) == r.with_group(group));
        }
    }
}

/// The census only grows: no update drops a group or a member, or moves a group.
pub proof fn law_census_only_grows(
    ring: CensusRingView,
    offset: nat,
    services: RumorStoreView<ServiceRumorView>,
    elections: RumorStoreView<ElectionView>,
    update_elections: RumorStoreView<ElectionView>,
    members: MemberListView,
)
    requires
        orderly(ring),
    ensures
        grown(ring, ring.updated(offset, services, elections, update_elections, members)),
{
    let p = |r: CensusRingView| orderly(r) && grown(ring, r);
    assert(ring.order.is_prefix_of(ring.order)) by {
        assert(ring.order =~= ring.order.subrange(0, ring.order.len() as int));
    }
    lemma_grown_steps(ring, services.keys);
    lemma_kept_by_update(p, ring, offset, services, elections, update_elections, members);
}

/// `q` holds of every member of every group, under its identifier.
pub open spec fn everyone(
    ring: CensusRingView,
    q: spec_fn(Seq<char>, CensusMemberView) -> bool,
) -> bool {
    forall|sg: ServiceGroupView, id: Seq<char>|
        ring.groups.contains_key(sg) && #[trigger] ring.groups[sg].population.contains_key(id)
            ==> q(id, ring.groups[sg].population[id])
}

/// A property of members that nothing heard about a member breaks, given what the service
/// rumors say.
spec fn kept_by_members(
    q: spec_fn(Seq<char>, CensusMemberView) -> bool,
    services: Seq<RumorKeyView<ServiceRumorView>>,
) -> bool {
    &&& forall|
        key: RumorKeyView<ServiceRumorView>,
        i: int,
        sg: ServiceGroupView,
        m: CensusMemberView,
    |
        services.contains(key) && 0 <= i < key.rumors.len() && (q(key.rumors[i].0, m) || m
            == CensusMemberView::unknown()) ==> q(
            key.rumors[i].0,
            #[trigger] m.with_service_rumor(sg, key.rumors[i].1),
        )
    &&& forall|id: Seq<char>, m: CensusMemberView, e: ElectionView|
        q(id, m) ==> #[trigger] q(id, m.with_election(e))
    &&& forall|id: Seq<char>, m: CensusMemberView, e: ElectionView|
        q(id, m) ==> #[trigger] q(id, m.with_update_election(e))
    &&& forall|id: Seq<char>, m: CensusMemberView, member: MemberView|
        q(id, m) ==> #[trigger] q(id, m.with_member(member))
    &&& forall|id: Seq<char>, m: CensusMemberView, health: Health|
        q(id, m) ==> #[trigger] q(id, m.with_health(health))
}

proof fn lemma_everyone_joined(
    q: spec_fn(Seq<char>, CensusMemberView) -> bool,
    services: Seq<RumorKeyView<ServiceRumorView>>,
    members: Members,
    sg: ServiceGroupView,
    key: RumorKeyView<ServiceRumorView>,
    n: int,
)
    requires
        kept_by_members(q, services),
        services.contains(key),
        0 <= n <= key.rumors.len(),
        forall|id: Seq<char>| #[trigger] members.contains_key(id) ==> q(id, members[id]),
    ensures
        forall|id: Seq<char>| #[trigger]
            joined(members, sg, key.rumors.take(n)).contains_key(id) ==> q(
                id,
                joined(members, sg, key.rumors.take(n))[id],
            ),
    decreases n,
{
    if n > 0 {
        lemma_everyone_joined(q, services, members, sg, key, n - 1);
        let rumors = key.rumors.take(n);
        assert(rumors.drop_last() =~= key.rumors.take(n - 1));
        assert(rumors.last() == key.rumors[n - 1]);
        let earlier = joined(members, sg, key.rumors.take(n - 1));
        let id = key.rumors[n - 1].0;
        let m = member_or_unknown(earlier, id);
        assert(q(id, m.with_service_rumor(sg, key.rumors[n - 1].1)));
    }
}

proof fn lemma_everyone_steps(
    q: spec_fn(Seq<char>, CensusMemberView) -> bool,
    services: Seq<RumorKeyView<ServiceRumorView>>,
)
    requires
        kept_by_members(q, services),
    ensures
        kept_by_steps(|r: CensusRingView| orderly(r) && everyone(r, q), services),
{
    let p = |r: CensusRingView| orderly(r) && everyone(r, q);
    lemma_orderly_steps(services);
    let o = |r: CensusRingView| orderly(r);
    assert forall|r: CensusRingView, key: RumorKeyView<ServiceRumorView>|
        p(r) && services.contains(key) implies p(#[trigger] r.with_service_key(key)) by {
        assert(o(r.with_service_key(key)));
        if let Some(sg) = key.service_group {
            let old_group = r.group_or_fresh(sg);
            lemma_everyone_joined(
                q,
                services,
                old_group.population,
                old_group.service_group,
                key,
                key.rumors.len() as int,
            );
            assert(key.rumors.take(key.rumors.len() as int) =~= key.rumors);
        }
    }
    assert forall|r: CensusRingView, key: RumorKeyView<ElectionView>| p(r) implies p(
        #[trigger] r.with_election_key(key),
    ) by {
        assert(o(r.with_election_key(key)));
    }
    assert forall|r: CensusRingView, key: RumorKeyView<ElectionView>| p(r) implies p(
        #[trigger] r.with_update_election_key(key),
    ) by {
        assert(o(r.with_update_election_key(key)));
    }
    assert forall|r: CensusRingView, listed: (MemberView, Option<Health>)| p(r) implies p(
        #[trigger] r.with_listed(listed),
    ) by {
        assert(o(r.with_listed(listed)));
        let id = listed.0.id;
        if r.has_home(id) {
            lemma_home(r, id);
            let found = r.groups[r.home(id)].population[id];
            assert(q(id, found));
            assert(q(id, found.with_member(listed.0)));
            if let Some(h) = listed.1 {
                assert(q(id, found.with_member(listed.0).with_health(h)));
            }
        }
    }
}

/// Of three notes either none was made, or exactly one of them says yes.
pub open spec fn one_of(a: Option<bool>, b: Option<bool>, c: Option<bool>) -> bool {
    ||| (a is None && b is None && c is None)
    ||| (a == Some(true) && b == Some(false) && c == Some(false))
    ||| (a == Some(false) && b == Some(true) && c == Some(false))
    ||| (a == Some(false) && b == Some(false) && c == Some(true))
}

/// The part that a member has in an election fits how far the election has come: of a
/// finished one it is leader or follower, never both; of any other it is neither.
pub open spec fn part_fits(
    finished: Option<bool>,
    leader: Option<bool>,
    follower: Option<bool>,
) -> bool {
    match finished {
        None => leader is None && follower is None,
        Some(true) => leader is Some && follower is Some && leader->0 != follower->0,
        Some(false) => leader == Some(false) && follower == Some(false),
    }
}

/// The notes on a member do not contradict one another.
pub open spec fn coherent(m: CensusMemberView) -> bool {
    &&& one_of(m.election_is_running, m.election_is_no_quorum, m.election_is_finished)
    &&& part_fits(m.election_is_finished, m.leader, m.follower)
    &&& one_of(
        m.update_election_is_running,
        m.update_election_is_no_quorum,
        m.update_election_is_finished,
    )
    &&& part_fits(m.update_election_is_finished, m.update_leader, m.update_follower)
    &&& one_of(m.alive, m.suspect, m.confirmed)
}

/// The notes on a member never come to contradict one another: of the phases of an election,
/// and of the healths, at most one holds of it at a time, and it leads or follows only where
/// the election is finished.
pub proof fn law_notes_stay_coherent(
    ring: CensusRingView,
    offset: nat,
    services: RumorStoreView<ServiceRumorView>,
    elections: RumorStoreView<ElectionView>,
    update_elections: RumorStoreView<ElectionView>,
    members: MemberListView,
)
    requires
        orderly(ring),
        everyone(ring, |id: Seq<char>, m: CensusMemberView| coherent(m)),
    ensures
        everyone(
            ring.updated(offset, services, elections, update_elections, members),
            |id: Seq<char>, m: CensusMemberView| coherent(m),
        ),
{
    let q = |id: Seq<char>, m: CensusMemberView| coherent(m);
    let p = |r: CensusRingView| orderly(r) && everyone(r, q);
    lemma_everyone_steps(q, services.keys);
    lemma_kept_by_update(p, ring, offset, services, elections, update_elections, members);
    assert(p(ring.updated(offset, services, elections, update_elections, members)));
}

/// Every service rumor stands under the identifier of the member that speaks.
pub open spec fn keyed_rumors(services: RumorStoreView<ServiceRumorView>) -> bool {
    forall|key: RumorKeyView<ServiceRumorView>, i: int|
        services.keys.contains(key) && 0 <= i < key.rumors.len()
            ==> (#[trigger] key.rumors[i]).0 == key.rumors[i].1.member_id
}

/// Where every service rumor stands under the identifier of the member that speaks, every
/// member of the census stands under its own identifier, and keeps to it.
pub proof fn law_members_stand_under_their_ids(
    ring: CensusRingView,
    offset: nat,
    services: RumorStoreView<ServiceRumorView>,
    elections: RumorStoreView<ElectionView>,
    update_elections: RumorStoreView<ElectionView>,
    members: MemberListView,
)
    requires
        orderly(ring),
        keyed_rumors(services),
        everyone(ring, |id: Seq<char>, m: CensusMemberView| m.member_id == id),
    ensures
        everyone(
            ring.updated(offset, services, elections, update_elections, members),
            |id: Seq<char>, m: CensusMemberView| m.member_id == id,
        ),
{
    let q = |id: Seq<char>, m: CensusMemberView| m.member_id == id;
    let p = |r: CensusRingView| orderly(r) && everyone(r, q);
    lemma_everyone_steps(q, services.keys);
    lemma_kept_by_update(p, ring, offset, services, elections, update_elections, members);
    assert(p(ring.updated(offset, services, elections, update_elections, members)));
}

/// A census that nothing was heard for yet is orderly, and nobody is in it: whatever updates
/// keep of every member holds from the start.
pub proof fn law_fresh_census(
    local_member_id: Seq<char>,
    q: spec_fn(Seq<char>, CensusMemberView) -> bool,
)
    ensures
        orderly(CensusRingView::fresh(local_member_id)),
        everyone(CensusRingView::fresh(local_member_id), q),
{
}

} // verus!
