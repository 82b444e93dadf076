//! What the previous peer is.

use vstd::prelude::*;

use crate::group::{last_before, CensusGroup, CensusGroupView};
use crate::laws::elections::keyed;
use crate::population::{ascending, is_roll, lemma_roll_unique, roll};
use crate::rumor::ElectionView;
use crate::text::{
    before, lemma_before_asymmetric, lemma_before_irreflexive, lemma_before_total,
};

verus! {

/// To filter an ascending sequence leaves an ascending one, of what passes the filter.
proof fn lemma_filter_ascending(ids: Seq<Seq<char>>, pred: spec_fn(Seq<char>) -> bool)
    requires
        ascending(ids),
    ensures
        ascending(ids.filter(pred)),
        forall|id: Seq<char>| #[trigger]
            ids.filter(pred).contains(id) <==> ids.contains(id) && pred(id),
    decreases ids.len(),
{
    reveal(Seq::filter);
    let kept = ids.filter(pred);
    if ids.len() > 0 {
        let rest = ids.drop_last();
        let last = ids.last();
        assert forall|i: int, j: int| 0 <= i < j < rest.len() implies before(
            #[trigger] rest[i],
            #[trigger] rest[j],
        ) by {
            assert(before(ids[i], ids[j]));
        }
        lemma_filter_ascending(rest, pred);
        let earlier = rest.filter(pred);
        assert forall|id: Seq<char>| #[trigger]
            kept.contains(id) <==> ids.contains(id) && pred(id) by {
            if kept.contains(id) {
                let i = choose|i: int| 0 <= i < kept.len() && kept[i] == id;
                if i < earlier.len() {
                    assert(earlier[i] == id);
                    assert(earlier.contains(id));
                    let j = choose|j: int| 0 <= j < rest.len() && rest[j] == id;
                    assert(ids[j] == id);
                } else {
                    assert(ids[ids.len() - 1] == id);
                }
            }
            if ids.contains(id) && pred(id) {
                let j = choose|j: int| 0 <= j < ids.len() && ids[j] == id;
                if j < rest.len() {
                    assert(rest[j] == id);
                    assert(rest.contains(id));
                    assert(earlier.contains(id));
                    let i = choose|i: int| 0 <= i < earlier.len() && earlier[i] == id;
                    assert(kept[i] == id);
                } else {
                    assert(kept[kept.len() - 1] == id);
                }
            }
        }
        assert forall|i: int, j: int| 0 <= i < j < kept.len() implies before(
            #[trigger] kept[i],
            #[trigger] kept[j],
        ) by {
            if j < earlier.len() {
                assert(before(earlier[i], earlier[j]));
            } else {
                assert(earlier.contains(earlier[i]));
                let k = choose|k: int| 0 <= k < rest.len() && rest[k] == earlier[i];
                assert(before(ids[k], ids[ids.len() - 1]));
            }
        }
    }
}

/// Of an ascending sequence, the last that stands before `me` has none between itself and
/// `me`; where there is no such, none stands before `me`.
proof fn lemma_last_before(ids: Seq<Seq<char>>, me: Seq<char>)
    requires
        ascending(ids),
    ensures
        last_before(ids, me) matches Some(left) ==> {
            &&& ids.contains(left)
            &&& before(left, me)
            &&& forall|id: Seq<char>| #[trigger]
                ids.contains(id) ==> !(before(left, id) && before(id, me))
        },
        last_before(ids, me) is None ==> forall|id: Seq<char>| #[trigger]
            ids.contains(id) ==> !before(id, me),
    decreases ids.len(),
{
    if ids.len() > 0 {
        let rest = ids.drop_last();
        let last = ids.last();
        assert(ids[ids.len() - 1] == last);
        assert forall|i: int, j: int| 0 <= i < j < rest.len() implies before(
            #[trigger] rest[i],
            #[trigger] rest[j],
        ) by {
            assert(before(ids[i], ids[j]));
        }
        lemma_last_before(rest, me);
        if before(last, me) {
            assert forall|id: Seq<char>| #[trigger] ids.contains(id) implies !before(last, id) by {
                let i = choose|i: int| 0 <= i < ids.len() && ids[i] == id;
                if i < ids.len() - 1 {
                    lemma_before_asymmetric(ids[i], ids[ids.len() - 1]);
                } else {
                    lemma_before_irreflexive(last);
                }
            }
        } else {
            assert forall|id: Seq<char>| #[trigger] ids.contains(id) && id
                != last implies rest.contains(id) by {
                let i = choose|i: int| 0 <= i < ids.len() && ids[i] == id;
                assert(rest[i] == id);
            }
            if let Some(left) = last_before(rest, me) {
                let i = choose|i: int| 0 <= i < rest.len() && rest[i] == left;
                assert(ids[i] == left);
            }
        }
    }
}

/// Whether the group has a member with this identifier that is alive.
pub open spec fn alive_member(group: CensusGroupView, id: Seq<char>) -> bool {
    group.population.contains_key(id) && group.population[id].alive == Some(true)
}

/// Whether the member that keeps the census has a peer in the group that is alive.
pub open spec fn has_alive_peer(group: CensusGroupView) -> bool {
    exists|id: Seq<char>| id != group.local_member_id && #[trigger] alive_member(group, id)
}

/// `peer` is the peer to the left of `me`: it stands before `me`, and no member alive stands
/// between the two; or no member alive stands before `me`, and none after `peer`.
pub open spec fn left_of(group: CensusGroupView, peer: Seq<char>, me: Seq<char>) -> bool {
    ||| {
        &&& before(peer, me)
        &&& forall|id: Seq<char>| #[trigger]
            alive_member(group, id) ==> !(before(peer, id) && before(id, me))
    }
    ||| {
        &&& forall|id: Seq<char>| #[trigger] alive_member(group, id) ==> !before(id, me)
        &&& forall|id: Seq<char>| #[trigger] alive_member(group, id) ==> !before(peer, id)
    }
}

/// In a group whose members stand under their own identifiers, the member that keeps the
/// census stands at its own identifier.
proof fn lemma_own_standing(group: CensusGroupView)
    requires
        is_roll(roll(group.population), group.population),
        keyed(group),
        group.population.contains_key(group.local_member_id),
    ensures
        group.standing() == group.local_member_id,
{
    let ids = roll(group.population);
    lemma_filter_ascending(ids, |id: Seq<char>| group.is_namesake(id));
    if group.namesakes().len() > 0 {
        let id = group.namesakes()[0];
        assert(group.namesakes().contains(id));
        assert(ids.contains(id));
        assert(group.population.contains_key(id));
    }
}

/// The alive peers of a member that keeps a census, in a group whose members stand under their
/// own identifiers: the other members that are alive.
pub open spec fn others_alive(group: CensusGroupView) -> Seq<Seq<char>> {
    roll(group.population).filter(
        |id: Seq<char>| id != group.local_member_id && group.population[id].alive == Some(true),
    )
}

/// The previous peer in a group whose members stand under their own identifiers. There is none
/// exactly where the member that keeps the census does not belong to the group, or no other
/// member is alive. Otherwise it is the last of the others alive that stands before that
/// member, and the last of them all where none does. Whether that member is itself alive does
/// not matter.
pub proof fn law_previous_peer_among_the_others_alive(group: &CensusGroup)
    requires
        group.wf(),
        keyed(group@),
    ensures
        group@.previous_peer_id() is None <==> !group@.population.contains_key(
            group@.local_member_id,
        ) || others_alive(group@).len() == 0,
        group@.previous_peer_id() matches Some(peer) ==> match last_before(
            others_alive(group@),
            group@.local_member_id,
        ) {
            Some(left) => peer == left,
            None => peer == others_alive(group@).last(),
        },
{
    let g = group@;
    group.population.lemma_is_roll();
    if g.population.contains_key(g.local_member_id) {
        lemma_own_standing(g);
        assert((|id: Seq<char>| g.is_alive_peer(id)) =~= (|id: Seq<char>|
            id != g.local_member_id && g.population[id].alive == Some(true)));
        assert(g.alive_peers() == others_alive(g));
    }
}

proof fn lemma_previous_peer_is_to_the_left(g: CensusGroupView)
    requires
        is_roll(roll(g.population), g.population),
        keyed(g),
        g.population.contains_key(g.local_member_id),
    ensures
        g.previous_peer_id() is Some <==> has_alive_peer(g),
        g.previous_peer_id() matches Some(peer) ==> {
            &&& alive_member(g, peer)
            &&& peer != g.local_member_id
            &&& left_of(g, peer, g.local_member_id)
        },
{
    let me = g.local_member_id;
    let ids = roll(g.population);
    let peers = g.alive_peers();
    lemma_own_standing(g);
    lemma_filter_ascending(ids, |id: Seq<char>| g.is_alive_peer(id));
    lemma_last_before(peers, me);
    lemma_before_irreflexive(me);
    assert forall|id: Seq<char>| #[trigger] peers.contains(id) <==> id != me && alive_member(
        g,
        id,
    ) by {
        assert(ids.contains(id) <==> g.population.contains_key(id));
    }
    if has_alive_peer(g) {
        let id = choose|id: Seq<char>| id != me && #[trigger] alive_member(g, id);
        assert(peers.contains(id));
        assert(peers.len() > 0);
    }
    if let Some(peer) = g.previous_peer_id() {
        assert(peers.contains(peer)) by {
            assert(peers.contains(peers.last()));
        }
        assert forall|id: Seq<char>| #[trigger] alive_member(g, id) && id
            != me implies peers.contains(id) by {}
        if last_before(peers, me) is None {
            assert forall|id: Seq<char>| #[trigger] alive_member(g, id) implies !before(
                peer,
                id,
            ) by {
                if id != me {
                    assert(peers.contains(id));
                    let k = choose|k: int| 0 <= k < peers.len() && peers[k] == id;
                    if k < peers.len() - 1 {
                        lemma_before_asymmetric(peers[k], peers[peers.len() - 1]);
                    } else {
                        lemma_before_irreflexive(id);
                    }
                }
            }
        }
        assert(left_of(g, peer, me));
    }
}

/// The previous peer of a member of a group whose members stand under their own identifiers:
/// there is one exactly where there is another member alive, and it is the member alive to the
/// left in the order of the identifiers, going round to the last one from the first. It is
/// never the member itself.
pub proof fn law_previous_peer_is_to_the_left(group: &CensusGroup)
    requires
        group.wf(),
        keyed(group@),
        group@.population.contains_key(group@.local_member_id),
    ensures
        group@.previous_peer_id() is Some <==> has_alive_peer(group@),
        group@.previous_peer_id() matches Some(peer) ==> {
            &&& alive_member(group@, peer)
            &&& peer != group@.local_member_id
            &&& left_of(group@, peer, group@.local_member_id)
        },
{
    group.population.lemma_is_roll();
    lemma_previous_peer_is_to_the_left(group@);
}

/// Where there is no peer that is alive there is no previous peer.
pub proof fn law_no_alive_peer_no_previous_peer(group: &CensusGroup)
    requires
        group.wf(),
        !has_alive_peer(group@),
    ensures
        group@.previous_peer_id() is None,
{
    let g = group@;
    let me = g.local_member_id;
    let ids = roll(g.population);
    let peers = g.alive_peers();
    let namesakes = g.namesakes();
    group.population.lemma_is_roll();
    lemma_filter_ascending(ids, |id: Seq<char>| g.is_alive_peer(id));
    lemma_filter_ascending(ids, |id: Seq<char>| g.is_namesake(id));
    assert forall|id: Seq<char>| #[trigger] ids.contains(id) && g.is_alive(id) implies id == me by {
        assert(g.population.contains_key(id));
        assert(alive_member(g, id) ==> id == me);
    }
    if peers.len() > 0 {
        assert(peers.contains(peers[0]));
        assert(peers[0] == me);
        assert(namesakes.contains(me));
        assert(namesakes.contains(namesakes[0]));
        assert(namesakes[0] == me);
    }
}

/// `place` is where the member that keeps the census stands in the order of the identifiers: it
/// is the first identifier of a member alive that bears the name of that member, or the
/// identifier of that member itself where nobody alive bears its name.
pub open spec fn stands_at(group: CensusGroupView, place: Seq<char>) -> bool {
    let name = group.population[group.local_member_id].member_id;
    ||| {
        &&& alive_member(group, place)
        &&& group.population[place].member_id == name
        &&& forall|id: Seq<char>|
            #[trigger] alive_member(group, id) && group.population[id].member_id == name
                ==> !before(id, place)
    }
    ||| {
        &&& place == group.local_member_id
        &&& forall|id: Seq<char>| #[trigger]
            alive_member(group, id) ==> group.population[id].member_id != name
    }
}

proof fn lemma_standing(g: CensusGroupView)
    requires
        is_roll(roll(g.population), g.population),
        g.population.contains_key(g.local_member_id),
    ensures
        stands_at(g, g.standing()),
{
    let ids = roll(g.population);
    let name = g.population[g.local_member_id].member_id;
    let namesakes = g.namesakes();
    lemma_filter_ascending(ids, |id: Seq<char>| g.is_namesake(id));
    assert forall|id: Seq<char>| #[trigger] namesakes.contains(id) <==> alive_member(g, id)
        && g.population[id].member_id == name by {
        assert(ids.contains(id) <==> g.population.contains_key(id));
    }
    if namesakes.len() > 0 {
        assert(namesakes.contains(namesakes[0]));
        assert forall|id: Seq<char>| #[trigger] alive_member(g, id) && g.population[id].member_id
            == name implies !before(id, namesakes[0]) by {
            assert(namesakes.contains(id));
            let k = choose|k: int| 0 <= k < namesakes.len() && namesakes[k] == id;
            if k > 0 {
                lemma_before_asymmetric(namesakes[0], namesakes[k]);
            } else {
                lemma_before_irreflexive(id);
            }
        }
    } else {
        assert forall|id: Seq<char>| #[trigger] alive_member(
            g,
            id,
        ) implies g.population[id].member_id != name by {
            assert(!namesakes.contains(id));
        }
    }
}

/// There is but one place where a member stands.
proof fn lemma_stands_at_unique(g: CensusGroupView, p: Seq<char>, q: Seq<char>)
    requires
        stands_at(g, p),
        stands_at(g, q),
    ensures
        p == q,
{
    lemma_before_total(p, q);
}

/// The previous peer in any group that has the member that keeps the census, wherever that
/// member stands: there is one exactly where there is a member alive at another place, and it
/// is the one alive to the left of that place, going round to the last one from the first.
/// Nothing of a member counts but its identifier, its name and whether it is alive.
pub proof fn law_previous_peer_is_left_of_the_place(group: &CensusGroup, place: Seq<char>)
    requires
        group.wf(),
        group@.population.contains_key(group@.local_member_id),
        stands_at(group@, place),
    ensures
        group@.previous_peer_id() is Some <==> exists|id: Seq<char>|
            id != place && #[trigger] alive_member(group@, id),
        group@.previous_peer_id() matches Some(peer) ==> {
            &&& alive_member(group@, peer)
            &&& peer != place
            &&& left_of(group@, peer, place)
        },
{
    let g = group@;
    let ids = roll(g.population);
    let peers = g.alive_peers();
    group.population.lemma_is_roll();
    lemma_standing(g);
    lemma_stands_at_unique(g, place, g.standing());
    lemma_filter_ascending(ids, |id: Seq<char>| g.is_alive_peer(id));
    lemma_last_before(peers, place);
    lemma_before_irreflexive(place);
    assert forall|id: Seq<char>| #[trigger] peers.contains(id) <==> id != place && alive_member(
        g,
        id,
    ) by {
        assert(ids.contains(id) <==> g.population.contains_key(id));
    }
    if exists|id: Seq<char>| id != place && #[trigger] alive_member(g, id) {
        let id = choose|id: Seq<char>| id != place && #[trigger] alive_member(g, id);
        assert(peers.contains(id));
        assert(peers.len() > 0);
    }
    if let Some(peer) = g.previous_peer_id() {
        assert(peers.contains(peer)) by {
            assert(peers.contains(peers.last()));
        }
        assert forall|id: Seq<char>| #[trigger] alive_member(g, id) && id
            != place implies peers.contains(id) by {}
        if last_before(peers, place) is None {
            assert forall|id: Seq<char>| #[trigger] alive_member(g, id) implies !before(
                peer,
                id,
            ) by {
                if id != place {
                    assert(peers.contains(id));
                    let k = choose|k: int| 0 <= k < peers.len() && peers[k] == id;
                    if k < peers.len() - 1 {
                        lemma_before_asymmetric(peers[k], peers[peers.len() - 1]);
                    } else {
                        lemma_before_irreflexive(id);
                    }
                }
            }
        }
        assert(left_of(g, peer, place));
    }
}

/// A member that keeps the census of a group it does not belong to has no previous peer there;
/// of a group it belongs to, it stands at some place.
pub proof fn law_who_has_a_place(group: &CensusGroup)
    requires
        group.wf(),
    ensures
        !group@.population.contains_key(group@.local_member_id)
            ==> group@.previous_peer_id() is None,
        group@.population.contains_key(group@.local_member_id) ==> exists|place: Seq<char>|
            stands_at(group@, place),
{
    group.population.lemma_is_roll();
    if group@.population.contains_key(group@.local_member_id) {
        lemma_standing(group@);
    }
}

/// Only one member can be the peer to the left.
proof fn lemma_left_of_unique(g: CensusGroupView, me: Seq<char>, p: Seq<char>, q: Seq<char>)
    requires
        alive_member(g, p),
        alive_member(g, q),
        left_of(g, p, me),
        left_of(g, q, me),
    ensures
        p == q,
{
    lemma_before_total(p, q);
}

/// Members that are not alive do not matter: in groups whose members stand under their own
/// identifiers and that have the same members alive, a member that belongs to both has the same
/// previous peer.
pub proof fn law_only_the_alive_matter(a: &CensusGroup, b: &CensusGroup)
    requires
        a.wf(),
        b.wf(),
        keyed(a@),
        keyed(b@),
        a@.local_member_id == b@.local_member_id,
        a@.population.contains_key(a@.local_member_id),
        b@.population.contains_key(b@.local_member_id),
        forall|id: Seq<char>| #[trigger] alive_member(a@, id) <==> alive_member(b@, id),
    ensures
        a@.previous_peer_id() == b@.previous_peer_id(),
{
    law_previous_peer_is_to_the_left(a);
    law_previous_peer_is_to_the_left(b);
    if has_alive_peer(a@) {
        let id = choose|id: Seq<char>|
            id != a@.local_member_id && #[trigger] alive_member(a@, id);
        assert(alive_member(b@, id));
    }
    if has_alive_peer(b@) {
        let id = choose|id: Seq<char>|
            id != b@.local_member_id && #[trigger] alive_member(b@, id);
        assert(alive_member(a@, id));
    }
    if let Some(q) = b@.previous_peer_id() {
        let me = b@.local_member_id;
        assert(alive_member(a@, q));
        assert(left_of(a@, q, me));
        lemma_left_of_unique(a@, me, a@.previous_peer_id()->0, q);
    }
}

proof fn lemma_filter_alike(
    ids: Seq<Seq<char>>,
    p: spec_fn(Seq<char>) -> bool,
    q: spec_fn(Seq<char>) -> bool,
)
    requires
        forall|i: int| 0 <= i < ids.len() ==> p(#[trigger] ids[i]) == q(ids[i]),
    ensures
        ids.filter(p) == ids.filter(q),
    decreases ids.len(),
{
    reveal(Seq::filter);
    if ids.len() > 0 {
        let rest = ids.drop_last();
        assert forall|i: int| 0 <= i < rest.len() implies p(#[trigger] rest[i]) == q(rest[i]) by {
            assert(p(ids[i]) == q(ids[i]));
        }
        lemma_filter_alike(rest, p, q);
        assert(p(ids[ids.len() - 1]) == q(ids[ids.len() - 1]));
    }
}

/// The previous peer is the same in two groups kept by the same member, whose members have the
/// same identifiers, bear the same names and are alive alike: nothing else counts, neither
/// elections and leaders nor packages and configurations.
pub proof fn law_previous_peer_goes_by_life_and_name(a: &CensusGroup, b: CensusGroupView)
    requires
        a.wf(),
        a@.local_member_id == b.local_member_id,
        a@.population.dom() == b.population.dom(),
        forall|id: Seq<char>| #[trigger]
            b.population.contains_key(id) ==> {
                &&& b.population[id].member_id == a@.population[id].member_id
                &&& (b.population[id].alive == Some(true)) == (a@.population[id].alive == Some(
                    true,
                ))
            },
    ensures
        a@.previous_peer_id() == b.previous_peer_id(),
{
    let g = a@;
    let ids = roll(g.population);
    a.population.lemma_is_roll();
    assert forall|id: Seq<char>| #[trigger] ids.contains(id) <==> b.population.contains_key(id) by {
        assert(g.population.dom().contains(id) == b.population.dom().contains(id));
    }
    lemma_roll_unique(ids, b.population);
    assert(g.population.dom().contains(g.local_member_id) == b.population.dom().contains(
        g.local_member_id,
    ));
    if g.population.contains_key(g.local_member_id) {
        assert(b.population.contains_key(g.local_member_id));
        assert forall|i: int| 0 <= i < ids.len() implies b.population.contains_key(
            #[trigger] ids[i],
        ) by {
            assert(ids.contains(ids[i]));
        }
        lemma_filter_alike(
            ids,
            |id: Seq<char>| g.is_namesake(id),
            |id: Seq<char>| b.is_namesake(id),
        );
        assert(g.namesakes() == b.namesakes());
        lemma_filter_alike(
            ids,
            |id: Seq<char>| g.is_alive_peer(id),
            |id: Seq<char>| b.is_alive_peer(id),
        );
        assert(g.alive_peers() == b.alive_peers());
    }
}

/// Elections of either kind do not touch the previous peer.
pub proof fn law_elections_do_not_touch_the_previous_peer(
    group: &CensusGroup,
    election: ElectionView,
)
    requires
        group.wf(),
    ensures
        group@.with_election(election).previous_peer_id() == group@.previous_peer_id(),
        group@.with_update_election(election).previous_peer_id() == group@.previous_peer_id(),
{
    let a = group@.with_election(election);
    let b = group@.with_update_election(election);
    assert(a.population.dom() =~= group@.population.dom());
    assert(b.population.dom() =~= group@.population.dom());
    law_previous_peer_goes_by_life_and_name(group, a);
    law_previous_peer_goes_by_life_and_name(group, b);
}

/// The identifiers of the members that are alive, in ascending order.
pub open spec fn alive_ids(group: CensusGroupView) -> Seq<Seq<char>> {
    roll(group.population).filter(|id: Seq<char>| group.population[id].alive == Some(true))
}

/// The group as its member with this identifier keeps it.
pub open spec fn as_kept_by(group: CensusGroupView, id: Seq<char>) -> CensusGroupView {
    CensusGroupView { local_member_id: id, ..group }
}

/// The members alive form one round: in a group whose members stand under their own
/// identifiers, and of which at least two are alive, the previous peer of each member alive is
/// the one alive before it, and that of the first is the last.
pub proof fn law_round_of_peers(group: &CensusGroup, m: int)
    requires
        group.wf(),
        keyed(group@),
        alive_ids(group@).len() > 1,
        0 <= m < alive_ids(group@).len(),
    ensures
        as_kept_by(group@, alive_ids(group@)[m]).previous_peer_id() == Some(
            if m == 0 {
                alive_ids(group@).last()
            } else {
                alive_ids(group@)[m - 1]
            },
        ),
{
    let alive = alive_ids(group@);
    let me = alive[m];
    let g = as_kept_by(group@, me);
    let ids = roll(g.population);
    group.population.lemma_is_roll();
    lemma_filter_ascending(ids, |id: Seq<char>| group@.population[id].alive == Some(true));
    assert forall|id: Seq<char>| #[trigger] alive.contains(id) <==> alive_member(g, id) by {
        assert(ids.contains(id) <==> g.population.contains_key(id));
    }
    assert forall|k: int| 0 <= k < alive.len() implies alive_member(g, #[trigger] alive[k]) by {
        assert(alive.contains(alive[k]));
    }
    assert(keyed(g)) by {
        assert forall|id: Seq<char>| #[trigger] g.population.contains_key(id) implies
            g.population[id].member_id == id by {
            assert(group@.population.contains_key(id));
        }
    }
    lemma_previous_peer_is_to_the_left(g);
    let n = if m == 0 {
        alive.len() - 1
    } else {
        m - 1
    };
    if m == 0 {
        lemma_before_asymmetric(alive[m], alive[n]);
    } else {
        lemma_before_asymmetric(alive[n], alive[m]);
    }
    assert(has_alive_peer(g)) by {
        assert(alive_member(g, alive[n]) && alive[n] != me);
    }
    assert forall|id: Seq<char>| #[trigger] alive_member(g, id) implies if m == 0 {
        !before(id, me) && !before(alive[n], id)
    } else {
        !(before(alive[n], id) && before(id, me))
    } by {
        assert(alive.contains(id));
        let k = choose|k: int| 0 <= k < alive.len() && alive[k] == id;
        lemma_before_irreflexive(id);
        if k < n {
            lemma_before_asymmetric(alive[k], alive[n]);
        }
        if k > m {
            lemma_before_asymmetric(alive[m], alive[k]);
        }
    }
    assert(left_of(g, alive[n], me));
    lemma_left_of_unique(g, me, g.previous_peer_id()->0, alive[n]);
}

} // verus!
