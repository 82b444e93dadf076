//! Records read as they stand, text, numerals and configurations.

use vstd::prelude::*;
use vstd::utf8::encode_utf8;

use crate::config::config_of;
use crate::event::CensusEntryProto;
use crate::group::CensusGroup;
use crate::member::CensusMember;
use crate::ring::CensusRing;
use crate::rumor::{
    election_id, opt_ident, opt_text, ElectionRumor, ElectionUpdateRumor, Member, MemberList,
    PackageIdent, RumorKeyView, RumorStore, ServiceGroup, ServiceRumor, SysInfo,
};
use crate::text::{before, digit, numeral, signed_numeral};

verus! {

/// A member of the census reads as its fields stand.
pub proof fn law_member_reads_as_it_stands(m: &CensusMember)
    ensures
        m@.member_id == m.member_id@,
        m@.service == m.service@,
        m@.group == m.group@,
        m@.org is Some <==> m.org is Some,
        m.org is Some ==> m@.org->0 == m.org->0@,
        m@.pkg is Some <==> m.pkg is Some,
        m.pkg is Some ==> m@.pkg->0 == m.pkg->0@,
        m@.cfg == m.cfg@,
        m@.sys == m.sys@,
        m@.leader == m.leader,
        m@.follower == m.follower,
        m@.update_leader == m.update_leader,
        m@.update_follower == m.update_follower,
        m@.election_is_running == m.election_is_running,
        m@.election_is_no_quorum == m.election_is_no_quorum,
        m@.election_is_finished == m.election_is_finished,
        m@.update_election_is_running == m.update_election_is_running,
        m@.update_election_is_no_quorum == m.update_election_is_no_quorum,
        m@.update_election_is_finished == m.update_election_is_finished,
        m@.initialized == m.initialized,
        m@.alive == m.alive,
        m@.suspect == m.suspect,
        m@.confirmed == m.confirmed,
        m@.persistent == m.persistent,
{
}

/// A service group, a package and a system read as their fields stand.
pub proof fn law_names_read_as_they_stand(sg: &ServiceGroup, pkg: &PackageIdent, sys: &SysInfo)
    ensures
        sg@.service == sg.service@,
        sg@.group == sg.group@,
        sg@.org is Some <==> sg.org is Some,
        sg.org is Some ==> sg@.org->0 == sg.org->0@,
        pkg@.origin == pkg.origin@,
        pkg@.name == pkg.name@,
        pkg@.version is Some <==> pkg.version is Some,
        pkg.version is Some ==> pkg@.version->0 == pkg.version->0@,
        pkg@.release is Some <==> pkg.release is Some,
        pkg.release is Some ==> pkg@.release->0 == pkg.release->0@,
        sys@.ip == sys.ip@,
        sys@.hostname == sys.hostname@,
        sys@.gossip_ip == sys.gossip_ip@,
        sys@.gossip_port == sys.gossip_port@,
        sys@.http_gateway_ip == sys.http_gateway_ip@,
        sys@.http_gateway_port == sys.http_gateway_port@,
{
}

/// An entry of the event stream reads as its fields stand.
pub proof fn law_entry_reads_as_it_stands(e: &CensusEntryProto)
    ensures
        e@.member_id == e.member_id@,
        e@.service == e.service@,
        e@.group == e.group@,
        e@.org == e.org@,
        e@.cfg == e.cfg@,
        e@.sys == e.sys@,
        e@.pkg is Some <==> e.pkg is Some,
        e.pkg is Some ==> {
            &&& e@.pkg->0.origin == e.pkg->0.origin@
            &&& e@.pkg->0.name == e.pkg->0.name@
            &&& e@.pkg->0.version == e.pkg->0.version@
            &&& e@.pkg->0.release == e.pkg->0.release@
        },
        e@.leader == e.leader,
        e@.follower == e.follower,
        e@.update_leader == e.update_leader,
        e@.update_follower == e.update_follower,
        e@.election_is_running == e.election_is_running,
        e@.election_is_no_quorum == e.election_is_no_quorum,
        e@.election_is_finished == e.election_is_finished,
        e@.update_election_is_running == e.update_election_is_running,
        e@.update_election_is_no_quorum == e.update_election_is_no_quorum,
        e@.update_election_is_finished == e.update_election_is_finished,
        e@.initialized == e.initialized,
        e@.alive == e.alive,
        e@.suspect == e.suspect,
        e@.confirmed == e.confirmed,
        e@.persistent == e.persistent,
{
}

/// Rumors, and members of the list, read as their fields stand.
pub proof fn law_rumors_read_as_they_stand(
    service: &ServiceRumor,
    election: &ElectionRumor,
    update_election: &ElectionUpdateRumor,
    member: &Member,
)
    ensures
        service@.member_id == service.member_id@,
        service@.pkg is Some <==> service.pkg is Some,
        service.pkg is Some ==> service@.pkg->0 == service.pkg->0@,
        service@.cfg == service.cfg@,
        service@.sys is Some <==> service.sys is Some,
        service.sys is Some ==> service@.sys->0 == service.sys->0@,
        election@.member_id == election.member_id@,
        election@.status == election.status,
        update_election@.member_id == update_election.member_id@,
        update_election@.status == update_election.status,
        member@.id == member.id@,
        member@.address == member.address@,
        member@.gossip_port == member.gossip_port,
{
}

/// A store of rumors reads as its keys stand, in their order, and each key as its rumors do.
pub proof fn law_store_reads_as_it_stands<T: View>(store: &RumorStore<T>, i: int, j: int)
    requires
        0 <= i < store.keys@.len(),
        0 <= j < store.keys@[i].rumors@.len(),
    ensures
        store@.update_counter == store.update_counter,
        store@.keys.len() == store.keys@.len(),
        store@.keys[i] == store.keys@[i]@,
        store.keys@[i]@.service_group is Some <==> store.keys@[i].service_group is Some,
        store.keys@[i].service_group is Some ==> store.keys@[i]@.service_group->0
            == store.keys@[i].service_group->0@,
        store.keys@[i]@.rumors.len() == store.keys@[i].rumors@.len(),
        store.keys@[i]@.rumors[j].0 == store.keys@[i].rumors@[j].0@,
        store.keys@[i]@.rumors[j].1 == store.keys@[i].rumors@[j].1@,
{
}

/// The list of members reads as its members stand, in their order.
pub proof fn law_list_reads_as_it_stands(list: &MemberList, i: int)
    requires
        0 <= i < list.members@.len(),
    ensures
        list@.update_counter == list.update_counter,
        list@.members.len() == list.members@.len(),
        list@.members[i].0 == list.members@[i].0@,
        list@.members[i].1 == list.members@[i].1,
{
}

/// A group reads as its fields stand.
pub proof fn law_group_reads_as_it_stands(g: &CensusGroup)
    ensures
        g@.service_group == g.service_group@,
        g@.election_status == g.election_status,
        g@.leader_id is Some <==> g.leader_id is Some,
        g.leader_id is Some ==> g@.leader_id->0 == g.leader_id->0@,
        g@.local_member_id == g.local_member_id@,
        g@.population == g.population@,
        g@.update_leader_id is Some <==> g.update_leader_id is Some,
        g.update_leader_id is Some ==> g@.update_leader_id->0 == g.update_leader_id->0@,
{
}

/// A well-formed census reads as its groups stand, each under its service group and in their
/// order, and as its notes do.
pub proof fn law_census_reads_as_it_stands(ring: &CensusRing)
    requires
        ring.wf(),
    ensures
        ring@.changed == ring.changed,
        ring@.local_member_id == ring.local_member_id@,
        ring@.last_service_counter == ring.last_service_counter,
        ring@.last_election_counter == ring.last_election_counter,
        ring@.last_election_update_counter == ring.last_election_update_counter,
        ring@.last_membership_counter == ring.last_membership_counter,
        ring@.order.len() == ring.census_groups@.len(),
        forall|i: int|
            0 <= i < ring.census_groups@.len() ==> {
                let g = #[trigger] ring.census_groups@[i];
                &&& ring@.order[i] == g.service_group@
                &&& ring@.groups.contains_key(g.service_group@)
                &&& ring@.groups[g.service_group@] == g@
            },
        forall|sg: crate::rumor::ServiceGroupView| #[trigger]
            ring@.groups.contains_key(sg) ==> exists|i: int|
                0 <= i < ring.census_groups@.len() && (
                #[trigger] ring.census_groups@[i]).service_group@ == sg,
{
    let s = crate::ring::group_list(ring.census_groups@);
    assert forall|i: int| 0 <= i < ring.census_groups@.len() implies ({
        let g = #[trigger] ring.census_groups@[i];
        &&& ring@.order[i] == g.service_group@
        &&& ring@.groups.contains_key(g.service_group@)
        &&& ring@.groups[g.service_group@] == g@
    }) by {
        crate::assoc::lemma_entry(s, i);
        assert(s[i] == (ring.census_groups@[i]@.service_group, ring.census_groups@[i]@));
    }
    assert forall|sg: crate::rumor::ServiceGroupView| #[trigger]
        ring@.groups.contains_key(sg) implies exists|i: int|
        0 <= i < ring.census_groups@.len() && (
        #[trigger] ring.census_groups@[i]).service_group@ == sg by {
        let i = crate::assoc::lemma_place(s, sg);
        assert(ring.census_groups@[i].service_group@ == sg);
    }
}

/// An optional text or identifier reads as what it holds.
pub proof fn law_options_read_as_they_stand(text: Option<String>, pkg: Option<PackageIdent>)
    ensures
        text is None ==> opt_text(text) is None,
        text is Some ==> opt_text(text) == Some(text->0@),
        pkg is None ==> opt_ident(pkg) is None,
        pkg is Some ==> opt_ident(pkg) == Some(pkg->0@),
{
}

/// A key of a store has an election exactly where it has a rumor under the identifier
/// `election`, and the election is the first such rumor.
pub proof fn law_election_of_a_key<V>(key: RumorKeyView<V>)
    ensures
        key.has_rumor(election_id()) <==> exists|j: int|
            0 <= j < key.rumors.len() && (#[trigger] key.rumors[j]).0 == "election"@,
        forall|j: int|
            0 <= j < key.rumors.len() && (#[trigger] key.rumors[j]).0 == "election"@ && (forall|
                k: int,
            |
                0 <= k < j ==> (#[trigger] key.rumors[k]).0 != "election"@) ==> key.rumor(
                election_id(),
            ) == key.rumors[j].1,
{
    assert forall|j: int|
        0 <= j < key.rumors.len() && (#[trigger] key.rumors[j]).0 == "election"@ && (forall|
            k: int,
        |
            0 <= k < j ==> (#[trigger] key.rumors[k]).0 != "election"@) implies key.rumor(
        election_id(),
    ) == key.rumors[j].1 by {
        assert(key.first_rumor_at(election_id(), j));
        let i = choose|i: int| key.first_rumor_at(election_id(), i);
        assert(i == j) by {
            if i < j {
                assert(key.rumors[i].0 == "election"@);
            } else if j < i {
                assert(key.rumors[j].0 == election_id());
            }
        }
    }
    if exists|j: int| 0 <= j < key.rumors.len() && (#[trigger] key.rumors[j]).0 == "election"@ {
        let j = choose|j: int|
            0 <= j < key.rumors.len() && (#[trigger] key.rumors[j]).0 == "election"@;
        lemma_first_rumor(key, j);
    }
}

proof fn lemma_first_rumor<V>(key: RumorKeyView<V>, j: int)
    requires
        0 <= j < key.rumors.len(),
        key.rumors[j].0 == election_id(),
    ensures
        key.has_rumor(election_id()),
    decreases j,
{
    if exists|k: int| 0 <= k < j && (#[trigger] key.rumors[k]).0 == election_id() {
        let k = choose|k: int| 0 <= k < j && (#[trigger] key.rumors[k]).0 == election_id();
        lemma_first_rumor(key, k);
    } else {
        assert(key.first_rumor_at(election_id(), j));
    }
}

/// The configuration of a document is its table, and has no entry where the document is
/// malformed.
pub proof fn law_malformed_configuration_is_empty(
    table: Option<Map<String, toml::value::Value>>,
)
    ensures
        table is Some ==> config_of(table) == table->0,
        table is None ==> config_of(table) == Map::<String, toml::value::Value>::empty(),
{
}

/// The order of text is that of the bytes of its encoding: what two texts have in common does
/// not count, and then the smaller byte comes first, and the end of a text before any byte.
pub proof fn law_order_of_text(a: Seq<char>, b: Seq<char>, k: int)
    requires
        0 <= k <= encode_utf8(a).len(),
        k <= encode_utf8(b).len(),
        encode_utf8(a).take(k) == encode_utf8(b).take(k),
    ensures
        k == encode_utf8(b).len() ==> !before(a, b),
        k == encode_utf8(a).len() && k < encode_utf8(b).len() ==> before(a, b),
        k < encode_utf8(a).len() && k < encode_utf8(b).len() && encode_utf8(a)[k]
            < encode_utf8(b)[k] ==> before(a, b) && !before(b, a),
        k < encode_utf8(a).len() && k < encode_utf8(b).len() && encode_utf8(a)[k]
            > encode_utf8(b)[k] ==> before(b, a) && !before(a, b),
{
    let (x, y) = (encode_utf8(a), encode_utf8(b));
    assert forall|i: int| 0 <= i < k implies x[i] == y[i] by {
        assert(x.take(k)[i] == y.take(k)[i]);
    }
    if k < y.len() && (k == x.len() || x[k] < y[k]) {
        assert(crate::text::first_at(x, y, k));
        crate::text::lemma_before_asymmetric(a, b);
    }
    if k < x.len() && k < y.len() && y[k] < x[k] {
        assert(crate::text::first_at(y, x, k));
        crate::text::lemma_before_asymmetric(b, a);
    }
    if k == y.len() && before(a, b) {
        let j = choose|j: int| crate::text::first_at(x, y, j);
        assert(x[j] == y[j]);
    }
}

/// What a decimal digit counts.
pub open spec fn digit_value(c: char) -> int {
    c as int - '0' as int
}

/// What a sequence of decimal digits counts.
pub open spec fn value(digits: Seq<char>) -> int
    decreases digits.len(),
{
    if digits.len() == 0 {
        0
    } else {
        10 * value(digits.drop_last()) + digit_value(digits.last())
    }
}

/// A numeral is made of decimal digits, does not start with a zero unless it is that of zero,
/// and counts the number it is of.
pub proof fn law_numeral_counts_its_number(n: nat)
    ensures
        value(numeral(n)) == n,
        numeral(n).len() > 0,
        forall|i: int| 0 <= i < numeral(n).len() ==> '0' <= #[trigger] numeral(n)[i] <= '9',
        n > 0 ==> numeral(n)[0] != '0',
        n == 0 ==> numeral(n).len() == 1,
    decreases n,
{
    if n < 10 {
        assert(numeral(n) == seq![digit(n)]);
        assert(seq![digit(n)].drop_last() =~= Seq::empty());
        assert(value(Seq::<char>::empty()) == 0);
        assert(numeral(n).last() == digit(n));
        assert(value(numeral(n)) == 10 * value(numeral(n).drop_last()) + digit_value(digit(n)));
    } else {
        law_numeral_counts_its_number(n / 10);
        assert(numeral(n).drop_last() =~= numeral(n / 10));
        assert(numeral(n).last() == digit(n % 10));
    }
}

/// The numeral of a number that is not negative is made of decimal digits, does not start with a
/// zero unless it is that of zero, and counts the number; that of a negative number is a minus
/// sign and the numeral of its size.
pub proof fn law_signed_numeral(n: int)
    ensures
        n >= 0 ==> {
            &&& value(signed_numeral(n)) == n
            &&& signed_numeral(n).len() > 0
            &&& forall|i: int|
                0 <= i < signed_numeral(n).len() ==> '0' <= #[trigger] signed_numeral(n)[i] <= '9'
            &&& n > 0 ==> signed_numeral(n)[0] != '0'
            &&& n == 0 ==> signed_numeral(n).len() == 1
        },
        n < 0 ==> signed_numeral(n) == seq!['-'] + signed_numeral(-n),
{
    if n >= 0 {
        law_numeral_counts_its_number(n as nat);
    }
}

} // verus!
