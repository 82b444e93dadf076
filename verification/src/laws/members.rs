//! What is heard about one member, and what the event stream is told of it.

use vstd::prelude::*;
use vstd::utf8::encode_utf8;

use crate::config::toml_table;
use crate::member::CensusMemberView;
use crate::rumor::{
    ElectionPhase, ElectionView, Health, MemberView, PackageIdentView, ServiceGroupView,
    ServiceRumorView, SysInfoView,
};

verus! {

/// What a member has said of itself.
pub struct Said {
    pub member_id: Seq<char>,
    pub service: Seq<char>,
    pub group: Seq<char>,
    pub org: Option<Seq<char>>,
    pub pkg: Option<PackageIdentView>,
    pub cfg: Map<String, toml::value::Value>,
    pub sys: SysInfoView,
}

/// What a member has said of itself.
pub open spec fn said(m: CensusMemberView) -> Said {
    Said {
        member_id: m.member_id,
        service: m.service,
        group: m.group,
        org: m.org,
        pkg: m.pkg,
        cfg: m.cfg,
        sys: m.sys,
    }
}

/// The part of a member in an election: whether it leads, whether it follows, and how far the
/// election has come. `None` where no election was heard of.
pub struct Part {
    pub leads: Option<bool>,
    pub follows: Option<bool>,
    pub running: Option<bool>,
    pub no_quorum: Option<bool>,
    pub finished: Option<bool>,
}

/// The part of a member in the election of the leader.
pub open spec fn part(m: CensusMemberView) -> Part {
    Part {
        leads: m.leader,
        follows: m.follower,
        running: m.election_is_running,
        no_quorum: m.election_is_no_quorum,
        finished: m.election_is_finished,
    }
}

/// The part of a member in the election of the update leader.
pub open spec fn update_part(m: CensusMemberView) -> Part {
    Part {
        leads: m.update_leader,
        follows: m.update_follower,
        running: m.update_election_is_running,
        no_quorum: m.update_election_is_no_quorum,
        finished: m.update_election_is_finished,
    }
}

/// The part of a member that heard of no election.
pub open spec fn no_part() -> Part {
    Part { leads: None, follows: None, running: None, no_quorum: None, finished: None }
}

/// The part that an election gives to a member of this name: how far it has come does not
/// depend on the member; of a finished one the member that it names leads and all others
/// follow; of any other nobody does either.
pub open spec fn part_in(phase: ElectionPhase, elected: Seq<char>, name: Seq<char>) -> Part {
    Part {
        leads: Some(phase is Finished && name == elected),
        follows: Some(phase is Finished && name != elected),
        running: Some(phase is Running),
        no_quorum: Some(phase is NoQuorum),
        finished: Some(phase is Finished),
    }
}

/// How a member fares.
pub struct Fare {
    pub alive: Option<bool>,
    pub suspect: Option<bool>,
    pub confirmed: Option<bool>,
}

/// How a member fares.
pub open spec fn fare(m: CensusMemberView) -> Fare {
    Fare { alive: m.alive, suspect: m.suspect, confirmed: m.confirmed }
}

/// How a member fares whose health was not heard.
pub open spec fn no_fare() -> Fare {
    Fare { alive: None, suspect: None, confirmed: None }
}

/// What a table of TOML stands for: nothing where there is none.
pub open spec fn entries(table: Option<Map<String, toml::value::Value>>) -> Map<
    String,
    toml::value::Value,
> {
    if table is Some {
        table->0
    } else {
        Map::empty()
    }
}

/// Of a member that nothing was heard of there is no part in elections, no health, no name.
pub proof fn law_nothing_is_known_at_first()
    ensures
        ({
            let m = CensusMemberView::unknown();
            &&& part(m) == no_part()
            &&& update_part(m) == no_part()
            &&& fare(m) == no_fare()
            &&& m.persistent is None
            &&& m.initialized is None
            &&& m.member_id.len() == 0
            &&& m.service.len() == 0
            &&& m.group.len() == 0
            &&& m.org is None
            &&& m.pkg is None
            &&& m.cfg == Map::<String, toml::value::Value>::empty()
            &&& m.sys.ip.len() == 0
            &&& m.sys.hostname.len() == 0
            &&& m.sys.gossip_ip.len() == 0
            &&& m.sys.gossip_port.len() == 0
            &&& m.sys.http_gateway_ip.len() == 0
            &&& m.sys.http_gateway_port.len() == 0
        }),
{
}

/// A service rumor is about the service alone. The member is what the rumor says; an
/// organization and a package that it leaves open stay as they were. Elections, health, and
/// what the list of members knows are not touched.
pub proof fn law_service_rumor_is_about_the_service(
    m: CensusMemberView,
    sg: ServiceGroupView,
    rumor: ServiceRumorView,
)
    ensures
        ({
            let after = m.with_service_rumor(sg, rumor);
            &&& after.member_id == rumor.member_id
            &&& after.service == sg.service
            &&& after.group == sg.group
            &&& sg.org is Some ==> after.org == sg.org
            &&& sg.org is None ==> after.org == m.org
            &&& rumor.pkg is Some ==> after.pkg == rumor.pkg
            &&& rumor.pkg is None ==> after.pkg == m.pkg
            &&& after.cfg == entries(toml_table(rumor.cfg))
            &&& rumor.sys matches Some(sys) ==> after.sys == sys
            &&& rumor.sys is None ==> {
                &&& after.sys.ip.len() == 0
                &&& after.sys.hostname.len() == 0
                &&& after.sys.gossip_ip.len() == 0
                &&& after.sys.gossip_port.len() == 0
                &&& after.sys.http_gateway_ip.len() == 0
                &&& after.sys.http_gateway_port.len() == 0
            }
            &&& part(after) == part(m)
            &&& update_part(after) == update_part(m)
            &&& fare(after) == fare(m)
            &&& after.persistent == m.persistent
            &&& after.initialized == m.initialized
        }),
{
}

/// To hear the same service rumor again changes nothing, and of two rumors that both give an
/// organization and a package only the last counts.
pub proof fn law_last_service_rumor_counts(
    m: CensusMemberView,
    sg: ServiceGroupView,
    first: ServiceRumorView,
    last: ServiceRumorView,
)
    ensures
        m.with_service_rumor(sg, last).with_service_rumor(sg, last) == m.with_service_rumor(
            sg,
            last,
        ),
        last.pkg is Some ==> m.with_service_rumor(sg, first).with_service_rumor(sg, last)
            == m.with_service_rumor(sg, last),
{
}

/// An election gives every member its part, the same phase to all of them, and touches nothing
/// else of them.
pub proof fn law_election_gives_the_part(m: CensusMemberView, election: ElectionView)
    ensures
        ({
            let after = m.with_election(election);
            &&& part(after) == part_in(election.status, election.member_id, m.member_id)
            &&& said(after) == said(m)
            &&& update_part(after) == update_part(m)
            &&& fare(after) == fare(m)
            &&& after.persistent == m.persistent
            &&& after.initialized == m.initialized
        }),
{
}

/// What `law_election_gives_the_part` says of elections holds of update elections too.
pub proof fn law_update_election_gives_the_part(m: CensusMemberView, election: ElectionView)
    ensures
        ({
            let after = m.with_update_election(election);
            &&& update_part(after) == part_in(election.status, election.member_id, m.member_id)
            &&& said(after) == said(m)
            &&& part(after) == part(m)
            &&& fare(after) == fare(m)
            &&& after.persistent == m.persistent
            &&& after.initialized == m.initialized
        }),
{
}

/// The health that was heard last is the one that is noted, whatever was noted before, and
/// nothing else is touched.
pub proof fn law_health_is_noted(m: CensusMemberView, health: Health)
    ensures
        ({
            let after = m.with_health(health);
            &&& after.alive == Some(health is Alive)
            &&& after.suspect == Some(health is Suspect)
            &&& after.confirmed == Some(health is Confirmed)
            &&& said(after) == said(m)
            &&& part(after) == part(m)
            &&& update_part(after) == update_part(m)
            &&& after.persistent == m.persistent
            &&& after.initialized == m.initialized
        }),
{
}

/// The list of members gives the gossip address and makes the member persistent; nothing else
/// is touched.
pub proof fn law_list_gives_the_address(m: CensusMemberView, member: MemberView)
    ensures
        ({
            let after = m.with_member(member);
            &&& after.persistent == Some(true)
            &&& after.sys == (SysInfoView {
                gossip_ip: member.address,
                gossip_port: crate::text::signed_numeral(member.gossip_port),
                ..m.sys
            })
            &&& said(after) == (Said { sys: after.sys, ..said(m) })
            &&& part(after) == part(m)
            &&& update_part(after) == update_part(m)
            &&& fare(after) == fare(m)
            &&& after.initialized == m.initialized
        }),
{
}

/// The event stream is told what is noted of a member: each of its flags is set exactly where
/// the note of that name says yes, texts are told as they are, and empty where there is none.
pub proof fn law_event_tells_what_is_noted(m: CensusMemberView, text: Seq<char>)
    ensures
        ({
            let told = m.entry(text);
            &&& told.member_id == m.member_id
            &&& told.service == m.service
            &&& told.group == m.group
            &&& m.org is Some ==> told.org == m.org->0
            &&& m.org is None ==> told.org.len() == 0
            &&& told.cfg == encode_utf8(text)
            &&& told.sys == m.sys
            &&& told.pkg is Some <==> m.pkg is Some
            &&& m.pkg matches Some(pkg) ==> {
                &&& told.pkg->0.origin == pkg.origin
                &&& told.pkg->0.name == pkg.name
                &&& pkg.version is Some ==> told.pkg->0.version == pkg.version->0
                &&& pkg.version is None ==> told.pkg->0.version.len() == 0
                &&& pkg.release is Some ==> told.pkg->0.release == pkg.release->0
                &&& pkg.release is None ==> told.pkg->0.release.len() == 0
            }
            &&& told.leader <==> m.leader == Some(true)
            &&& told.follower <==> m.follower == Some(true)
            &&& told.update_leader <==> m.update_leader == Some(true)
            &&& told.update_follower <==> m.update_follower == Some(true)
            &&& told.election_is_running <==> m.election_is_running == Some(true)
            &&& told.election_is_no_quorum <==> m.election_is_no_quorum == Some(true)
            &&& told.election_is_finished <==> m.election_is_finished == Some(true)
            &&& told.update_election_is_running <==> m.update_election_is_running == Some(true)
            &&& told.update_election_is_no_quorum <==> m.update_election_is_no_quorum == Some(true)
            &&& told.update_election_is_finished <==> m.update_election_is_finished == Some(true)
            &&& told.initialized <==> m.initialized == Some(true)
            &&& told.alive <==> m.alive == Some(true)
            &&& told.suspect <==> m.suspect == Some(true)
            &&& told.confirmed <==> m.confirmed == Some(true)
            &&& told.persistent <==> m.persistent == Some(true)
        }),
{
}

/// The event stream is told the health that was heard last: alive of a member that is alive,
/// suspect of one that is suspected, confirmed of one whose death is confirmed, and never two of
/// these.
pub proof fn law_event_tells_the_health(m: CensusMemberView, health: Health, text: Seq<char>)
    ensures
        ({
            let told = m.with_health(health).entry(text);
            &&& told.alive <==> health is Alive
            &&& told.suspect <==> health is Suspect
            &&& told.confirmed <==> health is Confirmed
        }),
{
}

/// The event stream is told of the last election of a leader and of the last one of an update
/// leader, each under its own flags: how far it has come, and whether the member has won it or
/// lost it.
pub proof fn law_event_tells_the_elections(
    m: CensusMemberView,
    election: ElectionView,
    update_election: ElectionView,
    text: Seq<char>,
)
    ensures
        ({
            let told = m.with_election(election).with_update_election(update_election).entry(text);
            &&& told.election_is_running <==> election.status is Running
            &&& told.election_is_no_quorum <==> election.status is NoQuorum
            &&& told.election_is_finished <==> election.status is Finished
            &&& told.leader <==> election.status is Finished && election.member_id == m.member_id
            &&& told.follower <==> election.status is Finished && election.member_id
                != m.member_id
            &&& told.update_election_is_running <==> update_election.status is Running
            &&& told.update_election_is_no_quorum <==> update_election.status is NoQuorum
            &&& told.update_election_is_finished <==> update_election.status is Finished
            &&& told.update_leader <==> update_election.status is Finished
                && update_election.member_id == m.member_id
            &&& told.update_follower <==> update_election.status is Finished
                && update_election.member_id != m.member_id
        }),
{
}

/// The event stream is told of a member found in the list that it is persistent, and its
/// address.
pub proof fn law_event_tells_the_address(m: CensusMemberView, member: MemberView, text: Seq<char>)
    ensures
        ({
            let told = m.with_member(member).entry(text);
            &&& told.persistent
            &&& told.sys.gossip_ip == member.address
            &&& told.sys.gossip_port == crate::text::signed_numeral(member.gossip_port)
            &&& told.sys.ip == m.sys.ip
            &&& told.sys.hostname == m.sys.hostname
            &&& told.sys.http_gateway_ip == m.sys.http_gateway_ip
            &&& told.sys.http_gateway_port == m.sys.http_gateway_port
        }),
{
}

/// The event stream is told of a service rumor what it says.
pub proof fn law_event_tells_the_service(
    m: CensusMemberView,
    sg: ServiceGroupView,
    rumor: ServiceRumorView,
    text: Seq<char>,
)
    ensures
        ({
            let told = m.with_service_rumor(sg, rumor).entry(text);
            &&& told.member_id == rumor.member_id
            &&& told.service == sg.service
            &&& told.group == sg.group
            &&& sg.org matches Some(org) ==> told.org == org
            &&& rumor.pkg matches Some(pkg) ==> told.pkg is Some && told.pkg->0.origin
                == pkg.origin && told.pkg->0.name == pkg.name
            &&& rumor.sys matches Some(sys) ==> told.sys == sys
        }),
{
}

} // verus!
