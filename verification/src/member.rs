//! A member of a service group, as the census knows it.

use vstd::prelude::*;
use vstd::utf8::encode_utf8;

use crate::config::{read_config, write_toml};
use crate::event::{CensusEntryProto, PackageIdentProto};
use crate::rumor::{
    copy_opt_text, opt_ident, opt_text, ElectionPhase, ElectionRumor, ElectionUpdateRumor, Health,
    Member, PackageIdent, ServiceGroup, ServiceRumor, SysInfo,
};
use crate::text::number_text;

verus! {

/// A member of a service group: who it is, what it runs, what the elections made of it,
/// and how it fares. `None` stands for what nothing was heard of.
#[derive(Debug, Clone, PartialEq)]
pub struct CensusMember {
    pub member_id: String,
    pub pkg: Option<PackageIdent>,
    pub service: String,
    pub group: String,
    pub org: Option<String>,
    pub cfg: toml::value::Table,
    pub sys: SysInfo,
    pub leader: Option<bool>,
    pub follower: Option<bool>,
    pub update_leader: Option<bool>,
    pub update_follower: Option<bool>,
    pub election_is_running: Option<bool>,
    pub election_is_no_quorum: Option<bool>,
    pub election_is_finished: Option<bool>,
    pub update_election_is_running: Option<bool>,
    pub update_election_is_no_quorum: Option<bool>,
    pub update_election_is_finished: Option<bool>,
    pub initialized: Option<bool>,
    pub alive: Option<bool>,
    pub suspect: Option<bool>,
    pub confirmed: Option<bool>,
    pub persistent: Option<bool>,
}

pub struct CensusMemberView {
    pub member_id: Seq<char>,
    pub pkg: Option<crate::rumor::PackageIdentView>,
    pub service: Seq<char>,
    pub group: Seq<char>,
    pub org: Option<Seq<char>>,
    pub cfg: Map<String, toml::value::Value>,
    pub sys: crate::rumor::SysInfoView,
    pub leader: Option<bool>,
    pub follower: Option<bool>,
    pub update_leader: Option<bool>,
    pub update_follower: Option<bool>,
    pub election_is_running: Option<bool>,
    pub election_is_no_quorum: Option<bool>,
    pub election_is_finished: Option<bool>,
    pub update_election_is_running: Option<bool>,
    pub update_election_is_no_quorum: Option<bool>,
    pub update_election_is_finished: Option<bool>,
    pub initialized: Option<bool>,
    pub alive: Option<bool>,
    pub suspect: Option<bool>,
    pub confirmed: Option<bool>,
    pub persistent: Option<bool>,
}

impl View for CensusMember {
    type V = CensusMemberView;

    open spec fn view(&self) -> CensusMemberView {
        CensusMemberView {
            member_id: self.member_id@,
            pkg: opt_ident(self.pkg),
            service: self.service@,
            group: self.group@,
            org: opt_text(self.org),
            cfg: self.cfg@,
            sys: self.sys@,
            leader: self.leader,
            follower: self.follower,
            update_leader: self.update_leader,
            update_follower: self.update_follower,
            election_is_running: self.election_is_running,
            election_is_no_quorum: self.election_is_no_quorum,
            election_is_finished: self.election_is_finished,
            update_election_is_running: self.update_election_is_running,
            update_election_is_no_quorum: self.update_election_is_no_quorum,
            update_election_is_finished: self.update_election_is_finished,
            initialized: self.initialized,
            alive: self.alive,
            suspect: self.suspect,
            confirmed: self.confirmed,
            persistent: self.persistent,
        }
    }
}

/// Empty text for what is left open.
pub open spec fn text_or_empty(text: Option<Seq<char>>) -> Seq<char> {
    match text {
        Some(t) => t,
        None => Seq::empty(),
    }
}

/// How the event stream is told of a package.
pub open spec fn package_entry(
    ident: crate::rumor::PackageIdentView,
) -> crate::event::PackageIdentProtoView {
    crate::event::PackageIdentProtoView {
        origin: ident.origin,
        name: ident.name,
        version: text_or_empty(ident.version),
        release: text_or_empty(ident.release),
    }
}

impl CensusMemberView {
    /// A member of which nothing was heard yet.
    pub open spec fn unknown() -> CensusMemberView {
        CensusMemberView {
            member_id: Seq::empty(),
            pkg: None,
            service: Seq::empty(),
            group: Seq::empty(),
            org: None,
            cfg: Map::empty(),
            sys: crate::rumor::SysInfoView::unknown(),
            leader: None,
            follower: None,
            update_leader: None,
            update_follower: None,
            election_is_running: None,
            election_is_no_quorum: None,
            election_is_finished: None,
            update_election_is_running: None,
            update_election_is_no_quorum: None,
            update_election_is_finished: None,
            initialized: None,
            alive: None,
            suspect: None,
            confirmed: None,
            persistent: None,
        }
    }

    /// The member after it announced a service, given the configuration that its document
    /// stands for. An organization and a package, once heard, are only replaced, never lost.
    pub open spec fn with_service(
        self,
        sg: crate::rumor::ServiceGroupView,
        rumor: crate::rumor::ServiceRumorView,
        cfg: Map<String, toml::value::Value>,
    ) -> CensusMemberView {
        CensusMemberView {
            member_id: rumor.member_id,
            service: sg.service,
            group: sg.group,
            org: if sg.org is Some {
                sg.org
            } else {
                self.org
            },
            pkg: if rumor.pkg is Some {
                rumor.pkg
            } else {
                self.pkg
            },
            cfg: cfg,
            sys: match rumor.sys {
                Some(sys) => sys,
                None => crate::rumor::SysInfoView::unknown(),
            },
            ..self
        }
    }

    /// The member after it announced a service.
    pub open spec fn with_service_rumor(
        self,
        sg: crate::rumor::ServiceGroupView,
        rumor: crate::rumor::ServiceRumorView,
    ) -> CensusMemberView {
        self.with_service(
            sg,
            rumor,
            crate::config::config_of(crate::config::toml_table(rumor.cfg)),
        )
    }

    /// The member after an election of a leader.
    pub open spec fn with_election(
        self,
        election: crate::rumor::ElectionView,
    ) -> CensusMemberView {
        CensusMemberView {
            leader: Some(election.won_by(self.member_id)),
            follower: Some(
                election.status == ElectionPhase::Finished && !election.won_by(self.member_id),
            ),
            election_is_running: Some(election.status == ElectionPhase::Running),
            election_is_no_quorum: Some(election.status == ElectionPhase::NoQuorum),
            election_is_finished: Some(election.status == ElectionPhase::Finished),
            ..self
        }
    }

    /// The member after an election of an update leader.
    pub open spec fn with_update_election(
        self,
        election: crate::rumor::ElectionView,
    ) -> CensusMemberView {
        CensusMemberView {
            update_leader: Some(election.won_by(self.member_id)),
            update_follower: Some(
                election.status == ElectionPhase::Finished && !election.won_by(self.member_id),
            ),
            update_election_is_running: Some(election.status == ElectionPhase::Running),
            update_election_is_no_quorum: Some(election.status == ElectionPhase::NoQuorum),
            update_election_is_finished: Some(election.status == ElectionPhase::Finished),
            ..self
        }
    }

    /// The member after it was found in the list of members.
    pub open spec fn with_member(self, member: crate::rumor::MemberView) -> CensusMemberView {
        CensusMemberView {
            sys: crate::rumor::SysInfoView {
                gossip_ip: member.address,
                gossip_port: crate::text::signed_numeral(member.gossip_port),
                ..self.sys
            },
            persistent: Some(true),
            ..self
        }
    }

    /// The member after its health was heard.
    pub open spec fn with_health(self, health: Health) -> CensusMemberView {
        CensusMemberView {
            alive: Some(health == Health::Alive),
            suspect: Some(health == Health::Suspect),
            confirmed: Some(health == Health::Confirmed),
            ..self
        }
    }

    /// How the event stream is told of the member, given the text of its configuration.
    pub open spec fn entry(self, cfg_text: Seq<char>) -> crate::event::CensusEntryProtoView {
        crate::event::CensusEntryProtoView {
            member_id: self.member_id,
            service: self.service,
            group: self.group,
            org: text_or_empty(self.org),
            cfg: encode_utf8(cfg_text),
            sys: self.sys,
            pkg: match self.pkg {
                Some(ident) => Some(package_entry(ident)),
                None => None,
            },
            leader: self.leader == Some(true),
            follower: self.follower == Some(true),
            update_leader: self.update_leader == Some(true),
            update_follower: self.update_follower == Some(true),
            election_is_running: self.election_is_running == Some(true),
            election_is_no_quorum: self.election_is_no_quorum == Some(true),
            election_is_finished: self.election_is_finished == Some(true),
            update_election_is_running: self.update_election_is_running == Some(true),
            update_election_is_no_quorum: self.update_election_is_no_quorum == Some(true),
            update_election_is_finished: self.update_election_is_finished == Some(true),
            initialized: self.initialized == Some(true),
            alive: self.alive == Some(true),
            suspect: self.suspect == Some(true),
            confirmed: self.confirmed == Some(true),
            persistent: self.persistent == Some(true),
        }
    }
}

fn text_or_new(text: &Option<String>) -> (r: String)
    ensures
        r@ == text_or_empty(opt_text(*text)),
        *text is None ==> r@.len() == 0,
        *text matches Some(t) ==> r@ == t@,
{
    match text {
        Some(t) => t.clone(),
        None => String::new(),
    }
}

impl Default for CensusMember {
    fn default() -> (r: Self)
        ensures
            r@ == CensusMemberView::unknown(),
            r.member_id@.len() == 0,
            r.service@.len() == 0,
            r.group@.len() == 0,
            r.pkg is None,
            r.org is None,
            r.cfg@ == Map::<String, toml::value::Value>::empty(),
            r.sys.ip@.len() == 0,
            r.sys.hostname@.len() == 0,
            r.sys.gossip_ip@.len() == 0,
            r.sys.gossip_port@.len() == 0,
            r.sys.http_gateway_ip@.len() == 0,
            r.sys.http_gateway_port@.len() == 0,
            r.leader is None,
            r.follower is None,
            r.update_leader is None,
            r.update_follower is None,
            r.election_is_running is None,
            r.election_is_no_quorum is None,
            r.election_is_finished is None,
            r.update_election_is_running is None,
            r.update_election_is_no_quorum is None,
            r.update_election_is_finished is None,
            r.initialized is None,
            r.alive is None,
            r.suspect is None,
            r.confirmed is None,
            r.persistent is None,
    {
        CensusMember {
            member_id: String::new(),
            pkg: None,
            service: String::new(),
            group: String::new(),
            org: None,
            cfg: toml::value::Table::new(),
            sys: SysInfo::default(),
            leader: None,
            follower: None,
            update_leader: None,
            update_follower: None,
            election_is_running: None,
            election_is_no_quorum: None,
            election_is_finished: None,
            update_election_is_running: None,
            update_election_is_no_quorum: None,
            update_election_is_finished: None,
            initialized: None,
            alive: None,
            suspect: None,
            confirmed: None,
            persistent: None,
        }
    }
}

impl CensusMember {
    /// How the event stream is told of this member. The configuration must have a TOML text:
    /// a table whose entries are such that `toml::to_string` refuses them has none.
    pub fn as_protobuf(&self) -> (r: CensusEntryProto)
        requires
            crate::config::toml_text(self@.cfg) is Some,
        ensures
            r@ == self@.entry(crate::config::toml_text(self@.cfg)->0),
            r.member_id@ == self.member_id@,
            r.service@ == self.service@,
            r.group@ == self.group@,
            self.org is None ==> r.org@.len() == 0,
            self.org matches Some(org) ==> r.org@ == org@,
            r.cfg@ == encode_utf8(crate::config::toml_text(self.cfg@)->0),
            r.sys.ip@ == self.sys.ip@,
            r.sys.hostname@ == self.sys.hostname@,
            r.sys.gossip_ip@ == self.sys.gossip_ip@,
            r.sys.gossip_port@ == self.sys.gossip_port@,
            r.sys.http_gateway_ip@ == self.sys.http_gateway_ip@,
            r.sys.http_gateway_port@ == self.sys.http_gateway_port@,
            r.pkg is Some <==> self.pkg is Some,
            self.pkg matches Some(pkg) ==> r.pkg->0.origin@ == pkg.origin@,
            self.pkg matches Some(pkg) ==> r.pkg->0.name@ == pkg.name@,
            self.pkg matches Some(pkg) ==> (pkg.version is None ==> r.pkg->0.version@.len() == 0),
            self.pkg matches Some(pkg) ==> (pkg.version matches Some(version) ==> r.pkg->0.version@
                == version@),
            self.pkg matches Some(pkg) ==> (pkg.release is None ==> r.pkg->0.release@.len() == 0),
            self.pkg matches Some(pkg) ==> (pkg.release matches Some(release) ==> r.pkg->0.release@
                == release@),
            r.leader == (self.leader == Some(true)),
            r.follower == (self.follower == Some(true)),
            r.update_leader == (self.update_leader == Some(true)),
            r.update_follower == (self.update_follower == Some(true)),
            r.election_is_running == (self.election_is_running == Some(true)),
            r.election_is_no_quorum == (self.election_is_no_quorum == Some(true)),
            r.election_is_finished == (self.election_is_finished == Some(true)),
            r.update_election_is_running == (self.update_election_is_running == Some(true)),
            r.update_election_is_no_quorum == (self.update_election_is_no_quorum == Some(true)),
            r.update_election_is_finished == (self.update_election_is_finished == Some(true)),
            r.initialized == (self.initialized == Some(true)),
            r.alive == (self.alive == Some(true)),
            r.suspect == (self.suspect == Some(true)),
            r.confirmed == (self.confirmed == Some(true)),
            r.persistent == (self.persistent == Some(true)),
    {
        let cfg_text = write_toml(&self.cfg).unwrap();
        self.as_protobuf_with(cfg_text)
    }

    /// How the event stream is told of this member, `None` where its configuration has no
    /// TOML text.
    pub fn try_as_protobuf(&self) -> (r: Option<CensusEntryProto>)
        ensures
            r is Some <==> crate::config::toml_text(self@.cfg) is Some,
            r matches Some(entry) ==> entry@ == self@.entry(
                crate::config::toml_text(self@.cfg)->0,
            ),
            r matches Some(entry) ==> {
                &&& entry.member_id@ == self.member_id@
                &&& entry.service@ == self.service@
                &&& entry.group@ == self.group@
                &&& self.org is None ==> entry.org@.len() == 0
                &&& self.org matches Some(org) ==> entry.org@ == org@
                &&& entry.cfg@ == encode_utf8(crate::config::toml_text(self.cfg@)->0)
                &&& entry.sys.ip@ == self.sys.ip@
                &&& entry.sys.hostname@ == self.sys.hostname@
                &&& entry.sys.gossip_ip@ == self.sys.gossip_ip@
                &&& entry.sys.gossip_port@ == self.sys.gossip_port@
                &&& entry.sys.http_gateway_ip@ == self.sys.http_gateway_ip@
                &&& entry.sys.http_gateway_port@ == self.sys.http_gateway_port@
                &&& entry.pkg is Some <==> self.pkg is Some
                &&& self.pkg matches Some(pkg) ==> entry.pkg->0.origin@ == pkg.origin@
                &&& self.pkg matches Some(pkg) ==> entry.pkg->0.name@ == pkg.name@
                &&& self.pkg matches Some(pkg) ==> (pkg.version is None ==> entry.pkg->0.version@.len() == 0)
                &&& self.pkg matches Some(pkg) ==> (pkg.version matches Some(version) ==> entry.pkg->0.version@
                        == version@)
                &&& self.pkg matches Some(pkg) ==> (pkg.release is None ==> entry.pkg->0.release@.len() == 0)
                &&& self.pkg matches Some(pkg) ==> (pkg.release matches Some(release) ==> entry.pkg->0.release@
                        == release@)
                &&& entry.leader == (self.leader == Some(true))
                &&& entry.follower == (self.follower == Some(true))
                &&& entry.update_leader == (self.update_leader == Some(true))
                &&& entry.update_follower == (self.update_follower == Some(true))
                &&& entry.election_is_running == (self.election_is_running == Some(true))
                &&& entry.election_is_no_quorum == (self.election_is_no_quorum == Some(true))
                &&& entry.election_is_finished == (self.election_is_finished == Some(true))
                &&& entry.update_election_is_running == (self.update_election_is_running == Some(true))
                &&& entry.update_election_is_no_quorum == (self.update_election_is_no_quorum == Some(true))
                &&& entry.update_election_is_finished == (self.update_election_is_finished == Some(true))
                &&& entry.initialized == (self.initialized == Some(true))
                &&& entry.alive == (self.alive == Some(true))
                &&& entry.suspect == (self.suspect == Some(true))
                &&& entry.confirmed == (self.confirmed == Some(true))
                &&& entry.persistent == (self.persistent == Some(true))
            },
    {
        match write_toml(&self.cfg) {
            Ok(_) => Some(self.as_protobuf()),
            Err(_) => None,
        }
    }

    /// How the event stream is told of this member, given the text of its configuration.
    #[verifier::rlimit(30)]
    pub fn as_protobuf_with(&self, cfg_text: String) -> (r: CensusEntryProto)
        ensures
            r@ == self@.entry(cfg_text@),
            r.member_id@ == self.member_id@,
            r.service@ == self.service@,
            r.group@ == self.group@,
            self.org is None ==> r.org@.len() == 0,
            self.org matches Some(org) ==> r.org@ == org@,
            r.cfg@ == encode_utf8(cfg_text@),
            r.sys.ip@ == self.sys.ip@,
            r.sys.hostname@ == self.sys.hostname@,
            r.sys.gossip_ip@ == self.sys.gossip_ip@,
            r.sys.gossip_port@ == self.sys.gossip_port@,
            r.sys.http_gateway_ip@ == self.sys.http_gateway_ip@,
            r.sys.http_gateway_port@ == self.sys.http_gateway_port@,
            r.pkg is Some <==> self.pkg is Some,
            self.pkg matches Some(pkg) ==> r.pkg->0.origin@ == pkg.origin@,
            self.pkg matches Some(pkg) ==> r.pkg->0.name@ == pkg.name@,
            self.pkg matches Some(pkg) ==> (pkg.version is None ==> r.pkg->0.version@.len() == 0),
            self.pkg matches Some(pkg) ==> (pkg.version matches Some(version) ==> r.pkg->0.version@
                == version@),
            self.pkg matches Some(pkg) ==> (pkg.release is None ==> r.pkg->0.release@.len() == 0),
            self.pkg matches Some(pkg) ==> (pkg.release matches Some(release) ==> r.pkg->0.release@
                == release@),
            r.leader == (self.leader == Some(true)),
            r.follower == (self.follower == Some(true)),
            r.update_leader == (self.update_leader == Some(true)),
            r.update_follower == (self.update_follower == Some(true)),
            r.election_is_running == (self.election_is_running == Some(true)),
            r.election_is_no_quorum == (self.election_is_no_quorum == Some(true)),
            r.election_is_finished == (self.election_is_finished == Some(true)),
            r.update_election_is_running == (self.update_election_is_running == Some(true)),
            r.update_election_is_no_quorum == (self.update_election_is_no_quorum == Some(true)),
            r.update_election_is_finished == (self.update_election_is_finished == Some(true)),
            r.initialized == (self.initialized == Some(true)),
            r.alive == (self.alive == Some(true)),
            r.suspect == (self.suspect == Some(true)),
            r.confirmed == (self.confirmed == Some(true)),
            r.persistent == (self.persistent == Some(true)),
    {
        let pkg = match &self.pkg {
            Some(ident) => Some(
                PackageIdentProto {
                    origin: ident.origin.clone(),
                    name: ident.name.clone(),
                    version: text_or_new(&ident.version),
                    release: text_or_new(&ident.release),
                },
            ),
            None => None,
        };
        CensusEntryProto {
            member_id: self.member_id.clone(),
            service: self.service.clone(),
            group: self.group.clone(),
            org: text_or_new(&self.org),
            cfg: cfg_text.as_str().as_bytes_vec(),
            sys: self.sys.clone(),
            pkg,
            leader: self.leader.unwrap_or(false),
            follower: self.follower.unwrap_or(false),
            update_leader: self.update_leader.unwrap_or(false),
            update_follower: self.update_follower.unwrap_or(false),
            election_is_running: self.election_is_running.unwrap_or(false),
            election_is_no_quorum: self.election_is_no_quorum.unwrap_or(false),
            election_is_finished: self.election_is_finished.unwrap_or(false),
            update_election_is_running: self.update_election_is_running.unwrap_or(false),
            update_election_is_no_quorum: self.update_election_is_no_quorum.unwrap_or(false),
            update_election_is_finished: self.update_election_is_finished.unwrap_or(false),
            initialized: self.initialized.unwrap_or(false),
            alive: self.alive.unwrap_or(false),
            suspect: self.suspect.unwrap_or(false),
            confirmed: self.confirmed.unwrap_or(false),
            persistent: self.persistent.unwrap_or(false),
        }
    }

    /// Takes up that the member announced a service.
    pub fn update_from_service_rumor(&mut self, sg: &ServiceGroup, rumor: &ServiceRumor)
        ensures
            final(self)@ == old(self)@.with_service_rumor(sg@, rumor@),
            *final(self) == (CensusMember {
                member_id: final(self).member_id,
                service: final(self).service,
                group: final(self).group,
                org: final(self).org,
                pkg: final(self).pkg,
                cfg: final(self).cfg,
                sys: final(self).sys,
                ..*old(self)
            }),
            final(self).member_id@ == rumor.member_id@,
            final(self).service@ == sg.service@,
            final(self).group@ == sg.group@,
            sg.org is None ==> final(self).org == old(self).org,
            sg.org matches Some(org) ==> final(self).org is Some && final(self).org->0@ == org@,
            rumor.pkg is None ==> final(self).pkg == old(self).pkg,
            rumor.pkg matches Some(pkg) ==> {
                &&& final(self).pkg is Some
                &&& final(self).pkg->0.origin@ == pkg.origin@
                &&& final(self).pkg->0.name@ == pkg.name@
                &&& final(self).pkg->0.version is Some <==> pkg.version is Some
                &&& pkg.version matches Some(version) ==> final(self).pkg->0.version->0@ == version@
                &&& final(self).pkg->0.release is Some <==> pkg.release is Some
                &&& pkg.release matches Some(release) ==> final(self).pkg->0.release->0@ == release@
            },
            crate::config::toml_table(rumor.cfg@) matches Some(table) ==> final(self).cfg@ == table,
            crate::config::toml_table(rumor.cfg@) is None ==> final(self).cfg@ == Map::<
                String,
                toml::value::Value,
            >::empty(),
            rumor.sys matches Some(sys) ==> {
                &&& final(self).sys.ip@ == sys.ip@
                &&& final(self).sys.hostname@ == sys.hostname@
                &&& final(self).sys.gossip_ip@ == sys.gossip_ip@
                &&& final(self).sys.gossip_port@ == sys.gossip_port@
                &&& final(self).sys.http_gateway_ip@ == sys.http_gateway_ip@
                &&& final(self).sys.http_gateway_port@ == sys.http_gateway_port@
            },
            rumor.sys is None ==> {
                &&& final(self).sys.ip@.len() == 0
                &&& final(self).sys.hostname@.len() == 0
                &&& final(self).sys.gossip_ip@.len() == 0
                &&& final(self).sys.gossip_port@.len() == 0
                &&& final(self).sys.http_gateway_ip@.len() == 0
                &&& final(self).sys.http_gateway_port@.len() == 0
            },
    {
        let cfg = read_config(rumor.cfg.as_slice());
        self.update_from_service(sg, rumor, cfg);
    }

    /// Takes up that the member announced a service, given the configuration that its
    /// document stands for.
    pub fn update_from_service(
        &mut self,
        sg: &ServiceGroup,
        rumor: &ServiceRumor,
        cfg: toml::value::Table,
    )
        ensures
            final(self)@ == old(self)@.with_service(sg@, rumor@, cfg@),
            *final(self) == (CensusMember {
                member_id: final(self).member_id,
                service: final(self).service,
                group: final(self).group,
                org: final(self).org,
                pkg: final(self).pkg,
                cfg: final(self).cfg,
                sys: final(self).sys,
                ..*old(self)
            }),
            final(self).member_id@ == rumor.member_id@,
            final(self).service@ == sg.service@,
            final(self).group@ == sg.group@,
            sg.org is None ==> final(self).org == old(self).org,
            sg.org matches Some(org) ==> final(self).org is Some && final(self).org->0@ == org@,
            rumor.pkg is None ==> final(self).pkg == old(self).pkg,
            rumor.pkg matches Some(pkg) ==> {
                &&& final(self).pkg is Some
                &&& final(self).pkg->0.origin@ == pkg.origin@
                &&& final(self).pkg->0.name@ == pkg.name@
                &&& final(self).pkg->0.version is Some <==> pkg.version is Some
                &&& pkg.version matches Some(version) ==> final(self).pkg->0.version->0@ == version@
                &&& final(self).pkg->0.release is Some <==> pkg.release is Some
                &&& pkg.release matches Some(release) ==> final(self).pkg->0.release->0@ == release@
            },
            final(self).cfg@ == cfg@,
            rumor.sys matches Some(sys) ==> {
                &&& final(self).sys.ip@ == sys.ip@
                &&& final(self).sys.hostname@ == sys.hostname@
                &&& final(self).sys.gossip_ip@ == sys.gossip_ip@
                &&& final(self).sys.gossip_port@ == sys.gossip_port@
                &&& final(self).sys.http_gateway_ip@ == sys.http_gateway_ip@
                &&& final(self).sys.http_gateway_port@ == sys.http_gateway_port@
            },
            rumor.sys is None ==> {
                &&& final(self).sys.ip@.len() == 0
                &&& final(self).sys.hostname@.len() == 0
                &&& final(self).sys.gossip_ip@.len() == 0
                &&& final(self).sys.gossip_port@.len() == 0
                &&& final(self).sys.http_gateway_ip@.len() == 0
                &&& final(self).sys.http_gateway_port@.len() == 0
            },
    {
        self.member_id = rumor.member_id.clone();
        self.service = sg.service.clone();
        self.group = sg.group.clone();
        if sg.org.is_some() {
            self.org = copy_opt_text(&sg.org);
        }
        match &rumor.pkg {
            Some(ident) => {
                self.pkg = Some(ident.clone());
            },
            None => {},
        }
        self.cfg = cfg;
        self.sys = match &rumor.sys {
            Some(sys) => sys.clone(),
            None => SysInfo::default(),
        };
    }

    /// Takes up an election of a leader, and says whether this member won it.
    pub fn update_from_election_rumor(&mut self, election: &ElectionRumor) -> (r: bool)
        ensures
            final(self)@ == old(self)@.with_election(election@),
            r == election@.won_by(old(self)@.member_id),
            r == (election.status is Finished && old(self).member_id@ == election.member_id@),
            *final(self) == (CensusMember {
                leader: Some(r),
                follower: Some(election.status is Finished && !r),
                election_is_running: Some(election.status is Running),
                election_is_no_quorum: Some(election.status is NoQuorum),
                election_is_finished: Some(election.status is Finished),
                ..*old(self)
            }),
    {
        match election.status {
            ElectionPhase::Running => {
                self.leader = Some(false);
                self.follower = Some(false);
                self.election_is_running = Some(true);
                self.election_is_no_quorum = Some(false);
                self.election_is_finished = Some(false);
            },
            ElectionPhase::NoQuorum => {
                self.leader = Some(false);
                self.follower = Some(false);
                self.election_is_running = Some(false);
                self.election_is_no_quorum = Some(true);
                self.election_is_finished = Some(false);
            },
            ElectionPhase::Finished => {
                self.election_is_running = Some(false);
                self.election_is_no_quorum = Some(false);
                self.election_is_finished = Some(true);
                if self.member_id == election.member_id {
                    self.leader = Some(true);
                    self.follower = Some(false);
                    return true;
                } else {
                    self.leader = Some(false);
                    self.follower = Some(true);
                }
            },
        }
        false
    }

    /// Takes up an election of an update leader, and says whether this member won it.
    pub fn update_from_election_update_rumor(&mut self, election: &ElectionUpdateRumor) -> (r: bool)
        ensures
            final(self)@ == old(self)@.with_update_election(election@),
            r == election@.won_by(old(self)@.member_id),
            r == (election.status is Finished && old(self).member_id@ == election.member_id@),
            *final(self) == (CensusMember {
                update_leader: Some(r),
                update_follower: Some(election.status is Finished && !r),
                update_election_is_running: Some(election.status is Running),
                update_election_is_no_quorum: Some(election.status is NoQuorum),
                update_election_is_finished: Some(election.status is Finished),
                ..*old(self)
            }),
    {
        match election.status {
            ElectionPhase::Running => {
                self.update_leader = Some(false);
                self.update_follower = Some(false);
                self.update_election_is_running = Some(true);
                self.update_election_is_no_quorum = Some(false);
                self.update_election_is_finished = Some(false);
            },
            ElectionPhase::NoQuorum => {
                self.update_leader = Some(false);
                self.update_follower = Some(false);
                self.update_election_is_running = Some(false);
                self.update_election_is_no_quorum = Some(true);
                self.update_election_is_finished = Some(false);
            },
            ElectionPhase::Finished => {
                self.update_election_is_running = Some(false);
                self.update_election_is_no_quorum = Some(false);
                self.update_election_is_finished = Some(true);
                if self.member_id == election.member_id {
                    self.update_leader = Some(true);
                    self.update_follower = Some(false);
                    return true;
                } else {
                    self.update_leader = Some(false);
                    self.update_follower = Some(true);
                }
            },
        }
        false
    }

    /// Takes up that the member was found in the list of members.
    pub fn update_from_member(&mut self, member: &Member)
        ensures
            final(self)@ == old(self)@.with_member(member@),
            *final(self) == (CensusMember {
                sys: SysInfo {
                    gossip_ip: final(self).sys.gossip_ip,
                    gossip_port: final(self).sys.gossip_port,
                    ..old(self).sys
                },
                persistent: Some(true),
                ..*old(self)
            }),
            final(self).sys.gossip_ip@ == member.address@,
            final(self).sys.gossip_port@ == crate::text::signed_numeral(member.gossip_port as int),
    {
        self.sys.gossip_ip = member.address.clone();
        self.sys.gossip_port = number_text(member.gossip_port);
        self.persistent = Some(true);
    }

    /// Takes up the health of the member.
    pub fn update_from_health(&mut self, health: Health)
        ensures
            final(self)@ == old(self)@.with_health(health),
            *final(self) == (CensusMember {
                alive: Some(health is Alive),
                suspect: Some(health is Suspect),
                confirmed: Some(health is Confirmed),
                ..*old(self)
            }),
    {
        match health {
            Health::Alive => {
                self.alive = Some(true);
                self.suspect = Some(false);
                self.confirmed = Some(false);
            },
            Health::Suspect => {
                self.alive = Some(false);
                self.suspect = Some(true);
                self.confirmed = Some(false);
            },
            Health::Confirmed => {
                self.alive = Some(false);
                self.suspect = Some(false);
                self.confirmed = Some(true);
            },
        }
    }
}

} // verus!
