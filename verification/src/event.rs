//! What the event stream is told of a member of the census.

use vstd::prelude::*;

use crate::rumor::{SysInfo, SysInfoView};

verus! {

/// The identifier of a package, with empty text for what it leaves open.
#[derive(Debug, PartialEq, Eq)]
pub struct PackageIdentProto {
    pub origin: String,
    pub name: String,
    pub version: String,
    pub release: String,
}

pub struct PackageIdentProtoView {
    pub origin: Seq<char>,
    pub name: Seq<char>,
    pub version: Seq<char>,
    pub release: Seq<char>,
}

impl View for PackageIdentProto {
    type V = PackageIdentProtoView;

    open spec fn view(&self) -> PackageIdentProtoView {
        PackageIdentProtoView {
            origin: self.origin@,
            name: self.name@,
            version: self.version@,
            release: self.release@,
        }
    }
}

/// One member of the census, with `false` and empty text for what is not known of it.
#[derive(Debug, PartialEq, Eq)]
pub struct CensusEntryProto {
    pub member_id: String,
    pub service: String,
    pub group: String,
    pub org: String,
    pub cfg: Vec<u8>,
    pub sys: SysInfo,
    pub pkg: Option<PackageIdentProto>,
    pub leader: bool,
    pub follower: bool,
    pub update_leader: bool,
    pub update_follower: bool,
    pub election_is_running: bool,
    pub election_is_no_quorum: bool,
    pub election_is_finished: bool,
    pub update_election_is_running: bool,
    pub update_election_is_no_quorum: bool,
    pub update_election_is_finished: bool,
    pub initialized: bool,
    pub alive: bool,
    pub suspect: bool,
    pub confirmed: bool,
    pub persistent: bool,
}

pub struct CensusEntryProtoView {
    pub member_id: Seq<char>,
    pub service: Seq<char>,
    pub group: Seq<char>,
    pub org: Seq<char>,
    pub cfg: Seq<u8>,
    pub sys: SysInfoView,
    pub pkg: Option<PackageIdentProtoView>,
    pub leader: bool,
    pub follower: bool,
    pub update_leader: bool,
    pub update_follower: bool,
    pub election_is_running: bool,
    pub election_is_no_quorum: bool,
    pub election_is_finished: bool,
    pub update_election_is_running: bool,
    pub update_election_is_no_quorum: bool,
    pub update_election_is_finished: bool,
    pub initialized: bool,
    pub alive: bool,
    pub suspect: bool,
    pub confirmed: bool,
    pub persistent: bool,
}

impl View for CensusEntryProto {
    type V = CensusEntryProtoView;

    open spec fn view(&self) -> CensusEntryProtoView {
        CensusEntryProtoView {
            member_id: self.member_id@,
            service: self.service@,
            group: self.group@,
            org: self.org@,
            cfg: self.cfg@,
            sys: self.sys@,
            pkg: match self.pkg {
                Some(pkg) => Some(pkg@),
                None => None,
            },
            leader: self.leader,
            follower: self.follower,
            update_leader: self.update_leader,
            update_follower: self.update_follower,
            election_is_running: self.election_is_running,
            election_is_no_quorum: self.election_is_no_quorum,
            election_is_finished: self.election_is_finished,
            update_election_is_running: self.update_election_is_running,
            update_election_is_no_quorum: self.update_election_is_no_quorum,
            update_election_is_finished: self.update_election_is_finished,
            initialized: self.initialized,
            alive: self.alive,
            suspect: self.suspect,
            confirmed: self.confirmed,
            persistent: self.persistent,
        }
    }
}

} // verus!
