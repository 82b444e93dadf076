//! What gossip says: service groups, packages, rumors, and the list of members.
//!
//! These are plain records. Text that names a service group or a package has been read
//! before it gets here: where it was malformed, the record holds `None` in its place.

use vstd::prelude::*;

verus! {

/// The text behind an optional string.
pub open spec fn opt_text(s: Option<String>) -> Option<Seq<char>> {
    match s {
        Some(text) => Some(text@),
        None => None,
    }
}

/// A copy of an optional string.
pub fn copy_opt_text(s: &Option<String>) -> (r: Option<String>)
    ensures
        opt_text(r) == opt_text(*s),
        r is Some <==> *s is Some,
        *s matches Some(text) ==> r->0@ == text@,
{
    match s {
        Some(text) => Some(text.clone()),
        None => None,
    }
}

/// A service group: the name of a service, the name of the group, and the organization
/// the group belongs to, if any.
#[derive(Debug, PartialEq, Eq, Hash)]
pub struct ServiceGroup {
    pub service: String,
    pub group: String,
    pub org: Option<String>,
}

pub struct ServiceGroupView {
    pub service: Seq<char>,
    pub group: Seq<char>,
    pub org: Option<Seq<char>>,
}

impl View for ServiceGroup {
    type V = ServiceGroupView;

    open spec fn view(&self) -> ServiceGroupView {
        ServiceGroupView {
            service: self.service@,
            group: self.group@,
            org: opt_text(self.org),
        }
    }
}

impl Clone for ServiceGroup {
    fn clone(&self) -> (r: Self)
        ensures
            r@ == self@,
    {
        ServiceGroup {
            service: self.service.clone(),
            group: self.group.clone(),
            org: copy_opt_text(&self.org),
        }
    }
}

impl ServiceGroup {
    /// Whether two values name the same service group.
    pub fn same_as(&self, other: &ServiceGroup) -> (r: bool)
        ensures
            r == (self@ == other@),
            r == {
                &&& self.service@ == other.service@
                &&& self.group@ == other.group@
                &&& self.org is Some <==> other.org is Some
                &&& self.org is Some ==> self.org->0@ == other.org->0@
            },
    {
        let same_org = match (&self.org, &other.org) {
            (Some(a), Some(b)) => *a == *b,
            (None, None) => true,
            _ => false,
        };
        self.service == other.service && self.group == other.group && same_org
    }
}

/// The identifier of a package.
#[derive(Debug, PartialEq, Eq)]
pub struct PackageIdent {
    pub origin: String,
    pub name: String,
    pub version: Option<String>,
    pub release: Option<String>,
}

pub struct PackageIdentView {
    pub origin: Seq<char>,
    pub name: Seq<char>,
    pub version: Option<Seq<char>>,
    pub release: Option<Seq<char>>,
}

impl View for PackageIdent {
    type V = PackageIdentView;

    open spec fn view(&self) -> PackageIdentView {
        PackageIdentView {
            origin: self.origin@,
            name: self.name@,
            version: opt_text(self.version),
            release: opt_text(self.release),
        }
    }
}

impl Clone for PackageIdent {
    fn clone(&self) -> (r: Self)
        ensures
            r@ == self@,
    {
        PackageIdent {
            origin: self.origin.clone(),
            name: self.name.clone(),
            version: copy_opt_text(&self.version),
            release: copy_opt_text(&self.release),
        }
    }
}

/// The identifier behind an optional package.
pub open spec fn opt_ident(pkg: Option<PackageIdent>) -> Option<PackageIdentView> {
    match pkg {
        Some(ident) => Some(ident@),
        None => None,
    }
}

/// What a member says about the system it runs on.
#[derive(Debug, PartialEq, Eq)]
pub struct SysInfo {
    pub ip: String,
    pub hostname: String,
    pub gossip_ip: String,
    pub gossip_port: String,
    pub http_gateway_ip: String,
    pub http_gateway_port: String,
}

pub struct SysInfoView {
    pub ip: Seq<char>,
    pub hostname: Seq<char>,
    pub gossip_ip: Seq<char>,
    pub gossip_port: Seq<char>,
    pub http_gateway_ip: Seq<char>,
    pub http_gateway_port: Seq<char>,
}

impl View for SysInfo {
    type V = SysInfoView;

    open spec fn view(&self) -> SysInfoView {
        SysInfoView {
            ip: self.ip@,
            hostname: self.hostname@,
            gossip_ip: self.gossip_ip@,
            gossip_port: self.gossip_port@,
            http_gateway_ip: self.http_gateway_ip@,
            http_gateway_port: self.http_gateway_port@,
        }
    }
}

impl SysInfoView {
    /// Nothing said: every text is empty.
    pub open spec fn unknown() -> SysInfoView {
        SysInfoView {
            ip: Seq::empty(),
            hostname: Seq::empty(),
            gossip_ip: Seq::empty(),
            gossip_port: Seq::empty(),
            http_gateway_ip: Seq::empty(),
            http_gateway_port: Seq::empty(),
        }
    }
}

impl Clone for SysInfo {
    fn clone(&self) -> (r: Self)
        ensures
            r@ == self@,
    {
        SysInfo {
            ip: self.ip.clone(),
            hostname: self.hostname.clone(),
            gossip_ip: self.gossip_ip.clone(),
            gossip_port: self.gossip_port.clone(),
            http_gateway_ip: self.http_gateway_ip.clone(),
            http_gateway_port: self.http_gateway_port.clone(),
        }
    }
}

impl Default for SysInfo {
    fn default() -> (r: Self)
        ensures
            r@ == SysInfoView::unknown(),
            r.ip@.len() == 0,
            r.hostname@.len() == 0,
            r.gossip_ip@.len() == 0,
            r.gossip_port@.len() == 0,
            r.http_gateway_ip@.len() == 0,
            r.http_gateway_port@.len() == 0,
    {
        SysInfo {
            ip: String::new(),
            hostname: String::new(),
            gossip_ip: String::new(),
            gossip_port: String::new(),
            http_gateway_ip: String::new(),
            http_gateway_port: String::new(),
        }
    }
}

/// A member announces that it runs a service.
#[derive(Debug, PartialEq, Eq)]
pub struct ServiceRumor {
    /// The member that speaks.
    pub member_id: String,
    /// The package it runs, `None` where the identifier was malformed.
    pub pkg: Option<PackageIdent>,
    /// The configuration it exports: a TOML document.
    pub cfg: Vec<u8>,
    /// Its system, `None` where the description was malformed.
    pub sys: Option<SysInfo>,
}

pub struct ServiceRumorView {
    pub member_id: Seq<char>,
    pub pkg: Option<PackageIdentView>,
    pub cfg: Seq<u8>,
    pub sys: Option<SysInfoView>,
}

impl View for ServiceRumor {
    type V = ServiceRumorView;

    open spec fn view(&self) -> ServiceRumorView {
        ServiceRumorView {
            member_id: self.member_id@,
            pkg: opt_ident(self.pkg),
            cfg: self.cfg@,
            sys: match self.sys {
                Some(sys) => Some(sys@),
                None => None,
            },
        }
    }
}

/// How far an election has come.
#[derive(Debug, Clone, Copy, PartialEq, Eq)]
pub enum ElectionPhase {
    Running,
    NoQuorum,
    Finished,
}

/// The election of the leader of a service group.
#[derive(Debug, PartialEq, Eq)]
pub struct ElectionRumor {
    /// The member that leads the vote, and has won it once the election is finished.
    pub member_id: String,
    pub status: ElectionPhase,
}

/// The election of the member that leads the update of a service group.
#[derive(Debug, PartialEq, Eq)]
pub struct ElectionUpdateRumor {
    /// The member that leads the vote, and has won it once the election is finished.
    pub member_id: String,
    pub status: ElectionPhase,
}

/// An election of either kind.
pub struct ElectionView {
    pub member_id: Seq<char>,
    pub status: ElectionPhase,
}

impl View for ElectionRumor {
    type V = ElectionView;

    open spec fn view(&self) -> ElectionView {
        ElectionView { member_id: self.member_id@, status: self.status }
    }
}

impl View for ElectionUpdateRumor {
    type V = ElectionView;

    open spec fn view(&self) -> ElectionView {
        ElectionView { member_id: self.member_id@, status: self.status }
    }
}

impl ElectionView {
    /// Whether the election is finished and `member_id` has won it.
    pub open spec fn won_by(self, member_id: Seq<char>) -> bool {
        self.status == ElectionPhase::Finished && self.member_id == member_id
    }
}

/// The rumors heard under one key of a store.
#[derive(Debug)]
pub struct RumorKey<T> {
    /// The service group that the key names, `None` where the key was malformed.
    pub service_group: Option<ServiceGroup>,
    /// The rumors, each with its identifier.
    pub rumors: Vec<(String, T)>,
}

pub struct RumorKeyView<V> {
    pub service_group: Option<ServiceGroupView>,
    pub rumors: Seq<(Seq<char>, V)>,
}

impl<T: View> View for RumorKey<T> {
    type V = RumorKeyView<T::V>;

    open spec fn view(&self) -> RumorKeyView<T::V> {
        RumorKeyView {
            service_group: match self.service_group {
                Some(sg) => Some(sg@),
                None => None,
            },
            rumors: self.rumors@.map_values(|entry: (String, T)| (entry.0@, entry.1@)),
        }
    }
}

/// The rumors of one kind that have been heard, and how often they changed.
#[derive(Debug)]
pub struct RumorStore<T> {
    pub update_counter: usize,
    pub keys: Vec<RumorKey<T>>,
}

pub struct RumorStoreView<V> {
    pub update_counter: nat,
    pub keys: Seq<RumorKeyView<V>>,
}

impl<T: View> View for RumorStore<T> {
    type V = RumorStoreView<T::V>;

    open spec fn view(&self) -> RumorStoreView<T::V> {
        RumorStoreView {
            update_counter: self.update_counter as nat,
            keys: self.keys@.map_values(|key: RumorKey<T>| key@),
        }
    }
}

/// The identifier under which a store holds the election of a service group.
pub open spec fn election_id() -> Seq<char> {
    "election"@
}

impl<V> RumorKeyView<V> {
    /// The rumor with identifier `id` stands at place `i`, and none before it.
    pub open spec fn first_rumor_at(self, id: Seq<char>, i: int) -> bool {
        &&& 0 <= i < self.rumors.len()
        &&& self.rumors[i].0 == id
        &&& forall|j: int| 0 <= j < i ==> (#[trigger] self.rumors[j]).0 != id
    }

    /// Whether a rumor with this identifier was heard.
    pub open spec fn has_rumor(self, id: Seq<char>) -> bool {
        exists|i: int| self.first_rumor_at(id, i)
    }

    /// The rumor with this identifier.
    pub open spec fn rumor(self, id: Seq<char>) -> V {
        self.rumors[choose|i: int| self.first_rumor_at(id, i)].1
    }
}

impl<V> RumorStoreView<V> {
    /// Whether every key of a store of elections holds its election.
    pub open spec fn elections_held(self) -> bool {
        forall|i: int|
            0 <= i < self.keys.len() ==> (#[trigger] self.keys[i]).has_rumor(election_id())
    }
}

impl<T: View> RumorKey<T> {
    /// The place of the election of this key, if it holds one.
    pub fn find_election(&self) -> (r: Option<usize>)
        ensures
            r is Some <==> self@.has_rumor(election_id()),
            r matches Some(i) ==> {
                &&& i < self.rumors@.len()
                &&& self.rumors@[i as int].1@ == self@.rumor(election_id())
                &&& self.rumors@[i as int].0@ == "election"@
                &&& forall|j: int| 0 <= j < i ==> (#[trigger] self.rumors@[j]).0@ != "election"@
            },
            r is None ==> forall|j: int|
                0 <= j < self.rumors@.len() ==> (#[trigger] self.rumors@[j]).0@ != "election"@,
    {
        let id: String = "election".to_owned();
        let mut i: usize = 0;
        while i < self.rumors.len()
            invariant
                i <= self.rumors@.len(),
                id@ == election_id(),
                election_id() == "election"@,
                forall|j: int| 0 <= j < i ==> (#[trigger] self.rumors@[j]).0@ != "election"@,
                forall|j: int| 0 <= j < i ==> (#[trigger] self@.rumors[j]).0 != election_id(),
            decreases self.rumors@.len() - i,
        {
            if self.rumors[i].0 == id {
                assert(self@.rumors[i as int].0 == election_id());
                assert(self@.first_rumor_at(election_id(), i as int));
                let ghost k = choose|k: int| self@.first_rumor_at(election_id(), k);
                assert(k == i) by {
                    assert(self@.rumors[k].0 == election_id());
                }
                return Some(i);
            }
            assert(self@.rumors[i as int].0 != election_id());
            i = i + 1;
        }
        None
    }
}

impl<T: View> RumorStore<T> {
    /// Whether every key of a store of elections holds its election.
    pub fn elections_held(&self) -> (r: bool)
        ensures
            r == self@.elections_held(),
            r == (forall|i: int|
                0 <= i < self.keys@.len() ==> exists|j: int|
                    0 <= j < (#[trigger] self.keys@[i]).rumors@.len() && (
                    #[trigger] self.keys@[i].rumors@[j]).0@ == "election"@),
    {
        let mut i: usize = 0;
        while i < self.keys.len()
            invariant
                i <= self.keys@.len(),
                forall|j: int|
                    0 <= j < i ==> (#[trigger] self@.keys[j]).has_rumor(election_id()),
                forall|k: int|
                    0 <= k < i ==> exists|j: int|
                        0 <= j < (#[trigger] self.keys@[k]).rumors@.len() && (
                        #[trigger] self.keys@[k].rumors@[j]).0@ == "election"@,
            decreases self.keys@.len() - i,
        {
            if self.keys[i].find_election().is_none() {
                assert(!self@.keys[i as int].has_rumor(election_id()));
                return false;
            }
            assert(self@.keys[i as int].has_rumor(election_id()));
            i = i + 1;
        }
        true
    }
}

/// A member of the ring, as the list of members knows it.
#[derive(Debug, PartialEq, Eq)]
pub struct Member {
    pub id: String,
    pub address: String,
    pub gossip_port: i32,
}

pub struct MemberView {
    pub id: Seq<char>,
    pub address: Seq<char>,
    pub gossip_port: int,
}

impl View for Member {
    type V = MemberView;

    open spec fn view(&self) -> MemberView {
        MemberView {
            id: self.id@,
            address: self.address@,
            gossip_port: self.gossip_port as int,
        }
    }
}

/// What the failure detector holds of a member.
#[derive(Debug, Clone, Copy, PartialEq, Eq)]
pub enum Health {
    Alive,
    Suspect,
    Confirmed,
}

/// The members of the ring, each with its health where that is known, and how often the
/// list changed.
#[derive(Debug)]
pub struct MemberList {
    pub update_counter: usize,
    pub members: Vec<(Member, Option<Health>)>,
}

pub struct MemberListView {
    pub update_counter: nat,
    pub members: Seq<(MemberView, Option<Health>)>,
}

impl View for MemberList {
    type V = MemberListView;

    open spec fn view(&self) -> MemberListView {
        MemberListView {
            update_counter: self.update_counter as nat,
            members: self.members@.map_values(|entry: (Member, Option<Health>)| (entry.0@, entry.1)),
        }
    }
}

} // verus!
