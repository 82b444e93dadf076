//! The census, from the outside.

use census::member::CensusMember;
use census::ring::CensusRing;
use census::rumor::{
    ElectionPhase, ElectionRumor, ElectionUpdateRumor, Health, Member, MemberList, PackageIdent,
    RumorKey, RumorStore, ServiceGroup, ServiceRumor, SysInfo,
};

fn group(service: &str, name: &str) -> ServiceGroup {
    ServiceGroup {
        service: service.to_string(),
        group: name.to_string(),
        org: None,
    }
}

fn shield_ident() -> PackageIdent {
    PackageIdent {
        origin: "starkandwayne".to_string(),
        name: "shield".to_string(),
        version: Some("0.10.4".to_string()),
        release: Some("20170419115548".to_string()),
    }
}

fn shield_sys() -> SysInfo {
    SysInfo {
        ip: "1.2.3.4".to_string(),
        hostname: "hostname".to_string(),
        gossip_ip: "0.0.0.0".to_string(),
        gossip_port: "7777".to_string(),
        http_gateway_ip: "0.0.0.0".to_string(),
        http_gateway_port: "9631".to_string(),
    }
}

fn service(member_id: &str) -> (String, ServiceRumor) {
    (
        member_id.to_string(),
        ServiceRumor {
            member_id: member_id.to_string(),
            pkg: Some(shield_ident()),
            cfg: Vec::new(),
            sys: Some(shield_sys()),
        },
    )
}

#[test]
fn update_from_rumors() {
    let sg_one = group("shield", "one");
    let sg_two = group("shield", "two");
    let service_store = RumorStore {
        update_counter: 3,
        keys: vec![
            RumorKey {
                service_group: Some(sg_one.clone()),
                rumors: vec![service("member-a")],
            },
            RumorKey {
                service_group: Some(sg_two.clone()),
                rumors: vec![service("member-b"), service("member-a")],
            },
        ],
    };
    let election_store = RumorStore {
        update_counter: 1,
        keys: vec![RumorKey {
            service_group: Some(sg_one.clone()),
            rumors: vec![(
                "election".to_string(),
                ElectionRumor {
                    member_id: "member-a".to_string(),
                    status: ElectionPhase::Finished,
                },
            )],
        }],
    };
    let election_update_store = RumorStore {
        update_counter: 1,
        keys: vec![RumorKey {
            service_group: Some(sg_two.clone()),
            rumors: vec![(
                "election".to_string(),
                ElectionUpdateRumor {
                    member_id: "member-b".to_string(),
                    status: ElectionPhase::Finished,
                },
            )],
        }],
    };
    let member_list = MemberList {
        update_counter: 0,
        members: Vec::new(),
    };

    let mut ring = CensusRing::new("member-b".to_string());
    ring.update_from_rumors(
        0,
        &service_store,
        &election_store,
        &election_update_store,
        &member_list,
    );
    let census_group_one = ring.census_group_for(&sg_one).unwrap();
    assert_eq!(census_group_one.me(), None);
    assert_eq!(census_group_one.leader().unwrap().member_id, "member-a");
    assert_eq!(census_group_one.update_leader(), None);

    let census_group_two = ring.census_group_for(&sg_two).unwrap();
    assert_eq!(
        census_group_two.me().unwrap().member_id,
        "member-b".to_string()
    );
    assert_eq!(
        census_group_two.update_leader().unwrap().member_id,
        "member-b".to_string()
    );

    let members: Vec<&CensusMember> = census_group_two.members();
    assert_eq!(members[0].member_id, "member-a");
    assert_eq!(members[1].member_id, "member-b");
}

fn services(
    update_counter: usize,
    keys: Vec<(Option<ServiceGroup>, Vec<&str>)>,
) -> RumorStore<ServiceRumor> {
    RumorStore {
        update_counter,
        keys: keys
            .into_iter()
            .map(|(service_group, ids)| RumorKey {
                service_group,
                rumors: ids.into_iter().map(service).collect(),
            })
            .collect(),
    }
}

fn elections(
    update_counter: usize,
    keys: Vec<(Option<ServiceGroup>, &str)>,
) -> RumorStore<ElectionRumor> {
    RumorStore {
        update_counter,
        keys: keys
            .into_iter()
            .map(|(service_group, member_id)| RumorKey {
                service_group,
                rumors: vec![(
                    "election".to_string(),
                    ElectionRumor {
                        member_id: member_id.to_string(),
                        status: ElectionPhase::Finished,
                    },
                )],
            })
            .collect(),
    }
}

fn update_elections(
    update_counter: usize,
    keys: Vec<(Option<ServiceGroup>, &str)>,
) -> RumorStore<ElectionUpdateRumor> {
    RumorStore {
        update_counter,
        keys: keys
            .into_iter()
            .map(|(service_group, member_id)| RumorKey {
                service_group,
                rumors: vec![(
                    "election".to_string(),
                    ElectionUpdateRumor {
                        member_id: member_id.to_string(),
                        status: ElectionPhase::Finished,
                    },
                )],
            })
            .collect(),
    }
}

fn listed(update_counter: usize, members: Vec<(&str, Option<Health>)>) -> MemberList {
    MemberList {
        update_counter,
        members: members
            .into_iter()
            .map(|(id, health)| {
                (
                    Member {
                        id: id.to_string(),
                        address: format!("10.1.1.{}", id.len()),
                        gossip_port: 9638,
                    },
                    health,
                )
            })
            .collect(),
    }
}

fn group_names(ring: &CensusRing) -> Vec<String> {
    ring.groups()
        .iter()
        .map(|g| g.service_group.group.clone())
        .collect()
}

fn member_names(ring: &CensusRing, sg: &ServiceGroup) -> Vec<String> {
    ring.census_group_for(sg)
        .unwrap()
        .members()
        .iter()
        .map(|m| m.member_id.clone())
        .collect()
}

fn two_groups() -> CensusRing {
    let mut ring = CensusRing::new("b");
    ring.update_from_rumors(
        0,
        &services(
            2,
            vec![
                (Some(group("shield", "one")), vec!["b", "a"]),
                (Some(group("shield", "two")), vec!["c", "b"]),
            ],
        ),
        &elections(0, vec![]),
        &update_elections(0, vec![]),
        &listed(0, vec![]),
    );
    ring
}

#[test]
fn new_ring_is_empty() {
    let ring = CensusRing::new("member-b");
    assert!(!ring.changed);
    assert!(ring.groups().is_empty());
    assert!(ring.census_group_for(&group("shield", "one")).is_none());
    assert_eq!(ring.local_member_id, "member-b");
    for same in [
        CensusRing::new("member-b".to_string()),
        CensusRing::kept_by("member-b".to_string()),
    ] {
        assert_eq!(same.local_member_id, "member-b");
        assert!(!same.changed);
        assert!(same.groups().is_empty());
    }
}

#[test]
fn service_rumors_make_groups() {
    let ring = two_groups();
    assert!(ring.changed);
    assert_eq!(group_names(&ring), vec!["one", "two"]);
    assert_eq!(member_names(&ring, &group("shield", "one")), vec!["a", "b"]);
    assert_eq!(member_names(&ring, &group("shield", "two")), vec!["b", "c"]);
    assert_eq!(ring.last_service_counter, 2);
    for g in ring.groups() {
        assert_eq!(g.me().unwrap().member_id, "b");
    }
    let mut with_org = group("shield", "one");
    with_org.org = Some("acme".to_string());
    assert!(ring.census_group_for(&with_org).is_none());
}

#[test]
fn old_news_changes_nothing() {
    let mut ring = two_groups();
    ring.update_from_rumors(
        0,
        &services(2, vec![(Some(group("shield", "three")), vec!["z"])]),
        &elections(0, vec![(Some(group("shield", "one")), "a")]),
        &update_elections(0, vec![(Some(group("shield", "one")), "a")]),
        &listed(0, vec![("a", Some(Health::Alive))]),
    );
    assert!(!ring.changed);
    assert_eq!(group_names(&ring), vec!["one", "two"]);
    let one = ring.census_group_for(&group("shield", "one")).unwrap();
    assert_eq!(one.leader(), None);
    assert_eq!(one.update_leader(), None);
    assert_eq!(one.members()[0].alive, None);
}

#[test]
fn each_kind_of_news_is_noted() {
    let none = || services(0, vec![]);
    let mut ring = two_groups();
    ring.update_from_rumors(
        0,
        &none(),
        &elections(1, vec![]),
        &update_elections(0, vec![]),
        &listed(0, vec![]),
    );
    assert!(ring.changed);
    ring.update_from_rumors(
        0,
        &none(),
        &elections(1, vec![]),
        &update_elections(1, vec![]),
        &listed(0, vec![]),
    );
    assert!(ring.changed);
    ring.update_from_rumors(
        0,
        &none(),
        &elections(1, vec![]),
        &update_elections(1, vec![]),
        &listed(1, vec![]),
    );
    assert!(ring.changed);
    ring.update_from_rumors(
        0,
        &none(),
        &elections(1, vec![]),
        &update_elections(1, vec![]),
        &listed(1, vec![]),
    );
    assert!(!ring.changed);
    assert_eq!(ring.last_service_counter, 2);
    assert_eq!(ring.last_election_counter, 1);
    assert_eq!(ring.last_election_update_counter, 1);
    assert_eq!(ring.last_membership_counter, 1);
}

#[test]
fn offset_moves_the_counter_of_service_rumors() {
    let mut ring = two_groups();
    let store = services(5, vec![(Some(group("shield", "three")), vec!["z"])]);
    ring.update_from_rumors(
        3,
        &store,
        &elections(0, vec![]),
        &update_elections(0, vec![]),
        &listed(0, vec![]),
    );
    assert!(!ring.changed);
    assert_eq!(ring.last_service_counter, 5);
    assert_eq!(group_names(&ring), vec!["one", "two"]);
    ring.update_from_rumors(
        1,
        &services(7, vec![(Some(group("shield", "three")), vec!["z"])]),
        &elections(0, vec![]),
        &update_elections(0, vec![]),
        &listed(0, vec![]),
    );
    assert!(ring.changed);
    assert_eq!(ring.last_service_counter, 7);
    assert_eq!(group_names(&ring), vec!["one", "two", "three"]);
}

#[test]
fn same_update_again_changes_nothing() {
    let sg = group("shield", "one");
    let service_store = services(4, vec![(Some(sg.clone()), vec!["a", "b"])]);
    let election_store = elections(2, vec![(Some(sg.clone()), "a")]);
    let update_store = update_elections(1, vec![(Some(sg.clone()), "b")]);
    let list = listed(9, vec![("a", Some(Health::Alive))]);
    let mut ring = CensusRing::new("b");
    ring.update_from_rumors(1, &service_store, &election_store, &update_store, &list);
    assert!(ring.changed);
    let before = format!("{:?}", ring.groups());
    ring.update_from_rumors(0, &service_store, &election_store, &update_store, &list);
    assert!(!ring.changed);
    assert_eq!(format!("{:?}", ring.groups()), before);
    assert_eq!(ring.last_service_counter, 4);
    assert_eq!(ring.last_membership_counter, 9);
    ring.update_from_rumors(5, &service_store, &election_store, &update_store, &list);
    assert!(!ring.changed);
    assert_eq!(format!("{:?}", ring.groups()), before);
    assert_eq!(ring.last_service_counter, 9);
    assert_eq!(ring.last_election_counter, 2);
    assert_eq!(ring.last_election_update_counter, 1);
    assert_eq!(ring.last_membership_counter, 9);
}

#[test]
fn malformed_keys_and_unknown_groups_are_passed_over() {
    let mut ring = two_groups();
    ring.update_from_rumors(
        0,
        &services(3, vec![(None, vec!["x"])]),
        &elections(
            1,
            vec![(None, "a"), (Some(group("nothing", "known")), "a")],
        ),
        &update_elections(
            1,
            vec![(None, "a"), (Some(group("nothing", "known")), "a")],
        ),
        &listed(1, vec![("nobody", Some(Health::Alive))]),
    );
    assert!(ring.changed);
    assert_eq!(group_names(&ring), vec!["one", "two"]);
    assert_eq!(member_names(&ring, &group("shield", "one")), vec!["a", "b"]);
    for g in ring.groups() {
        assert_eq!(g.leader(), None);
        assert_eq!(g.update_leader(), None);
        assert!(g.members().iter().all(|m| m.alive.is_none()));
    }
}

#[test]
fn who_was_elected_leads() {
    let mut ring = two_groups();
    ring.update_from_rumors(
        0,
        &services(3, vec![(Some(group("shield", "two")), vec!["d"])]),
        &elections(1, vec![(Some(group("shield", "two")), "d")]),
        &update_elections(1, vec![(Some(group("shield", "one")), "a")]),
        &listed(1, vec![("d", Some(Health::Alive))]),
    );
    let two = ring.census_group_for(&group("shield", "two")).unwrap();
    assert_eq!(two.leader().unwrap().member_id, "d");
    assert_eq!(two.leader().unwrap().alive, Some(true));
    assert_eq!(two.update_leader(), None);
    let one = ring.census_group_for(&group("shield", "one")).unwrap();
    assert_eq!(one.leader(), None);
    assert_eq!(one.update_leader().unwrap().member_id, "a");
}

#[test]
fn list_reaches_the_first_group_only() {
    let mut ring = two_groups();
    ring.update_from_rumors(
        0,
        &services(0, vec![]),
        &elections(0, vec![]),
        &update_elections(0, vec![]),
        &listed(1, vec![("b", Some(Health::Suspect)), ("c", None)]),
    );
    let one = ring.census_group_for(&group("shield", "one")).unwrap();
    let b_in_one = one.me().unwrap();
    assert_eq!(b_in_one.suspect, Some(true));
    assert_eq!(b_in_one.alive, Some(false));
    assert_eq!(b_in_one.persistent, Some(true));
    assert_eq!(b_in_one.sys.gossip_ip, "10.1.1.1");
    assert_eq!(b_in_one.sys.gossip_port, "9638");
    assert_eq!(one.members()[0].persistent, None);
    let two = ring.census_group_for(&group("shield", "two")).unwrap();
    let b_in_two = two.me().unwrap();
    assert_eq!(b_in_two.suspect, None);
    assert_eq!(b_in_two.persistent, None);
    let c = two.members()[1];
    assert_eq!(c.member_id, "c");
    assert_eq!(c.persistent, Some(true));
    assert_eq!(c.alive, None);
}

#[test]
fn order_of_gossip_does_not_matter_to_groups() {
    let one = group("shield", "one");
    let two = group("shield", "two");
    let mut a = CensusRing::new("b");
    a.update_from_rumors(
        0,
        &services(
            2,
            vec![(Some(one.clone()), vec!["a", "b"]), (Some(two.clone()), vec!["c"])],
        ),
        &elections(1, vec![(Some(one.clone()), "a"), (Some(two.clone()), "c")]),
        &update_elections(0, vec![]),
        &listed(1, vec![("a", Some(Health::Alive)), ("c", Some(Health::Suspect))]),
    );
    let mut b = CensusRing::new("b");
    b.update_from_rumors(
        0,
        &services(
            2,
            vec![(Some(two.clone()), vec!["c"]), (Some(one.clone()), vec!["b", "a"])],
        ),
        &elections(1, vec![(Some(two.clone()), "c"), (Some(one.clone()), "a")]),
        &update_elections(0, vec![]),
        &listed(1, vec![("c", Some(Health::Suspect)), ("a", Some(Health::Alive))]),
    );
    for sg in [&one, &two] {
        let x = a.census_group_for(sg).unwrap();
        let y = b.census_group_for(sg).unwrap();
        assert_eq!(x.members(), y.members());
        assert_eq!(x.leader_id, y.leader_id);
        assert_eq!(x.election_status, y.election_status);
    }
    assert_eq!(group_names(&a), vec!["one", "two"]);
    assert_eq!(group_names(&b), vec!["two", "one"]);
}

#[test]
fn census_only_grows() {
    let mut ring = two_groups();
    ring.update_from_rumors(
        0,
        &services(3, vec![(Some(group("shield", "zero")), vec!["z"])]),
        &elections(0, vec![]),
        &update_elections(0, vec![]),
        &listed(0, vec![]),
    );
    assert_eq!(group_names(&ring), vec!["one", "two", "zero"]);
    assert_eq!(member_names(&ring, &group("shield", "one")), vec!["a", "b"]);
}

#[test]
fn update_that_cannot_be_made_is_known_beforehand() {
    let mut ring = two_groups();
    let held = elections(1, vec![(Some(group("shield", "one")), "a")]);
    let updates = update_elections(1, vec![(Some(group("shield", "one")), "a")]);
    assert!(ring.accepts(0, &held, &updates));
    assert!(ring.accepts(usize::MAX - 2, &held, &updates));
    assert!(!ring.accepts(usize::MAX - 1, &held, &updates));
    let empty = || RumorKey {
        service_group: None,
        rumors: Vec::new(),
    };
    let missing = RumorStore {
        update_counter: 1,
        keys: vec![empty()],
    };
    assert!(!ring.accepts(0, &missing, &updates));
    let update_missing = RumorStore {
        update_counter: 1,
        keys: vec![RumorKey {
            service_group: None,
            rumors: vec![(
                "vote".to_string(),
                ElectionUpdateRumor {
                    member_id: "a".to_string(),
                    status: ElectionPhase::Running,
                },
            )],
        }],
    };
    assert!(!ring.accepts(0, &held, &update_missing));
    ring.update_from_rumors(
        0,
        &services(0, vec![]),
        &held,
        &updates,
        &listed(0, vec![]),
    );
    assert!(ring.accepts(0, &missing, &update_missing));
}

#[test]
fn members_are_found_across_groups() {
    let mut ring = two_groups();
    assert!(ring.find_member_mut(&"z".to_string()).is_none());
    ring.find_member_mut(&"c".to_string()).unwrap().alive = Some(true);
    let two = ring.census_group_for(&group("shield", "two")).unwrap();
    assert_eq!(two.members()[1].alive, Some(true));
}

#[test]
fn what_members_say_is_in_the_census() {
    let mut ring = two_groups();
    let sg = group("shield", "one");
    let mut said = service("n");
    said.1.cfg = b"depth = 3\n".to_vec();
    ring.update_from_rumors(
        0,
        &RumorStore {
            update_counter: 3,
            keys: vec![RumorKey {
                service_group: Some(sg.clone()),
                rumors: vec![said],
            }],
        },
        &elections(1, vec![(Some(sg.clone()), "a")]),
        &update_elections(0, vec![]),
        &listed(1, vec![("n", Some(Health::Alive))]),
    );
    let one = ring.census_group_for(&sg).unwrap();
    let n: &CensusMember = one.members()[2];
    assert_eq!(n.member_id, "n");
    assert_eq!(n.service, "shield");
    assert_eq!(n.group, "one");
    assert_eq!(n.pkg, Some(shield_ident()));
    assert_eq!(n.cfg["depth"].as_integer(), Some(3));
    assert_eq!(n.sys.ip, shield_sys().ip);
    assert_eq!(n.sys.hostname, shield_sys().hostname);
    assert_eq!(n.sys.http_gateway_port, shield_sys().http_gateway_port);
    assert_eq!(n.sys.gossip_port, "9638");
    assert_eq!(n.follower, Some(true));
    assert_eq!(n.alive, Some(true));
}

fn ones(notes: [Option<bool>; 3]) -> usize {
    notes.iter().filter(|n| **n == Some(true)).count()
}

#[test]
fn notes_of_a_member_do_not_contradict_one_another() {
    let sg = group("shield", "one");
    let mut ring = two_groups();
    for (counter, status, health) in [
        (1, ElectionPhase::Running, Health::Alive),
        (2, ElectionPhase::Finished, Health::Suspect),
        (3, ElectionPhase::NoQuorum, Health::Confirmed),
    ] {
        let mut held = elections(counter, vec![(Some(sg.clone()), "a")]);
        held.keys[0].rumors[0].1.status = status;
        ring.update_from_rumors(
            0,
            &services(0, vec![]),
            &held,
            &update_elections(0, vec![]),
            &listed(counter, vec![("a", Some(health)), ("b", Some(health))]),
        );
        for m in ring.census_group_for(&sg).unwrap().members() {
            let finished = status == ElectionPhase::Finished;
            assert_eq!(
                ones([
                    m.election_is_running,
                    m.election_is_no_quorum,
                    m.election_is_finished
                ]),
                1
            );
            assert_eq!(ones([m.alive, m.suspect, m.confirmed]), 1);
            assert_eq!(m.election_is_finished, Some(finished));
            assert_eq!(ones([m.leader, m.follower, None]), finished as usize);
            assert_eq!(m.update_leader, None);
        }
    }
}

#[test]
fn groups_and_members_stand_once_under_their_own_names() {
    let mut ring = two_groups();
    ring.update_from_rumors(
        0,
        &services(
            3,
            vec![
                (Some(group("shield", "two")), vec!["b", "d"]),
                (Some(group("shield", "one")), vec!["a"]),
                (Some(group("shield", "three")), vec!["a"]),
            ],
        ),
        &elections(0, vec![]),
        &update_elections(0, vec![]),
        &listed(0, vec![]),
    );
    assert_eq!(group_names(&ring), vec!["one", "two", "three"]);
    for g in ring.groups() {
        assert_eq!(g.local_member_id, "b");
        let found = ring.census_group_for(&g.service_group).unwrap();
        assert_eq!(found.service_group, g.service_group);
        for i in 0..g.population.len() {
            assert_eq!(*g.population.id_at(i), g.population.member_at(i).member_id);
        }
    }
    assert_eq!(
        member_names(&ring, &group("shield", "two")),
        vec!["b", "c", "d"]
    );
}

#[test]
fn only_service_rumors_add_groups_and_members() {
    let one = group("shield", "one");
    let new = group("shield", "new");
    let mut ring = two_groups();
    let named = || services(3, vec![(Some(one.clone()), vec!["x"]), (Some(new.clone()), vec!["y"])]);
    let all = |counter| {
        (
            elections(counter, vec![(Some(group("shield", "else")), "v")]),
            update_elections(counter, vec![(Some(group("shield", "else")), "v")]),
            listed(counter, vec![("w", Some(Health::Alive))]),
        )
    };
    let (held, updates, list) = all(1);
    ring.update_from_rumors(1, &named(), &held, &updates, &list);
    assert_eq!(group_names(&ring), vec!["one", "two"]);
    assert_eq!(member_names(&ring, &one), vec!["a", "b"]);
    let mut ahead = named();
    ahead.update_counter = 4;
    let (held, updates, list) = all(2);
    ring.update_from_rumors(0, &ahead, &held, &updates, &list);
    assert_eq!(group_names(&ring), vec!["one", "two", "new"]);
    assert_eq!(member_names(&ring, &one), vec!["a", "b", "x"]);
    assert_eq!(member_names(&ring, &group("shield", "two")), vec!["b", "c"]);
    assert_eq!(member_names(&ring, &new), vec!["y"]);
    for g in ring.groups() {
        assert_eq!(g.local_member_id, ring.local_member_id);
    }
}
