//! A service group, from the outside.

use census::group::{CensusGroup, ElectionStatus};
use census::rumor::{
    ElectionPhase, ElectionRumor, ElectionUpdateRumor, Health, ServiceGroup, ServiceRumor,
};

fn redis() -> ServiceGroup {
    ServiceGroup {
        service: "redis".to_string(),
        group: "default".to_string(),
        org: None,
    }
}

fn speaks(id: &str, member_id: &str) -> (String, ServiceRumor) {
    (
        id.to_string(),
        ServiceRumor {
            member_id: member_id.to_string(),
            pkg: None,
            cfg: Vec::new(),
            sys: None,
        },
    )
}

fn group_of(me: &str, ids: &[&str]) -> CensusGroup {
    let mut group = CensusGroup::new(redis(), &me.to_string());
    let rumors = ids.iter().map(|id| speaks(id, id)).collect();
    group.update_from_service_rumors(&rumors);
    group
}

fn set_health(group: &mut CensusGroup, id: &str, health: Health) {
    group
        .find_member_mut(&id.to_string())
        .unwrap()
        .update_from_health(health);
}

fn names(group: &CensusGroup) -> Vec<String> {
    group
        .members()
        .iter()
        .map(|m| m.member_id.clone())
        .collect()
}

fn election(member_id: &str, status: ElectionPhase) -> ElectionRumor {
    ElectionRumor {
        member_id: member_id.to_string(),
        status,
    }
}

fn update_election(member_id: &str, status: ElectionPhase) -> ElectionUpdateRumor {
    ElectionUpdateRumor {
        member_id: member_id.to_string(),
        status,
    }
}

fn previous(group: &CensusGroup) -> Option<String> {
    group.previous_peer().map(|m| m.member_id.clone())
}

#[test]
fn new_group_is_empty() {
    let group = CensusGroup::new(redis(), &"a".to_string());
    assert_eq!(group.service_group, redis());
    assert_eq!(group.election_status, ElectionStatus::NoElection);
    assert_eq!(group.leader_id, None);
    assert_eq!(group.me(), None);
    assert_eq!(group.leader(), None);
    assert_eq!(group.update_leader(), None);
    assert!(group.members().is_empty());
    assert_eq!(group.previous_peer(), None);
}

#[test]
fn members_stand_in_order_whatever_the_order_of_the_rumors() {
    let group = group_of("b", &["c", "a", "d", "b"]);
    assert_eq!(names(&group), vec!["a", "b", "c", "d"]);
    let other = group_of("b", &["b", "d", "c", "a"]);
    assert_eq!(names(&other), names(&group));
    assert_eq!(group.members(), other.members());
    assert_eq!(group.me().unwrap().member_id, "b");
}

#[test]
fn each_rumor_changes_its_own_member() {
    let mut group = group_of("b", &["a", "b"]);
    group.update_from_service_rumors(&vec![speaks("a", "renamed"), speaks("c", "c")]);
    assert_eq!(names(&group), vec!["renamed", "b", "c"]);
    assert_eq!(group.population.len(), 3);
    assert_eq!(group.population.id_at(0), "a");
}

#[test]
fn finished_election_makes_the_leader() {
    let mut group = group_of("a", &["a", "b", "c"]);
    group.update_from_election_rumor(&election("b", ElectionPhase::Finished));
    assert_eq!(group.leader_id, Some("b".to_string()));
    assert_eq!(group.leader().unwrap().member_id, "b");
    assert_eq!(group.election_status, ElectionStatus::ElectionFinished);
    let leaders: Vec<Option<bool>> = group.members().iter().map(|m| m.leader).collect();
    assert_eq!(leaders, vec![Some(false), Some(true), Some(false)]);
    let followers: Vec<Option<bool>> = group.members().iter().map(|m| m.follower).collect();
    assert_eq!(followers, vec![Some(true), Some(false), Some(true)]);
    assert_eq!(group.update_leader(), None);
}

#[test]
fn unfinished_election_takes_the_leader_away() {
    let mut group = group_of("a", &["a", "b"]);
    group.update_from_election_rumor(&election("b", ElectionPhase::Finished));
    group.update_from_election_rumor(&election("b", ElectionPhase::Running));
    assert_eq!(group.leader(), None);
    assert_eq!(group.election_status, ElectionStatus::ElectionInProgress);
    group.update_from_election_rumor(&election("b", ElectionPhase::NoQuorum));
    assert_eq!(group.leader_id, None);
    assert_eq!(group.election_status, ElectionStatus::ElectionNoQuorum);
}

#[test]
fn stranger_does_not_lead() {
    let mut group = group_of("a", &["a", "b"]);
    group.update_from_election_rumor(&election("z", ElectionPhase::Finished));
    assert_eq!(group.leader_id, None);
    assert_eq!(group.leader(), None);
    assert!(group.members().iter().all(|m| m.follower == Some(true)));
}

#[test]
fn leader_is_looked_up_by_name() {
    let mut group = CensusGroup::new(redis(), &"k".to_string());
    group.update_from_service_rumors(&vec![speaks("k", "n")]);
    group.update_from_election_rumor(&election("n", ElectionPhase::Finished));
    assert_eq!(group.leader_id, Some("n".to_string()));
    assert_eq!(group.leader(), None);
    assert_eq!(group.me().unwrap().leader, Some(true));
}

#[test]
fn only_the_last_election_counts() {
    let mut once = group_of("a", &["a", "b"]);
    once.update_from_election_rumor(&election("b", ElectionPhase::Finished));
    let mut more = group_of("a", &["a", "b"]);
    more.update_from_election_rumor(&election("a", ElectionPhase::Finished));
    more.update_from_election_rumor(&election("b", ElectionPhase::Finished));
    more.update_from_election_rumor(&election("b", ElectionPhase::Finished));
    assert_eq!(once.members(), more.members());
    assert_eq!(once.leader_id, more.leader_id);
    assert_eq!(once.election_status, more.election_status);
}

#[test]
fn only_the_last_update_election_counts() {
    let mut group = group_of("a", &["a", "b"]);
    group.update_from_election_update_rumor(&update_election("a", ElectionPhase::Finished));
    assert_eq!(group.update_leader().unwrap().member_id, "a");
    group.update_from_election_update_rumor(&update_election("b", ElectionPhase::Finished));
    assert_eq!(group.update_leader().unwrap().member_id, "b");
    group.update_from_election_update_rumor(&update_election("b", ElectionPhase::Running));
    assert_eq!(group.update_leader(), None);
    assert_eq!(group.election_status, ElectionStatus::NoElection);
}

#[test]
fn the_two_kinds_of_election_are_independent() {
    let mut one = group_of("a", &["a", "b"]);
    one.update_from_election_rumor(&election("a", ElectionPhase::Finished));
    one.update_from_election_update_rumor(&update_election("b", ElectionPhase::Finished));
    let mut other = group_of("a", &["a", "b"]);
    other.update_from_election_update_rumor(&update_election("b", ElectionPhase::Finished));
    other.update_from_election_rumor(&election("a", ElectionPhase::Finished));
    assert_eq!(one.members(), other.members());
    assert_eq!(one.leader_id, other.leader_id);
    assert_eq!(one.update_leader_id, other.update_leader_id);
    assert_eq!(one.leader().unwrap().member_id, "a");
    assert_eq!(one.update_leader().unwrap().member_id, "b");
}

#[test]
fn previous_peer_is_to_the_left() {
    let mut group = group_of("c", &["a", "b", "c", "d"]);
    assert_eq!(previous(&group), None);
    for id in ["a", "b", "c", "d"] {
        set_health(&mut group, id, Health::Alive);
    }
    assert_eq!(previous(&group), Some("b".to_string()));
    set_health(&mut group, "b", Health::Suspect);
    assert_eq!(previous(&group), Some("a".to_string()));
    set_health(&mut group, "a", Health::Confirmed);
    assert_eq!(previous(&group), Some("d".to_string()));
    set_health(&mut group, "d", Health::Confirmed);
    assert_eq!(previous(&group), None);
}

#[test]
fn previous_peer_of_the_first_is_the_last() {
    let mut group = group_of("a", &["a", "b", "c"]);
    for id in ["a", "b", "c"] {
        set_health(&mut group, id, Health::Alive);
    }
    assert_eq!(previous(&group), Some("c".to_string()));
}

#[test]
fn one_who_is_not_alive_has_a_previous_peer() {
    let mut group = group_of("b", &["a", "b", "c"]);
    set_health(&mut group, "a", Health::Alive);
    set_health(&mut group, "c", Health::Alive);
    assert_eq!(previous(&group), Some("a".to_string()));
    set_health(&mut group, "b", Health::Suspect);
    assert_eq!(previous(&group), Some("a".to_string()));
    let mut strangers = group_of("z", &["a", "b"]);
    set_health(&mut strangers, "a", Health::Alive);
    set_health(&mut strangers, "b", Health::Alive);
    assert_eq!(previous(&strangers), None);
}

#[test]
fn the_only_peer_alive_is_the_previous_peer() {
    let mut group = group_of("b", &["a", "b", "c"]);
    set_health(&mut group, "c", Health::Alive);
    assert_eq!(previous(&group), Some("c".to_string()));
    set_health(&mut group, "b", Health::Alive);
    assert_eq!(previous(&group), Some("c".to_string()));
    set_health(&mut group, "c", Health::Confirmed);
    assert_eq!(previous(&group), None);
    set_health(&mut group, "b", Health::Confirmed);
    assert_eq!(previous(&group), None);
}

#[test]
fn peers_alive_form_one_round() {
    let ids = ["a", "b", "c", "d", "e"];
    let round = ["a", "c", "e"];
    for (m, me) in round.iter().enumerate() {
        let mut group = group_of(me, &ids);
        for id in round {
            set_health(&mut group, id, Health::Alive);
        }
        let expected = round[(m + round.len() - 1) % round.len()].to_string();
        assert_eq!(previous(&group), Some(expected.clone()));
        set_health(&mut group, "b", Health::Suspect);
        set_health(&mut group, "d", Health::Confirmed);
        assert_eq!(previous(&group), Some(expected));
    }
}

#[test]
fn place_among_the_alive_goes_by_name() {
    let mut group = CensusGroup::new(redis(), &"b".to_string());
    group.update_from_service_rumors(&vec![
        speaks("a", "n"),
        speaks("b", "n"),
        speaks("c", "third"),
        speaks("d", "fourth"),
    ]);
    for id in ["a", "b", "c", "d"] {
        set_health(&mut group, id, Health::Alive);
    }
    assert_eq!(previous(&group), Some("fourth".to_string()));
}

#[test]
fn member_is_found_to_be_changed() {
    let mut group = group_of("a", &["a", "b"]);
    assert!(group.find_member_mut(&"z".to_string()).is_none());
    group
        .find_member_mut(&"b".to_string())
        .unwrap()
        .persistent = Some(true);
    assert_eq!(group.members()[1].persistent, Some(true));
    assert_eq!(group.members()[0].persistent, None);
}
