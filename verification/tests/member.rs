//! A member of a service group, from the outside.

use census::config::{config_or_empty, read_config};
use census::event::PackageIdentProto;
use census::member::CensusMember;
use census::rumor::{
    ElectionPhase, ElectionRumor, ElectionUpdateRumor, Health, Member, PackageIdent, ServiceGroup,
    ServiceRumor, SysInfo,
};

fn group(org: Option<&str>) -> ServiceGroup {
    ServiceGroup {
        service: "redis".to_string(),
        group: "default".to_string(),
        org: org.map(|o| o.to_string()),
    }
}

fn ident(version: Option<&str>, release: Option<&str>) -> PackageIdent {
    PackageIdent {
        origin: "core".to_string(),
        name: "redis".to_string(),
        version: version.map(|v| v.to_string()),
        release: release.map(|r| r.to_string()),
    }
}

fn sys() -> SysInfo {
    SysInfo {
        ip: "10.0.0.1".to_string(),
        hostname: "alpha".to_string(),
        gossip_ip: "0.0.0.0".to_string(),
        gossip_port: "9638".to_string(),
        http_gateway_ip: "0.0.0.0".to_string(),
        http_gateway_port: "9631".to_string(),
    }
}

fn rumor(cfg: &str) -> ServiceRumor {
    ServiceRumor {
        member_id: "alpha".to_string(),
        pkg: Some(ident(Some("3.2.4"), Some("20170514150022"))),
        cfg: cfg.as_bytes().to_vec(),
        sys: Some(sys()),
    }
}

fn election(member_id: &str, status: ElectionPhase) -> ElectionRumor {
    ElectionRumor {
        member_id: member_id.to_string(),
        status,
    }
}

fn update_election(member_id: &str, status: ElectionPhase) -> ElectionUpdateRumor {
    ElectionUpdateRumor {
        member_id: member_id.to_string(),
        status,
    }
}

fn alpha() -> CensusMember {
    let mut member = CensusMember::default();
    member.update_from_service_rumor(&group(Some("acme")), &rumor("port = 6379\n"));
    member
}

#[test]
fn nothing_is_known_of_a_new_member() {
    let member = CensusMember::default();
    assert_eq!(member.member_id, "");
    assert_eq!(member.pkg, None);
    assert_eq!(member.org, None);
    assert!(member.cfg.is_empty());
    assert_eq!(member.sys, SysInfo::default());
    assert_eq!(member.leader, None);
    assert_eq!(member.alive, None);
    assert_eq!(member.persistent, None);
}

#[test]
fn service_rumor_fills_in_the_member() {
    let member = alpha();
    assert_eq!(member.member_id, "alpha");
    assert_eq!(member.service, "redis");
    assert_eq!(member.group, "default");
    assert_eq!(member.org, Some("acme".to_string()));
    assert_eq!(
        member.pkg,
        Some(ident(Some("3.2.4"), Some("20170514150022")))
    );
    assert_eq!(member.sys, sys());
    assert_eq!(member.cfg.len(), 1);
    assert_eq!(member.cfg["port"].as_integer(), Some(6379));
    assert_eq!(member.leader, None);
}

#[test]
fn organization_and_package_are_not_lost() {
    let mut member = alpha();
    let vague = ServiceRumor {
        member_id: "beta".to_string(),
        pkg: None,
        cfg: b"this is no document".to_vec(),
        sys: None,
    };
    member.update_from_service_rumor(&group(None), &vague);
    assert_eq!(member.member_id, "beta");
    assert_eq!(member.org, Some("acme".to_string()));
    assert_eq!(
        member.pkg,
        Some(ident(Some("3.2.4"), Some("20170514150022")))
    );
    assert!(member.cfg.is_empty());
    assert_eq!(member.sys, SysInfo::default());

    let newer = ServiceRumor {
        pkg: Some(ident(None, None)),
        ..rumor("")
    };
    member.update_from_service_rumor(&group(Some("umbrella")), &newer);
    assert_eq!(member.org, Some("umbrella".to_string()));
    assert_eq!(member.pkg, Some(ident(None, None)));
}

#[test]
fn service_with_given_configuration() {
    let mut cfg = toml::value::Table::new();
    cfg.insert("port".to_string(), toml::Value::Integer(1));
    let mut member = CensusMember::default();
    member.update_from_service(&group(None), &rumor("port = 2\n"), cfg.clone());
    assert_eq!(member.cfg, cfg);
    assert_eq!(member.org, None);
    assert_eq!(member.member_id, "alpha");
}

#[test]
fn configuration_is_read_from_toml() {
    let cfg = read_config(b"name = \"x\"\n[net]\nport = 80\n");
    assert_eq!(cfg.len(), 2);
    assert_eq!(cfg["name"].as_str(), Some("x"));
    assert_eq!(cfg["net"]["port"].as_integer(), Some(80));
    assert!(read_config(b"").is_empty());
    assert!(read_config(b"= 1").is_empty());
    assert!(read_config(&[0xff, 0xfe]).is_empty());
}

#[test]
fn configuration_of_a_reading() {
    let mut cfg = toml::value::Table::new();
    cfg.insert("a".to_string(), toml::Value::Boolean(true));
    assert_eq!(config_or_empty(Ok(cfg.clone())), cfg);
    let failed: Result<toml::value::Table, toml::de::Error> = toml::from_slice(b"= 1");
    assert!(failed.is_err());
    assert!(config_or_empty(failed).is_empty());
}

#[test]
fn running_election_has_no_leader() {
    let mut member = alpha();
    assert!(!member.update_from_election_rumor(&election("alpha", ElectionPhase::Running)));
    assert_eq!(member.leader, Some(false));
    assert_eq!(member.follower, Some(false));
    assert_eq!(member.election_is_running, Some(true));
    assert_eq!(member.election_is_no_quorum, Some(false));
    assert_eq!(member.election_is_finished, Some(false));
    assert_eq!(member.update_leader, None);
}

#[test]
fn election_without_quorum_has_no_leader() {
    let mut member = alpha();
    assert!(!member.update_from_election_rumor(&election("alpha", ElectionPhase::NoQuorum)));
    assert_eq!(member.leader, Some(false));
    assert_eq!(member.follower, Some(false));
    assert_eq!(member.election_is_running, Some(false));
    assert_eq!(member.election_is_no_quorum, Some(true));
    assert_eq!(member.election_is_finished, Some(false));
}

#[test]
fn finished_election_makes_leader_or_follower() {
    let mut member = alpha();
    assert!(member.update_from_election_rumor(&election("alpha", ElectionPhase::Finished)));
    assert_eq!(member.leader, Some(true));
    assert_eq!(member.follower, Some(false));
    assert_eq!(member.election_is_finished, Some(true));
    assert!(!member.update_from_election_rumor(&election("beta", ElectionPhase::Finished)));
    assert_eq!(member.leader, Some(false));
    assert_eq!(member.follower, Some(true));
    assert_eq!(member.election_is_running, Some(false));
    assert_eq!(member.election_is_no_quorum, Some(false));
}

#[test]
fn update_elections_go_by_themselves() {
    let mut member = alpha();
    assert!(member.update_from_election_rumor(&election("alpha", ElectionPhase::Finished)));
    assert!(
        !member.update_from_election_update_rumor(&update_election("x", ElectionPhase::Running))
    );
    assert_eq!(member.update_election_is_running, Some(true));
    assert_eq!(member.update_leader, Some(false));
    assert_eq!(member.update_follower, Some(false));
    assert!(
        !member.update_from_election_update_rumor(&update_election("x", ElectionPhase::NoQuorum))
    );
    assert_eq!(member.update_election_is_no_quorum, Some(true));
    assert!(
        !member.update_from_election_update_rumor(&update_election("x", ElectionPhase::Finished))
    );
    assert_eq!(member.update_leader, Some(false));
    assert_eq!(member.update_follower, Some(true));
    assert!(member
        .update_from_election_update_rumor(&update_election("alpha", ElectionPhase::Finished)));
    assert_eq!(member.update_leader, Some(true));
    assert_eq!(member.update_follower, Some(false));
    assert_eq!(member.update_election_is_finished, Some(true));
    assert_eq!(member.update_election_is_running, Some(false));
    assert_eq!(member.leader, Some(true));
    assert_eq!(member.election_is_finished, Some(true));
}

#[test]
fn list_of_members_gives_the_address() {
    let mut member = alpha();
    member.update_from_member(&Member {
        id: "alpha".to_string(),
        address: "192.168.1.7".to_string(),
        gossip_port: 9000,
    });
    assert_eq!(member.sys.gossip_ip, "192.168.1.7");
    assert_eq!(member.sys.gossip_port, "9000");
    assert_eq!(member.sys.ip, "10.0.0.1");
    assert_eq!(member.persistent, Some(true));
    assert_eq!(member.alive, None);
}

#[test]
fn health_is_one_of_three() {
    let mut member = alpha();
    for (health, alive, suspect, confirmed) in [
        (Health::Alive, true, false, false),
        (Health::Suspect, false, true, false),
        (Health::Confirmed, false, false, true),
    ] {
        member.update_from_health(health);
        assert_eq!(member.alive, Some(alive));
        assert_eq!(member.suspect, Some(suspect));
        assert_eq!(member.confirmed, Some(confirmed));
    }
}

#[test]
fn event_stream_is_told_of_everything() {
    let mut member = alpha();
    member.update_from_election_rumor(&election("alpha", ElectionPhase::Finished));
    member.update_from_health(Health::Suspect);
    let entry = member.as_protobuf();
    assert_eq!(entry.member_id, "alpha");
    assert_eq!(entry.service, "redis");
    assert_eq!(entry.group, "default");
    assert_eq!(entry.org, "acme");
    assert_eq!(entry.cfg, b"port = 6379\n".to_vec());
    assert_eq!(entry.sys, sys());
    assert_eq!(
        entry.pkg,
        Some(PackageIdentProto {
            origin: "core".to_string(),
            name: "redis".to_string(),
            version: "3.2.4".to_string(),
            release: "20170514150022".to_string(),
        })
    );
    assert!(entry.leader);
    assert!(!entry.follower);
    assert!(!entry.update_leader);
    assert!(!entry.update_follower);
    assert!(!entry.election_is_running);
    assert!(!entry.election_is_no_quorum);
    assert!(entry.election_is_finished);
    assert!(!entry.update_election_is_running);
    assert!(!entry.update_election_is_no_quorum);
    assert!(!entry.update_election_is_finished);
    assert!(!entry.initialized);
    assert!(!entry.alive);
    assert!(entry.suspect);
    assert!(!entry.confirmed);
    assert!(!entry.persistent);
    assert_eq!(member.try_as_protobuf(), Some(entry));
}

#[test]
fn event_stream_is_told_of_a_new_member() {
    let entry = CensusMember::default().as_protobuf();
    assert_eq!(entry.org, "");
    assert_eq!(entry.pkg, None);
    assert_eq!(entry.cfg, Vec::<u8>::new());
    assert!(!entry.leader && !entry.alive && !entry.persistent);
}

#[test]
fn package_may_leave_version_and_release_open() {
    let mut member = alpha();
    member.pkg = Some(ident(None, None));
    let pkg = member.as_protobuf().pkg.unwrap();
    assert_eq!(pkg.origin, "core");
    assert_eq!(pkg.version, "");
    assert_eq!(pkg.release, "");
}

#[test]
fn event_with_given_configuration_text() {
    let entry = alpha().as_protobuf_with("caf\u{e9}".to_string());
    assert_eq!(entry.cfg, vec![0x63, 0x61, 0x66, 0xc3, 0xa9]);
    assert_eq!(entry.member_id, "alpha");
}

#[test]
fn configuration_without_a_text_has_no_event() {
    let mut member = CensusMember::default();
    member.update_from_service_rumor(&group(None), &rumor("port = 1\n[net]\nx = 1\n"));
    assert_eq!(member.cfg.len(), 2);
    assert_eq!(member.try_as_protobuf(), None);
}
