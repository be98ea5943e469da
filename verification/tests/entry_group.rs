use zeroconf::entry_group::step;
use zeroconf::{
    AddServiceParams, AddServiceSubtypeParams, DaemonReply, Error, GroupEvent, GroupState,
    ManagedAvahiEntryGroup, ManagedAvahiEntryGroupParams, Outcome, Record, ServiceRecord,
    TxtRecord,
};

fn accepted() -> DaemonReply {
    DaemonReply { code: 0, text: String::new() }
}

fn refused(code: i32, text: &str) -> DaemonReply {
    DaemonReply { code, text: text.to_string() }
}

fn group() -> ManagedAvahiEntryGroup {
    ManagedAvahiEntryGroup::new(ManagedAvahiEntryGroupParams {
        client: 0x1000,
        handle: 0x2000,
        error: String::new(),
    })
    .unwrap()
}

fn service<'a>(name: &str, txt: Option<&'a TxtRecord>) -> AddServiceParams<'a> {
    AddServiceParams {
        interface: -1,
        protocol: -1,
        flags: 0,
        name: name.to_string(),
        kind: "_http._tcp".to_string(),
        domain: None,
        host: None,
        port: 8080,
        txt,
    }
}

fn subtype(name: &str) -> AddServiceSubtypeParams {
    AddServiceSubtypeParams {
        interface: -1,
        protocol: -1,
        flags: 0,
        name: name.to_string(),
        kind: "_http._tcp".to_string(),
        domain: None,
        subtype: "_printer._sub._http._tcp".to_string(),
    }
}

fn staged() -> ManagedAvahiEntryGroup {
    let mut g = group();
    g.add_service(service("web", None), &accepted()).unwrap();
    g
}

fn committing() -> ManagedAvahiEntryGroup {
    let mut g = staged();
    g.commit(&accepted()).unwrap();
    g
}

#[test]
fn new_group_is_empty() {
    let g = group();
    assert_eq!(g.state(), GroupState::Empty);
    assert_eq!(g.handle(), 0x2000);
    assert_eq!(g.client(), 0x1000);
    assert!(g.records().is_empty());
}

#[test]
fn new_without_handle_fails_with_daemon_text() {
    let r = ManagedAvahiEntryGroup::new(ManagedAvahiEntryGroupParams {
        client: 0x1000,
        handle: 0,
        error: "Daemon not running".to_string(),
    });
    assert_eq!(
        r.unwrap_err(),
        Error::DaemonError {
            message: "could not initialize AvahiEntryGroup: Daemon not running".to_string()
        }
    );
}

#[test]
fn is_empty_follows_the_daemon() {
    let g = staged();
    assert!(g.is_empty(1));
    assert!(!g.is_empty(0));
    assert!(g.is_empty(-1));
    let fresh = group();
    assert!(fresh.is_empty(1));
    assert!(!fresh.is_empty(0));
}

#[test]
fn add_service_stages_the_record() {
    let mut g = group();
    g.add_service(service("web", None), &accepted()).unwrap();
    assert_eq!(g.state(), GroupState::Staged);
    assert_eq!(g.records().len(), 1);
    g.add_service(service("printer", None), &refused(7, "")).unwrap();
    assert_eq!(g.state(), GroupState::Staged);
    assert_eq!(g.records().len(), 2);
    match &g.records()[1] {
        Record::Service(s) => {
            assert_eq!(s.name, "printer");
            assert_eq!(s.kind, "_http._tcp");
            assert_eq!(s.port, 8080);
            assert_eq!(s.txt, None);
        }
        Record::Subtype(_) => panic!("a service was staged"),
    }
}

#[test]
fn add_service_keeps_the_txt_record_as_it_was() {
    let mut txt = TxtRecord::new();
    txt.insert(b"foo", Some(b"bar")).unwrap();
    let mut g = group();
    g.add_service(service("web", Some(&txt)), &accepted()).unwrap();
    txt.insert(b"foo", Some(b"changed")).unwrap();
    txt.insert(b"more", None).unwrap();
    assert_eq!(
        g.records()[0],
        Record::Service(ServiceRecord {
            interface: -1,
            protocol: -1,
            flags: 0,
            name: "web".to_string(),
            kind: "_http._tcp".to_string(),
            domain: None,
            host: None,
            port: 8080,
            txt: Some(b"\x07foo=bar".to_vec()),
        })
    );
}

#[test]
fn refused_service_changes_nothing() {
    let mut g = staged();
    let r = g.add_service(service("web", None), &refused(-8, "Local name collision"));
    assert_eq!(
        r,
        Err(Error::RegistrationError {
            code: -8,
            message: "could not register service: Local name collision".to_string()
        })
    );
    assert_eq!(g.state(), GroupState::Staged);
    assert_eq!(g.records().len(), 1);

    let mut fresh = group();
    assert!(fresh.add_service(service("web", None), &refused(-1, "Operation failed")).is_err());
    assert_eq!(fresh.state(), GroupState::Empty);
    assert!(fresh.records().is_empty());
}

#[test]
fn add_service_subtype_stages_the_record() {
    let mut g = staged();
    g.add_service_subtype(subtype("web"), &accepted()).unwrap();
    assert_eq!(g.state(), GroupState::Staged);
    assert_eq!(g.records().len(), 2);
    assert_eq!(g.records()[1], Record::Subtype(subtype("web")));
}

#[test]
fn refused_subtype_changes_nothing() {
    let mut g = staged();
    let r = g.add_service_subtype(subtype("other"), &refused(-2, "Bad state"));
    assert_eq!(
        r,
        Err(Error::RegistrationError {
            code: -2,
            message: "could not register service subtype: Bad state".to_string()
        })
    );
    assert_eq!(g.records().len(), 1);
    assert_eq!(g.state(), GroupState::Staged);
}

#[test]
fn commit_makes_a_staged_group_committing() {
    let mut g = staged();
    g.commit(&accepted()).unwrap();
    assert_eq!(g.state(), GroupState::Committing);
    assert_eq!(g.records().len(), 1);
}

#[test]
fn refused_commit_fails_with_daemon_text() {
    let mut g = staged();
    let r = g.commit(&refused(-3, "Invalid object"));
    assert_eq!(
        r,
        Err(Error::DaemonError { message: "could not commit service: Invalid object".to_string() })
    );
    assert_eq!(g.state(), GroupState::Staged);
    assert_eq!(g.records().len(), 1);
}

#[test]
fn established_report_settles_the_commit() {
    let mut g = committing();
    g.state_changed(&Outcome::Established);
    assert_eq!(g.state(), GroupState::Established);
}

#[test]
fn collision_report_is_not_a_failure() {
    let mut g = committing();
    g.state_changed(&Outcome::Collision);
    assert_eq!(g.state(), GroupState::Collision);
    assert_ne!(g.state(), GroupState::Failed);
}

#[test]
fn failed_group_can_be_reset_and_used_again() {
    let mut g = committing();
    g.state_changed(&Outcome::Failed { reason: "Timeout reached".to_string() });
    assert_eq!(g.state(), GroupState::Failed);
    g.reset();
    assert_eq!(g.state(), GroupState::Empty);
    g.add_service(service("web-2", None), &accepted()).unwrap();
    g.commit(&accepted()).unwrap();
    assert_eq!(g.state(), GroupState::Committing);
}

#[test]
fn reset_empties_the_group_in_every_state() {
    let outcomes = [
        Outcome::Established,
        Outcome::Collision,
        Outcome::Failed { reason: String::new() },
    ];
    for outcome in &outcomes {
        let mut g = committing();
        g.state_changed(outcome);
        g.reset();
        assert_eq!(g.state(), GroupState::Empty);
        assert!(g.records().is_empty());
        assert_eq!(g.handle(), 0x2000);
    }
    let mut g = group();
    g.reset();
    assert_eq!(g.state(), GroupState::Empty);
    let mut g = staged();
    g.reset();
    assert_eq!(g.state(), GroupState::Empty);
    assert!(g.records().is_empty());
    let mut g = committing();
    g.reset();
    assert_eq!(g.state(), GroupState::Empty);
}

#[test]
fn report_out_of_turn_is_ignored() {
    let mut g = staged();
    g.state_changed(&Outcome::Collision);
    assert_eq!(g.state(), GroupState::Staged);
    let mut g = group();
    g.state_changed(&Outcome::Established);
    assert_eq!(g.state(), GroupState::Empty);
    let mut g = committing();
    g.state_changed(&Outcome::Established);
    g.state_changed(&Outcome::Failed { reason: String::new() });
    assert_eq!(g.state(), GroupState::Established);
}

#[test]
fn commit_out_of_turn_keeps_the_state() {
    let mut g = group();
    g.commit(&accepted()).unwrap();
    assert_eq!(g.state(), GroupState::Empty);
    let mut g = committing();
    g.state_changed(&Outcome::Collision);
    g.commit(&accepted()).unwrap();
    assert_eq!(g.state(), GroupState::Collision);
}

#[test]
fn release_hands_out_the_handle() {
    assert_eq!(group().release(), 0x2000);
    assert_eq!(staged().release(), 0x2000);
    assert_eq!(committing().release(), 0x2000);
}

#[test]
fn step_follows_the_lifecycle() {
    assert_eq!(step(GroupState::Empty, GroupEvent::RecordStaged), GroupState::Staged);
    assert_eq!(step(GroupState::Staged, GroupEvent::RecordStaged), GroupState::Staged);
    assert_eq!(step(GroupState::Staged, GroupEvent::Committed), GroupState::Committing);
    assert_eq!(step(GroupState::Committing, GroupEvent::Established), GroupState::Established);
    assert_eq!(step(GroupState::Committing, GroupEvent::Collision), GroupState::Collision);
    assert_eq!(step(GroupState::Committing, GroupEvent::Failed), GroupState::Failed);
    let states = [
        GroupState::Empty,
        GroupState::Staged,
        GroupState::Committing,
        GroupState::Established,
        GroupState::Collision,
        GroupState::Failed,
    ];
    for s in states {
        assert_eq!(step(s, GroupEvent::Reset), GroupState::Empty);
    }
    assert_eq!(step(GroupState::Empty, GroupEvent::Committed), GroupState::Empty);
    assert_eq!(step(GroupState::Established, GroupEvent::RecordStaged), GroupState::Established);
    assert_eq!(step(GroupState::Collision, GroupEvent::Established), GroupState::Collision);
}
