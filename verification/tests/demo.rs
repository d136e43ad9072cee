use esclusa_gate::demo::{
    play_dead, play_dead_request, target, target_port, Decommission, DemoAction, DemoEvent,
    InFlight, PlayDeadError, PlayDeadEvent, PLAYDEAD_SECONDS,
};
use esclusa_gate::http::{unavailable, Reply};
use esclusa_gate::json::Json;

#[test]
fn the_target_can_be_configured() {
    assert_eq!(target(None), "oldworker");
    assert_eq!(target(Some("localhost".to_string())), "localhost");
    assert_eq!(target(Some(String::new())), "");
    assert_eq!(target_port(None), 3000);
    assert_eq!(target_port(Some("8080")), 8080);
    assert_eq!(target_port(Some("http")), 3000);
    assert_eq!(target_port(Some("70000")), 3000);
}

#[test]
fn the_request_is_fixed() {
    assert_eq!(
        play_dead_request("oldworker", PLAYDEAD_SECONDS),
        "POST /playdead HTTP/1.1\r\nHost: oldworker\r\nContent-Type: application/json\r\nContent-Length: 14\r\nConnection: close\r\n\r\n{\"seconds\":90}"
    );
}

#[test]
fn only_a_200_counts() {
    let reply = |s: &str| play_dead(PlayDeadEvent::Reply(s.as_bytes().to_vec()));
    assert_eq!(reply("HTTP/1.1 200 OK\r\n"), Ok(()));
    assert_eq!(reply("HTTP/1.1 200"), Ok(()));
    for other in ["HTTP/1.1 404 Not Found", "HTTP/1.0 200 OK", "HTTP/1.1 20", ""] {
        assert_eq!(reply(other), Err(PlayDeadError::Refused));
    }
    assert_eq!(play_dead(PlayDeadEvent::ConnectTimeout), Err(PlayDeadError::ConnectTimeout));
    assert_eq!(play_dead(PlayDeadEvent::ReplyTimeout), Err(PlayDeadError::ReplyTimeout));
    let cause = "connection refused".to_string();
    let broken = play_dead(PlayDeadEvent::Broken(cause.clone()));
    assert_eq!(broken, Err(PlayDeadError::Broken(cause)));
    assert_eq!(broken.unwrap_err().message(), "connection refused");
    assert_eq!(
        PlayDeadError::ConnectTimeout.message(),
        "connecting to the decommission target timed out"
    );
    assert_eq!(PlayDeadError::ReplyTimeout.message(), "the decommission target did not reply");
    assert_eq!(PlayDeadError::Refused.message(), "decommission target refused");
}

#[test]
fn one_run_at_a_time() {
    let mut f = InFlight::new();
    assert_eq!(f.start(1000), Some(1));
    assert_eq!(f.start(1000), None);
    assert_eq!(f.start(1089), None);
    assert_eq!(f.start(1090), Some(2));
    // the first run comes too late to free the place of the second
    f.give_up(1);
    assert_eq!(f.start(1091), None);
    f.give_up(2);
    assert_eq!(f.start(1091), Some(3));
    // a clock that went back
    assert_eq!(f.start(5), None);
}

#[test]
fn runs_are_numbered_as_long_as_there_are_numbers() {
    let mut f = InFlight { since: None, runs: u64::MAX };
    assert_eq!(f.start(1000), None);
    let mut f = InFlight { since: None, runs: u64::MAX - 1 };
    assert_eq!(f.start(1000), Some(u64::MAX));
}

fn answer(d: &Decommission) -> (u16, String) {
    match d.action() {
        DemoAction::Send(reply) => (reply.status, reply.body.to_text()),
        _ => panic!("not finished"),
    }
}

fn said(decision: &str) -> Reply {
    Reply { status: 200, body: Json::object().with("decision", Json::text(decision)) }
}

#[test]
fn a_run_without_asking_takes_the_target_offline() {
    let d = Decommission::begin("oldworker".to_string(), Some(7), false);
    match d.action() {
        DemoAction::PlayDead { host, seconds } => {
            assert_eq!(host, "oldworker");
            assert_eq!(seconds, 90);
        }
        _ => panic!("not to play dead"),
    }
    assert_eq!(d.came_to_nothing(), None);
    let d = d.step(DemoEvent::Played(Ok(())));
    assert_eq!(d.came_to_nothing(), None);
    assert_eq!(answer(&d), (200, "{\"seconds\":90,\"target\":\"oldworker\"}".to_string()));
}

#[test]
fn a_run_that_asks_needs_an_allow() {
    let begin = || Decommission::begin("oldworker".to_string(), Some(7), true);
    match begin().action() {
        DemoAction::Evaluate(req) => {
            assert_eq!(req.actor.as_deref(), Some("console"));
            assert_eq!(req.action.as_deref(), Some("service.stop"));
            assert_eq!(req.target.as_deref(), Some("oldworker"));
            assert!(req.params.is_none());
        }
        _ => panic!("not to ask"),
    }
    let d = begin().step(DemoEvent::Evaluated(said("allow")));
    assert!(matches!(d.action(), DemoAction::PlayDead { .. }));
    let d = begin().step(DemoEvent::Evaluated(said("refuse")));
    assert_eq!(answer(&d), (200, "{\"decision\":\"refuse\"}".to_string()));
    assert_eq!(d.came_to_nothing(), Some(7));
    let d = begin().step(DemoEvent::Evaluated(unavailable()));
    assert_eq!(answer(&d).0, 503);
    let d = begin().step(DemoEvent::Played(Ok(())));
    assert_eq!(answer(&d).0, 503);
}

#[test]
fn a_run_can_fail() {
    let d = Decommission::begin("oldworker".to_string(), Some(7), false)
        .step(DemoEvent::Played(Err(PlayDeadError::Refused)));
    assert_eq!(d.came_to_nothing(), Some(7));
    assert_eq!(answer(&d), (502, "{\"error\":\"decommission target refused\"}".to_string()));
    let d = Decommission::begin("oldworker".to_string(), None, true);
    assert_eq!(d.came_to_nothing(), None);
    assert_eq!(
        answer(&d),
        (409, "{\"error\":\"a decommission run is already in flight\"}".to_string())
    );
}
