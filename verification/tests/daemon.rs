use metralectl_agent::bench::event::{BenchEvent, EventKind, JobState, Outcome};
use metralectl_agent::bench::journal::replay;
use metralectl_agent::bench::reply::{BenchRefusal, BenchRep};
use metralectl_agent::cluster::{PrepareReply, SettingValue};
use metralectl_agent::control::{
    clamp_lines, execute, may_launch, may_preview, recipes, sampled, ControlRep, ControlReq, Done,
    RecipeEntry, RecipeFacts,
};
use metralectl_agent::daemon::bench_serve::{
    bench_grant_refusal, grant_of as bench_grant_of, terminal_bench, Attach, AttachStep, BenchReq,
    BenchRoute, IdleStep,
};
use metralectl_agent::daemon::join::{admit_joiner, unrecorded, Joined};
use metralectl_agent::daemon::peer_serve::{
    grant_refusal, rank_reply, serve, terminal_answer, terminal_gate, PeerReply, PeerRequest,
    RankDid, Serve,
};
use metralectl_agent::error::{AgentError, SettingError};
use metralectl_agent::fleet::pairing::Paired;
use metralectl_agent::fleet::{record_pairing, Launchability, LocalFleet};
use metralectl_agent::identity::{PinStore, PinsRead};
use metralectl_agent::joining::JoinWindow;
use metralectl_agent::node::NodeId;

fn node(byte: u8) -> NodeId {
    NodeId::from_bytes([byte; 32])
}

fn sender() -> NodeId {
    node(0x5e)
}

/// A serving machine and its pins.
struct Rig {
    fleet: LocalFleet<f32>,
    pins: PinsRead,
    local: NodeId,
}

fn rig() -> Rig {
    let local = node(0x11);
    Rig {
        fleet: LocalFleet::new(
            local,
            "serving-box".to_owned(),
            Vec::new(),
            Launchability::yes(),
            "GB10".to_owned(),
            "Linux".to_owned(),
            "0.1.3".to_owned(),
        ),
        pins: Ok(PinStore::new()),
        local,
    }
}

impl Rig {
    fn store(&mut self) -> &mut PinStore {
        self.pins.as_mut().expect("the pins read")
    }

    fn pin(&mut self, id: NodeId, granted: bool) {
        record_pairing(self.store(), id, "aa", "requester", 0, None, false);
        if granted {
            assert!(self.store().set_controller(id, true));
        }
    }

    /// One frame, answered. Everything that is carried out here answers with
    /// an empty status.
    fn ask(&mut self, frame: PeerRequest) -> Option<ControlRep<u8>> {
        match serve(frame) {
            Serve::Execute { req } => {
                if let Some(refused) = terminal_gate(&self.pins, sender(), self.local) {
                    return Some(refused);
                }
                let done = match req {
                    ControlReq::Launch { ref recipe, .. } => {
                        Done::Launch(match may_launch(recipe, &Ok(()), &Some(Ok(())), Err(vec![
                            SettingError::Invalid {
                                key: "no_such_setting".to_owned(),
                                reason: "unknown".to_owned(),
                            },
                        ]), &Vec::new()) {
                            Err(e) => Err(e),
                            Ok(_) => panic!("garbage settings must not pass"),
                        })
                    }
                    _ => Done::Status(Ok(Vec::new())),
                };
                Some(terminal_answer(self.local, execute(req, done)))
            }
            Serve::Relay { node, .. } => {
                match self.fleet.relay(&self.pins, &self.pins, sender(), node, 34334, true) {
                    Err(refused) => Some(refused),
                    Ok(addr) => {
                        Some(self.fleet.relayed(node, Err(format!("{} is down", addr.text()))))
                    }
                }
            }
            Serve::HangUp => None,
            other => panic!("not a control frame: {other:?}"),
        }
    }
}

/// A peer that is PINNED but not granted `controller` is refused, with the
/// exact grant command in the refusal.
#[test]
fn a_pinned_but_ungranted_sender_is_refused_terminal_control() {
    let mut r = rig();
    r.pin(sender(), false);
    match r.ask(PeerRequest::Control {
        req: ControlReq::Status,
    }) {
        Some(ControlRep::Refused {
            by,
            error: AgentError::ControlRefused { reason, .. },
        }) => {
            assert_eq!(by, r.local, "the refusal must name who refused");
            assert!(
                reason.contains("peer grant-control"),
                "the fix must be copy-paste: {reason}"
            );
        }
        other => panic!("expected ControlRefused, got {other:?}"),
    }
}

#[test]
fn a_granted_sender_executes_through_the_local_core() {
    let mut r = rig();
    r.pin(sender(), true);
    let rep = r.ask(PeerRequest::Control {
        req: ControlReq::Status,
    });
    assert!(matches!(rep, Some(ControlRep::Status { .. })), "got {rep:?}");
}

/// Revocation is immediate: a grant withdrawn between two requests refuses the
/// second.
#[test]
fn revoking_the_grant_takes_effect_on_the_very_next_frame() {
    let mut r = rig();
    r.pin(sender(), true);
    let first = r.ask(PeerRequest::Control {
        req: ControlReq::Status,
    });
    assert!(matches!(first, Some(ControlRep::Status { .. })));

    assert!(r.store().set_controller(sender(), false));
    let second = r.ask(PeerRequest::Control {
        req: ControlReq::Status,
    });
    assert!(
        matches!(
            second,
            Some(ControlRep::Refused {
                error: AgentError::ControlRefused { .. },
                ..
            })
        ),
        "a revocation that needs a restart is not a revocation: {second:?}"
    );
}

/// A relayed launch runs the same schema validation the browser path runs.
#[test]
fn a_relayed_launch_is_schema_validated_before_the_launcher() {
    let mut r = rig();
    r.pin(sender(), true);
    let rep = r.ask(PeerRequest::Control {
        req: ControlReq::Launch {
            recipe: "qwen3.6-27b-fp8".to_owned(),
            settings: vec![("no_such_setting".to_owned(), SettingValue::Bool(true))],
        },
    });
    assert!(
        matches!(
            rep,
            Some(ControlRep::Refused {
                error: AgentError::BadSettings { .. },
                ..
            })
        ),
        "got {rep:?}"
    );
}

/// An ungranted requester cannot spend the relay's authority at a third
/// machine.
#[test]
fn an_ungranted_sender_cannot_ask_for_a_forward() {
    let mut r = rig();
    r.pin(sender(), false);
    let target = node(0x7a);
    match r.ask(PeerRequest::ControlTo {
        node: target,
        req: ControlReq::Status,
    }) {
        Some(ControlRep::Refused {
            by,
            error: AgentError::RelayRefused { node, via, detail },
        }) => {
            assert_eq!(by, r.local);
            assert_eq!(via, Some(r.local), "the relay names itself in the error");
            assert_eq!(node, target, "the refusal names the TARGET");
            assert!(
                detail.contains("peer grant-control"),
                "the fix must be copy-paste: {detail}"
            );
        }
        other => panic!("expected RelayRefused, got {other:?}"),
    }
}

/// A relay forwards only to machines in its OWN pin store.
#[test]
fn a_relay_refuses_to_reach_a_node_it_has_not_itself_pinned() {
    let mut r = rig();
    r.pin(sender(), true);
    let stranger = node(0x7a);
    match r.ask(PeerRequest::ControlTo {
        node: stranger,
        req: ControlReq::Status,
    }) {
        Some(ControlRep::Refused {
            by,
            error: AgentError::RelayRefused { node, via, detail },
        }) => {
            assert_eq!(by, r.local);
            assert_eq!(via, Some(r.local), "the relay names itself in the error");
            assert_eq!(node, stranger);
            assert!(detail.contains("not a peer"), "got {detail}");
        }
        other => panic!("expected RelayRefused, got {other:?}"),
    }
}

/// A pinned target with no address in the relay's OWN state is refused.
#[test]
fn a_pinned_target_with_no_known_address_is_refused_not_guessed() {
    let mut r = rig();
    r.pin(sender(), true);
    let target = node(0x7a);
    record_pairing(r.store(), target, "bb", "t", 0, None, false);
    match r.ask(PeerRequest::ControlTo {
        node: target,
        req: ControlReq::Status,
    }) {
        Some(ControlRep::Refused {
            error: AgentError::RelayRefused { detail, .. },
            ..
        }) => assert!(detail.contains("no known address"), "got {detail}"),
        other => panic!("expected RelayRefused, got {other:?}"),
    }
}

/// A pairing frame arriving mid-serving ends the conversation.
#[test]
fn a_pairing_frame_mid_control_serving_ends_the_conversation() {
    let mut r = rig();
    r.pin(sender(), true);
    assert!(r.ask(PeerRequest::OutOfPlace).is_none());
}

/// A target that is known is dialled at the relay's own address, and what
/// comes of it is the relay's word.
#[test]
fn a_forward_that_fails_is_the_relays_own_refusal() {
    let mut r = rig();
    r.pin(sender(), true);
    let target = node(0x7a);
    let addr = Some("10.0.0.7".to_owned());
    record_pairing(r.store(), target, "bb", "t", 0, addr, false);
    match r.ask(PeerRequest::ControlTo {
        node: target,
        req: ControlReq::Status,
    }) {
        Some(ControlRep::Refused {
            error: AgentError::RelayRefused { detail, .. },
            ..
        }) => assert_eq!(detail, "10.0.0.7:34334 is down"),
        other => panic!("expected RelayRefused, got {other:?}"),
    }
    // Pins that stop reading between the two looks forward nothing.
    let lost: PinsRead = Err("gone".to_owned());
    let refused: Result<_, ControlRep<u8>> =
        r.fleet.relay(&r.pins, &lost, sender(), target, 34334, true);
    assert!(matches!(
        refused,
        Err(ControlRep::Refused { error: AgentError::RelayRefused { detail, .. }, .. })
            if detail == "this agent's pin store could not be read"
    ));
}

#[test]
fn a_grant_refusal_names_the_machine_to_run_the_command_on() {
    let sender = node(3);
    let local = node(9);
    let msg = grant_refusal(sender, local);

    assert!(
        msg.contains("grant-control"),
        "it must name the command: {msg}"
    );
    assert!(
        msg.contains(&local.short()),
        "it must name the machine to run it ON: {msg}"
    );
    assert!(
        msg.contains(&sender.short()),
        "it must name the machine being granted: {msg}"
    );
    assert!(
        !msg.contains("this machine"),
        "\"this machine\" is whichever box the operator is looking at, which is \
         never the one that refused: {msg}"
    );
}

/// What came of a frame about a rank is answered kind for kind.
#[test]
fn a_rank_frame_is_answered_kind_for_kind() {
    let reply = |did: RankDid| -> PeerReply<u8> { rank_reply(did) };
    assert!(matches!(
        reply(RankDid::Rendered(Ok(("docker run".to_owned(), vec![])))),
        PeerReply::RankPreviewed { command, .. } if command == "docker run"
    ));
    assert!(matches!(
        reply(RankDid::Rendered(Err("no".to_owned()))),
        PeerReply::RankRefused { reason } if reason == "no"
    ));
    assert!(matches!(
        reply(RankDid::Prepared { epoch: "e".to_owned(), reply: PrepareReply::Prepared }),
        PeerReply::Prepared { reply: PrepareReply::Prepared, .. }
    ));
    assert!(matches!(
        reply(RankDid::Committed { epoch: "e".to_owned(), container: Err("no".to_owned()) }),
        PeerReply::RankRefused { .. }
    ));
    // Unaskable is not alive.
    assert!(matches!(
        reply(RankDid::Looked { container: "c".to_owned(), alive: Err("?".to_owned()) }),
        PeerReply::RankLiveness { running: false, .. }
    ));
    assert!(matches!(
        reply(RankDid::Stopped { container: "c".to_owned() }),
        PeerReply::RankStopped { .. }
    ));
    assert!(matches!(
        reply(RankDid::Aborted { epoch: "e".to_owned() }),
        PeerReply::Aborted { .. }
    ));
}

// ---- bench -----------------------------------------------------------------

#[test]
fn a_paired_but_ungranted_submitter_is_refused_with_the_grant_command() {
    let mut r = rig();
    r.pin(sender(), true);
    let route = terminal_bench(true, &r.pins, sender(), r.local, None, BenchReq::NodeInfo);
    match route {
        BenchRoute::Answer(BenchRep::Refused { by, refusal }) => {
            assert_eq!(by, r.local);
            assert_eq!(refusal, bench_grant_refusal(sender(), r.local));
            assert_eq!(
                refusal,
                BenchRefusal::NotGranted {
                    command: "metralectl peer grant-bench 5e5e5e5e ON 11111111".to_owned()
                }
            );
        }
        other => panic!("control is not bench: {other:?}"),
    }
    let unknown = bench_grant_of(&r.pins, node(0x99), r.local).unwrap_err();
    assert!(matches!(unknown, BenchRefusal::NotConfigured { what, .. } if what.contains("not paired")));
    let blind: PinsRead = Err("denied".to_owned());
    assert!(bench_grant_of(&blind, sender(), r.local).is_err());
}

#[test]
fn a_node_without_a_configuration_still_says_why() {
    let mut r = rig();
    r.pin(sender(), false);
    r.store().set_bench(sender(), true);
    let off = |req: BenchReq, why: Option<&str>| {
        terminal_bench(false, &r.pins, sender(), r.local, why, req)
    };
    assert!(matches!(
        off(BenchReq::NodeInfo, None),
        BenchRoute::InfoOff { reason } if reason == "bench is not configured on this node"
    ));
    assert!(matches!(
        off(BenchReq::NodeInfo, Some("not Linux")),
        BenchRoute::InfoOff { reason } if reason == "not Linux"
    ));
    assert!(matches!(
        off(BenchReq::Status { job: None }, None),
        BenchRoute::Answer(BenchRep::Refused {
            refusal: BenchRefusal::NotConfigured { what, .. },
            ..
        }) if what == "no bench.yaml"
    ));
    let on = |req: BenchReq| terminal_bench(true, &r.pins, sender(), r.local, None, req);
    assert!(matches!(on(BenchReq::NodeInfo), BenchRoute::Info));
    assert!(matches!(
        on(BenchReq::Cancel { job: "j".to_owned() }),
        BenchRoute::Cancel { job } if job == "j"
    ));
    assert!(matches!(
        on(BenchReq::Attach { job: "j".to_owned(), from_seq: 1 }),
        BenchRoute::Answer(BenchRep::Refused {
            refusal: BenchRefusal::NotConfigured { what, .. },
            ..
        }) if what == "attach is a stream, not a request"
    ));
    assert!(matches!(
        serve(PeerRequest::Bench {
            req: BenchReq::Attach { job: "j".to_owned(), from_seq: 4 }
        }),
        Serve::Attach { from_seq: 4, .. }
    ));
}

fn event(seq: u64, kind: EventKind) -> BenchEvent {
    BenchEvent {
        job: "jb-1-deadbeef".to_owned(),
        seq,
        at_ms: seq,
        kind,
    }
}

fn queued(seq: u64) -> BenchEvent {
    event(seq, EventKind::Queued { position: 1 })
}

/// A client that attaches gets what was journaled, then what comes, each
/// once, until the job is done.
#[test]
fn an_attached_client_gets_each_event_once_and_done_last() {
    let job = "jb-1-deadbeef".to_owned();
    let mut a = Attach::begin(Ok(()), true, true, job, 0).expect("attaches");
    assert_eq!(a.next, 1);
    match a.pass(Ok(()), Some(vec![queued(1), queued(2)])) {
        AttachStep::Send { events, done } => {
            assert_eq!(events.len(), 2);
            assert!(!done);
        }
        other => panic!("{other:?}"),
    }
    assert_eq!(a.next, 3);
    assert!(matches!(
        a.idle(JobState::Running, 2, 7),
        IdleStep::Wait { heartbeat } if heartbeat.at_ms == 7_000 && heartbeat.seq == 2
    ));
    let over = event(
        3,
        EventKind::Done {
            outcome: Outcome::Cancelled { by: node(1) },
        },
    );
    match a.pass(Ok(()), Some(vec![over, queued(4)])) {
        AttachStep::Send { events, done } => {
            assert_eq!(events.len(), 1, "nothing follows the end");
            assert!(done);
        }
        other => panic!("{other:?}"),
    }
    // One that asks past the end of a finished job is said farewell to.
    let late = Attach::begin(Ok(()), true, true, "j".to_owned(), 9).expect("attaches");
    assert!(matches!(
        late.idle(JobState::Done, 3, 7),
        IdleStep::Farewell { heartbeat }
            if heartbeat.kind == EventKind::Heartbeat { state: JobState::Done, seq_high: 3 }
    ));
    assert!(matches!(a.pass(Ok(()), None), AttachStep::Drop));
}

#[test]
fn revoking_the_grant_cuts_an_attached_stream_at_its_next_event() {
    let mut a = Attach::begin(Ok(()), true, true, "j".to_owned(), 1).expect("attaches");
    let no = BenchRefusal::NotGranted {
        command: "grant".to_owned(),
    };
    match a.pass(Err(no.clone()), Some(vec![queued(1)])) {
        AttachStep::Refuse(refusal) => assert_eq!(refusal, no),
        other => panic!("{other:?}"),
    }
    assert_eq!(a.next, 1, "nothing was sent");
    assert_eq!(
        Attach::begin(Err(no.clone()), true, true, "j".to_owned(), 1).unwrap_err(),
        no
    );
    assert!(matches!(
        Attach::begin(Ok(()), true, false, "j".to_owned(), 1),
        Err(BenchRefusal::UnknownJob { .. })
    ));
    assert!(matches!(
        Attach::begin(Ok(()), false, true, "j".to_owned(), 1),
        Err(BenchRefusal::NotConfigured { .. })
    ));
}

// ---- joining ---------------------------------------------------------------

#[test]
fn one_invitation_admits_one_machine_with_the_grant_it_was_minted_with() {
    let mut window = JoinWindow::default();
    let mut pins = PinStore::new();
    window.mint(true, 1, 0);
    let joiner = |byte: u8| Paired {
        node: node(byte),
        public_key: "aa".to_owned(),
        name: "spark\u{1b}-1".to_owned(),
        verification: "abcd-ef01".to_owned(),
    };
    match admit_joiner(&mut window, &mut pins, &joiner(7), 99) {
        Joined::Admitted { log } => assert_eq!(
            log,
            "paired with spark-1 (07070707) — verification words: abcd-ef01"
        ),
        other => panic!("{other:?}"),
    }
    let pin = pins.pins.get(node(7)).expect("pinned");
    assert!(pin.controller && !pin.bench);
    assert_eq!((pin.name.as_str(), pin.paired_at), ("spark-1", 99));
    match admit_joiner(&mut window, &mut pins, &joiner(8), 99) {
        Joined::Refused { log } => assert!(log.starts_with("refusing 08080808: "), "{log}"),
        other => panic!("{other:?}"),
    }
    assert!(!pins.is_pinned(node(8)));
    assert!(unrecorded(node(8), "disk full").contains("could not be recorded: disk full."));
}

// ---- the control core ------------------------------------------------------

#[test]
fn a_launch_is_held_to_every_check() {
    let fine = || Ok(vec![("t".to_owned(), SettingValue::Float(7))]);
    let none = vec![None];
    assert!(may_launch("r", &Ok(()), &Some(Ok(())), fine(), &none).is_ok());
    assert!(matches!(
        may_launch("r", &Err("--client".to_owned()), &None, fine(), &none),
        Err(AgentError::NotLaunchable { reason, .. }) if reason == "--client"
    ));
    assert!(matches!(
        may_launch("r", &Ok(()), &None, fine(), &none),
        Err(AgentError::UnknownRecipe { recipe }) if recipe == "r"
    ));
    assert!(matches!(
        may_launch("r", &Ok(()), &Some(Err("no image".to_owned())), fine(), &none),
        Err(AgentError::NotLaunchable { reason, .. }) if reason == "no image"
    ));
    match may_launch("r", &Ok(()), &Some(Ok(())), fine(), &vec![Some("too high".to_owned())]) {
        Err(AgentError::BadSettings { errors }) => assert_eq!(
            errors,
            vec![SettingError::Denied {
                key: "t".to_owned(),
                reason: "too high".to_owned()
            }]
        ),
        other => panic!("{other:?}"),
    }
    assert!(may_preview("r", true, fine()).is_ok());
    assert!(matches!(
        may_preview("r", false, fine()),
        Err(AgentError::UnknownRecipe { .. })
    ));
}

#[test]
fn the_inventory_leaves_out_what_does_not_read() {
    let entry = |name: &str, launchable: Option<Result<(), String>>| RecipeEntry {
        name: name.to_owned(),
        found: launchable.map(|launchable| RecipeFacts {
            model: "org/m".to_owned(),
            nodes: 1,
            launchable,
            defaults: Vec::new(),
        }),
    };
    let all = recipes(vec![
        entry("a", Some(Ok(()))),
        entry("b c", Some(Ok(()))),
        entry("d", None),
        entry("e", Some(Err("needs two".to_owned()))),
    ]);
    let ids: Vec<&str> = all.iter().map(|r| r.id.as_str()).collect();
    assert_eq!(ids, ["a", "e"]);
    assert!(all[0].runnable && !all[1].runnable);
    assert_eq!(all[1].reason.as_deref(), Some("needs two"));
}

#[test]
fn a_model_that_does_not_answer_says_so() {
    assert_eq!(clamp_lines(10), 10);
    assert_eq!(clamp_lines(u32::MAX), 1_000);
    assert!(matches!(sampled("r", Some(Ok(5u8))), Ok(5)));
    assert!(matches!(sampled::<u8>("r", None), Err(AgentError::NotReady)));
    assert!(matches!(
        sampled::<u8>("r", Some(Err("loading".to_owned()))),
        Err(AgentError::NotLaunchable { reason, .. }) if reason == "loading"
    ));
}

/// Over several passes of a growing journal a client gets everything from the
/// number it asked for on, without a gap and without a repeat.
#[test]
fn a_stream_that_starts_late_has_no_gap_and_no_repeat() {
    let mut a = Attach::begin(Ok(()), true, true, "jb-1-deadbeef".to_owned(), 2).expect("attaches");
    let mut journal: Vec<BenchEvent> = Vec::new();
    let mut got = Vec::new();
    for grown in [1, 3, 3, 5] {
        while journal.len() < grown {
            journal.push(queued(journal.len() as u64 + 1));
        }
        let lines = journal.iter().cloned().map(Some).collect();
        let fresh = replay(lines, a.next).expect("whole");
        match a.pass(Ok(()), Some(fresh)) {
            AttachStep::Send { events, done } => {
                assert!(!done);
                got.extend(events.iter().map(|e| e.seq));
            }
            other => panic!("{other:?}"),
        }
    }
    assert_eq!(got, [2, 3, 4, 5]);
    assert_eq!(a.next, 6);
}
