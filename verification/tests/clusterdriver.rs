use metralectl_agent::cluster::{PrepareReply, SettingValue};
use metralectl_agent::clusterdriver::ceremonies::verdict;
use metralectl_agent::clusterdriver::plan::{dial_candidate, link_warning, Request};
use metralectl_agent::clusterdriver::{
    ClusterDriver, CommitStep, Order, Preview, RankPrepare, RankStarted, Release, Torn,
};
use metralectl_agent::fabric::{LinkClass, NodeAddress};
use metralectl_agent::fleet::routing::Socket;
use metralectl_agent::fleet::{Launchability, NodeDescriptor, PairingState};
use metralectl_agent::node::NodeId;

fn node_id(seed: u8) -> NodeId {
    NodeId::from_bytes([seed; 32])
}

fn machine(seed: u8) -> NodeDescriptor<f32> {
    NodeDescriptor {
        id: node_id(seed),
        name: format!("spark-{seed}"),
        is_local: seed == 1,
        pairing: PairingState::Paired,
        addresses: vec![NodeAddress {
            iface: "enp1s0f0np0".to_owned(),
            addr: format!("10.10.10.{seed}"),
            class: LinkClass::Roce,
            speed_mbps: Some(200_000),
            prefix_len: 24,
            rdma: true,
        }],
        launchability: Launchability::yes(),
        agent_version: "0.1.3".to_owned(),
        accelerator: "GB10".to_owned(),
        os: "Linux".to_owned(),
        vitals: None,
        alerts: Vec::new(),
        running: None,
        vouched_by: None,
        reached_via: None,
    }
}

fn all_three() -> Vec<NodeId> {
    vec![node_id(1), node_id(2), node_id(3)]
}

/// What the machines of a fleet answer with.
#[derive(Default)]
struct Fleet {
    /// Machines that refuse to prepare, and why.
    refusing: Vec<(NodeId, String)>,
    /// Machines that cannot start, and why.
    failing: Vec<(NodeId, String)>,
    /// Machines whose rank dies as soon as it starts.
    dying: Vec<NodeId>,
    /// Machines that cannot stop their rank.
    stuck: Vec<NodeId>,
    /// Machines that are gone altogether.
    dead: Vec<NodeId>,
}

fn ready() -> Fleet {
    Fleet::default()
}

impl Fleet {
    fn refusing(mut self, node: NodeId, why: &str) -> Self {
        self.refusing.push((node, why.to_owned()));
        self
    }

    fn failing_commit(mut self, node: NodeId, why: &str) -> Self {
        self.failing.push((node, why.to_owned()));
        self
    }

    fn dying(mut self, node: NodeId) -> Self {
        self.dying.push(node);
        self
    }

    fn stuck(mut self, node: NodeId) -> Self {
        self.stuck.push(node);
        self
    }
}

/// A driver and the machines it drives.
struct Rig {
    driver: ClusterDriver,
    fleet: Fleet,
    log: Vec<String>,
    epochs: u32,
}

impl Rig {
    fn new(fleet: Fleet) -> Self {
        Rig {
            driver: ClusterDriver::new(34334).with_settle(0),
            fleet,
            log: Vec::new(),
            epochs: 0,
        }
    }

    fn calls(&self) -> Vec<String> {
        self.log.clone()
    }

    fn note(&mut self, node: NodeId, addr: &Option<Socket>, what: &str) {
        let who = match addr {
            None => "local".to_owned(),
            Some(_) => node.short(),
        };
        self.log.push(format!("{who}.{what}"));
    }

    fn kill_for_test(&mut self, node: NodeId) {
        self.fleet.dead.push(node);
    }

    fn request(&self, nodes: &[NodeId], settings: Vec<(String, SettingValue)>) -> Request {
        Request {
            recipe: "qwen3.5-122b-a10b-nvfp4-ep2".to_owned(),
            hash: Ok("sha256:abc".to_owned()),
            recipe_port: Some(8888),
            nodes: nodes.to_vec(),
            head: node_id(1),
            settings,
        }
    }

    fn prepare(
        &mut self,
        nodes: &[NodeId],
        settings: Vec<(String, SettingValue)>,
    ) -> Result<(String, Vec<RankPrepare>, bool), String> {
        let rows: Vec<NodeDescriptor<f32>> = (1..=3).map(machine).collect();
        let dialable: Vec<bool> = (0..rows.len())
            .map(|i| dial_candidate(&rows, i).is_some())
            .collect();
        self.epochs += 1;
        let epoch = format!("epoch-{}", self.epochs);
        let req = self.request(nodes, settings);
        let mut p = self.driver.begin_prepare(&rows, &dialable, &req, &epoch)?;
        while let Some(i) = p.asking() {
            let t = p.pending.targets[i].copy();
            self.note(t.assignment.node, &t.addr, "prepare");
            let no = self
                .fleet
                .refusing
                .iter()
                .find(|(n, _)| *n == t.assignment.node);
            p.answer(match no {
                Some((_, why)) => PrepareReply::Refused {
                    reason: why.clone(),
                },
                None => PrepareReply::Prepared,
            });
        }
        let done = self.driver.end_prepare(p);
        self.release(&done.release);
        Ok((done.epoch, done.answers, done.may_commit))
    }

    fn release(&mut self, all: &[Release]) {
        for r in all {
            self.note(r.node, &r.addr, "abort");
        }
    }

    /// Stop one container.
    fn stop(&mut self, o: &Order) -> Result<(), String> {
        self.note(o.node, &o.addr, &format!("stop({})", o.container));
        if self.fleet.dead.contains(&o.node) {
            Err("could not be reached".to_owned())
        } else if self.fleet.stuck.contains(&o.node) {
            Err("docker is down".to_owned())
        } else {
            Ok(())
        }
    }

    fn alive(&mut self, o: &Order) -> bool {
        self.note(o.node, &o.addr, &format!("alive({})", o.container));
        !self.fleet.dead.contains(&o.node) && !self.fleet.dying.contains(&o.node)
    }

    fn commit(&mut self, epoch: &str) -> Result<Vec<RankStarted>, String> {
        let mut c = self.driver.begin_commit(epoch)?;
        loop {
            match c.due() {
                CommitStep::Start { target } => {
                    let t = c.pending.targets[target].copy();
                    self.note(t.assignment.node, &t.addr, "commit");
                    let no = self
                        .fleet
                        .failing
                        .iter()
                        .find(|(n, _)| *n == t.assignment.node);
                    c.start_answered(match no {
                        Some((_, why)) => Err(why.clone()),
                        None if t.addr.is_none() => Ok("head-container".to_owned()),
                        None => Ok(format!("rank-{}", t.assignment.rank)),
                    });
                }
                CommitStep::Settle { .. } => c.has_settled(),
                CommitStep::Check { target, order } => {
                    let alive = self.alive(&order);
                    c.alive_answered(target, alive);
                }
                CommitStep::Undo { stop, release, why } => {
                    for o in &stop {
                        let _ = self.stop(o);
                    }
                    self.release(&release);
                    return Err(why);
                }
                CommitStep::Up => return Ok(self.driver.end_commit(c)),
            }
        }
    }

    fn abort(&mut self, epoch: &str) {
        let all = self.driver.abort(epoch);
        self.release(&all);
    }

    fn stop_cluster(&mut self) -> Result<Vec<RankStarted>, String> {
        let mut s = self.driver.begin_stop()?;
        while let Some((k, order)) = s.due() {
            let outcome = self.stop(&order);
            s.answered(k, outcome);
        }
        self.driver.end_stop(s)
    }

    fn supervise(&mut self) -> Option<Torn> {
        let orders = self.driver.roster()?;
        let alive: Vec<bool> = orders.iter().map(|o| self.alive(o)).collect();
        let torn = verdict(&orders, &alive)?;
        let _ = self.stop_cluster();
        self.driver.tear_down();
        Some(torn)
    }
}

#[test]
fn a_prepare_every_rank_accepts_may_commit() {
    let mut d = Rig::new(ready());
    let (epoch, ranks, may) = d
        .prepare(&all_three(), Vec::new())
        .expect("the plan is possible");

    assert!(may, "every rank accepted");
    assert_eq!(ranks.len(), 3);
    assert!(ranks.iter().all(|r| r.prepared));
    assert!(!epoch.is_empty());
    // Nothing started: prepare reserves, it does not launch.
    assert!(
        !d.calls().iter().any(|c| c.contains("commit")),
        "prepare must not start anything: {:?}",
        d.calls()
    );
}

/// The reason two phases exist. One machine says no, and every machine that
/// already said yes is still holding a reservation — if those are not released,
/// the fleet cannot launch anything until each is prepared again.
#[test]
fn one_refusal_releases_every_reservation_already_taken() {
    let mut d = Rig::new(ready().refusing(node_id(3), "no disk"));
    let (_, ranks, may) = d
        .prepare(&all_three(), Vec::new())
        .expect("the plan is possible");

    assert!(!may, "a refusal must block the commit");
    let refused: Vec<_> = ranks.iter().filter(|r| !r.prepared).collect();
    assert_eq!(refused.len(), 1);
    assert_eq!(refused[0].reason, "no disk");

    let c = d.calls();
    // The two that accepted were released; the one that refused was not asked
    // to release something it never took.
    assert!(
        c.contains(&"local.abort".to_owned()),
        "head must release: {c:?}"
    );
    assert!(
        c.contains(&format!("{}.abort", node_id(2).short())),
        "the peer that accepted must release: {c:?}"
    );
    assert!(
        !c.contains(&format!("{}.abort", node_id(3).short())),
        "the refuser holds nothing to release: {c:?}"
    );
    assert!(
        !c.iter().any(|x| x.contains("commit")),
        "nothing may start: {c:?}"
    );
}

/// A machine that cannot be reached has not agreed to anything, so it must read
/// as a refusal rather than abandon the ranks before it mid-loop.
#[test]
fn an_unreachable_rank_is_a_refusal_not_an_abandoned_launch() {
    let mut d = Rig::new(ready().refusing(node_id(2), "could not be reached: timed out"));
    let (_, ranks, may) = d
        .prepare(&all_three(), Vec::new())
        .expect("the plan is possible");

    assert!(!may);
    // Every rank still got an answer — the loop did not stop at the failure.
    assert_eq!(ranks.len(), 3);
    assert!(d.calls().contains(&"local.abort".to_owned()));
}

#[test]
fn a_commit_starts_every_rank_and_only_rank_zero_gets_an_endpoint() {
    let mut d = Rig::new(ready());
    let (epoch, _, may) = d
        .prepare(&all_three(), Vec::new())
        .expect("prepares");
    assert!(may);

    let started = d.commit(&epoch).expect("commits");
    assert_eq!(started.len(), 3);
    assert_eq!(
        started.iter().filter(|r| r.endpoint.is_some()).count(),
        1,
        "a worker's URL would not answer, so it must not be offered"
    );
    assert!(started[0].rank == 0 && started[0].endpoint.is_some());
}

/// `assignment.settings` is a **sparse diff** — overrides only, not the
/// effective settings. Reading it as the whole truth meant an operator who
/// changed nothing produced an empty map, and the endpoint offered `:8000`
/// while the model served on the `:8888` its recipe pins. The URL was the one
/// thing on that screen the operator would actually paste somewhere.
#[test]
fn the_endpoint_uses_the_recipes_port_when_the_operator_overrode_nothing() {
    let mut d = Rig::new(ready());
    let (epoch, _, may) = d
        .prepare(&all_three(), Vec::new())
        .expect("prepares");
    assert!(may);

    let started = d.commit(&epoch).expect("commits");
    let endpoint = started[0].endpoint.as_deref().expect("rank 0 serves");
    assert!(
        endpoint.ends_with(":8888"),
        "the endpoint ignored the recipe's own port: {endpoint}"
    );
}

/// And an override still wins over the recipe, or the setting would do nothing.
#[test]
fn an_operators_port_override_still_beats_the_recipe() {
    let mut d = Rig::new(ready());
    let settings = vec![("port".to_owned(), SettingValue::Int(9001))];
    let (epoch, _, may) = d
        .prepare(&all_three(), settings)
        .expect("prepares");
    assert!(may);

    let started = d.commit(&epoch).expect("commits");
    let endpoint = started[0].endpoint.as_deref().expect("rank 0 serves");
    assert!(
        endpoint.ends_with(":9001"),
        "the operator's port was ignored: {endpoint}"
    );
}

/// A half-started cluster waits forever on a rendezvous that never completes,
/// and the operator sees a hang rather than an error.
#[test]
fn a_failed_commit_stops_the_ranks_that_already_started() {
    let mut d = Rig::new(ready().failing_commit(node_id(3), "image missing"));
    let (epoch, _, _) = d
        .prepare(&all_three(), Vec::new())
        .expect("prepares");

    let err = d.commit(&epoch).expect_err("rank 2 cannot start");
    assert!(
        err.contains("image missing"),
        "the reason must survive: {err}"
    );

    let c = d.calls();
    assert!(
        c.contains(&"local.stop(head-container)".to_owned()),
        "rank 0 must be stopped: {c:?}"
    );
    assert!(
        c.iter()
            .any(|x| x.starts_with(&format!("{}.stop(", node_id(2).short()))),
        "the started peer must be stopped: {c:?}"
    );
}

/// A commit consumes its prepare. Replaying the frame must not start a second
/// cluster on machines already running the first.
#[test]
fn a_replayed_commit_starts_nothing_twice() {
    let mut d = Rig::new(ready());
    let (epoch, _, _) = d
        .prepare(&all_three(), Vec::new())
        .expect("prepares");
    d.commit(&epoch).expect("first commit succeeds");

    let before = d.calls().len();
    let err = d.commit(&epoch).expect_err("the prepare is spent");
    assert!(err.contains("no prepare is outstanding"), "{err}");
    assert_eq!(
        d.calls().len(),
        before,
        "a replayed commit must not reach a single rank"
    );
}

/// An epoch from another attempt cannot authorize this one.
#[test]
fn a_commit_quoting_the_wrong_epoch_is_refused() {
    let mut d = Rig::new(ready());
    let (_, _, _) = d
        .prepare(&all_three(), Vec::new())
        .expect("prepares");

    let before = d.calls().len();
    let err = d.commit("some-other-epoch").expect_err("wrong epoch");
    assert!(err.contains("is holding a prepare for"), "{err}");
    assert_eq!(d.calls().len(), before, "no rank may be asked anything");
}

#[test]
fn an_abort_releases_every_rank() {
    let mut d = Rig::new(ready());
    let (epoch, _, _) = d
        .prepare(&all_three(), Vec::new())
        .expect("prepares");

    d.abort(&epoch);
    let c = d.calls();
    assert!(c.contains(&"local.abort".to_owned()));
    assert!(c.contains(&format!("{}.abort", node_id(2).short())));
    assert!(c.contains(&format!("{}.abort", node_id(3).short())));

    // And the prepare is gone, so it cannot then be committed.
    assert!(d.commit(&epoch).is_err());
}

/// An abort for a stale epoch arriving late must not release the prepare made
/// since — that would silently cancel a launch the operator is watching.
#[test]
fn a_stale_abort_does_not_release_a_newer_prepare() {
    let mut d = Rig::new(ready());
    let (first, _, _) = d
        .prepare(&all_three(), Vec::new())
        .expect("prepares");
    let (second, _, _) = d
        .prepare(&all_three(), Vec::new())
        .expect("prepares again");
    assert_ne!(first, second, "each attempt gets its own epoch");

    d.abort(&first);
    assert!(
        d.commit(&second).is_ok(),
        "the newer prepare must survive a stale abort"
    );
}

/// The selection is not a suggestion: a machine the fleet does not know about
/// must fail before anything is asked of anybody.
#[test]
fn a_machine_outside_the_fleet_fails_before_any_rank_is_asked() {
    let mut d = Rig::new(ready());
    let err = d
        .prepare(&[node_id(1), node_id(9)], Vec::new())
        .expect_err("node 9 is not in this fleet");
    assert!(err.contains("not in this fleet"), "{err}");
    assert!(
        d.calls().is_empty(),
        "nothing may be asked: {:?}",
        d.calls()
    );
}

/// The head is a rank like any other. A head that skipped its own prepare would
/// commit a rank nobody validated.
#[test]
fn the_head_prepares_itself_like_any_other_rank() {
    let mut d = Rig::new(ready().refusing(node_id(1), "docker is down"));
    let (_, ranks, may) = d
        .prepare(&all_three(), Vec::new())
        .expect("the plan is possible");

    assert!(!may, "the head refusing must block the commit too");
    let head = ranks.iter().find(|r| r.rank == 0).expect("rank 0");
    assert!(!head.prepared);
    assert_eq!(head.reason, "docker is down");
}


#[test]
fn a_started_cluster_can_be_stopped_on_every_machine() {
    let mut d = Rig::new(ready());
    let (epoch, _, _) = d
        .prepare(&all_three(), Vec::new())
        .expect("prepares");
    let started = d.commit(&epoch).expect("commits");

    let stopped = d.stop_cluster().expect("stops");
    assert_eq!(stopped.len(), started.len());

    let c = d.calls();
    assert!(
        c.contains(&"local.stop(head-container)".to_owned()),
        "{c:?}"
    );
    for seed in [2u8, 3] {
        let id = node_id(seed).short();
        assert!(
            c.iter().any(|x| x.starts_with(&format!("{id}.stop("))),
            "{id} was never stopped: {c:?}"
        );
    }
}

/// An agent stops the cluster it started. Asking it to stop one it did not is
/// how a page would use its local agent to reach machines it cannot authorize.
#[test]
fn stopping_without_having_started_anything_is_refused() {
    let mut d = Rig::new(ready());
    let err = d.stop_cluster().expect_err("nothing was started");
    assert!(err.contains("did not start a cluster"), "{err}");
    assert!(d.calls().is_empty(), "no machine may be contacted");
}

/// A cluster is stopped once. A second stop must not tear down a cluster
/// started since.
#[test]
fn a_cluster_is_stopped_once() {
    let mut d = Rig::new(ready());
    let (epoch, _, _) = d
        .prepare(&all_three(), Vec::new())
        .expect("prepares");
    d.commit(&epoch).expect("commits");
    d.stop_cluster().expect("stops");

    let before = d.calls().len();
    assert!(
        d.stop_cluster().is_err(),
        "the cluster is already stopped"
    );
    assert_eq!(
        d.calls().len(),
        before,
        "no machine may be contacted again"
    );
}

/// A rank left running holds a whole GPU, so giving up on the first failure
/// would be the most expensive possible response to it.
#[test]
fn every_rank_is_attempted_even_when_one_refuses_to_stop() {
    let mut d = Rig::new(ready().stuck(node_id(1)));
    let (epoch, _, _) = d
        .prepare(&all_three(), Vec::new())
        .expect("prepares");
    d.commit(&epoch).expect("commits");

    let err = d
        .stop_cluster()
        .expect_err("rank 0 could not be stopped");
    assert!(err.contains("could not stop"), "{err}");

    let c = d.calls();
    for seed in [2u8, 3] {
        let id = node_id(seed).short();
        assert!(
            c.iter().any(|x| x.starts_with(&format!("{id}.stop("))),
            "{id} must still be stopped: {c:?}"
        );
    }
}

/// The failure that real hardware found. `docker run -d` returned 0 for rank 0,
/// so the commit reported success — and rank 0's container had already died a
/// second later, leaving rank 1 running alone and waiting forever on a
/// rendezvous that would never complete. The operator saw a hang, not an error.
#[test]
fn a_rank_that_dies_on_startup_fails_the_commit_and_stops_the_rest() {
    let mut d = Rig::new(ready().dying(node_id(1)));
    let (epoch, _, _) = d
        .prepare(&all_three(), Vec::new())
        .expect("prepares");

    let err = d.commit(&epoch).expect_err("rank 0 did not survive");
    assert!(err.contains("stopped within"), "{err}");
    assert!(
        err.contains("spark-1"),
        "the dead machine must be named: {err}"
    );

    // The peers that did start must not be left holding a GPU.
    let c = d.calls();
    for seed in [2u8, 3] {
        let id = node_id(seed).short();
        assert!(
            c.iter().any(|x| x.starts_with(&format!("{id}.stop("))),
            "{id} must be stopped: {c:?}"
        );
    }
}

#[test]
fn a_peer_that_dies_on_startup_fails_the_commit_too() {
    let mut d = Rig::new(ready().dying(node_id(3)));
    let (epoch, _, _) = d
        .prepare(&all_three(), Vec::new())
        .expect("prepares");

    let err = d.commit(&epoch).expect_err("rank 2 did not survive");
    assert!(err.contains("spark-3"), "{err}");
    assert!(
        d.calls().contains(&"local.stop(head-container)".to_owned()),
        "rank 0 must be stopped too: {:?}",
        d.calls()
    );
}

/// Every rank is checked, not just the first — a cluster is whole or absent.
#[test]
fn every_rank_is_asked_whether_it_survived() {
    let mut d = Rig::new(ready());
    let (epoch, _, _) = d
        .prepare(&all_three(), Vec::new())
        .expect("prepares");
    d.commit(&epoch).expect("commits");

    let c = d.calls();
    assert!(
        c.contains(&"local.alive(head-container)".to_owned()),
        "{c:?}"
    );
    for seed in [2u8, 3] {
        let id = node_id(seed).short();
        assert!(
            c.iter().any(|x| x.starts_with(&format!("{id}.alive("))),
            "{id} was never asked: {c:?}"
        );
    }
}

/// A commit that failed its settling window must leave no cluster behind to stop.
#[test]
fn a_cluster_that_failed_to_settle_is_not_recorded_as_running() {
    let mut d = Rig::new(ready().dying(node_id(1)));
    let (epoch, _, _) = d
        .prepare(&all_three(), Vec::new())
        .expect("prepares");
    let _ = d.commit(&epoch);

    assert!(
        d.stop_cluster().is_err(),
        "nothing is running, so there is nothing to stop"
    );
}

/// The gap the settling window cannot close.
///
/// A rank that dies four minutes in — during model build — passed the
/// five-second window. Its peers then hold their GPUs indefinitely, waiting at a
/// rendezvous that will never complete, and nothing notices.
#[test]
fn a_rank_that_dies_after_commit_tears_the_cluster_down() {
    let mut d = Rig::new(ready());
    let (epoch, _, _) = d
        .prepare(&all_three(), Vec::new())
        .expect("prepares");
    d.commit(&epoch).expect("commits");

    // It was whole a moment ago.
    assert!(
        d.supervise().is_none(),
        "a healthy cluster is left alone"
    );

    // Now rank 2 dies.
    d.kill_for_test(node_id(2));
    let torn = d.supervise().expect("a dead rank must be noticed");
    assert!(
        torn.why.contains("spark-2"),
        "must name what died: {}",
        torn.why
    );
    // The machines travel with the sentence, so the caller can raise this
    // against a node rather than only printing it on the head's stderr.
    assert!(
        !torn.nodes.is_empty(),
        "supervision must say WHICH machine, not only that something died"
    );

    let c = d.calls();
    assert!(
        c.contains(&"local.stop(head-container)".to_owned()),
        "the survivors must be stopped: {c:?}"
    );
    assert!(
        d.stop_cluster().is_err(),
        "the cluster is gone, so there is nothing left to stop"
    );
}

/// A second cluster must be refused while one is running.
///
/// Nothing used to stop it, and committing was destructive in both directions:
/// with the SAME recipe each rank's `docker rm -f` silently killed the live
/// cluster mid-service, and with a different one both ran, contending for the
/// GPUs, while the second commit overwrote the record of the first -- leaving
/// the first one with no Stop button that knew about it.
#[test]
fn a_second_cluster_is_refused_while_one_is_running() {
    let mut d = Rig::new(ready());
    let (epoch, _, _) = d
        .prepare(&all_three(), Vec::new())
        .expect("prepares");
    d.commit(&epoch).expect("commits");

    let before = d.calls().len();
    let err = d
        .prepare(&all_three(), Vec::new())
        .expect_err("a second cluster must be refused while one runs");
    assert!(err.contains("already running"), "{err}");
    assert!(err.contains("stop it"), "must say what to do: {err}");
    // And it must refuse BEFORE touching a machine: a refusal that has already
    // dialled three peers has already done the damage it was avoiding.
    assert_eq!(
        d.calls().len(),
        before,
        "the refusal must not reach any machine"
    );
}

/// A stop that could not reach a machine must SAY so, and must stay retryable.
///
/// Two bugs in one story. `RankTransport::stop` returned `()`, so a peer the
/// driver could not reach contributed nothing to the failure list and the
/// operator was told every rank had stopped -- while that machine kept its
/// container and its GPU. And the running record was TAKEN before any stop was
/// attempted, so even a reported failure could not be retried: pressing Stop
/// again answered "this agent did not start a cluster".
#[test]
fn a_stop_that_could_not_reach_a_peer_is_reported_and_can_be_retried() {
    let mut d = Rig::new(ready());
    let (epoch, _, _) = d
        .prepare(&all_three(), Vec::new())
        .expect("prepares");
    d.commit(&epoch).expect("commits");

    // spark-2 becomes unreachable -- the machine, not the container.
    d.kill_for_test(node_id(2));

    let err = d
        .stop_cluster()
        .expect_err("an unreachable peer must not be reported as stopped");
    assert!(err.contains("spark-2"), "must name the machine: {err}");

    // And the record survives, so the operator can press Stop again rather than
    // being told there was never a cluster.
    let again = d.stop_cluster();
    assert!(
        again.is_err(),
        "the unreachable rank is still up, so a retry must still fail: {again:?}"
    );
    assert!(
        again.unwrap_err().contains("spark-2"),
        "and must still name the same machine"
    );
}

/// After supervision tears a cluster down, a NEW cluster must still start.
///
/// Emergent, not present in either change alone. Stop now keeps the running
/// record when it cannot reach a machine, so an operator can retry; prepare now
/// refuses while a record exists, so a second cluster cannot destroy a first.
/// Supervision hits both at once -- the rank it tears down is by definition one
/// that stopped answering, so its stop fails, the record survives, and every
/// later launch is refused with "a cluster is already running" the operator
/// cannot clear, because Stop keeps failing against a machine that is gone.
#[test]
fn a_supervised_teardown_does_not_block_the_next_cluster() {
    let mut d = Rig::new(ready());
    let (epoch, _, _) = d
        .prepare(&all_three(), Vec::new())
        .expect("prepares");
    d.commit(&epoch).expect("commits");

    // The machine goes away: its liveness probe AND its stop both fail.
    d.kill_for_test(node_id(2));
    d.supervise().expect("a dead rank must be noticed");

    // The operator starts again. This must not be refused.
    d.prepare(&all_three(), Vec::new())
        .expect("a torn-down cluster must not block the next one");
}

/// Supervising when nothing is running must not reach for the network.
#[test]
fn supervising_an_idle_agent_does_nothing() {
    let mut d = Rig::new(ready());
    assert!(d.supervise().is_none());
    assert!(d.calls().is_empty(), "{:?}", d.calls());
}

/// A preview asks every rank what it would run, and reserves nothing.
#[test]
fn a_preview_asks_every_rank_what_it_would_run() {
    let d = Rig::new(ready());
    let rows: Vec<NodeDescriptor<f32>> = (1..=3).map(machine).collect();
    let req = d.request(&all_three(), Vec::new());
    let pending = d
        .driver
        .resolve(&rows, &vec![true, true, true], &req, "preview")
        .expect("plans");
    let mut p = Preview {
        pending,
        out: Vec::new(),
    };
    let mut asked = 0;
    while let Some(i) = p.asking() {
        assert_eq!(i, asked);
        p.answer(Ok((format!("docker run {i}"), Vec::new()))).expect("renders");
        asked += 1;
    }
    assert_eq!(asked, 3);
    assert_eq!(p.out[0].command, "docker run 0");
    assert_eq!(p.out[0].rank, 0);
    assert!(link_warning(&rows, &req).is_none(), "all of it is fabric");
    assert!(d.driver.pending.is_none());
}

/// One that cannot render ends the preview, and is named.
#[test]
fn a_rank_that_cannot_render_is_named() {
    let d = Rig::new(ready());
    let rows: Vec<NodeDescriptor<f32>> = (1..=3).map(machine).collect();
    let req = d.request(&all_three(), Vec::new());
    let pending = d
        .driver
        .resolve(&rows, &vec![true, true, true], &req, "preview")
        .expect("plans");
    let mut p = Preview {
        pending,
        out: Vec::new(),
    };
    let err = p.answer(Err("unknown recipe".to_owned())).unwrap_err();
    assert_eq!(err, "spark-1: unknown recipe");
}

/// A machine that cannot be dialled is found before any rank is asked.
#[test]
fn a_machine_without_a_dialable_address_fails_the_plan() {
    let d = Rig::new(ready());
    let rows: Vec<NodeDescriptor<f32>> = (1..=3).map(machine).collect();
    let req = d.request(&all_three(), Vec::new());
    let err = d
        .driver
        .resolve(&rows, &vec![true, false, true], &req, "preview")
        .expect_err("spark-2 cannot be dialled");
    assert!(err.contains("spark-2"), "{err}");
}

/// A commit waits for its cluster to settle before it looks.
#[test]
fn a_commit_settles_before_it_looks() {
    let mut d = Rig::new(ready());
    d.driver = ClusterDriver::new(34334);
    let (epoch, _, _) = d.prepare(&all_three(), Vec::new()).expect("prepares");
    let mut c = d.driver.begin_commit(&epoch).expect("begins");
    for i in 0..3 {
        assert_eq!(c.due(), CommitStep::Start { target: i });
        c.start_answered(Ok(format!("c{i}")));
    }
    assert_eq!(c.due(), CommitStep::Settle { ms: 5_000 });
    c.has_settled();
    assert!(matches!(c.due(), CommitStep::Check { target: 0, .. }));
    c.alive_answered(0, true);
    c.alive_answered(1, false);
    c.alive_answered(2, true);
    match c.due() {
        CommitStep::Undo { stop, why, .. } => {
            assert_eq!(stop.len(), 3);
            assert!(why.starts_with("spark-2 stopped within 5s of starting."), "{why}");
        }
        other => panic!("{other:?}"),
    }
}

/// A cluster is up once every rank was asked, after settling, and answered;
/// and a stop asks every rank, also past one that fails.
#[test]
fn every_rank_is_asked_before_up_and_every_rank_is_stopped() {
    let mut d = Rig::new(ready());
    let (epoch, _, _) = d.prepare(&all_three(), Vec::new()).expect("prepares");
    d.commit(&epoch).expect("commits");
    let asked: Vec<String> = d
        .calls()
        .into_iter()
        .filter(|c| c.contains("alive("))
        .collect();
    assert_eq!(asked.len(), 3, "{asked:?}");

    d.fleet.stuck.push(node_id(2));
    assert!(d.stop_cluster().is_err());
    let stopped = d.calls().iter().filter(|c| c.contains("stop(")).count();
    assert_eq!(stopped, 3, "one failure must not end the round");
}

/// A retry goes to the ranks that are still up and to no other; once they are
/// down too, there is nothing left to stop and nobody is contacted.
#[test]
fn a_retry_of_a_stop_goes_to_exactly_what_failed() {
    let mut d = Rig::new(ready());
    let (epoch, _, _) = d.prepare(&all_three(), Vec::new()).expect("prepares");
    let started = d.commit(&epoch).expect("commits");
    d.fleet.stuck.push(node_id(2));
    d.fleet.stuck.push(node_id(3));
    assert_eq!(
        d.stop_cluster(),
        Err("could not stop spark-2: docker is down; spark-3: docker is down".to_owned())
    );

    d.fleet.stuck.retain(|n| *n != node_id(3));
    let before = d.calls().len();
    assert_eq!(
        d.stop_cluster(),
        Err("could not stop spark-2: docker is down".to_owned())
    );
    let stops = |d: &Rig, from: usize| -> Vec<String> { d.calls()[from..].to_vec() };
    let of = |n: u8, k: usize| {
        format!("{}.stop({})", node_id(n).short(), started[k].container)
    };
    assert_eq!(stops(&d, before), [of(2, 1), of(3, 2)]);

    d.fleet.stuck.clear();
    let before = d.calls().len();
    assert_eq!(d.stop_cluster(), Ok(vec![started[1].clone()]));
    assert_eq!(stops(&d, before), [of(2, 1)]);

    let before = d.calls().len();
    assert_eq!(
        d.stop_cluster(),
        Err("this agent did not start a cluster".to_owned())
    );
    assert_eq!(d.calls().len(), before, "nobody is contacted");
}

/// Until the ranks of a cluster that fell apart have been stopped, it is
/// running, and another is refused; once its record has gone, it is not.
#[test]
fn a_cluster_is_running_until_it_is_torn_down() {
    let mut d = Rig::new(ready());
    let (epoch, _, _) = d.prepare(&all_three(), Vec::new()).expect("prepares");
    d.commit(&epoch).expect("commits");
    d.kill_for_test(node_id(2));
    assert!(d.stop_cluster().is_err());
    assert!(d.prepare(&all_three(), Vec::new()).is_err());
    d.driver.tear_down();
    assert!(d.prepare(&all_three(), Vec::new()).is_ok());
}
