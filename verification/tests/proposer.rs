use paxos::acceptor::Acceptor;
use paxos::ballot::ProposalNumber;
use paxos::config::Config;
use paxos::error::PaxosError;
use paxos::message::{Reply, Request};
use paxos::proposer::{carried_value, Action, Event, Phase, Proposer};
use paxos::value::{Promise, Propose, Value};

fn members(count: usize) -> Vec<(usize, String)> {
    let mut all = Vec::new();
    for i in 0..count {
        all.push((i + 1, format!("http://0.0.0.0:{}", 8000 + i)));
    }
    all
}

fn proposer_of(id: usize, count: usize) -> Proposer {
    Proposer::new(Config::new(id, members(count)))
}

fn acceptors(count: usize) -> Vec<Acceptor> {
    let mut all = Vec::new();
    for i in 0..count {
        all.push(Acceptor::new(Config::new(i + 1, members(count))));
    }
    all
}

fn promise(round: usize, proposer: usize) -> Promise {
    Promise::new(ProposalNumber::new(round, proposer), None)
}

fn promise_with(round: usize, proposer: usize, held: (usize, usize, &str)) -> Promise {
    Promise::new(
        ProposalNumber::new(round, proposer),
        Some(Propose::new(
            ProposalNumber::new(held.0, held.1),
            Value::new(String::from(held.2)),
        )),
    )
}

/// Sends `request` to every acceptor in turn and feeds each answer back,
/// until the proposer asks for something other than waiting.
fn broadcast(proposer: &mut Proposer, all: &mut Vec<Acceptor>, request: &Request) -> Action {
    for (i, acceptor) in all.iter_mut().enumerate() {
        let reply = acceptor.handle(request.clone());
        let action = proposer.step(Event::from_reply(i + 1, request, Some(reply)));
        if !matches!(action, Action::Wait) {
            return action;
        }
    }
    Action::Wait
}

/// Runs one whole round with every message delivered.
fn round(proposer: &mut Proposer, all: &mut Vec<Acceptor>, value: &str) -> Action {
    let prepare = proposer.prepare(String::from(value));
    match broadcast(proposer, all, &prepare) {
        Action::Broadcast(accept) => broadcast(proposer, all, &accept),
        other => other,
    }
}

#[test]
fn new_proposer_is_idle_in_round_zero() {
    let proposer = proposer_of(2, 3);
    assert_eq!(proposer.phase(), Phase::Idle);
    assert_eq!(proposer.number(), ProposalNumber::new(0, 2));
    assert_eq!(proposer.value().value, "");
    assert_eq!(proposer.config().id, 2);
    assert!(proposer.can_prepare());
}

#[test]
fn prepare_mints_the_next_number_and_asks_for_promises() {
    let mut proposer = proposer_of(2, 3);
    let request = proposer.prepare(String::from("v"));
    assert!(matches!(request, Request::Prepare(n) if n == ProposalNumber::new(1, 2)));
    assert_eq!(proposer.phase(), Phase::Preparing);
    assert_eq!(proposer.number(), ProposalNumber::new(1, 2));
    assert_eq!(proposer.value().value, "v");
    let request = proposer.prepare(String::from("w"));
    assert!(matches!(request, Request::Prepare(n) if n == ProposalNumber::new(2, 2)));
    assert_eq!(proposer.value().value, "w");
}

#[test]
fn single_proposer_gets_its_value_chosen_in_one_round() {
    let mut all = acceptors(3);
    let mut proposer = proposer_of(1, 3);
    let action = round(&mut proposer, &mut all, "v");
    assert!(matches!(action, Action::Chosen(ref value) if value.value == "v"));
    assert_eq!(proposer.phase(), Phase::Chosen);
    assert_eq!(proposer.number(), ProposalNumber::new(1, 1));
}

#[test]
fn second_promise_of_three_starts_phase_two() {
    let mut proposer = proposer_of(1, 3);
    proposer.prepare(String::from("mine"));
    let action = proposer.step(Event::Promised { peer: 3, promise: promise(1, 1) });
    assert!(matches!(action, Action::Wait));
    assert_eq!(proposer.phase(), Phase::Preparing);
    let action = proposer.step(Event::Promised { peer: 1, promise: promise(1, 1) });
    match action {
        Action::Broadcast(Request::Accept(proposal)) => {
            assert_eq!(proposal.number, ProposalNumber::new(1, 1));
            assert_eq!(proposal.value.value, "mine");
        }
        other => panic!("unexpected action {:?}", other),
    }
    assert_eq!(proposer.phase(), Phase::Accepting);
    let action = proposer.step(Event::Promised { peer: 2, promise: promise(1, 1) });
    assert!(matches!(action, Action::Wait));
    assert_eq!(proposer.phase(), Phase::Accepting);
}

#[test]
fn second_acceptance_of_three_makes_the_value_chosen() {
    let mut proposer = proposer_of(1, 3);
    proposer.prepare(String::from("mine"));
    proposer.step(Event::Promised { peer: 1, promise: promise(1, 1) });
    proposer.step(Event::Promised { peer: 2, promise: promise(1, 1) });
    let number = ProposalNumber::new(1, 1);
    let action = proposer.step(Event::Accepted { peer: 2, number });
    assert!(matches!(action, Action::Wait));
    let action = proposer.step(Event::AcceptFailed { peer: 1, number });
    assert!(matches!(action, Action::Wait));
    let action = proposer.step(Event::Accepted { peer: 3, number });
    assert!(matches!(action, Action::Chosen(ref value) if value.value == "mine"));
    assert_eq!(proposer.phase(), Phase::Chosen);
    let action = proposer.step(Event::Accepted { peer: 1, number });
    assert!(matches!(action, Action::Wait));
    assert_eq!(proposer.phase(), Phase::Chosen);
}

#[test]
fn reported_proposal_overrides_the_client_value() {
    let mut proposer = proposer_of(3, 3);
    proposer.prepare(String::from("mine"));
    proposer.step(Event::Promised { peer: 1, promise: promise(1, 3) });
    let action =
        proposer.step(Event::Promised { peer: 2, promise: promise_with(1, 3, (0, 9, "theirs")) });
    match action {
        Action::Broadcast(Request::Accept(proposal)) => {
            assert_eq!(proposal.number, ProposalNumber::new(1, 3));
            assert_eq!(proposal.value.value, "theirs");
        }
        other => panic!("unexpected action {:?}", other),
    }
    assert_eq!(proposer.value().value, "theirs");
}

#[test]
fn highest_numbered_reported_proposal_wins() {
    let mut proposer = proposer_of(1, 5);
    proposer.prepare(String::from("mine"));
    proposer.prepare(String::from("mine"));
    proposer.prepare(String::from("mine"));
    let action =
        proposer.step(Event::Promised { peer: 4, promise: promise_with(3, 1, (1, 5, "low")) });
    assert!(matches!(action, Action::Wait));
    let action =
        proposer.step(Event::Promised { peer: 2, promise: promise_with(3, 1, (2, 4, "high")) });
    assert!(matches!(action, Action::Wait));
    let action =
        proposer.step(Event::Promised { peer: 5, promise: promise_with(3, 1, (2, 3, "mid")) });
    match action {
        Action::Broadcast(Request::Accept(proposal)) => {
            assert_eq!(proposal.number, ProposalNumber::new(3, 1));
            assert_eq!(proposal.value.value, "high");
        }
        other => panic!("unexpected action {:?}", other),
    }
}

#[test]
fn majority_of_refusals_aborts_phase_one() {
    let mut proposer = proposer_of(1, 3);
    proposer.prepare(String::from("v"));
    let number = ProposalNumber::new(1, 1);
    let action = proposer.step(Event::PrepareFailed { peer: 1, number });
    assert!(matches!(action, Action::Wait));
    let action = proposer.step(Event::Promised { peer: 2, promise: promise(1, 1) });
    assert!(matches!(action, Action::Wait));
    let action = proposer.step(Event::PrepareFailed { peer: 3, number });
    assert!(matches!(action, Action::Aborted(PaxosError::QuorumUnreachable)));
    assert_eq!(proposer.phase(), Phase::Idle);
    let action = proposer.step(Event::Promised { peer: 3, promise: promise(1, 1) });
    assert!(matches!(action, Action::Wait));
    assert_eq!(proposer.phase(), Phase::Idle);
}

#[test]
fn majority_of_refusals_aborts_phase_two() {
    let mut proposer = proposer_of(1, 3);
    proposer.prepare(String::from("v"));
    proposer.step(Event::Promised { peer: 1, promise: promise(1, 1) });
    proposer.step(Event::Promised { peer: 2, promise: promise(1, 1) });
    let number = ProposalNumber::new(1, 1);
    let action = proposer.step(Event::AcceptFailed { peer: 1, number });
    assert!(matches!(action, Action::Wait));
    let action = proposer.step(Event::AcceptFailed { peer: 3, number });
    assert!(matches!(action, Action::Aborted(PaxosError::QuorumUnreachable)));
    assert_eq!(proposer.phase(), Phase::Idle);
}

#[test]
fn deadline_aborts_the_round_under_way() {
    let mut proposer = proposer_of(1, 3);
    proposer.prepare(String::from("v"));
    proposer.step(Event::Promised { peer: 1, promise: promise(1, 1) });
    let action = proposer.step(Event::TimedOut { number: ProposalNumber::new(1, 1) });
    assert!(matches!(action, Action::Aborted(PaxosError::Timeout)));
    assert_eq!(proposer.phase(), Phase::Idle);
    let action = proposer.step(Event::TimedOut { number: ProposalNumber::new(1, 1) });
    assert!(matches!(action, Action::Wait));
}

#[test]
fn deadline_of_an_earlier_round_is_ignored() {
    let mut proposer = proposer_of(1, 3);
    proposer.prepare(String::from("v"));
    proposer.prepare(String::from("v"));
    let action = proposer.step(Event::TimedOut { number: ProposalNumber::new(1, 1) });
    assert!(matches!(action, Action::Wait));
    assert_eq!(proposer.phase(), Phase::Preparing);
    let action = proposer.on_timed_out(ProposalNumber::new(2, 1));
    assert!(matches!(action, Action::Aborted(PaxosError::Timeout)));
}

#[test]
fn deadline_after_the_value_is_chosen_changes_nothing() {
    let mut all = acceptors(3);
    let mut proposer = proposer_of(1, 3);
    round(&mut proposer, &mut all, "v");
    let action = proposer.step(Event::TimedOut { number: ProposalNumber::new(1, 1) });
    assert!(matches!(action, Action::Wait));
    assert_eq!(proposer.phase(), Phase::Chosen);
}

#[test]
fn answers_to_an_earlier_round_are_ignored() {
    let mut proposer = proposer_of(1, 3);
    proposer.prepare(String::from("old"));
    proposer.prepare(String::from("new"));
    let action = proposer.step(Event::Promised { peer: 1, promise: promise(1, 1) });
    assert!(matches!(action, Action::Wait));
    let action = proposer.step(Event::Promised { peer: 2, promise: promise(1, 1) });
    assert!(matches!(action, Action::Wait));
    let action =
        proposer.step(Event::PrepareFailed { peer: 1, number: ProposalNumber::new(1, 1) });
    assert!(matches!(action, Action::Wait));
    let action =
        proposer.step(Event::PrepareFailed { peer: 2, number: ProposalNumber::new(1, 1) });
    assert!(matches!(action, Action::Wait));
    assert_eq!(proposer.phase(), Phase::Preparing);
    proposer.step(Event::Promised { peer: 1, promise: promise(2, 1) });
    let action = proposer.step(Event::Promised { peer: 2, promise: promise(2, 1) });
    assert!(matches!(action, Action::Broadcast(Request::Accept(ref p)) if p.value.value == "new"));
}

#[test]
fn a_peer_counts_once_per_phase() {
    let mut proposer = proposer_of(1, 3);
    proposer.prepare(String::from("v"));
    let action = proposer.on_promised(2, promise(1, 1));
    assert!(matches!(action, Action::Wait));
    let action = proposer.on_promised(2, promise(1, 1));
    assert!(matches!(action, Action::Wait));
    let action = proposer.on_failed(Phase::Preparing, 2, ProposalNumber::new(1, 1));
    assert!(matches!(action, Action::Wait));
    assert_eq!(proposer.phase(), Phase::Preparing);
    let action = proposer.on_promised(3, promise(1, 1));
    assert!(matches!(action, Action::Broadcast(_)));
    let number = ProposalNumber::new(1, 1);
    assert!(matches!(proposer.on_accepted(3, number), Action::Wait));
    assert!(matches!(proposer.on_accepted(3, number), Action::Wait));
    assert_eq!(proposer.phase(), Phase::Accepting);
    assert!(matches!(proposer.on_accepted(1, number), Action::Chosen(_)));
}

#[test]
fn answers_from_strangers_are_ignored() {
    let mut proposer = proposer_of(1, 3);
    proposer.prepare(String::from("v"));
    assert!(matches!(proposer.on_promised(4, promise(1, 1)), Action::Wait));
    assert!(matches!(proposer.on_promised(0, promise(1, 1)), Action::Wait));
    assert!(matches!(proposer.on_promised(1, promise(1, 1)), Action::Wait));
    assert_eq!(proposer.phase(), Phase::Preparing);
    let number = ProposalNumber::new(1, 1);
    assert!(matches!(proposer.on_failed(Phase::Preparing, 9, number), Action::Wait));
    assert!(matches!(proposer.on_failed(Phase::Preparing, 8, number), Action::Wait));
    assert_eq!(proposer.phase(), Phase::Preparing);
}

#[test]
fn answers_of_the_wrong_phase_are_ignored() {
    let mut proposer = proposer_of(1, 3);
    proposer.prepare(String::from("v"));
    let number = ProposalNumber::new(1, 1);
    assert!(matches!(proposer.on_accepted(1, number), Action::Wait));
    assert!(matches!(proposer.on_accepted(2, number), Action::Wait));
    assert!(matches!(proposer.on_failed(Phase::Accepting, 1, number), Action::Wait));
    assert!(matches!(proposer.on_failed(Phase::Accepting, 2, number), Action::Wait));
    assert!(matches!(proposer.on_failed(Phase::Idle, 1, number), Action::Wait));
    assert!(matches!(proposer.on_failed(Phase::Chosen, 2, number), Action::Wait));
    assert_eq!(proposer.phase(), Phase::Preparing);
    proposer.on_promised(1, promise(1, 1));
    proposer.on_promised(2, promise(1, 1));
    assert_eq!(proposer.phase(), Phase::Accepting);
    assert!(matches!(proposer.on_failed(Phase::Preparing, 3, number), Action::Wait));
    assert!(matches!(proposer.on_failed(Phase::Preparing, 1, number), Action::Wait));
    assert_eq!(proposer.phase(), Phase::Accepting);
}

#[test]
fn idle_proposer_ignores_every_event() {
    let mut proposer = proposer_of(1, 3);
    let number = ProposalNumber::new(0, 1);
    assert!(matches!(proposer.step(Event::Promised { peer: 1, promise: promise(0, 1) }), Action::Wait));
    assert!(matches!(proposer.step(Event::Promised { peer: 2, promise: promise(0, 1) }), Action::Wait));
    assert!(matches!(proposer.step(Event::PrepareFailed { peer: 1, number }), Action::Wait));
    assert!(matches!(proposer.step(Event::PrepareFailed { peer: 2, number }), Action::Wait));
    assert!(matches!(proposer.step(Event::Accepted { peer: 1, number }), Action::Wait));
    assert!(matches!(proposer.step(Event::AcceptFailed { peer: 1, number }), Action::Wait));
    assert!(matches!(proposer.step(Event::TimedOut { number }), Action::Wait));
    assert_eq!(proposer.phase(), Phase::Idle);
}

#[test]
fn aborted_proposer_retries_with_a_higher_number() {
    let mut all = acceptors(3);
    for acceptor in all.iter_mut() {
        acceptor.handle_prepare(ProposalNumber::new(1, 3)).unwrap();
    }
    let mut proposer = proposer_of(1, 3);
    let action = round(&mut proposer, &mut all, "v");
    assert!(matches!(action, Action::Aborted(PaxosError::QuorumUnreachable)));
    assert_eq!(proposer.phase(), Phase::Idle);
    let action = round(&mut proposer, &mut all, "v");
    assert!(matches!(action, Action::Chosen(ref value) if value.value == "v"));
    assert_eq!(proposer.number(), ProposalNumber::new(2, 1));
}

#[test]
fn single_node_cluster_chooses_alone() {
    let mut all = acceptors(1);
    let mut proposer = proposer_of(1, 1);
    let action = round(&mut proposer, &mut all, "solo");
    assert!(matches!(action, Action::Chosen(ref value) if value.value == "solo"));
}

#[test]
fn five_acceptors_choose_with_two_unreachable() {
    let mut all = acceptors(5);
    let mut proposer = proposer_of(2, 5);
    let prepare = proposer.prepare(String::from("v"));
    assert!(matches!(proposer.step(Event::from_reply(4, &prepare, None)), Action::Wait));
    assert!(matches!(proposer.step(Event::from_reply(5, &prepare, None)), Action::Wait));
    let mut next = Action::Wait;
    for i in 0..3 {
        let reply = all[i].handle(prepare.clone());
        next = proposer.step(Event::from_reply(i + 1, &prepare, Some(reply)));
    }
    let accept = match next {
        Action::Broadcast(request) => request,
        other => panic!("unexpected action {:?}", other),
    };
    assert!(matches!(proposer.step(Event::from_reply(4, &accept, None)), Action::Wait));
    assert!(matches!(proposer.step(Event::from_reply(5, &accept, None)), Action::Wait));
    let mut last = Action::Wait;
    for i in 0..3 {
        let reply = all[i].handle(accept.clone());
        last = proposer.step(Event::from_reply(i + 1, &accept, Some(reply)));
    }
    assert!(matches!(last, Action::Chosen(ref value) if value.value == "v"));
}

#[test]
fn answers_become_the_events_they_amount_to() {
    let prepare = Request::Prepare(ProposalNumber::new(2, 1));
    let accept = Request::Accept(Propose::new(
        ProposalNumber::new(2, 1),
        Value::new(String::from("v")),
    ));
    let number = ProposalNumber::new(2, 1);

    let event = Event::from_reply(3, &prepare, Some(Reply::Promised(promise(2, 1))));
    assert!(matches!(event, Event::Promised { peer: 3, ref promise } if promise.number == number));
    assert_eq!(event.number(), number);
    let event = Event::from_reply(3, &prepare, Some(Reply::Promised(promise(1, 1))));
    assert!(matches!(event, Event::PrepareFailed { peer: 3, number: n } if n == number));
    let event = Event::from_reply(3, &prepare, Some(Reply::Rejected(PaxosError::StaleProposal)));
    assert!(matches!(event, Event::PrepareFailed { peer: 3, number: n } if n == number));
    let event = Event::from_reply(3, &prepare, Some(Reply::Accepted(number)));
    assert!(matches!(event, Event::PrepareFailed { peer: 3, number: n } if n == number));
    let event = Event::from_reply(3, &prepare, None);
    assert!(matches!(event, Event::PrepareFailed { peer: 3, number: n } if n == number));

    let event = Event::from_reply(2, &accept, Some(Reply::Accepted(number)));
    assert!(matches!(event, Event::Accepted { peer: 2, number: n } if n == number));
    let event = Event::from_reply(2, &accept, Some(Reply::Accepted(ProposalNumber::new(1, 1))));
    assert!(matches!(event, Event::AcceptFailed { peer: 2, number: n } if n == number));
    let event = Event::from_reply(2, &accept, Some(Reply::Rejected(PaxosError::Superseded)));
    assert!(matches!(event, Event::AcceptFailed { peer: 2, number: n } if n == number));
    let event = Event::from_reply(2, &accept, Some(Reply::Promised(promise(2, 1))));
    assert!(matches!(event, Event::AcceptFailed { peer: 2, number: n } if n == number));
    let event = Event::from_reply(2, &accept, None);
    assert!(matches!(event, Event::AcceptFailed { peer: 2, number: n } if n == number));
    assert_eq!(Event::TimedOut { number }.number(), number);
}

#[test]
fn later_proposer_adopts_the_value_already_chosen() {
    let mut all = acceptors(3);
    let mut first = proposer_of(1, 3);
    let mut second = proposer_of(2, 3);
    let action = round(&mut first, &mut all, "v1");
    assert!(matches!(action, Action::Chosen(ref value) if value.value == "v1"));
    let action = round(&mut second, &mut all, "v2");
    assert!(matches!(action, Action::Chosen(ref value) if value.value == "v1"));
    assert_eq!(second.number(), ProposalNumber::new(1, 2));
    assert_eq!(second.value().value, "v1");
}

#[test]
fn proposer_with_a_lower_number_is_refused_then_adopts_the_chosen_value() {
    let mut all = acceptors(3);
    let mut first = proposer_of(2, 3);
    let mut second = proposer_of(1, 3);
    let action = round(&mut first, &mut all, "v1");
    assert!(matches!(action, Action::Chosen(ref value) if value.value == "v1"));
    let action = round(&mut second, &mut all, "v2");
    assert!(matches!(action, Action::Aborted(PaxosError::QuorumUnreachable)));
    assert_eq!(second.phase(), Phase::Idle);
    let action = round(&mut second, &mut all, "v2");
    assert!(matches!(action, Action::Chosen(ref value) if value.value == "v1"));
    assert_eq!(second.number(), ProposalNumber::new(2, 1));
}

#[test]
fn two_contending_proposers_report_the_same_value() {
    let mut all = acceptors(3);
    let mut first = proposer_of(1, 3);
    let mut second = proposer_of(2, 3);

    let prepare_first = first.prepare(String::from("v1"));
    let accept_first = match broadcast(&mut first, &mut all, &prepare_first) {
        Action::Broadcast(request) => request,
        other => panic!("unexpected action {:?}", other),
    };
    let prepare_second = second.prepare(String::from("v2"));
    let accept_second = match broadcast(&mut second, &mut all, &prepare_second) {
        Action::Broadcast(request) => request,
        other => panic!("unexpected action {:?}", other),
    };

    let outcome_first = broadcast(&mut first, &mut all, &accept_first);
    assert!(matches!(outcome_first, Action::Aborted(PaxosError::QuorumUnreachable)));
    let outcome_second = broadcast(&mut second, &mut all, &accept_second);
    assert!(matches!(outcome_second, Action::Chosen(ref value) if value.value == "v2"));

    let retried = round(&mut first, &mut all, "v1");
    assert!(matches!(retried, Action::Chosen(ref value) if value.value == "v2"));
    let mut holding = 0;
    for acceptor in all.iter() {
        if let Some(held) = acceptor.accepted() {
            assert_eq!(held.value.value, "v2");
            holding += 1;
        }
    }
    assert!(holding >= 2);
}

#[test]
fn a_value_accepted_by_one_acceptor_can_still_win() {
    let mut all = acceptors(3);
    let mut first = proposer_of(1, 3);
    let mut second = proposer_of(2, 3);

    let prepare_first = first.prepare(String::from("v1"));
    let accept_first = match broadcast(&mut first, &mut all, &prepare_first) {
        Action::Broadcast(request) => request,
        other => panic!("unexpected action {:?}", other),
    };
    let reply = all[2].handle(accept_first.clone());
    assert!(matches!(first.step(Event::from_reply(3, &accept_first, Some(reply))), Action::Wait));

    let prepare_second = second.prepare(String::from("v2"));
    let mut next = Action::Wait;
    for i in [1usize, 2] {
        let reply = all[i].handle(prepare_second.clone());
        next = second.step(Event::from_reply(i + 1, &prepare_second, Some(reply)));
    }
    let accept_second = match next {
        Action::Broadcast(request) => request,
        other => panic!("unexpected action {:?}", other),
    };
    assert!(matches!(accept_second, Request::Accept(ref p) if p.value.value == "v1"));
    let chosen = broadcast(&mut second, &mut all, &accept_second);
    assert!(matches!(chosen, Action::Chosen(ref value) if value.value == "v1"));
}

#[test]
fn carried_value_is_the_clients_when_nothing_is_reported() {
    let client = Value::new(String::from("mine"));
    let promises = vec![None, Some(promise(4, 1)), Some(promise(4, 1))];
    assert_eq!(carried_value(&promises, &client).value, "mine");
    assert_eq!(carried_value(&Vec::new(), &client).value, "mine");
    assert_eq!(carried_value(&vec![None, None], &client).value, "mine");
}

#[test]
fn carried_value_is_that_of_the_highest_reported_proposal() {
    let client = Value::new(String::from("mine"));
    let promises = vec![
        Some(promise_with(4, 1, (2, 2, "b"))),
        None,
        Some(promise_with(4, 1, (3, 1, "c"))),
        Some(promise(4, 1)),
        Some(promise_with(4, 1, (2, 3, "a"))),
    ];
    assert_eq!(carried_value(&promises, &client).value, "c");
    let promises = vec![Some(promise_with(4, 1, (1, 1, "only"))), None, None];
    assert_eq!(carried_value(&promises, &client).value, "only");
}

#[test]
fn carried_value_breaks_ties_by_proposer_id() {
    let client = Value::new(String::from("mine"));
    let promises = vec![
        Some(promise_with(9, 1, (3, 1, "low"))),
        Some(promise_with(9, 1, (3, 2, "high"))),
        Some(promise_with(9, 1, (2, 7, "older"))),
    ];
    assert_eq!(carried_value(&promises, &client).value, "high");
}
