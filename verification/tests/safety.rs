use paxos::acceptor::Acceptor;
use paxos::config::Config;
use paxos::message::{Reply, Request};
use paxos::proposer::{Action, Event, Phase, Proposer};

/// A small deterministic generator, so that a failing schedule can be
/// replayed from its seed.
struct Dice {
    state: u64,
}

impl Dice {
    fn roll(&mut self, sides: usize) -> usize {
        self.state = self
            .state
            .wrapping_mul(6364136223846793005)
            .wrapping_add(1442695040888963407);
        ((self.state >> 33) as usize) % sides
    }
}

enum Letter {
    ToAcceptor { from: usize, to: usize, request: Request },
    ToProposer { to: usize, from: usize, request: Request, reply: Reply },
}

fn members(count: usize) -> Vec<(usize, String)> {
    let mut all = Vec::new();
    for i in 0..count {
        all.push((i + 1, format!("node-{}", i + 1)));
    }
    all
}

fn post(mail: &mut Vec<Letter>, from: usize, peers: usize, request: &Request) {
    for to in 0..peers {
        mail.push(Letter::ToAcceptor { from, to, request: request.clone() });
    }
}

/// Runs `proposers` proposers against `peers` acceptors. Letters are
/// delivered in a random order; one in `loss` is dropped and one in `loss`
/// is delivered twice. A proposer whose round fails starts another. Returns
/// every value that any proposer reported as chosen.
fn simulate(seed: u64, peers: usize, proposers: usize, loss: usize) -> Vec<String> {
    let mut dice = Dice { state: seed };
    let mut acceptors: Vec<Acceptor> = Vec::new();
    for i in 0..peers {
        acceptors.push(Acceptor::new(Config::new(i + 1, members(peers))));
    }
    let mut drivers: Vec<Proposer> = Vec::new();
    let mut mail: Vec<Letter> = Vec::new();
    for i in 0..proposers {
        let mut driver = Proposer::new(Config::new(i + 1, members(peers)));
        let request = driver.prepare(format!("value-{}", i + 1));
        post(&mut mail, i, peers, &request);
        drivers.push(driver);
    }
    let mut chosen: Vec<String> = Vec::new();
    let mut budget = 4000;
    while budget > 0 {
        budget -= 1;
        if mail.is_empty() || dice.roll(12) == 0 {
            let who = dice.roll(proposers);
            let number = drivers[who].number();
            let action = drivers[who].step(Event::TimedOut { number });
            if let Action::Aborted(_) = action {
                assert_eq!(drivers[who].phase(), Phase::Idle);
            }
            if drivers[who].phase() == Phase::Idle {
                let request = drivers[who].prepare(format!("value-{}", who + 1));
                post(&mut mail, who, peers, &request);
            }
            if mail.is_empty() {
                break;
            }
            continue;
        }
        let at = dice.roll(mail.len());
        let letter = mail.swap_remove(at);
        if dice.roll(loss) == 0 {
            continue;
        }
        let twice = dice.roll(loss) == 0;
        match letter {
            Letter::ToAcceptor { from, to, request } => {
                let reply = acceptors[to].handle(request.clone());
                if twice {
                    mail.push(Letter::ToAcceptor { from, to, request: request.clone() });
                }
                mail.push(Letter::ToProposer { to: from, from: to, request, reply });
            }
            Letter::ToProposer { to, from, request, reply } => {
                if twice {
                    mail.push(Letter::ToProposer {
                        to,
                        from,
                        request: request.clone(),
                        reply: reply.clone(),
                    });
                }
                let event = Event::from_reply(from + 1, &request, Some(reply));
                match drivers[to].step(event) {
                    Action::Wait => {}
                    Action::Broadcast(next) => post(&mut mail, to, peers, &next),
                    Action::Chosen(value) => chosen.push(value.value),
                    Action::Aborted(_) => {
                        let request = drivers[to].prepare(format!("value-{}", to + 1));
                        post(&mut mail, to, peers, &request);
                    }
                }
            }
        }
    }
    chosen
}

#[test]
fn at_most_one_value_is_chosen_under_loss_and_reordering() {
    let mut decided = 0;
    for seed in 0..300u64 {
        let chosen = simulate(seed, 3, 3, 5);
        if let Some(first) = chosen.first() {
            decided += 1;
            for value in chosen.iter() {
                assert_eq!(value, first, "seed {}", seed);
            }
            assert!(
                first == "value-1" || first == "value-2" || first == "value-3",
                "seed {}",
                seed
            );
        }
    }
    assert!(decided > 0);
}

#[test]
fn at_most_one_value_is_chosen_among_five_acceptors() {
    let mut decided = 0;
    for seed in 1000..1200u64 {
        let chosen = simulate(seed, 5, 4, 4);
        if let Some(first) = chosen.first() {
            decided += 1;
            for value in chosen.iter() {
                assert_eq!(value, first, "seed {}", seed);
            }
        }
    }
    assert!(decided > 0);
}

#[test]
fn two_proposers_without_loss_settle_on_one_of_their_values() {
    for seed in 0..200u64 {
        let chosen = simulate(seed, 3, 2, usize::MAX);
        assert!(!chosen.is_empty(), "seed {}", seed);
        let first = &chosen[0];
        assert!(first == "value-1" || first == "value-2", "seed {}", seed);
        for value in chosen.iter() {
            assert_eq!(value, first, "seed {}", seed);
        }
    }
}
