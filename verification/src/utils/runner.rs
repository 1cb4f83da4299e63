//! The match runner: one game, one actor in each player slot, driven turn by
//! turn to the game's outcome.

use vstd::prelude::*;
use crate::utils::game::{Contestant, Game, InvalidActionError, PlayError};

verus! {

/// One turn in state `game` when the actor asked proposes `action`: the state
/// after the turn, or the rejection.
pub open spec fn turn<G: Game>(game: G, action: G::Action) -> Result<G, InvalidActionError<G>> {
    let id = game.to_move();
    let asked = game.after_next();
    if asked.accepts(action, id) {
        Ok(asked.after(action, id))
    } else {
        Err(InvalidActionError { player_id: id, action, view: asked.view_of(id) })
    }
}

/// How a match from state `game` ends when the actors asked propose
/// `actions`, one per turn: after every turn the match stops with the
/// rejection if the action was rejected, stops with the outcome if the game
/// is over, and goes on otherwise. `None` when `actions` is not exactly the
/// sequence of proposals of one whole match.
pub open spec fn play_from<G: Game>(game: G, actions: Seq<G::Action>) -> Option<
    Result<G::Outcome, PlayError<G>>,
>
    decreases actions.len(),
{
    if actions.len() == 0 {
        None
    } else {
        match turn(game, actions[0]) {
            Err(rejection) => if actions.len() == 1 {
                Some(Err(PlayError::InvalidAction(rejection)))
            } else {
                None
            },
            Ok(then) => match then.spec_outcome() {
                Some(outcome) => if actions.len() == 1 {
                    Some(Ok(outcome))
                } else {
                    None
                },
                None => play_from(then, actions.drop_first()),
            },
        }
    }
}

/// The actor in the seat of the player to move may propose `action` on what
/// that player is shown.
pub open spec fn proposable<G: Game>(game: G, seats: Seq<Contestant<G>>, action: G::Action) -> bool {
    let id = game.to_move();
    seats[G::index_of(id) as int].actor.may_propose(game.after_next().view_of(id), action)
}

/// In a match from state `game` with the actors `seats`, one for each player
/// slot, every one of `actions` is proposed by the actor whose turn it is:
/// turn by turn, the action is one that the actor in the seat of the player
/// to move may propose on that player's view.
pub open spec fn proposed_by<G: Game>(
    game: G,
    seats: Seq<Contestant<G>>,
    actions: Seq<G::Action>,
) -> bool
    decreases actions.len(),
{
    if actions.len() == 0 {
        true
    } else {
        &&& proposable(game, seats, actions[0])
        &&& match turn(game, actions[0]) {
            Ok(then) => proposed_by(then, seats, actions.drop_first()),
            Err(_) => true,
        }
    }
}

/// A match from `game` with the actors `seats` can end with `result`: some
/// sequence of proposals of the seated actors, each asked when it was its
/// player's turn, makes the match end so.
pub open spec fn can_end_with<G: Game>(
    game: G,
    seats: Seq<Contestant<G>>,
    result: Result<G::Outcome, PlayError<G>>,
) -> bool {
    exists|actions: Seq<G::Action>|
        proposed_by(game, seats, actions) && #[trigger] play_from(game, actions) == Some(result)
}

/// Two contestants have the same repertoire.
pub open spec fn same_repertoire<G: Game>(a: Contestant<G>, b: Contestant<G>) -> bool {
    forall|view: G::PlayerView, action: G::Action|
        a.actor.may_propose(view, action) == b.actor.may_propose(view, action)
}

/// After the proposals `done` a match from `start` is in state `now` and
/// still running.
pub open spec fn resumes_at<G: Game>(
    start: G,
    seats: Seq<Contestant<G>>,
    done: Seq<G::Action>,
    now: G,
) -> bool {
    forall|rest: Seq<G::Action>|
        #![trigger play_from(start, done + rest)]
        play_from(start, done + rest) == play_from(now, rest) && proposed_by(
            start,
            seats,
            done + rest,
        ) == proposed_by(now, seats, rest)
}

/// A match that has seen the proposals `done` and then takes a turn that
/// neither fails nor ends the game resumes at the state after that turn.
pub proof fn lemma_resumes_after_turn<G: Game>(
    start: G,
    seats: Seq<Contestant<G>>,
    done: Seq<G::Action>,
    now: G,
    action: G::Action,
)
    requires
        resumes_at(start, seats, done, now),
        proposable(now, seats, action),
        turn(now, action) is Ok,
        turn(now, action)->Ok_0.spec_outcome() is None,
    ensures
        resumes_at(start, seats, done.push(action), turn(now, action)->Ok_0),
{
    let then = turn(now, action)->Ok_0;
    assert forall|rest: Seq<G::Action>|
        #![trigger play_from(start, done.push(action) + rest)]
        play_from(start, done.push(action) + rest) == play_from(then, rest) && proposed_by(
            start,
            seats,
            done.push(action) + rest,
        ) == proposed_by(then, seats, rest) by {
        let tail = seq![action] + rest;
        assert(done.push(action) + rest =~= done + tail);
        assert(play_from(start, done + tail) == play_from(now, tail));
        assert(tail.drop_first() =~= rest);
    }
}

/// A match that has seen the proposals `done` and then takes a turn that
/// fails or ends the game ends with that turn's result.
pub proof fn lemma_ends_with_turn<G: Game>(
    start: G,
    seats: Seq<Contestant<G>>,
    done: Seq<G::Action>,
    now: G,
    action: G::Action,
)
    requires
        resumes_at(start, seats, done, now),
        proposable(now, seats, action),
        turn(now, action) is Ok ==> turn(now, action)->Ok_0.spec_outcome() is Some,
    ensures
        proposed_by(start, seats, done.push(action)),
        play_from(start, done.push(action)) == Some(
            match turn(now, action) {
                Ok(then) => Ok(then.spec_outcome()->0),
                Err(rejection) => Err(PlayError::InvalidAction(rejection)),
            },
        ),
{
    let tail = seq![action];
    assert(done.push(action) =~= done + tail);
    assert(play_from(start, done + tail) == play_from(now, tail));
    if turn(now, action) is Ok {
        assert(proposed_by(turn(now, action)->Ok_0, seats, tail.drop_first()));
    }
    assert(proposed_by(now, seats, tail));
}

/// Every seated actor decides alike: on a view it has at most one proposal.
pub open spec fn decide_alike<G: Game>(seats: Seq<Contestant<G>>) -> bool {
    forall|k: int, view: G::PlayerView, a: G::Action, b: G::Action|
        0 <= k < seats.len() && seats[k].actor.may_propose(view, a) && seats[k].actor.may_propose(
            view,
            b,
        ) ==> a == b
}

/// A match between actors that always decide alike is determined: from one
/// state there is only one sequence of proposals that makes a whole match,
/// and so only one result.
pub proof fn lemma_match_is_determined<G: Game>(
    game: G,
    seats: Seq<Contestant<G>>,
    first: Seq<G::Action>,
    second: Seq<G::Action>,
)
    requires
        decide_alike(seats),
        forall|id: G::PlayerId| G::index_of(id) < seats.len(),
        proposed_by(game, seats, first),
        proposed_by(game, seats, second),
        play_from(game, first) is Some,
        play_from(game, second) is Some,
    ensures
        first == second,
    decreases first.len(),
{
    let id = game.to_move();
    let slot = G::index_of(id) as int;
    let view = game.after_next().view_of(id);
    assert(seats[slot].actor.may_propose(view, first[0]));
    assert(seats[slot].actor.may_propose(view, second[0]));
    assert(first[0] == second[0]);
    match turn(game, first[0]) {
        Ok(then) => {
            if then.spec_outcome() is None {
                lemma_match_is_determined(then, seats, first.drop_first(), second.drop_first());
                assert(first =~= seq![first[0]] + first.drop_first());
                assert(second =~= seq![second[0]] + second.drop_first());
            } else {
                assert(first =~= second);
            }
        },
        Err(_) => {
            assert(first =~= second);
        },
    }
}

/// A game together with the actors that play it, one in each player slot.
#[verifier::reject_recursive_types(G)]
pub struct WithPlayers<G: Game> {
    game: G,
    players: Vec<Contestant<G>>,
}

impl<G: Game> WithPlayers<G> {
    /// The state of the game.
    pub closed spec fn game(&self) -> G {
        self.game
    }

    /// The actors bound to the game, by player slot.
    pub closed spec fn contestants(&self) -> Seq<Contestant<G>> {
        self.players@
    }

    /// Every player slot of the game has its actor.
    pub open spec fn wf(&self) -> bool {
        self.contestants().len() == G::spec_player_count()
    }

    /// One turn with the proposal `action` leads from `self` to `after` and
    /// returns `r`: the actor in the seat of the player to move was asked, on
    /// what that player may see, and `action` is what it may propose; every
    /// other actor is as it was, and every actor has the repertoire it had; an
    /// accepted action leaves the game in the state that the game's rules
    /// give and returns the outcome, if the game is over; a rejected one
    /// leaves the game as `next` left it and returns the rejection.
    pub open spec fn turn_taken(
        &self,
        action: G::Action,
        r: Result<Option<G::Outcome>, PlayError<G>>,
        after: &Self,
    ) -> bool {
        let slot = G::index_of(self.game().to_move()) as int;
        &&& slot < self.contestants().len()
        &&& proposable(self.game(), self.contestants(), action)
        &&& after.contestants().len() == self.contestants().len()
        &&& forall|k: int|
            0 <= k < self.contestants().len() && k != slot ==> after.contestants()[k]
                == self.contestants()[k]
        &&& same_repertoire(after.contestants()[slot], self.contestants()[slot])
        &&& match turn(self.game(), action) {
            Ok(then) => r == Ok::<Option<G::Outcome>, PlayError<G>>(then.spec_outcome())
                && after.game() == then,
            Err(rejection) => r == Err::<Option<G::Outcome>, PlayError<G>>(
                PlayError::InvalidAction(rejection),
            ) && after.game() == self.game().after_next(),
        }
    }

    /// Takes one turn: asks the game who moves, shows that player's actor its
    /// view, and applies the action the actor decides on. Returns the outcome
    /// if the game is over after the turn, `None` if it goes on, and the
    /// rejection if the game rejects the action.
    pub fn take_turn(&mut self) -> (r: Result<Option<G::Outcome>, PlayError<G>>)
        requires
            old(self).wf(),
        ensures
            final(self).wf(),
            exists|action: G::Action| old(self).turn_taken(action, r, final(self)),
    {
        let player_id = self.game.next();
        let slot = G::index(player_id);
        let view = self.game.player_view(player_id);
        let action = self.players[slot].actor.act(&view);
        let ghost proposed = action;
        let r = match self.game.try_act(action, player_id) {
            Ok(()) => Ok(self.game.outcome()),
            Err(rejection) => Err(PlayError::InvalidAction(rejection)),
        };
        assert(old(self).turn_taken(proposed, r, self));
        r
    }

    /// Runs the match to its end: turn after turn until the game is over or
    /// rejects an action. The result is what the game's rules give for the
    /// actions that the actors proposed, each asked when it was the turn of
    /// the player in whose slot it sits.
    pub fn play(self) -> (r: Result<G::Outcome, PlayError<G>>)
        requires
            self.wf(),
        ensures
            can_end_with(self.game(), self.contestants(), r),
    {
        let ghost start = self.game;
        let ghost seats = self.players@;
        let mut running = self;
        let ghost mut done: Seq<G::Action> = Seq::empty();
        assert(resumes_at(start, seats, done, running.game())) by {
            assert forall|rest: Seq<G::Action>| done + rest =~= rest by {}
        }
        let first = running.take_turn();
        let ghost action = choose|action: G::Action| self.turn_taken(action, first, &running);
        let mut last = match first {
            Ok(over) => over,
            Err(failure) => {
                proof {
                    lemma_ends_with_turn(start, seats, done, start, action);
                }
                return Err(failure);
            },
        };
        proof {
            if last is None {
                lemma_resumes_after_turn(start, seats, done, start, action);
            } else {
                lemma_ends_with_turn(start, seats, done, start, action);
            }
            done = done.push(action);
        }
        while last.is_none()
            invariant
                start == self.game(),
                seats == self.contestants(),
                running.wf(),
                running.contestants().len() == seats.len(),
                forall|k: int|
                    0 <= k < seats.len() ==> same_repertoire(
                        #[trigger] running.contestants()[k],
                        seats[k],
                    ),
                last == running.game().spec_outcome(),
                last is None ==> resumes_at(start, seats, done, running.game()),
                last is Some ==> proposed_by(start, seats, done) && play_from(start, done) == Some(
                    Ok::<G::Outcome, PlayError<G>>(last->0),
                ),
            decreases running.game().turns_left(),
        {
            let ghost now = running.game();
            let ghost before = running;
            let step = running.take_turn();
            let ghost action = choose|action: G::Action| before.turn_taken(action, step, &running);
            proof {
                let slot = G::index_of(now.to_move()) as int;
                assert(same_repertoire(before.contestants()[slot], seats[slot]));
                assert(proposable(now, seats, action));
                assert forall|k: int| 0 <= k < seats.len() implies same_repertoire(
                    #[trigger] running.contestants()[k],
                    seats[k],
                ) by {
                    assert(same_repertoire(before.contestants()[k], seats[k]));
                }
                if turn(now, action) is Ok {
                    now.lemma_turn_makes_progress(action);
                }
            }
            last = match step {
                Ok(over) => over,
                Err(failure) => {
                    proof {
                        lemma_ends_with_turn(start, seats, done, now, action);
                    }
                    return Err(failure);
                },
            };
            proof {
                if last is None {
                    lemma_resumes_after_turn(start, seats, done, now, action);
                } else {
                    lemma_ends_with_turn(start, seats, done, now, action);
                }
                done = done.push(action);
            }
        }
        Ok(last.unwrap())
    }
}

/// `game` is a state in which the game's `default()` may start it.
pub open spec fn is_fresh<G: Game + Default>(game: G) -> bool {
    call_ensures(G::default, (), game)
}

impl<G: Game + Default> WithPlayers<G> {
    /// A match of the given actors, the actor at position `k` in player slot
    /// `k`, on a game in its initial state.
    pub fn new(players: Vec<Contestant<G>>) -> (bound: Self)
        requires
            players@.len() == G::spec_player_count(),
        ensures
            bound.wf(),
            bound.contestants() == players@,
            is_fresh(bound.game()),
    {
        WithPlayers { game: G::default(), players }
    }
}

} // verus!
