//! The contracts between the harness and its collaborators: what a game must
//! offer, what an actor must offer, and how a rejected action is reported.

use vstd::prelude::*;

verus! {

/// A turn-based game for a fixed number of players.
///
/// A game is described by a state machine over its own values: who moves
/// next, what each player may see, which actions are accepted, what state an
/// accepted action leads to, and whether the game is over. The executable
/// methods are bound to that description, so the harness can say what a
/// match computes without knowing the game.
pub trait Game: Sized {
    /// An actor's decision for one turn.
    type Action;

    /// What one player may see of the current state.
    type PlayerView;

    /// Names one of the player slots.
    type PlayerId: Copy;

    /// The result of a finished game.
    type Outcome;

    /// Number of player slots.
    spec fn spec_player_count() -> nat;

    /// The zero-based slot of a player.
    spec fn index_of(id: Self::PlayerId) -> nat;

    /// The player whom `next` yields in this state.
    spec fn to_move(&self) -> Self::PlayerId;

    /// The state that `next` leaves behind.
    spec fn after_next(&self) -> Self;

    /// What `id` may see of this state.
    spec fn view_of(&self, id: Self::PlayerId) -> Self::PlayerView;

    /// Whether `action` is legal for `id` in this state.
    spec fn accepts(&self, action: Self::Action, id: Self::PlayerId) -> bool;

    /// The state after `id` has taken the legal `action`.
    spec fn after(&self, action: Self::Action, id: Self::PlayerId) -> Self;

    /// The result of the game if it is over in this state.
    spec fn spec_outcome(&self) -> Option<Self::Outcome>;

    /// A bound on the number of turns that can still be taken before the game
    /// is over.
    spec fn turns_left(&self) -> nat;

    /// The conversion to a slot loses nothing: different players have
    /// different slots.
    proof fn lemma_index_lossless(a: Self::PlayerId, b: Self::PlayerId)
        requires
            Self::index_of(a) == Self::index_of(b),
        ensures
            a == b,
    ;

    /// While the game is not over, a turn in which the player to move takes
    /// an accepted action brings the end nearer.
    proof fn lemma_turn_makes_progress(&self, action: Self::Action)
        requires
            self.spec_outcome() is None,
            self.after_next().accepts(action, self.to_move()),
        ensures
            self.after_next().after(action, self.to_move()).turns_left() < self.turns_left(),
    ;

    /// Number of player slots.
    fn player_count() -> (count: usize)
        ensures
            count == Self::spec_player_count(),
    ;

    /// Yields the player whose turn it is. The sequence never ends by itself;
    /// every player it yields has a slot.
    fn next(&mut self) -> (id: Self::PlayerId)
        ensures
            id == old(self).to_move(),
            *final(self) == old(self).after_next(),
            Self::index_of(id) < Self::spec_player_count(),
    ;

    /// Converts a player to its zero-based slot.
    fn index(id: Self::PlayerId) -> (i: usize)
        ensures
            i == Self::index_of(id),
    ;

    /// Applies `action` for `player_id` if it is legal. An illegal action
    /// leaves the state as it was and comes back in the error, with the
    /// player and the view under which it was rejected.
    fn try_act(&mut self, action: Self::Action, player_id: Self::PlayerId) -> (r: Result<
        (),
        InvalidActionError<Self>,
    >)
        ensures
            r is Ok <==> old(self).accepts(action, player_id),
            r is Ok ==> *final(self) == old(self).after(action, player_id),
            r is Err ==> *final(self) == *old(self),
            r is Err ==> r->Err_0 == (InvalidActionError::<Self> {
                player_id,
                action,
                view: old(self).view_of(player_id),
            }),
    ;

    /// What `player_id` may see of the current state.
    fn player_view(&self, player_id: Self::PlayerId) -> (view: Self::PlayerView)
        ensures
            view == self.view_of(player_id),
    ;

    /// The result of the game if it is over, `None` while it is not.
    fn outcome(&self) -> (r: Option<Self::Outcome>)
        ensures
            r == self.spec_outcome(),
    ;
}

/// An action that the game rejected: who proposed it, what it was, and the
/// view under which it was invalid.
pub struct InvalidActionError<G: Game> {
    pub player_id: G::PlayerId,
    pub action: G::Action,
    pub view: G::PlayerView,
}

/// Why a match did not reach an outcome.
pub enum PlayError<G: Game> {
    InvalidAction(InvalidActionError<G>),
}

/// A decision-maker for the game `G`.
pub trait Actor<G: Game> {
    /// The actor's display name.
    spec fn spec_name(&self) -> Seq<char>;

    /// Whether the actor may decide on `action` when it is shown `view`.
    /// This is the actor's repertoire: it holds of every decision that the
    /// actor can take on the view, whatever it remembers, and deciding does
    /// not change it.
    spec fn may_propose(&self, view: G::PlayerView, action: G::Action) -> bool;

    /// Decides on an action, given what the actor's player may see. The
    /// actor may remember what it has seen; its repertoire stays as it is.
    fn act(&mut self, view: &G::PlayerView) -> (action: G::Action)
        ensures
            old(self).may_propose(*view, action),
            forall|later: G::PlayerView, other: G::Action|
                final(self).may_propose(later, other) == old(self).may_propose(later, other),
    ;

    /// The actor's display name: a key for reports, not an identity.
    fn name(&self) -> (name: String)
        ensures
            name@ == self.spec_name(),
    ;
}

/// An actor instance that one match owns.
#[verifier::reject_recursive_types(G)]
pub struct Contestant<G: Game> {
    pub actor: Box<dyn Actor<G>>,
}

/// An actor that can be entered in a tournament: besides deciding, it can
/// hand out independent copies of itself, one for each match.
pub trait Entrant<G: Game>: Actor<G> {
    /// Whether `copy` is a copy of this actor, as `contestant` hands it out.
    spec fn copy_of(&self, copy: Contestant<G>) -> bool;

    /// The name under which the actor is entered.
    spec fn spec_entry_name(&self) -> Seq<char>;

    /// A fresh copy of this actor for one match.
    fn contestant(&self) -> (copy: Contestant<G>)
        ensures
            self.copy_of(copy),
    ;

    /// The name under which the actor is entered.
    fn entry_name(&self) -> (name: String)
        ensures
            name@ == self.spec_entry_name(),
    ;
}

impl<G: Game, A: Actor<G> + Clone + 'static> Entrant<G> for A {
    /// A copy holds a clone of the actor, made by the actor's own `clone`.
    open spec fn copy_of(&self, copy: Contestant<G>) -> bool {
        exists|twin: A|
            cloned::<A>(*self, twin) && copy == #[trigger] Contestant::<G>::holding(twin)
    }

    /// An actor is entered under its display name.
    open spec fn spec_entry_name(&self) -> Seq<char> {
        self.spec_name()
    }

    fn contestant(&self) -> (copy: Contestant<G>) {
        let twin = self.clone();
        let copy = Contestant { actor: Box::new(twin) };
        assert(copy == Contestant::<G>::holding(twin));
        copy
    }

    fn entry_name(&self) -> (name: String) {
        self.name()
    }
}

impl<G: Game> Contestant<G> {
    /// The contestant that holds the given actor.
    pub open spec fn holding<A: Actor<G> + 'static>(actor: A) -> Self {
        Contestant { actor: Box::new(actor) }
    }
}

} // verus!
