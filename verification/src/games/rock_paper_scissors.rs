//! Rock, paper, scissors for two players, and four simple actors for it.

use rand::distributions::Uniform;
use rand::{thread_rng, Rng};
use vstd::prelude::*;
use vstd::std_specs::convert::FromSpecImpl;
use crate::utils::game::{Actor, Contestant, Entrant, Game, InvalidActionError, PlayError};
use crate::utils::runner::{can_end_with, is_fresh, play_from, proposed_by, turn, WithPlayers};
use crate::utils::stats::{OutcomeStats, TwoPlayerOutcome};
use crate::utils::ranking::cells;
use crate::utils::tournament::{
    classified, credible, is_tournament_result, match_can_count_as, match_can_end_with, seated,
    tournament_can_fail_with,
};

verus! {

/// The two players of the game.
#[derive(Debug, Clone, Copy, PartialEq, Eq, Hash, Structural)]
pub enum Player {
    One,
    Two,
}

impl Player {
    /// The zero-based slot of the player.
    pub open spec fn spec_index(self) -> nat {
        match self {
            Player::One => 0,
            Player::Two => 1,
        }
    }
}

impl From<Player> for usize {
    fn from(player: Player) -> (index: usize) {
        match player {
            Player::One => 0,
            Player::Two => 1,
        }
    }
}

impl FromSpecImpl<Player> for usize {
    open spec fn obeys_from_spec() -> bool {
        true
    }

    open spec fn from_spec(player: Player) -> usize {
        player.spec_index() as usize
    }
}

/// What a player can choose.
#[derive(Debug, Clone, Copy, PartialEq, Eq, Hash, Structural)]
pub enum Choice {
    Rock,
    Paper,
    Scissors,
}

impl Choice {
    /// `self` wins against `other`: rock blunts scissors, scissors cut paper,
    /// paper wraps rock.
    pub open spec fn beats(self, other: Choice) -> bool {
        ||| self == Choice::Rock && other == Choice::Scissors
        ||| self == Choice::Scissors && other == Choice::Paper
        ||| self == Choice::Paper && other == Choice::Rock
    }

    /// The choice that stands for a number below three.
    pub open spec fn of_sample(n: u8) -> Choice {
        if n == 0 {
            Choice::Rock
        } else if n == 1 {
            Choice::Paper
        } else {
            Choice::Scissors
        }
    }

    /// Turns a number below three into a choice: rock for 0, paper for 1,
    /// scissors for 2.
    pub fn from_sample(n: u8) -> (choice: Choice)
        requires
            n < 3,
        ensures
            choice == Choice::of_sample(n),
    {
        if n == 0 {
            Choice::Rock
        } else if n == 1 {
            Choice::Paper
        } else {
            Choice::Scissors
        }
    }
}

/// The result of a round in which the first player chose `one` and the
/// second `two`.
pub open spec fn payoff(one: Choice, two: Choice) -> TwoPlayerOutcome {
    if one.beats(two) {
        TwoPlayerOutcome::OneWins
    } else if two.beats(one) {
        TwoPlayerOutcome::TwoWins
    } else {
        TwoPlayerOutcome::Draw
    }
}

/// The class of a match seen from the other player's side.
pub open spec fn mirrored(class: TwoPlayerOutcome) -> TwoPlayerOutcome {
    match class {
        TwoPlayerOutcome::OneWins => TwoPlayerOutcome::TwoWins,
        TwoPlayerOutcome::TwoWins => TwoPlayerOutcome::OneWins,
        TwoPlayerOutcome::Draw => TwoPlayerOutcome::Draw,
    }
}

/// With the choices exchanged the result is the mirrored one, and equal
/// choices draw.
pub proof fn lemma_payoff_mirrors(one: Choice, two: Choice)
    ensures
        payoff(two, one) == mirrored(payoff(one, two)),
        payoff(one, one) == TwoPlayerOutcome::Draw,
{
}

/// One round of rock, paper, scissors: what each player has chosen so far.
/// The round is over once both have chosen.
#[derive(Debug)]
pub struct RockPaperScissors {
    one: Option<Choice>,
    two: Option<Choice>,
}

impl RockPaperScissors {
    /// What the given player has chosen in this round, if anything.
    pub closed spec fn chosen(&self, player: Player) -> Option<Choice> {
        match player {
            Player::One => self.one,
            Player::Two => self.two,
        }
    }

    /// A round in which the players have chosen as given.
    pub closed spec fn with_choices(one: Option<Choice>, two: Option<Choice>) -> Self {
        RockPaperScissors { one, two }
    }

    /// A round is what its players have chosen.
    pub proof fn lemma_choices_determine(&self)
        ensures
            *self == Self::with_choices(self.chosen(Player::One), self.chosen(Player::Two)),
            forall|one: Option<Choice>, two: Option<Choice>|
                #![trigger Self::with_choices(one, two)]
                Self::with_choices(one, two).chosen(Player::One) == one && Self::with_choices(
                    one,
                    two,
                ).chosen(Player::Two) == two,
    {
    }
}

impl RockPaperScissors {
    /// A fresh round starts with the first player, is not over, and is over
    /// after two turns.
    pub proof fn lemma_fresh_round(game: RockPaperScissors)
        requires
            game == Self::with_choices(None, None),
        ensures
            game.to_move() == Player::One,
            game.after_next() == game,
            game.spec_outcome() is None,
            game.turns_left() == 2,
    {
    }
}

impl Default for RockPaperScissors {
    /// A round in which nobody has chosen yet.
    fn default() -> (game: Self)
        ensures
            game == Self::with_choices(None, None),
    {
        RockPaperScissors { one: None, two: None }
    }
}

impl Game for RockPaperScissors {
    type Action = Choice;

    type PlayerView = ();

    type PlayerId = Player;

    type Outcome = TwoPlayerOutcome;

    open spec fn spec_player_count() -> nat {
        2
    }

    open spec fn index_of(id: Player) -> nat {
        id.spec_index()
    }

    /// The first player who has not chosen yet; after a finished round, the
    /// first player again.
    open spec fn to_move(&self) -> Player {
        if self.chosen(Player::One) is None {
            Player::One
        } else if self.chosen(Player::Two) is None {
            Player::Two
        } else {
            Player::One
        }
    }

    /// Asking for the next player after a finished round starts a new one.
    open spec fn after_next(&self) -> Self {
        if self.chosen(Player::One) is Some && self.chosen(Player::Two) is Some {
            Self::with_choices(None, None)
        } else {
            *self
        }
    }

    open spec fn view_of(&self, id: Player) -> () {
        ()
    }

    /// Every choice is legal.
    open spec fn accepts(&self, action: Choice, id: Player) -> bool {
        true
    }

    open spec fn after(&self, action: Choice, id: Player) -> Self {
        match id {
            Player::One => Self::with_choices(Some(action), self.chosen(Player::Two)),
            Player::Two => Self::with_choices(self.chosen(Player::One), Some(action)),
        }
    }

    open spec fn spec_outcome(&self) -> Option<TwoPlayerOutcome> {
        match (self.chosen(Player::One), self.chosen(Player::Two)) {
            (Some(one), Some(two)) => Some(payoff(one, two)),
            _ => None,
        }
    }

    /// The number of players who have not chosen yet.
    open spec fn turns_left(&self) -> nat {
        (if self.chosen(Player::One) is None {
            1nat
        } else {
            0nat
        }) + (if self.chosen(Player::Two) is None {
            1nat
        } else {
            0nat
        })
    }

    proof fn lemma_index_lossless(a: Player, b: Player) {
    }

    proof fn lemma_turn_makes_progress(&self, action: Choice) {
    }

    fn player_count() -> (count: usize) {
        2
    }

    fn next(&mut self) -> (id: Player) {
        if self.one.is_none() {
            return Player::One;
        }
        if self.two.is_none() {
            return Player::Two;
        }
        self.one = None;
        self.two = None;
        Player::One
    }

    fn index(id: Player) -> (i: usize) {
        usize::from(id)
    }

    fn try_act(&mut self, action: Choice, player_id: Player) -> (r: Result<
        (),
        InvalidActionError<Self>,
    >) {
        match player_id {
            Player::One => {
                self.one = Some(action);
            },
            Player::Two => {
                self.two = Some(action);
            },
        }
        Ok(())
    }

    fn player_view(&self, player_id: Player) -> (view: ()) {
    }

    fn outcome(&self) -> (r: Option<TwoPlayerOutcome>) {
        if let Some(choice1) = self.one {
            if let Some(choice2) = self.two {
                return match (choice1, choice2) {
                    (Choice::Rock, Choice::Scissors) => Some(TwoPlayerOutcome::OneWins),
                    (Choice::Scissors, Choice::Paper) => Some(TwoPlayerOutcome::OneWins),
                    (Choice::Paper, Choice::Rock) => Some(TwoPlayerOutcome::OneWins),
                    (Choice::Rock, Choice::Paper) => Some(TwoPlayerOutcome::TwoWins),
                    (Choice::Paper, Choice::Scissors) => Some(TwoPlayerOutcome::TwoWins),
                    (Choice::Scissors, Choice::Rock) => Some(TwoPlayerOutcome::TwoWins),
                    _ => Some(TwoPlayerOutcome::Draw),
                };
            }
        }
        None
    }
}

/// An actor that always chooses rock.
#[derive(Debug, Default, Clone, Copy)]
pub struct Rocker;

impl Actor<RockPaperScissors> for Rocker {
    open spec fn spec_name(&self) -> Seq<char> {
        "Rocker"@
    }

    open spec fn may_propose(&self, view: (), action: Choice) -> bool {
        action == Choice::Rock
    }

    fn act(&mut self, view: &()) -> (action: Choice) {
        Choice::Rock
    }

    fn name(&self) -> (name: String) {
        "Rocker".to_string()
    }
}

/// An actor that always chooses paper.
#[derive(Debug, Default, Clone, Copy)]
pub struct Paperer;

impl Actor<RockPaperScissors> for Paperer {
    open spec fn spec_name(&self) -> Seq<char> {
        "Paperer"@
    }

    open spec fn may_propose(&self, view: (), action: Choice) -> bool {
        action == Choice::Paper
    }

    fn act(&mut self, view: &()) -> (action: Choice) {
        Choice::Paper
    }

    fn name(&self) -> (name: String) {
        "Paperer".to_string()
    }
}

/// An actor that always chooses scissors.
#[derive(Debug, Default, Clone, Copy)]
pub struct Scissorer;

impl Actor<RockPaperScissors> for Scissorer {
    open spec fn spec_name(&self) -> Seq<char> {
        "Scissorer"@
    }

    open spec fn may_propose(&self, view: (), action: Choice) -> bool {
        action == Choice::Scissors
    }

    fn act(&mut self, view: &()) -> (action: Choice) {
        Choice::Scissors
    }

    fn name(&self) -> (name: String) {
        "Scissorer".to_string()
    }
}

/// Draws a number from `low` up to, but not including, `high` with
/// `rand::Rng::sample` on `rand::thread_rng()` and the distribution
/// `rand::distributions::Uniform::new(low, high)`.
///
/// Trusted: the number drawn lies in that range. `Uniform::new` panics
/// unless `low < high`, so that is required. Which number comes is left
/// open: two draws may differ.
#[verifier::external_body]
fn sample_uniform(low: u8, high: u8) -> (n: u8)
    requires
        low < high,
    ensures
        low <= n < high,
{
    thread_rng().sample(Uniform::new(low, high))
}

/// An actor that chooses at random, each choice equally likely.
#[derive(Debug, Default, Clone, Copy)]
pub struct Randomer;

impl Actor<RockPaperScissors> for Randomer {
    open spec fn spec_name(&self) -> Seq<char> {
        "Randomer"@
    }

    /// Every choice can come.
    open spec fn may_propose(&self, view: (), action: Choice) -> bool {
        true
    }

    fn act(&mut self, view: &()) -> (action: Choice) {
        Choice::from_sample(sample_uniform(0, 3))
    }

    fn name(&self) -> (name: String) {
        "Randomer".to_string()
    }
}

/// Every copy that `entrant` hands out holds `actor`.
pub open spec fn enters<A: Actor<RockPaperScissors> + 'static>(
    entrant: Box<dyn Entrant<RockPaperScissors>>,
    actor: A,
) -> bool {
    forall|copy: Contestant<RockPaperScissors>|
        (#[trigger] entrant.copy_of(copy)) ==> copy == Contestant::<RockPaperScissors>::holding(
            actor,
        )
}

/// `entered` are the four actors of this module: rock, paper, scissors and
/// random, in that order, each under its own name.
pub open spec fn are_the_four(entered: Seq<Box<dyn Entrant<RockPaperScissors>>>) -> bool {
    &&& entered.len() == 4
    &&& enters(entered[0], Rocker)
    &&& enters(entered[1], Paperer)
    &&& enters(entered[2], Scissorer)
    &&& enters(entered[3], Randomer)
    &&& entered[0].spec_entry_name() == Rocker.spec_name()
    &&& entered[1].spec_entry_name() == Paperer.spec_name()
    &&& entered[2].spec_entry_name() == Scissorer.spec_name()
    &&& entered[3].spec_entry_name() == Randomer.spec_name()
}

/// The four actors of this module: rock, paper, scissors and random, in that
/// order.
pub fn players() -> (entered: Vec<Box<dyn Entrant<RockPaperScissors>>>)
    ensures
        are_the_four(entered@),
{
    let rocker: Box<dyn Entrant<RockPaperScissors>> = Box::new(Rocker);
    let paperer: Box<dyn Entrant<RockPaperScissors>> = Box::new(Paperer);
    let scissorer: Box<dyn Entrant<RockPaperScissors>> = Box::new(Scissorer);
    let randomer: Box<dyn Entrant<RockPaperScissors>> = Box::new(Randomer);
    vec![rocker, paperer, scissorer, randomer]
}

/// No match of rock, paper, scissors fails: every choice is accepted.
pub proof fn lemma_never_rejected(game: RockPaperScissors, actions: Seq<Choice>)
    ensures
        play_from(game, actions) is Some ==> play_from(game, actions)->0 is Ok,
    decreases actions.len(),
{
    if actions.len() > 0 {
        let then = turn(game, actions[0])->Ok_0;
        if then.spec_outcome() is None {
            lemma_never_rejected(then, actions.drop_first());
        }
    }
}

/// No tournament of rock, paper, scissors fails.
pub proof fn lemma_tournament_never_fails(
    players: Seq<Box<dyn Entrant<RockPaperScissors>>>,
    failure: PlayError<RockPaperScissors>,
)
    ensures
        !tournament_can_fail_with::<RockPaperScissors>(players, failure),
{
    if tournament_can_fail_with::<RockPaperScissors>(players, failure) {
        let (i, j) = choose|i: int, j: int|
            0 <= i < players.len() && 0 <= j < players.len() && #[trigger] match_can_end_with::<
                RockPaperScissors,
            >(players[i], players[j], Err(failure));
        let (start, one, two) = choose|
            start: RockPaperScissors,
            one: Contestant<RockPaperScissors>,
            two: Contestant<RockPaperScissors>,
        |
            is_fresh(start) && players[i].copy_of(one) && players[j].copy_of(two)
                && #[trigger] can_end_with(
                start,
                seated(one, two),
                Err::<TwoPlayerOutcome, PlayError<RockPaperScissors>>(failure),
            );
        let actions = choose|actions: Seq<Choice>|
            proposed_by(start, seated(one, two), actions) && #[trigger] play_from(start, actions)
                == Some(Err::<TwoPlayerOutcome, PlayError<RockPaperScissors>>(failure));
        lemma_never_rejected(start, actions);
    }
}

/// The contestant proposes `choice` and nothing else.
pub open spec fn always_proposes(contestant: Contestant<RockPaperScissors>, choice: Choice) -> bool {
    forall|action: Choice|
        (#[trigger] contestant.actor.may_propose((), action)) ==> action == choice
}

/// Every copy of the entrant proposes `choice` and nothing else.
pub open spec fn entrant_always_proposes(
    entrant: Box<dyn Entrant<RockPaperScissors>>,
    choice: Choice,
) -> bool {
    forall|copy: Contestant<RockPaperScissors>|
        entrant.copy_of(copy) ==> #[trigger] always_proposes(copy, choice)
}

/// A match on a fresh round between an actor that always proposes `first`,
/// in the first slot, and one that always proposes `second`, in the second,
/// ends with the payoff of the two choices.
pub proof fn lemma_fixed_match(
    start: RockPaperScissors,
    one: Contestant<RockPaperScissors>,
    two: Contestant<RockPaperScissors>,
    first: Choice,
    second: Choice,
    r: Result<TwoPlayerOutcome, PlayError<RockPaperScissors>>,
)
    requires
        is_fresh(start),
        always_proposes(one, first),
        always_proposes(two, second),
        can_end_with(start, seated(one, two), r),
    ensures
        r == Ok::<TwoPlayerOutcome, PlayError<RockPaperScissors>>(payoff(first, second)),
{
    let seats = seated(one, two);
    let actions = choose|actions: Seq<Choice>|
        proposed_by(start, seats, actions) && #[trigger] play_from(start, actions) == Some(r);
    assert(start == RockPaperScissors::with_choices(None, None));
    assert(actions.len() > 0);
    assert(one.actor.may_propose((), actions[0]));
    let then = turn(start, actions[0])->Ok_0;
    assert(then == RockPaperScissors::with_choices(Some(first), None));
    let rest = actions.drop_first();
    assert(play_from(then, rest) == Some(r));
    assert(proposed_by(then, seats, rest));
    assert(rest.len() > 0);
    assert(two.actor.may_propose((), rest[0]));
    let last = turn(then, rest[0])->Ok_0;
    assert(last == RockPaperScissors::with_choices(Some(first), Some(second)));
}

/// The counters of a cell that holds `game_count` matches, all of them of
/// the given class.
pub open spec fn decided(class: TwoPlayerOutcome, game_count: nat) -> (nat, nat, nat) {
    match class {
        TwoPlayerOutcome::OneWins => (game_count, 0, 0),
        TwoPlayerOutcome::TwoWins => (0, game_count, 0),
        TwoPlayerOutcome::Draw => (0, 0, game_count),
    }
}

/// Between actors that always propose alike every match ends alike: a class
/// other than the payoff of the two choices cannot be counted.
proof fn lemma_fixed_class(
    players: Seq<Box<dyn Entrant<RockPaperScissors>>>,
    i: int,
    j: int,
    one: Choice,
    two: Choice,
    class: TwoPlayerOutcome,
)
    requires
        0 <= i < players.len(),
        0 <= j < players.len(),
        entrant_always_proposes(players[i], one),
        entrant_always_proposes(players[j], two),
        match_can_count_as::<RockPaperScissors>(players[i], players[j], class),
    ensures
        class == payoff(one, two),
{
    assert forall|
        start: RockPaperScissors,
        a: Contestant<RockPaperScissors>,
        b: Contestant<RockPaperScissors>,
        outcome: TwoPlayerOutcome,
    |
        is_fresh(start) && players[i].copy_of(a) && players[j].copy_of(b)
            && #[trigger] can_end_with(
            start,
            seated(a, b),
            Ok::<TwoPlayerOutcome, PlayError<RockPaperScissors>>(outcome),
        ) implies outcome == payoff(one, two) by {
        assert(always_proposes(a, one));
        assert(always_proposes(b, two));
        lemma_fixed_match(start, a, b, one, two, Ok(outcome));
    }
}

/// The cell of two actors that always propose alike holds all its matches
/// in the counter of the payoff of the two choices.
pub proof fn lemma_fixed_cell(
    players: Seq<Box<dyn Entrant<RockPaperScissors>>>,
    i: int,
    j: int,
    one: Choice,
    two: Choice,
    cell: OutcomeStats,
)
    requires
        0 <= i < players.len(),
        0 <= j < players.len(),
        entrant_always_proposes(players[i], one),
        entrant_always_proposes(players[j], two),
        credible::<RockPaperScissors>(cell, players[i], players[j]),
    ensures
        cell.counts() == decided(payoff(one, two), cell.spec_games()),
{
    if cell.spec_one_wins() > 0 {
        lemma_fixed_class(players, i, j, one, two, TwoPlayerOutcome::OneWins);
    }
    if cell.spec_two_wins() > 0 {
        lemma_fixed_class(players, i, j, one, two, TwoPlayerOutcome::TwoWins);
    }
    if cell.spec_draws() > 0 {
        lemma_fixed_class(players, i, j, one, two, TwoPlayerOutcome::Draw);
    }
}

/// What the actor at position `i` among the fixed three always proposes.
pub open spec fn fixed_choice(i: int) -> Choice {
    if i == 0 {
        Choice::Rock
    } else if i == 1 {
        Choice::Paper
    } else {
        Choice::Scissors
    }
}

/// Of the four actors of this module the first three always propose alike.
pub proof fn lemma_the_four_are_fixed(entered: Seq<Box<dyn Entrant<RockPaperScissors>>>)
    requires
        are_the_four(entered),
    ensures
        forall|i: int|
            0 <= i < 3 ==> entrant_always_proposes(entered[i], #[trigger] fixed_choice(i)),
{
    assert(entrant_always_proposes(entered[0], Choice::Rock));
    assert(entrant_always_proposes(entered[1], Choice::Paper));
    assert(entrant_always_proposes(entered[2], Choice::Scissors));
}

/// The tournament of the four actors of this module with `game_count`
/// matches per ordered pair. It never fails: the game accepts every choice.
pub fn game_matrix(game_count: usize) -> (r: Result<
    Vec<Vec<OutcomeStats>>,
    PlayError<RockPaperScissors>,
>)
    ensures
        r is Ok,
        exists|entered: Seq<Box<dyn Entrant<RockPaperScissors>>>|
            are_the_four(entered) && #[trigger] is_tournament_result::<RockPaperScissors>(
                cells(r->Ok_0@),
                entered,
                game_count as nat,
            ),
        forall|i: int, j: int|
            0 <= i < 3 && 0 <= j < 3 ==> (#[trigger] cells(r->Ok_0@)[i][j]).counts() == decided(
                payoff(fixed_choice(i), fixed_choice(j)),
                game_count as nat,
            ),
{
    let entered = players();
    let r = WithPlayers::<RockPaperScissors>::play_matrix(&entered, game_count);
    proof {
        if r is Err {
            lemma_tournament_never_fails(entered@, r->Err_0);
        }
        lemma_the_four_are_fixed(entered@);
        let m = cells(r->Ok_0@);
        assert forall|i: int, j: int| 0 <= i < 3 && 0 <= j < 3 implies (#[trigger] m[i][j]).counts()
            == decided(payoff(fixed_choice(i), fixed_choice(j)), game_count as nat) by {
            assert(credible::<RockPaperScissors>(m[i][j], entered@[i], entered@[j]));
            lemma_fixed_cell(entered@, i, j, fixed_choice(i), fixed_choice(j), m[i][j]);
        }
    }
    r
}

} // verus!
