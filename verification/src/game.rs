//! The rounds of a game: what a round's totals lead to, and the game as a whole.
//!
//! After each round the totals are evaluated. The round's sum goes to the
//! score. The odd total less the even total says how many dice the next
//! round rolls; if that is none, or less, the game is over. Each step is
//! told to the player in a message.
//!
//! A game that is not over can still be cut short: after a given number of
//! rounds, or where a round leaves more dice than a hand can hold. A round
//! that is played is always played with exactly the dice that the round
//! before it left.

use crate::dice::{roll_dice, DiceHand, DiceRollTotal};
use crate::text::{append_decimal, decimal};
use vstd::prelude::*;
use vstd::string::*;

verus! {

/// What the game tells its player: a line to show, or points for the score.
#[derive(Debug, PartialEq, Eq)]
pub enum GameUpdate {
    Message(String),
    Score(i64),
}

/// A `GameUpdate` as contracts see it: the text of a message, or the points.
pub enum UpdateView {
    Message(Seq<char>),
    Score(int),
}

impl View for GameUpdate {
    type V = UpdateView;

    open spec fn view(&self) -> UpdateView {
        match self {
            GameUpdate::Message(text) => UpdateView::Message(text@),
            GameUpdate::Score(points) => UpdateView::Score(*points as int),
        }
    }
}

/// The updates of a list, each as contracts see it.
pub open spec fn views(updates: Seq<GameUpdate>) -> Seq<UpdateView> {
    updates.map_values(|update: GameUpdate| update@)
}

/// A game is cut short after this many rounds. No score outgrows an `i64` in so few.
pub const MAX_ROUNDS: usize = 16_777_216;

/// How many dice a round with these totals leaves for the next: the odd
/// total less the even total, or none where that is less than none.
pub open spec fn next_dice(totals: DiceRollTotal) -> int {
    if totals.odd <= totals.even {
        0
    } else {
        totals.odd - totals.even
    }
}

/// The message that opens a game with `number_of_dice` dice.
pub open spec fn first_hand_text(number_of_dice: int) -> Seq<char> {
    "Rolling first hand of "@ + decimal(number_of_dice) + " dice..."@
}

/// The message that tells the totals of a round.
pub open spec fn totals_text(totals: DiceRollTotal) -> Seq<char> {
    "Rolled total scores of:\n\t"@ + decimal(totals.even as int) + " even\n\t"@ + decimal(
        totals.odd as int,
    ) + " odd\n\n"@
}

/// The message that ends a game.
pub open spec fn game_over_text() -> Seq<char> {
    "The even score is greater than the odd total this round. No more dice left in your hand!\n"@
}

/// The message that announces a next hand of `number_of_dice` dice.
pub open spec fn next_hand_text(number_of_dice: int) -> Seq<char> {
    "Rolling next hand of "@ + decimal(number_of_dice) + " dice...\n"@
}

/// What a round with these totals tells the player, in order: its points,
/// its totals, and then either the end of the game or the next hand.
pub open spec fn round_updates(totals: DiceRollTotal) -> Seq<UpdateView> {
    seq![
        UpdateView::Score(totals.even + totals.odd),
        UpdateView::Message(totals_text(totals)),
        UpdateView::Message(
            if next_dice(totals) == 0 {
                game_over_text()
            } else {
                next_hand_text(next_dice(totals))
            },
        ),
    ]
}

/// The points among `updates`, added up. Messages count for nothing.
pub open spec fn score_of(updates: Seq<UpdateView>) -> int
    decreases updates.len(),
{
    if updates.len() == 0 {
        0
    } else {
        score_of(updates.drop_last()) + match updates.last() {
            UpdateView::Score(points) => points,
            UpdateView::Message(_) => 0,
        }
    }
}

/// How many dice round `round` of a game is rolled with. The first round
/// has the dice of the starting hand; each later one has the dice that the
/// round before it left.
pub open spec fn dice_of_round(
    starting_hand: DiceHand,
    rounds: Seq<DiceRollTotal>,
    round: int,
) -> int {
    if round == 0 {
        starting_hand.number_of_dice as int
    } else {
        next_dice(rounds[round - 1])
    }
}

/// The hand that round `round` of a game is rolled with: the dice of the
/// round, with the sides of the starting hand.
pub open spec fn hand_of_round(
    starting_hand: DiceHand,
    rounds: Seq<DiceRollTotal>,
    round: int,
) -> DiceHand {
    DiceHand {
        number_of_dice: dice_of_round(starting_hand, rounds, round) as i32,
        number_of_sides: starting_hand.number_of_sides,
    }
}

/// Whether round `round` was rolled with at least one die and no more than
/// a hand can hold, and ended in totals that its hand can give.
pub open spec fn is_round_of_game(
    starting_hand: DiceHand,
    rounds: Seq<DiceRollTotal>,
    round: int,
) -> bool {
    &&& 0 < dice_of_round(starting_hand, rounds, round) <= i32::MAX
    &&& rounds[round].is_outcome_of(hand_of_round(starting_hand, rounds, round))
}

/// Whether `rounds` can be the rounds of a game from `starting_hand`, the
/// first ones or all of them: each round is rolled with exactly the dice
/// that the round before it left, and ends in totals that its hand can give.
pub open spec fn is_game(starting_hand: DiceHand, rounds: Seq<DiceRollTotal>) -> bool {
    forall|round: int|
        0 <= round < rounds.len() ==> #[trigger] is_round_of_game(starting_hand, rounds, round)
}

/// Whether the last of `rounds` ended the game.
pub open spec fn is_over(rounds: Seq<DiceRollTotal>) -> bool {
    rounds.len() > 0 && next_dice(rounds.last()) == 0
}

/// Whether the last of `rounds` left more dice than a hand can hold.
pub open spec fn is_outgrown(rounds: Seq<DiceRollTotal>) -> bool {
    rounds.len() > 0 && next_dice(rounds.last()) > i32::MAX
}

/// The sums of all rounds, added up.
pub open spec fn game_score(rounds: Seq<DiceRollTotal>) -> int
    decreases rounds.len(),
{
    if rounds.len() == 0 {
        0
    } else {
        game_score(rounds.drop_last()) + rounds.last().even + rounds.last().odd
    }
}

/// What the rounds of a game tell the player, round after round.
pub open spec fn game_updates(rounds: Seq<DiceRollTotal>) -> Seq<UpdateView>
    decreases rounds.len(),
{
    if rounds.len() == 0 {
        Seq::empty()
    } else {
        game_updates(rounds.drop_last()) + round_updates(rounds.last())
    }
}

/// The hand that a game starts with unless the player is given another:
/// twelve dice of seven sides.
pub fn starting_hand() -> (hand: DiceHand)
    ensures
        hand == (DiceHand { number_of_dice: 12, number_of_sides: 7 }),
{
    DiceHand { number_of_dice: 12, number_of_sides: 7 }
}

/// The number of dice that a round with these totals leaves for the next;
/// zero when the round ends the game.
pub fn next_hand_size(totals: &DiceRollTotal) -> (number_of_dice: i64)
    requires
        i64::MIN <= totals.odd - totals.even <= i64::MAX,
    ensures
        number_of_dice == next_dice(*totals),
{
    let difference = totals.parity_difference();
    if difference <= 0 {
        0
    } else {
        difference
    }
}

/// The hand of `dice_left` dice, where a hand can hold as many and there is
/// at least one.
pub fn next_hand(dice_left: i64, number_of_sides: i8) -> (hand: Option<DiceHand>)
    ensures
        hand == if 0 < dice_left <= i32::MAX {
            Some(DiceHand { number_of_dice: dice_left as i32, number_of_sides })
        } else {
            None
        },
{
    if 0 < dice_left && dice_left <= i32::MAX as i64 {
        Some(DiceHand { number_of_dice: dice_left as i32, number_of_sides })
    } else {
        None
    }
}

/// The message that opens a game.
pub fn first_hand_message(number_of_dice: i32) -> (text: String)
    ensures
        text@ == first_hand_text(number_of_dice as int),
{
    let mut text = String::from_str("Rolling first hand of ");
    append_decimal(&mut text, number_of_dice as i64);
    text.append(" dice...");
    text
}

fn totals_message(totals: &DiceRollTotal) -> (text: String)
    ensures
        text@ == totals_text(*totals),
{
    let mut text = String::from_str("Rolled total scores of:\n\t");
    append_decimal(&mut text, totals.even);
    text.append(" even\n\t");
    append_decimal(&mut text, totals.odd);
    text.append(" odd\n\n");
    text
}

fn next_hand_message(number_of_dice: i64) -> (text: String)
    ensures
        text@ == next_hand_text(number_of_dice as int),
{
    let mut text = String::from_str("Rolling next hand of ");
    append_decimal(&mut text, number_of_dice);
    text.append(" dice...\n");
    text
}

/// Evaluates a round. Tells `updates` the points of the round, then its
/// totals, then what follows. Returns the number of dice that the round
/// leaves for the next, or `None` when the round has ended the game.
pub fn evaluate_round(totals: &DiceRollTotal, updates: &mut Vec<GameUpdate>) -> (dice_left: Option<
    i64,
>)
    requires
        i64::MIN <= totals.odd - totals.even <= i64::MAX,
        i64::MIN <= totals.odd + totals.even <= i64::MAX,
    ensures
        views(final(updates)@) == views(old(updates)@) + round_updates(*totals),
        totals.odd <= totals.even ==> dice_left is None,
        totals.odd > totals.even ==> dice_left == Some((totals.odd - totals.even) as i64),
{
    let ghost before = views(updates@);
    updates.push(GameUpdate::Score(totals.sum()));
    updates.push(GameUpdate::Message(totals_message(totals)));
    let number_of_dice = next_hand_size(totals);
    let dice_left = if number_of_dice == 0 {
        updates.push(
            GameUpdate::Message(
                String::from_str(
                    "The even score is greater than the odd total this round. No more dice left in your hand!\n",
                ),
            ),
        );
        None
    } else {
        updates.push(GameUpdate::Message(next_hand_message(number_of_dice)));
        Some(number_of_dice)
    };
    assert(views(updates@) =~= before + round_updates(*totals));
    dice_left
}

/// How a game went.
#[derive(Debug, PartialEq, Eq)]
pub struct GameReport {
    /// The points of all rounds played.
    pub score: i64,
    /// The totals of each round played, in order.
    pub rounds: Vec<DiceRollTotal>,
    /// What the game told the player, in order.
    pub updates: Vec<GameUpdate>,
    /// Whether the last round ended the game. If not, the game was cut short.
    pub finished: bool,
}

/// Why no game was played.
#[derive(Clone, Copy, Debug, PartialEq, Eq, Structural)]
pub enum GameError {
    /// The starting hand holds no die.
    NoDice,
}

/// The most that one round can add to the score.
pub open spec fn round_limit() -> int {
    127 * i32::MAX
}

/// A round leaves no dice exactly when its odd total is no higher than its
/// even total. Otherwise it leaves exactly as many dice as the odd total is
/// higher.
pub proof fn lemma_next_dice_follow_the_difference(totals: DiceRollTotal)
    ensures
        next_dice(totals) == 0 <==> totals.odd <= totals.even,
        totals.odd > totals.even ==> next_dice(totals) == totals.odd - totals.even,
        next_dice(totals) >= 0,
{
}

/// A game tells three things of each round.
pub proof fn lemma_three_updates_a_round(rounds: Seq<DiceRollTotal>)
    ensures
        game_updates(rounds).len() == 3 * rounds.len(),
    decreases rounds.len(),
{
    if rounds.len() > 0 {
        lemma_three_updates_a_round(rounds.drop_last());
    }
}

/// A game tells of its rounds one after the other, and of each round first
/// the points, then the totals, then what follows.
pub proof fn lemma_updates_come_round_by_round(rounds: Seq<DiceRollTotal>, round: int)
    requires
        0 <= round < rounds.len(),
    ensures
        game_updates(rounds).len() == 3 * rounds.len(),
        game_updates(rounds)[3 * round] == UpdateView::Score(
            rounds[round].even + rounds[round].odd,
        ),
        game_updates(rounds)[3 * round + 1] == round_updates(rounds[round])[1],
        game_updates(rounds)[3 * round + 2] == round_updates(rounds[round])[2],
    decreases rounds.len(),
{
    let earlier = rounds.drop_last();
    lemma_three_updates_a_round(rounds);
    lemma_three_updates_a_round(earlier);
    if round < earlier.len() {
        lemma_updates_come_round_by_round(earlier, round);
    }
}

/// The score of a game is the sum of the points it told the player: every
/// round is counted, and counted once.
pub proof fn lemma_score_counts_every_round(rounds: Seq<DiceRollTotal>)
    ensures
        score_of(game_updates(rounds)) == game_score(rounds),
    decreases rounds.len(),
{
    if rounds.len() > 0 {
        let earlier = game_updates(rounds.drop_last());
        let told = round_updates(rounds.last());
        lemma_score_counts_every_round(rounds.drop_last());
        let with_points = earlier + told.take(1);
        let with_totals = earlier + told.take(2);
        let all = earlier + told;
        assert(with_points.drop_last() == earlier);
        assert(with_totals.drop_last() == with_points);
        assert(all.drop_last() == with_totals);
        assert(score_of(with_points) == score_of(earlier) + rounds.last().even
            + rounds.last().odd);
        assert(score_of(with_totals) == score_of(with_points));
        assert(score_of(all) == score_of(with_totals));
    }
}

/// The first rounds of a game are the rounds of a game themselves.
pub proof fn lemma_a_game_begins_with_a_game(
    starting_hand: DiceHand,
    rounds: Seq<DiceRollTotal>,
    played: int,
)
    requires
        is_game(starting_hand, rounds),
        0 <= played <= rounds.len(),
    ensures
        is_game(starting_hand, rounds.take(played)),
{
    let first = rounds.take(played);
    assert forall|round: int| 0 <= round < first.len() implies #[trigger] is_round_of_game(
        starting_hand,
        first,
        round,
    ) by {
        assert(is_round_of_game(starting_hand, rounds, round));
    }
}

/// A game goes on by one round where its rounds have left at least one die
/// and no more than a hand can hold, and the round ends in totals that this
/// hand can give.
pub proof fn lemma_a_game_goes_on(
    starting_hand: DiceHand,
    rounds: Seq<DiceRollTotal>,
    totals: DiceRollTotal,
)
    requires
        is_game(starting_hand, rounds),
        0 < dice_of_round(starting_hand, rounds, rounds.len() as int) <= i32::MAX,
        totals.is_outcome_of(hand_of_round(starting_hand, rounds, rounds.len() as int)),
    ensures
        is_game(starting_hand, rounds.push(totals)),
{
    let longer = rounds.push(totals);
    assert forall|round: int| 0 <= round < longer.len() implies #[trigger] is_round_of_game(
        starting_hand,
        longer,
        round,
    ) by {
        if round < rounds.len() {
            assert(is_round_of_game(starting_hand, rounds, round));
        }
    }
}

/// A game has no rounds unless its starting hand holds a die: no round is
/// played, and no score made, from a hand without dice.
pub proof fn lemma_no_game_without_dice(starting_hand: DiceHand, rounds: Seq<DiceRollTotal>)
    requires
        is_game(starting_hand, rounds),
        starting_hand.number_of_dice <= 0,
    ensures
        rounds.len() == 0,
        game_score(rounds) == 0,
{
    if rounds.len() > 0 {
        assert(is_round_of_game(starting_hand, rounds, 0));
    }
}

/// In a game, every round adds to the score, within the limit for one round.
pub proof fn lemma_score_is_bounded(starting_hand: DiceHand, rounds: Seq<DiceRollTotal>)
    requires
        is_game(starting_hand, rounds),
    ensures
        rounds.len() <= game_score(rounds) <= rounds.len() * round_limit(),
    decreases rounds.len(),
{
    if rounds.len() > 0 {
        let earlier = rounds.drop_last();
        let last = rounds.len() - 1;
        lemma_a_game_begins_with_a_game(starting_hand, rounds, last);
        assert(rounds.take(last) == earlier);
        lemma_score_is_bounded(starting_hand, earlier);
        let hand = hand_of_round(starting_hand, rounds, last);
        assert(is_round_of_game(starting_hand, rounds, last));
        crate::dice::lemma_outcome_is_bounded(hand, rounds[last]);
        assert(hand.dice_count() * hand.number_of_sides <= round_limit()) by (nonlinear_arith)
            requires
                0 <= hand.dice_count() <= i32::MAX,
                hand.number_of_sides <= 127,
        ;
        assert(rounds.len() * round_limit() == earlier.len() * round_limit() + round_limit())
            by (nonlinear_arith)
            requires
                rounds.len() == earlier.len() + 1,
        ;
    }
}

/// Every round of a game but the first is played with exactly as many dice
/// as the odd total of the round before it was higher than its even total,
/// and with dice of as many sides as the starting hand has. So only the
/// last round of a game can end it, and only the last can leave more dice
/// than a hand can hold.
pub proof fn lemma_each_round_has_the_dice_left(
    starting_hand: DiceHand,
    rounds: Seq<DiceRollTotal>,
    round: int,
)
    requires
        is_game(starting_hand, rounds),
        0 <= round < rounds.len() - 1,
    ensures
        rounds[round].odd > rounds[round].even,
        hand_of_round(starting_hand, rounds, round + 1).number_of_dice == rounds[round].odd
            - rounds[round].even,
        hand_of_round(starting_hand, rounds, round + 1).number_of_sides
            == starting_hand.number_of_sides,
        rounds[round + 1].is_outcome_of(hand_of_round(starting_hand, rounds, round + 1)),
        0 < next_dice(rounds[round]) <= i32::MAX,
{
    assert(is_round_of_game(starting_hand, rounds, round + 1));
}

/// The first round of a game is played with the starting hand.
pub proof fn lemma_the_first_round_has_the_starting_hand(
    starting_hand: DiceHand,
    rounds: Seq<DiceRollTotal>,
)
    requires
        is_game(starting_hand, rounds),
        rounds.len() > 0,
    ensures
        starting_hand.number_of_dice > 0,
        hand_of_round(starting_hand, rounds, 0) == starting_hand,
        rounds[0].is_outcome_of(starting_hand),
{
    assert(is_round_of_game(starting_hand, rounds, 0));
}

/// A game that has ended has a score of at least two: its last round rolled
/// a die, and its even total was no less than its odd total.
pub proof fn lemma_a_finished_game_scores_two(starting_hand: DiceHand, rounds: Seq<DiceRollTotal>)
    requires
        is_game(starting_hand, rounds),
        is_over(rounds),
    ensures
        game_score(rounds) >= 2,
{
    let earlier = rounds.drop_last();
    let last = rounds.len() - 1;
    lemma_a_game_begins_with_a_game(starting_hand, rounds, last);
    assert(rounds.take(last) == earlier);
    lemma_score_is_bounded(starting_hand, earlier);
    let hand = hand_of_round(starting_hand, rounds, last);
    assert(is_round_of_game(starting_hand, rounds, last));
    crate::dice::lemma_outcome_is_bounded(hand, rounds[last]);
}

/// With one-sided dice every round of a game comes to the dice of the
/// starting hand, all odd, and leaves as many dice again.
pub proof fn lemma_one_sided_dice_repeat_the_round(
    starting_hand: DiceHand,
    rounds: Seq<DiceRollTotal>,
    round: int,
)
    requires
        is_game(starting_hand, rounds),
        starting_hand.number_of_sides == 1,
        0 <= round < rounds.len(),
    ensures
        rounds[round].even == 0,
        rounds[round].odd == starting_hand.number_of_dice,
        next_dice(rounds[round]) == starting_hand.number_of_dice > 0,
    decreases round,
{
    if round > 0 {
        lemma_one_sided_dice_repeat_the_round(starting_hand, rounds, round - 1);
    }
    assert(is_round_of_game(starting_hand, rounds, round));
    crate::dice::lemma_one_sided_hand(hand_of_round(starting_hand, rounds, round), rounds[round]);
}

/// No round ends a game with one-sided dice, and none leaves more dice than
/// a hand can hold: such a game goes on until it is cut short.
pub proof fn lemma_one_sided_dice_never_end_a_game(
    starting_hand: DiceHand,
    rounds: Seq<DiceRollTotal>,
)
    requires
        is_game(starting_hand, rounds),
        starting_hand.number_of_sides == 1,
    ensures
        !is_over(rounds),
        !is_outgrown(rounds),
{
    if rounds.len() > 0 {
        lemma_one_sided_dice_repeat_the_round(starting_hand, rounds, rounds.len() - 1);
    }
}

/// With two-sided dice, three times the score of a game is at least four
/// times the dice of the starting hand, less the dice that its last round
/// left or lacked.
pub proof fn lemma_two_sided_dice_score(starting_hand: DiceHand, rounds: Seq<DiceRollTotal>)
    requires
        is_game(starting_hand, rounds),
        starting_hand.number_of_sides == 2,
        rounds.len() > 0,
    ensures
        3 * game_score(rounds) >= 4 * starting_hand.number_of_dice - (rounds.last().odd
            - rounds.last().even),
    decreases rounds.len(),
{
    let earlier = rounds.drop_last();
    let last = rounds.len() - 1;
    let hand = hand_of_round(starting_hand, rounds, last);
    assert(is_round_of_game(starting_hand, rounds, last));
    crate::dice::lemma_two_sided_hand(hand, rounds[last]);
    assert(hand.dice_count() == dice_of_round(starting_hand, rounds, last));
    assert(3 * (rounds[last].even + rounds[last].odd) == 4 * hand.dice_count() - (rounds[last].odd
        - rounds[last].even));
    if last > 0 {
        lemma_a_game_begins_with_a_game(starting_hand, rounds, last);
        assert(rounds.take(last) == earlier);
        lemma_two_sided_dice_score(starting_hand, earlier);
        assert(earlier.last() == rounds[last - 1]);
        assert(hand.dice_count() == rounds[last - 1].odd - rounds[last - 1].even);
    } else {
        assert(game_score(earlier) == 0);
    }
}

/// A game with two-sided dice that has ended has a score of at least four
/// thirds of the dice it started with: eight for six dice, two for one.
pub proof fn lemma_a_finished_two_sided_game(starting_hand: DiceHand, rounds: Seq<DiceRollTotal>)
    requires
        is_game(starting_hand, rounds),
        is_over(rounds),
        starting_hand.number_of_sides == 2,
    ensures
        3 * game_score(rounds) >= 4 * starting_hand.number_of_dice,
        starting_hand.number_of_dice == 6 ==> game_score(rounds) >= 8,
        game_score(rounds) >= 2,
{
    lemma_two_sided_dice_score(starting_hand, rounds);
    lemma_a_finished_game_scores_two(starting_hand, rounds);
}

/// Plays a game from `starting_hand`: rolls the hand, evaluates the round,
/// and goes on with the dice that the round left, until a round ends the
/// game. A hand without dice is turned down. A game is cut short after
/// `max_rounds` rounds, and where a round leaves more dice than a hand can
/// hold.
///
/// How the dice fall is left to chance. Whatever falls, the report holds the
/// rounds of a game, the score is the sum of their points, and the updates
/// are what those rounds tell the player.
pub fn game_loop(starting_hand: DiceHand, max_rounds: usize) -> (outcome: Result<
    GameReport,
    GameError,
>)
    requires
        starting_hand.can_roll(),
        max_rounds <= MAX_ROUNDS,
    ensures
        outcome is Err <==> starting_hand.number_of_dice <= 0,
        outcome matches Err(error) ==> error == GameError::NoDice,
        outcome matches Ok(report) ==> {
            &&& is_game(starting_hand, report.rounds@)
            &&& report.rounds@.len() <= max_rounds
            &&& report.finished == is_over(report.rounds@)
            &&& !report.finished ==> report.rounds@.len() == max_rounds || is_outgrown(
                report.rounds@,
            )
            &&& report.score == game_score(report.rounds@)
            &&& report.score == score_of(views(report.updates@))
            &&& views(report.updates@) == game_updates(report.rounds@)
            &&& starting_hand.number_of_sides == 1 ==> !report.finished && report.rounds@.len()
                == max_rounds
            &&& report.finished ==> report.score >= 2
            &&& report.finished && starting_hand.number_of_sides == 2 ==> 3 * report.score >= 4
                * starting_hand.number_of_dice
        },
{
    if starting_hand.number_of_dice <= 0 {
        return Err(GameError::NoDice);
    }
    let number_of_sides = starting_hand.number_of_sides;
    let mut number_of_dice = starting_hand.number_of_dice;
    let mut total_score: i64 = 0;
    let mut rounds: Vec<DiceRollTotal> = Vec::new();
    let mut updates: Vec<GameUpdate> = Vec::new();
    let mut finished = false;
    let mut outgrown = false;
    assert(views(updates@) =~= game_updates(rounds@));
    while !finished && !outgrown && rounds.len() < max_rounds
        invariant
            number_of_sides == starting_hand.number_of_sides,
            number_of_sides >= 1,
            rounds@.len() <= max_rounds <= MAX_ROUNDS,
            is_game(starting_hand, rounds@),
            finished == is_over(rounds@),
            outgrown == is_outgrown(rounds@),
            !finished && !outgrown ==> number_of_dice > 0 && number_of_dice == dice_of_round(
                starting_hand,
                rounds@,
                rounds@.len() as int,
            ),
            total_score == game_score(rounds@),
            0 <= total_score <= rounds@.len() * round_limit(),
            views(updates@) == game_updates(rounds@),
        decreases max_rounds - rounds@.len(),
    {
        let ghost played = rounds@;
        let hand = DiceHand { number_of_dice, number_of_sides };
        let dice_totals = roll_dice(hand);
        proof {
            assert(hand.dice_count() * hand.number_of_sides <= round_limit()) by (nonlinear_arith)
                requires
                    0 <= hand.dice_count() <= i32::MAX,
                    0 <= hand.number_of_sides <= 127,
            ;
            assert((played.len() + 1) * round_limit() <= MAX_ROUNDS * round_limit())
                by (nonlinear_arith)
                requires
                    played.len() + 1 <= MAX_ROUNDS,
                    round_limit() >= 0,
            ;
            assert((played.len() + 1) * round_limit() == played.len() * round_limit()
                + round_limit()) by (nonlinear_arith);
        }
        let dice_left = evaluate_round(&dice_totals, &mut updates);
        total_score = total_score + dice_totals.sum();
        rounds.push(dice_totals);
        match dice_left {
            Some(dice_left) => {
                match next_hand(dice_left, number_of_sides) {
                    Some(hand) => {
                        number_of_dice = hand.number_of_dice;
                    },
                    None => {
                        outgrown = true;
                    },
                }
            },
            None => {
                finished = true;
            },
        }
        proof {
            assert(rounds@ == played.push(dice_totals));
            assert(rounds@.drop_last() == played);
            assert(hand == hand_of_round(starting_hand, played, played.len() as int));
            lemma_a_game_goes_on(starting_hand, played, dice_totals);
        }
    }
    proof {
        lemma_score_counts_every_round(rounds@);
        if starting_hand.number_of_sides == 1 {
            lemma_one_sided_dice_never_end_a_game(starting_hand, rounds@);
        }
        if finished {
            lemma_a_finished_game_scores_two(starting_hand, rounds@);
            if starting_hand.number_of_sides == 2 {
                lemma_a_finished_two_sided_game(starting_hand, rounds@);
            }
        }
    }
    Ok(GameReport { score: total_score, rounds, updates, finished })
}

} // verus!
