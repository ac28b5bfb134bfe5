//! Dice, hands of dice, and the totals of one round.
//!
//! A round rolls every die of a hand once. The faces are then split by
//! parity: the even faces are summed into one total, the odd faces into the
//! other. All contracts here speak of the sequence of faces that was rolled.

use rand::Rng;
use vstd::prelude::*;

verus! {

/// One rolled die.
#[derive(Clone, Copy, Debug, PartialEq, Eq, Structural)]
pub struct Dice {
    pub value: i8,
}

/// The dice a player holds for one round.
#[derive(Clone, Copy, Debug, PartialEq, Eq, Structural)]
pub struct DiceHand {
    pub number_of_dice: i32,
    pub number_of_sides: i8,
}

/// What one round came to: the sum of its even faces and the sum of its odd faces.
#[derive(Clone, Copy, Debug, PartialEq, Eq, Structural)]
pub struct DiceRollTotal {
    pub even: i64,
    pub odd: i64,
}

/// The faces that a row of dice shows, in the same order.
pub open spec fn faces(dice: Seq<Dice>) -> Seq<i8> {
    dice.map_values(|die: Dice| die.value)
}

/// The sum of all faces.
pub open spec fn face_sum(faces: Seq<i8>) -> int
    decreases faces.len(),
{
    if faces.len() == 0 {
        0
    } else {
        face_sum(faces.drop_last()) + faces.last()
    }
}

/// The sum of the faces that are even.
pub open spec fn even_sum(faces: Seq<i8>) -> int
    decreases faces.len(),
{
    if faces.len() == 0 {
        0
    } else if faces.last() % 2 == 0 {
        even_sum(faces.drop_last()) + faces.last()
    } else {
        even_sum(faces.drop_last())
    }
}

/// The sum of the faces that are odd.
pub open spec fn odd_sum(faces: Seq<i8>) -> int
    decreases faces.len(),
{
    if faces.len() == 0 {
        0
    } else if faces.last() % 2 == 0 {
        odd_sum(faces.drop_last())
    } else {
        odd_sum(faces.drop_last()) + faces.last()
    }
}

impl DiceHand {
    /// How many dice a round with this hand rolls: a count below one rolls none.
    pub open spec fn dice_count(&self) -> nat {
        if self.number_of_dice > 0 {
            self.number_of_dice as nat
        } else {
            0
        }
    }

    /// Whether the hand can be rolled: a hand that holds dice needs dice with a side.
    pub open spec fn can_roll(&self) -> bool {
        self.number_of_dice > 0 ==> self.number_of_sides >= 1
    }

    /// Whether `faces` is one of the ways this hand can fall: one face for
    /// each die, each between one and the number of sides.
    pub open spec fn can_show(&self, faces: Seq<i8>) -> bool {
        &&& faces.len() == self.dice_count()
        &&& forall|i: int| 0 <= i < faces.len() ==> 1 <= #[trigger] faces[i] <= self.number_of_sides
    }
}

impl DiceRollTotal {
    /// Whether these are the totals of `faces`.
    pub open spec fn tallies(&self, faces: Seq<i8>) -> bool {
        &&& self.even == even_sum(faces)
        &&& self.odd == odd_sum(faces)
    }

    /// Whether a round with `hand` can end in these totals.
    pub open spec fn is_outcome_of(&self, hand: DiceHand) -> bool {
        exists|faces: Seq<i8>| #[trigger] hand.can_show(faces) && self.tallies(faces)
    }

    /// The odd total less the even total.
    pub fn parity_difference(&self) -> (difference: i64)
        requires
            i64::MIN <= self.odd - self.even <= i64::MAX,
        ensures
            difference == self.odd - self.even,
    {
        self.odd - self.even
    }

    /// What the round adds to the score.
    pub fn sum(&self) -> (sum: i64)
        requires
            i64::MIN <= self.odd + self.even <= i64::MAX,
        ensures
            sum == self.odd + self.even,
    {
        self.odd + self.even
    }
}

/// Every face is counted in exactly one of the two totals: together they
/// come to the sum of all faces.
pub proof fn lemma_totals_split_the_faces(faces: Seq<i8>)
    ensures
        even_sum(faces) + odd_sum(faces) == face_sum(faces),
        even_sum(faces) % 2 == 0,
    decreases faces.len(),
{
    if faces.len() > 0 {
        lemma_totals_split_the_faces(faces.drop_last());
    }
}

/// Faces between one and `sides` give totals that are not negative, and a sum
/// of at least one and at most `sides` for each die.
pub proof fn lemma_totals_are_bounded(faces: Seq<i8>, sides: int)
    requires
        forall|i: int| 0 <= i < faces.len() ==> 1 <= #[trigger] faces[i] <= sides,
    ensures
        0 <= even_sum(faces),
        0 <= odd_sum(faces),
        faces.len() <= even_sum(faces) + odd_sum(faces) <= faces.len() * sides,
    decreases faces.len(),
{
    if faces.len() > 0 {
        let front = faces.drop_last();
        lemma_totals_are_bounded(front, sides);
        assert(1 <= faces.last() <= sides);
        assert(faces.len() * sides == front.len() * sides + sides) by (nonlinear_arith)
            requires
                faces.len() == front.len() + 1,
        ;
    }
}

/// Dice with a single side always show a one, so nothing is even and the odd
/// total is the number of dice.
pub proof fn lemma_one_sided_dice(faces: Seq<i8>)
    requires
        forall|i: int| 0 <= i < faces.len() ==> 1 <= #[trigger] faces[i] <= 1,
    ensures
        even_sum(faces) == 0,
        odd_sum(faces) == faces.len(),
    decreases faces.len(),
{
    if faces.len() > 0 {
        lemma_one_sided_dice(faces.drop_last());
        assert(faces.last() == 1);
    }
}

/// Dice with two sides show ones and twos: the even total and twice the odd
/// total together come to two for each die.
pub proof fn lemma_two_sided_dice(faces: Seq<i8>)
    requires
        forall|i: int| 0 <= i < faces.len() ==> 1 <= #[trigger] faces[i] <= 2,
    ensures
        even_sum(faces) + 2 * odd_sum(faces) == 2 * faces.len(),
    decreases faces.len(),
{
    if faces.len() > 0 {
        lemma_two_sided_dice(faces.drop_last());
        assert(faces.last() == 1 || faces.last() == 2);
    }
}

/// A round with two-sided dice: the even total and twice the odd total
/// together come to two for each die rolled.
pub proof fn lemma_two_sided_hand(hand: DiceHand, totals: DiceRollTotal)
    requires
        hand.number_of_sides == 2,
        totals.is_outcome_of(hand),
    ensures
        totals.even + 2 * totals.odd == 2 * hand.dice_count(),
{
    let shown = choose|faces: Seq<i8>| #[trigger] hand.can_show(faces) && totals.tallies(faces);
    lemma_two_sided_dice(shown);
}

/// Taking one face away takes it from the total of its parity, and leaves
/// the other total as it was.
pub proof fn lemma_totals_without_a_face(faces: Seq<i8>, at: int)
    requires
        0 <= at < faces.len(),
    ensures
        even_sum(faces) == even_sum(faces.remove(at)) + if faces[at] % 2 == 0 {
            faces[at] as int
        } else {
            0
        },
        odd_sum(faces) == odd_sum(faces.remove(at)) + if faces[at] % 2 == 0 {
            0
        } else {
            faces[at] as int
        },
    decreases faces.len(),
{
    if at == faces.len() - 1 {
        assert(faces.remove(at) == faces.drop_last());
    } else {
        lemma_totals_without_a_face(faces.drop_last(), at);
        assert(faces.remove(at).drop_last() == faces.drop_last().remove(at));
        assert(faces.remove(at).last() == faces.last());
    }
}

/// The totals do not depend on the order in which the dice are counted: the
/// same faces in another order give the same totals.
pub proof fn lemma_totals_ignore_the_order(first: Seq<i8>, second: Seq<i8>)
    requires
        first.to_multiset() == second.to_multiset(),
    ensures
        even_sum(first) == even_sum(second),
        odd_sum(first) == odd_sum(second),
    decreases first.len(),
{
    vstd::seq_lib::to_multiset_len(first);
    vstd::seq_lib::to_multiset_len(second);
    if first.len() > 0 {
        let face = first.last();
        let last = first.len() - 1;
        assert(first[last] == face);
        assert(first.contains(face));
        vstd::seq_lib::to_multiset_contains(first, face);
        vstd::seq_lib::to_multiset_contains(second, face);
        let at = choose|at: int| 0 <= at < second.len() && second[at] == face;
        vstd::seq_lib::to_multiset_remove(first, last);
        vstd::seq_lib::to_multiset_remove(second, at);
        assert(first.remove(last) == first.drop_last());
        lemma_totals_ignore_the_order(first.drop_last(), second.remove(at));
        lemma_totals_without_a_face(second, at);
    }
}

/// A round with one-sided dice has one outcome: no even total, and an odd
/// total equal to the number of dice rolled.
pub proof fn lemma_one_sided_hand(hand: DiceHand, totals: DiceRollTotal)
    requires
        hand.number_of_sides == 1,
        totals.is_outcome_of(hand),
    ensures
        totals.even == 0,
        totals.odd == hand.dice_count(),
{
    let shown = choose|faces: Seq<i8>| #[trigger] hand.can_show(faces) && totals.tallies(faces);
    lemma_one_sided_dice(shown);
}

/// The totals of any round are not negative, and their sum lies between the
/// number of dice and that number times the number of sides.
pub proof fn lemma_outcome_is_bounded(hand: DiceHand, totals: DiceRollTotal)
    requires
        totals.is_outcome_of(hand),
    ensures
        0 <= totals.even,
        0 <= totals.odd,
        totals.even % 2 == 0,
        hand.dice_count() <= totals.even + totals.odd <= hand.dice_count() * hand.number_of_sides,
{
    let shown = choose|faces: Seq<i8>| #[trigger] hand.can_show(faces) && totals.tallies(faces);
    lemma_totals_are_bounded(shown, hand.number_of_sides as int);
    lemma_totals_split_the_faces(shown);
}

/// Draws from `rand::thread_rng()` with `Rng::gen_range` over `low..high`.
///
/// `gen_range` panics on an empty range, so the range must not be empty. It
/// returns a value of the range it was given; which one is left open. The
/// generator is seeded from the operating system when a thread first asks
/// for it and again after a fixed amount of output, and panics where the
/// system gives it no seed: no argument decides this.
#[verifier::external_body]
fn random_in_range(low: i8, high: i8) -> (drawn: i8)
    requires
        low < high,
    ensures
        low <= drawn < high,
{
    rand::thread_rng().gen_range(low..high)
}

impl Dice {
    /// Rolls a die with `number_of_sides` sides: its face lies between one
    /// and the number of sides.
    pub fn new(number_of_sides: i8) -> (die: Dice)
        requires
            number_of_sides >= 1,
        ensures
            1 <= die.value <= number_of_sides,
    {
        let value = random_in_range(0, number_of_sides) + 1;
        Dice { value }
    }
}

/// Rolls each die of the hand once.
pub fn roll_hand(hand: DiceHand) -> (rolled: Vec<Dice>)
    requires
        hand.can_roll(),
    ensures
        hand.can_show(faces(rolled@)),
{
    let mut rolled: Vec<Dice> = Vec::new();
    let mut thrown: i32 = 0;
    while thrown < hand.number_of_dice
        invariant
            hand.can_roll(),
            0 <= thrown <= hand.dice_count(),
            rolled@.len() == thrown,
            forall|i: int|
                0 <= i < rolled@.len() ==> 1 <= (#[trigger] rolled@[i]).value
                    <= hand.number_of_sides,
        decreases hand.number_of_dice - thrown,
    {
        let die = Dice::new(hand.number_of_sides);
        rolled.push(die);
        thrown = thrown + 1;
    }
    proof {
        let shown = faces(rolled@);
        assert forall|i: int| 0 <= i < shown.len() implies 1 <= #[trigger] shown[i]
            <= hand.number_of_sides by {
            assert(shown[i] == rolled@[i].value);
        }
    }
    rolled
}

/// Totals the dice of one round by parity.
pub fn tally(rolled: &Vec<Dice>) -> (totals: DiceRollTotal)
    requires
        rolled@.len() <= i32::MAX,
    ensures
        totals.tallies(faces(rolled@)),
{
    let mut even_total: i64 = 0;
    let mut odd_total: i64 = 0;
    let mut seen: usize = 0;
    while seen < rolled.len()
        invariant
            seen <= rolled@.len() <= i32::MAX,
            even_total == even_sum(faces(rolled@).take(seen as int)),
            odd_total == odd_sum(faces(rolled@).take(seen as int)),
            -128 * seen <= even_total <= 127 * seen,
            -128 * seen <= odd_total <= 127 * seen,
        decreases rolled@.len() - seen,
    {
        let roll = rolled[seen].value;
        proof {
            let upto = faces(rolled@).take(seen as int + 1);
            assert(upto.drop_last() == faces(rolled@).take(seen as int));
            assert(upto.last() == roll);
        }
        if roll % 2 == 0 {
            even_total = even_total + roll as i64;
        } else {
            odd_total = odd_total + roll as i64;
        }
        seen = seen + 1;
    }
    proof {
        assert(faces(rolled@).take(seen as int) == faces(rolled@));
    }
    DiceRollTotal { even: even_total, odd: odd_total }
}

/// Rolls a hand of dice and returns the totals of its even and its odd faces.
///
/// Which faces fall is left to chance. Whatever falls, the totals are those
/// of one face for each die, each face between one and the number of sides.
pub fn roll_dice(hand: DiceHand) -> (totals: DiceRollTotal)
    requires
        hand.can_roll(),
    ensures
        totals.is_outcome_of(hand),
        0 <= totals.even,
        0 <= totals.odd,
        hand.dice_count() <= totals.even + totals.odd <= hand.dice_count() * hand.number_of_sides,
        hand.number_of_sides == 1 ==> totals.even == 0 && totals.odd == hand.dice_count(),
{
    let rolled = roll_hand(hand);
    let totals = tally(&rolled);
    proof {
        assert(hand.can_show(faces(rolled@)) && totals.tallies(faces(rolled@)));
        lemma_outcome_is_bounded(hand, totals);
        if hand.number_of_sides == 1 {
            lemma_one_sided_hand(hand, totals);
        }
    }
    totals
}

} // verus!
