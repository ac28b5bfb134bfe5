//! What the game shows between games, and the commands it takes there.
//!
//! A line that the player enters is stripped of the white space around it
//! and put in lower case; what is left names a command, or nothing. Both
//! steps are left to the standard library; this module says what stripping
//! leaves, and which words are commands.

use crate::dice::DiceHand;
use crate::text::{append_decimal, append_natural, decimal, decimal_of_nat};
use vstd::prelude::*;
use vstd::string::*;

verus! {

/// What the player can ask for at the menu.
#[derive(Clone, Copy, Debug, PartialEq, Eq, Structural)]
pub enum Command {
    /// Play a game.
    Start,
    /// Show the rules.
    Rules,
    /// Show the best scores.
    Scores,
    /// Leave.
    Exit,
}

/// The rules of a game that starts with `starting_hand`, as shown to the player.
pub open spec fn rules_text(starting_hand: DiceHand) -> Seq<char> {
    "\nDice Factions Rules:\nThe objective of this probability game is to get the highest score! To score, the player rolls the dice in their hand. The cummulative value of the roll is added to your score. The same roll is tallied into even and odd scores. The even scores are then subtracted from the odd and the result determines how many dice are in your next hand.\nThe player begins the game with "@
        + decimal(starting_hand.number_of_dice as int) + " "@ + decimal(
        starting_hand.number_of_sides as int,
    ) + "-sided dice in their hand.\n\n"@
}

/// One line for each score, numbered from one.
pub open spec fn score_lines(scores: Seq<i64>) -> Seq<char>
    decreases scores.len(),
{
    if scores.len() == 0 {
        Seq::empty()
    } else {
        score_lines(scores.drop_last()) + "  "@ + decimal_of_nat(scores.len()) + ". "@ + decimal(
            scores.last() as int,
        ) + "\n"@
    }
}

/// The first `how_many` of `scores`, as shown to the player; or, where there
/// are no scores, a line that says so.
pub open spec fn scores_text(scores: Seq<i64>, how_many: nat) -> Seq<char> {
    if scores.len() == 0 {
        "\nNo scores recorded\n\n"@
    } else {
        "\nTop "@ + decimal_of_nat(how_many) + " Scores:\n"@ + score_lines(
            if how_many < scores.len() {
                scores.take(how_many as int)
            } else {
                scores
            },
        ) + "\n"@
    }
}

/// The command that `word` names, if it names one.
pub open spec fn command_named(word: Seq<char>) -> Option<Command> {
    if word == "start"@ {
        Some(Command::Start)
    } else if word == "rules"@ {
        Some(Command::Rules)
    } else if word == "scores"@ {
        Some(Command::Scores)
    } else if word == "exit"@ {
        Some(Command::Exit)
    } else {
        None
    }
}

/// Whether a character is white space: whether Unicode gives it the
/// property White_Space.
pub open spec fn is_white_space(character: char) -> bool {
    let code = character as u32;
    ||| 0x09 <= code <= 0x0D
    ||| code == 0x20
    ||| code == 0x85
    ||| code == 0xA0
    ||| code == 0x1680
    ||| 0x2000 <= code <= 0x200A
    ||| code == 0x2028
    ||| code == 0x2029
    ||| code == 0x202F
    ||| code == 0x205F
    ||| code == 0x3000
}

/// A text without the white space at its ends.
pub open spec fn trimmed(text: Seq<char>) -> Seq<char>
    decreases text.len(),
{
    if text.len() == 0 {
        text
    } else if is_white_space(text.first()) {
        trimmed(text.drop_first())
    } else if is_white_space(text.last()) {
        trimmed(text.drop_last())
    } else {
        text
    }
}

/// What `str::to_lowercase` makes of a text.
pub uninterp spec fn lowercased(text: Seq<char>) -> Seq<char>;

/// Calls `str::trim`, which returns the text without the white space at its
/// ends, where white space is what has the Unicode property White_Space.
#[verifier::external_body]
fn trim(text: &str) -> (stripped: &str)
    ensures
        stripped@ == trimmed(text@),
{
    text.trim()
}

/// Calls `str::to_lowercase`, which puts a text in lower case.
///
/// What comes back depends on the text alone; it is `lowercased` of the
/// text, and nothing more is claimed of it.
#[verifier::external_body]
fn to_lowercase(text: &str) -> (lowered: String)
    ensures
        lowered@ == lowercased(text@),
{
    text.to_lowercase()
}

/// Whether a character is white space.
pub fn white_space(character: char) -> (white: bool)
    ensures
        white == is_white_space(character),
{
    let code = character as u32;
    (0x09 <= code && code <= 0x0D) || code == 0x20 || code == 0x85 || code == 0xA0 || code
        == 0x1680 || (0x2000 <= code && code <= 0x200A) || code == 0x2028 || code == 0x2029
        || code == 0x202F || code == 0x205F || code == 0x3000
}

/// The rules of the game, for a player who starts with `starting_hand`.
pub fn rules_message(starting_hand: DiceHand) -> (text: String)
    ensures
        text@ == rules_text(starting_hand),
{
    let mut text = String::from_str(
        "\nDice Factions Rules:\nThe objective of this probability game is to get the highest score! To score, the player rolls the dice in their hand. The cummulative value of the roll is added to your score. The same roll is tallied into even and odd scores. The even scores are then subtracted from the odd and the result determines how many dice are in your next hand.\nThe player begins the game with ",
    );
    append_decimal(&mut text, starting_hand.number_of_dice as i64);
    text.append(" ");
    append_decimal(&mut text, starting_hand.number_of_sides as i64);
    text.append("-sided dice in their hand.\n\n");
    text
}

/// The first `how_many` of `scores`, numbered in the order given; or, where
/// there are no scores, a line that says so.
pub fn scores_message(scores: &Vec<i64>, how_many: usize) -> (text: String)
    ensures
        text@ == scores_text(scores@, how_many as nat),
{
    if scores.len() == 0 {
        return String::from_str("\nNo scores recorded\n\n");
    }
    let mut text = String::from_str("\nTop ");
    append_natural(&mut text, how_many as u64);
    text.append(" Scores:\n");
    let shown = if how_many < scores.len() {
        how_many
    } else {
        scores.len()
    };
    let ghost heading = text@;
    let mut place: usize = 0;
    assert(score_lines(scores@.take(0)) =~= Seq::<char>::empty());
    assert(heading + Seq::<char>::empty() =~= heading);
    while place < shown
        invariant
            place <= shown <= scores@.len(),
            text@ == heading + score_lines(scores@.take(place as int)),
        decreases shown - place,
    {
        let ghost lines = score_lines(scores@.take(place as int));
        text.append("  ");
        append_natural(&mut text, place as u64 + 1);
        text.append(". ");
        append_decimal(&mut text, scores[place]);
        text.append("\n");
        proof {
            let listed = scores@.take(place as int + 1);
            assert(listed.drop_last() == scores@.take(place as int));
            assert(listed.last() == scores@[place as int]);
            assert(text@ =~= heading + score_lines(listed));
        }
        place = place + 1;
    }
    assert(scores@.take(scores@.len() as int) == scores@);
    text.append("\n");
    text
}

/// The command that `word` names, if it names one.
pub fn command(word: &str) -> (named: Option<Command>)
    ensures
        named == command_named(word@),
{
    let word = String::from_str(word);
    if word == String::from_str("start") {
        Some(Command::Start)
    } else if word == String::from_str("rules") {
        Some(Command::Rules)
    } else if word == String::from_str("scores") {
        Some(Command::Scores)
    } else if word == String::from_str("exit") {
        Some(Command::Exit)
    } else {
        None
    }
}

/// What the player has entered on `line`: the line without the white space
/// around it, in lower case.
pub fn entered(line: &str) -> (word: String)
    ensures
        word@ == lowercased(trimmed(line@)),
{
    to_lowercase(trim(line))
}

/// The command that the player has entered on `line`, if it is one.
pub fn entered_command(line: &str) -> (named: Option<Command>)
    ensures
        named == command_named(lowercased(trimmed(line@))),
{
    let word = entered(line);
    command(word.as_str())
}

} // verus!
