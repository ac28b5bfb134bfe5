use dice_roulette::dice::DiceHand;
use dice_roulette::game::starting_hand;
use dice_roulette::menu::{
    command, entered, entered_command, rules_message, scores_message, white_space, Command,
};

#[test]
fn the_rules_name_the_starting_hand() {
    assert_eq!(
        rules_message(starting_hand()),
        "\nDice Factions Rules:\n\
         The objective of this probability game is to get the highest score! \
         To score, the player rolls the dice in their hand. \
         The cummulative value of the roll is added to your score. \
         The same roll is tallied into even and odd scores. \
         The even scores are then subtracted from the odd \
         and the result determines how many dice are in your next hand.\n\
         The player begins the game with 12 7-sided dice in their hand.\n\n"
    );
    let other = rules_message(DiceHand {
        number_of_dice: 150_000,
        number_of_sides: 1,
    });
    assert!(other.ends_with("The player begins the game with 150000 1-sided dice in their hand.\n\n"));
}

#[test]
fn the_game_starts_with_twelve_dice_of_seven_sides() {
    assert_eq!(
        starting_hand(),
        DiceHand {
            number_of_dice: 12,
            number_of_sides: 7
        }
    );
}

#[test]
fn the_scores_are_numbered_from_one() {
    assert_eq!(
        scores_message(&vec![50, 35, 30], 10),
        "\nTop 10 Scores:\n  1. 50\n  2. 35\n  3. 30\n\n"
    );
}

#[test]
fn no_more_scores_are_shown_than_asked_for() {
    assert_eq!(
        scores_message(&vec![50, 35, 30], 2),
        "\nTop 2 Scores:\n  1. 50\n  2. 35\n\n"
    );
    assert_eq!(scores_message(&vec![50, 35, 30], 0), "\nTop 0 Scores:\n\n");
    assert_eq!(
        scores_message(&vec![7, -3], 2),
        "\nTop 2 Scores:\n  1. 7\n  2. -3\n\n"
    );
}

#[test]
fn the_tenth_score_has_a_place_of_two_digits() {
    let scores: Vec<i64> = (1..=12).rev().collect();
    let shown = scores_message(&scores, 10);
    assert!(shown.starts_with("\nTop 10 Scores:\n  1. 12\n  2. 11\n"));
    assert!(shown.ends_with("  9. 4\n  10. 3\n\n"));
}

#[test]
fn no_scores_are_shown_as_none() {
    assert_eq!(scores_message(&Vec::new(), 10), "\nNo scores recorded\n\n");
    assert_eq!(scores_message(&Vec::new(), 0), "\nNo scores recorded\n\n");
}

#[test]
fn four_words_are_commands() {
    assert_eq!(command("start"), Some(Command::Start));
    assert_eq!(command("rules"), Some(Command::Rules));
    assert_eq!(command("scores"), Some(Command::Scores));
    assert_eq!(command("exit"), Some(Command::Exit));
}

#[test]
fn other_words_are_no_commands() {
    assert_eq!(command(""), None);
    assert_eq!(command("Start"), None);
    assert_eq!(command("start "), None);
    assert_eq!(command("score"), None);
    assert_eq!(command("exit!"), None);
    assert_eq!(command("q"), None);
}

#[test]
fn a_line_is_stripped_and_put_in_lower_case() {
    assert_eq!(entered("  StArT \n"), "start");
    assert_eq!(entered("RULES\r\n"), "rules");
    assert_eq!(entered("\t two words  "), "two words");
    assert_eq!(entered("   "), "");
    assert_eq!(entered(""), "");
}

#[test]
fn a_command_may_be_entered_in_any_case() {
    assert_eq!(entered_command("Start\n"), Some(Command::Start));
    assert_eq!(entered_command("  EXIT\r\n"), Some(Command::Exit));
    assert_eq!(entered_command("scores"), Some(Command::Scores));
    assert_eq!(entered_command(" Rules "), Some(Command::Rules));
    assert_eq!(entered_command("quit\n"), None);
    assert_eq!(entered_command("st art\n"), None);
    assert_eq!(entered_command("\n"), None);
}

#[test]
fn white_space_is_what_the_standard_library_takes_for_it() {
    for code in 0..=0x10FFFFu32 {
        if let Some(character) = char::from_u32(code) {
            assert_eq!(white_space(character), character.is_whitespace());
        }
    }
}

#[test]
fn white_space_is_listed() {
    for character in [
        '\t', '\n', '\u{B}', '\u{C}', '\r', ' ', '\u{85}', '\u{A0}', '\u{1680}', '\u{2000}',
        '\u{2005}', '\u{200A}', '\u{2028}', '\u{2029}', '\u{202F}', '\u{205F}', '\u{3000}',
    ] {
        assert!(white_space(character));
    }
    for character in [
        'a', '0', '_', '\u{0}', '\u{8}', '\u{E}', '\u{1C}', '\u{1F}', '\u{180E}', '\u{200B}',
        '\u{200D}', '\u{2060}', '\u{FEFF}',
    ] {
        assert!(!white_space(character));
    }
}

#[test]
fn all_white_space_is_stripped_from_both_ends() {
    for code in 0..=0x10FFFFu32 {
        if let Some(character) = char::from_u32(code) {
            let line = format!("{character}exit{character}");
            if white_space(character) {
                assert_eq!(entered(&line), "exit");
                assert_eq!(entered_command(&line), Some(Command::Exit));
            } else {
                assert_eq!(entered(&line), line.to_lowercase());
                assert_eq!(entered_command(&line), None);
            }
        }
    }
}

#[test]
fn white_space_within_a_line_is_kept() {
    assert_eq!(entered(" \u{3000}a \u{2003} b\u{A0}\n"), "a \u{2003} b");
    assert_eq!(entered("\u{200B}start\u{200B}"), "\u{200B}start\u{200B}");
    assert_eq!(entered(" \t\r\n\u{85}\u{2028}"), "");
}
