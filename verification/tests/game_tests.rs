use dice_roulette::dice::{DiceHand, DiceRollTotal};
use dice_roulette::game::{
    evaluate_round, first_hand_message, game_loop, next_hand, next_hand_size, GameError,
    GameUpdate, MAX_ROUNDS,
};

fn texts(updates: &[GameUpdate]) -> Vec<String> {
    updates
        .iter()
        .map(|update| match update {
            GameUpdate::Message(text) => format!("message: {text}"),
            GameUpdate::Score(points) => format!("score: {points}"),
        })
        .collect()
}

/// Test simple game begin & end logic. Check for expected scores!
#[test]
fn game_logic_test() {
    // Sides > 1 : otherwise causes an infinite game loop...
    // Start with a simple game, 1 die, 2 sides
    // Will exit as soon as a 2 is rolled, therefore 2 is the minimum score
    match game_loop(
        DiceHand {
            number_of_dice: 2,
            number_of_sides: 2,
        },
        MAX_ROUNDS,
    )
    .unwrap()
    .score
    {
        x if x < 2 => {
            unreachable!("Result for 1 die of 2 sides must be at least 2");
        }
        _ => {
            // must be greater than or equal to 3
        }
    }

    // Repeat the experiment for more dice!
    // Minimum score of 8 (4 roll 1, 2 roll 2 => diff == 0)
    // Repeat this many times to estimate successful implementation
    for _ in 1..100 {
        match game_loop(
            DiceHand {
                number_of_dice: 6,
                number_of_sides: 2,
            },
            MAX_ROUNDS,
        )
        .unwrap()
        .score
        {
            x if x < 8 => {
                unreachable!("Result for 6 die of 2 sides must be at least 8");
            }
            _ => {
                // must be greater than or equal to 3
            }
        }
    }
}

#[test]
fn one_die_of_two_sides_scores_at_least_two() {
    for _ in 0..200 {
        let report = game_loop(
            DiceHand {
                number_of_dice: 1,
                number_of_sides: 2,
            },
            MAX_ROUNDS,
        )
        .unwrap();
        assert!(report.finished);
        assert!(report.score >= 2);
        // every round but the last rolled a one, the last rolled a two
        let last = report.rounds.len() - 1;
        for round in &report.rounds[..last] {
            assert_eq!(*round, DiceRollTotal { even: 0, odd: 1 });
        }
        assert_eq!(report.rounds[last], DiceRollTotal { even: 2, odd: 0 });
        assert_eq!(report.score, last as i64 + 2);
    }
}

#[test]
fn six_dice_of_two_sides_score_at_least_eight() {
    for _ in 0..100 {
        let report = game_loop(
            DiceHand {
                number_of_dice: 6,
                number_of_sides: 2,
            },
            MAX_ROUNDS,
        )
        .unwrap();
        assert!(report.finished);
        assert!(report.score >= 8);
    }
}

#[test]
fn the_score_is_the_sum_of_all_rounds() {
    for _ in 0..100 {
        let report = game_loop(
            DiceHand {
                number_of_dice: 12,
                number_of_sides: 7,
            },
            1000,
        )
        .unwrap();
        let by_rounds: i64 = report.rounds.iter().map(|round| round.even + round.odd).sum();
        let by_updates: i64 = report
            .updates
            .iter()
            .map(|update| match update {
                GameUpdate::Score(points) => *points,
                GameUpdate::Message(_) => 0,
            })
            .sum();
        assert_eq!(report.score, by_rounds);
        assert_eq!(report.score, by_updates);
    }
}

#[test]
fn each_round_is_rolled_with_the_hand_the_last_one_left() {
    for _ in 0..100 {
        let report = game_loop(
            DiceHand {
                number_of_dice: 12,
                number_of_sides: 7,
            },
            1000,
        )
        .unwrap();
        assert!(report.finished);
        let mut number_of_dice: i64 = 12;
        for (played, round) in report.rounds.iter().enumerate() {
            assert!(number_of_dice > 0);
            assert!(round.even >= 0 && round.odd >= 0 && round.even % 2 == 0);
            assert!(number_of_dice <= round.sum() && round.sum() <= 7 * number_of_dice);
            number_of_dice = (round.odd - round.even).max(0);
            assert_eq!(number_of_dice == 0, played + 1 == report.rounds.len());
        }
    }
}

#[test]
fn each_round_tells_its_points_before_its_messages() {
    let report = game_loop(
        DiceHand {
            number_of_dice: 12,
            number_of_sides: 7,
        },
        1000,
    )
    .unwrap();
    assert_eq!(report.updates.len(), 3 * report.rounds.len());
    let mut told = Vec::new();
    for round in &report.rounds {
        evaluate_round(round, &mut told);
    }
    assert_eq!(report.updates, told);
    for (at, update) in report.updates.iter().enumerate() {
        assert_eq!(matches!(update, GameUpdate::Score(_)), at % 3 == 0);
    }
}

#[test]
fn one_sided_dice_never_end_a_game() {
    let report = game_loop(
        DiceHand {
            number_of_dice: 3,
            number_of_sides: 1,
        },
        5,
    )
    .unwrap();
    assert!(!report.finished);
    assert_eq!(report.rounds, vec![DiceRollTotal { even: 0, odd: 3 }; 5]);
    assert_eq!(report.score, 15);
    assert_eq!(report.updates.len(), 15);
}

#[test]
fn no_rounds_no_score() {
    let report = game_loop(
        DiceHand {
            number_of_dice: 3,
            number_of_sides: 6,
        },
        0,
    )
    .unwrap();
    assert!(!report.finished);
    assert!(report.rounds.is_empty());
    assert!(report.updates.is_empty());
    assert_eq!(report.score, 0);
}

#[test]
fn a_game_of_one_round_is_cut_off_or_over() {
    for _ in 0..100 {
        let report = game_loop(
            DiceHand {
                number_of_dice: 4,
                number_of_sides: 6,
            },
            1,
        )
        .unwrap();
        assert_eq!(report.rounds.len(), 1);
        let round = report.rounds[0];
        assert_eq!(report.finished, round.odd <= round.even);
        assert_eq!(report.score, round.sum());
    }
}

#[test]
fn the_next_hand_is_the_difference_or_nothing() {
    assert_eq!(next_hand_size(&DiceRollTotal { even: 0, odd: 0 }), 0);
    assert_eq!(next_hand_size(&DiceRollTotal { even: 4, odd: 4 }), 0);
    assert_eq!(next_hand_size(&DiceRollTotal { even: 8, odd: 3 }), 0);
    assert_eq!(next_hand_size(&DiceRollTotal { even: 2, odd: 3 }), 1);
    assert_eq!(next_hand_size(&DiceRollTotal { even: 10, odd: 27 }), 17);
    assert_eq!(
        next_hand_size(&DiceRollTotal {
            even: 0,
            odd: i32::MAX as i64
        }),
        2_147_483_647
    );
    assert_eq!(
        next_hand_size(&DiceRollTotal {
            even: 0,
            odd: 3_000_000_096
        }),
        3_000_000_096
    );
    assert_eq!(
        next_hand_size(&DiceRollTotal {
            even: 2,
            odd: 127 * i32::MAX as i64
        }),
        272_730_423_167
    );
}

#[test]
fn a_hand_holds_the_dice_left_if_it_can() {
    assert_eq!(
        next_hand(17, 6),
        Some(DiceHand {
            number_of_dice: 17,
            number_of_sides: 6
        })
    );
    assert_eq!(
        next_hand(1, 127),
        Some(DiceHand {
            number_of_dice: 1,
            number_of_sides: 127
        })
    );
    assert_eq!(
        next_hand(2_147_483_647, 2),
        Some(DiceHand {
            number_of_dice: i32::MAX,
            number_of_sides: 2
        })
    );
    assert_eq!(next_hand(2_147_483_648, 2), None);
    assert_eq!(next_hand(3_000_000_096, 127), None);
    assert_eq!(next_hand(i64::MAX, 127), None);
    assert_eq!(next_hand(0, 6), None);
    assert_eq!(next_hand(-4, 6), None);
}

#[test]
fn a_round_may_leave_more_dice_than_a_hand_holds() {
    let mut updates = Vec::new();
    let dice_left = evaluate_round(
        &DiceRollTotal {
            even: 0,
            odd: 3_000_000_096,
        },
        &mut updates,
    );
    assert_eq!(dice_left, Some(3_000_000_096));
    assert_eq!(
        texts(&updates),
        vec![
            "score: 3000000096".to_string(),
            "message: Rolled total scores of:\n\t0 even\n\t3000000096 odd\n\n".to_string(),
            "message: Rolling next hand of 3000000096 dice...\n".to_string(),
        ]
    );
    assert_eq!(next_hand(3_000_000_096, 127), None);
}

#[test]
fn a_hand_without_dice_is_turned_down() {
    for number_of_dice in [0, -1, i32::MIN] {
        for number_of_sides in [-3, 0, 1, 6] {
            let hand = DiceHand {
                number_of_dice,
                number_of_sides,
            };
            assert_eq!(game_loop(hand, 10), Err(GameError::NoDice));
            assert_eq!(game_loop(hand, 0), Err(GameError::NoDice));
        }
    }
}

#[test]
fn two_sided_dice_score_four_thirds_of_the_first_hand() {
    for number_of_dice in 1..=40 {
        for _ in 0..25 {
            let report = game_loop(
                DiceHand {
                    number_of_dice,
                    number_of_sides: 2,
                },
                MAX_ROUNDS,
            )
            .unwrap();
            assert!(report.finished);
            assert!(3 * report.score >= 4 * number_of_dice as i64);
        }
    }
}

#[test]
fn a_round_that_leaves_dice_announces_the_next_hand() {
    let mut updates = Vec::new();
    let dice_left = evaluate_round(&DiceRollTotal { even: 10, odd: 27 }, &mut updates);
    assert_eq!(dice_left, Some(17));
    assert_eq!(
        texts(&updates),
        vec![
            "score: 37".to_string(),
            "message: Rolled total scores of:\n\t10 even\n\t27 odd\n\n".to_string(),
            "message: Rolling next hand of 17 dice...\n".to_string(),
        ]
    );
}

#[test]
fn a_round_that_leaves_no_dice_ends_the_game() {
    for totals in [
        DiceRollTotal { even: 12, odd: 12 },
        DiceRollTotal { even: 20, odd: 4 },
    ] {
        let mut updates = Vec::new();
        let dice_left = evaluate_round(&totals, &mut updates);
        assert_eq!(dice_left, None);
        assert_eq!(
            texts(&updates),
            vec![
                "score: 24".to_string(),
                format!(
                    "message: Rolled total scores of:\n\t{} even\n\t{} odd\n\n",
                    totals.even, totals.odd
                ),
                "message: The even score is greater than the odd total this round. No more dice left in your hand!\n"
                    .to_string(),
            ]
        );
    }
}

#[test]
fn a_round_adds_its_updates_after_those_told_before() {
    let mut updates = vec![GameUpdate::Score(5), GameUpdate::Message("kept".to_string())];
    let dice_left = evaluate_round(&DiceRollTotal { even: 0, odd: 1 }, &mut updates);
    assert_eq!(dice_left, Some(1));
    assert_eq!(
        texts(&updates),
        vec![
            "score: 5".to_string(),
            "message: kept".to_string(),
            "score: 1".to_string(),
            "message: Rolled total scores of:\n\t0 even\n\t1 odd\n\n".to_string(),
            "message: Rolling next hand of 1 dice...\n".to_string(),
        ]
    );
}

#[test]
fn the_first_hand_is_announced() {
    assert_eq!(first_hand_message(12), "Rolling first hand of 12 dice...");
    assert_eq!(
        first_hand_message(i32::MAX),
        "Rolling first hand of 2147483647 dice..."
    );
}
