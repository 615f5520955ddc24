use seqtools::combinations::combinations;
use seqtools::comm::common_lines;
use seqtools::conway::{Cell, GameOfLife, Grid};
use seqtools::mpsc::{Channel, ReceiveError};
use seqtools::prefix::longest_common_prefix;
use seqtools::trust::{
    Agent, CheatingAgent, CooperatingAgent, CopycatAgent, DetectiveAgent, Game, GrudgerAgent,
    RoundOutcome, Step,
};

#[test]
fn combinations_of_three_choose_two() {
    let got = combinations(&[1, 2, 3], 2);
    assert_eq!(got, vec![vec![1, 2], vec![1, 3], vec![2, 3]]);
}

#[test]
fn combinations_choose_zero_is_one_empty_combination() {
    let got = combinations(&[1, 2, 3], 0);
    assert_eq!(got, vec![Vec::<i32>::new()]);
}

#[test]
fn combinations_choose_more_than_available_is_empty() {
    let got = combinations(&[1, 2], 3);
    assert_eq!(got, Vec::<Vec<i32>>::new());
}

#[test]
fn combinations_choose_all() {
    let got = combinations(&[4, 5], 2);
    assert_eq!(got, vec![vec![4, 5]]);
}

#[test]
fn grid_roundtrip_and_size() {
    let mut g: Grid<u8> = Grid::from_slice(&[1, 2, 3, 4, 5, 6], 2, 3);
    assert_eq!(g.size(), (2, 3));
    assert_eq!(*g.get(0, 0), 1);
    assert_eq!(*g.get(1, 2), 6);
    g.set(9, 1, 2);
    assert_eq!(*g.get(1, 2), 9);
}

#[test]
fn grid_neighbours_of_corner_and_centre() {
    let g: Grid<u8> = Grid::from_slice(&[0; 9], 3, 3);
    assert_eq!(g.neighbours(0, 0), vec![(0, 1), (1, 0), (1, 1)]);
    let centre = g.neighbours(1, 1);
    assert_eq!(
        centre,
        vec![(0, 0), (0, 1), (0, 2), (1, 0), (1, 2), (2, 0), (2, 1), (2, 2)]
    );
}

#[test]
fn game_of_life_blinker_oscillates() {
    let d = Cell::Dead;
    let a = Cell::Alive;
    let horizontal = [d, d, d, a, a, a, d, d, d];
    let vertical = [d, a, d, d, a, d, d, a, d];
    let mut game = GameOfLife::from_grid(Grid::from_slice(&horizontal, 3, 3));
    game.step();
    for r in 0..3 {
        for c in 0..3 {
            assert_eq!(*game.get_grid().get(r, c), vertical[r * 3 + c]);
        }
    }
    game.step();
    for r in 0..3 {
        for c in 0..3 {
            assert_eq!(*game.get_grid().get(r, c), horizontal[r * 3 + c]);
        }
    }
}

#[test]
fn game_of_life_lonely_cell_dies() {
    let d = Cell::Dead;
    let a = Cell::Alive;
    let mut game = GameOfLife::from_grid(Grid::from_slice(&[d, d, d, d, a, d, d, d, d], 3, 3));
    game.step();
    for r in 0..3 {
        for c in 0..3 {
            assert_eq!(*game.get_grid().get(r, c), Cell::Dead);
        }
    }
}

#[test]
fn channel_send_then_receive_in_order() {
    let mut ch: Channel<u32> = Channel::new();
    assert!(ch.send(1).is_ok());
    assert!(ch.send(2).is_ok());
    assert_eq!(ch.recv().unwrap(), 1);
    assert_eq!(ch.recv().unwrap(), 2);
}

#[test]
fn channel_empty_and_closed_receives_differ() {
    let mut ch: Channel<u32> = Channel::new();
    assert_eq!(ch.recv().unwrap_err(), ReceiveError::Empty);
    ch.close();
    assert_eq!(ch.recv().unwrap_err(), ReceiveError::Closed);
}

#[test]
fn channel_send_after_close_hands_the_value_back() {
    let mut ch: Channel<&str> = Channel::new();
    assert!(!ch.is_closed());
    ch.close();
    assert!(ch.is_closed());
    let err = ch.send("lost").unwrap_err();
    assert_eq!(err.value, "lost");
}

#[test]
fn channel_buffered_messages_survive_close() {
    let mut ch: Channel<u32> = Channel::new();
    ch.send(7).unwrap();
    ch.close();
    assert_eq!(ch.recv().unwrap(), 7);
    assert_eq!(ch.recv().unwrap_err(), ReceiveError::Closed);
}

#[test]
fn channel_closes_when_the_last_sender_goes() {
    let mut ch: Channel<u32> = Channel::new();
    ch.add_sender();
    ch.drop_sender();
    assert!(!ch.is_closed());
    ch.drop_sender();
    assert!(ch.is_closed());
}

#[test]
fn common_prefix_of_three_words() {
    assert_eq!(longest_common_prefix(vec!["flower", "flow", "flight"]), "fl");
}

#[test]
fn common_prefix_of_disjoint_words_is_empty() {
    assert_eq!(longest_common_prefix(vec!["dog", "racecar", "car"]), "");
}

#[test]
fn common_prefix_of_no_words_is_empty() {
    assert_eq!(longest_common_prefix(Vec::new()), "");
}

#[test]
fn common_prefix_of_one_word_is_the_word() {
    assert_eq!(longest_common_prefix(vec!["alone"]), "alone");
}

#[test]
fn common_prefix_with_a_whole_word_prefix() {
    assert_eq!(longest_common_prefix(vec!["ab", "abc", "abd"]), "ab");
}

#[test]
fn common_lines_keep_second_file_order_without_repeats() {
    let first = vec!["a".to_string(), "b".to_string(), "c".to_string()];
    let second = vec!["b".to_string(), "d".to_string(), "b".to_string(), "a".to_string()];
    assert_eq!(common_lines(&first, &second), vec!["b".to_string(), "a".to_string()]);
}

#[test]
fn common_lines_of_disjoint_files_is_empty() {
    let first = vec!["x".to_string()];
    let second = vec!["y".to_string(), "z".to_string()];
    assert_eq!(common_lines(&first, &second), Vec::<String>::new());
}

#[test]
fn cheater_against_cooperator() {
    let mut game = Game::new(CheatingAgent::default(), CooperatingAgent::default());
    assert_eq!(game.play_round(), RoundOutcome::LeftCheated);
    assert_eq!(game.left_score(), 3);
    assert_eq!(game.right_score(), -1);
    assert_eq!(game.play_round(), RoundOutcome::LeftCheated);
    assert_eq!(game.left_score(), 6);
    assert_eq!(game.right_score(), -2);
}

#[test]
fn two_cooperators_both_gain() {
    let mut game = Game::new(CooperatingAgent::default(), CooperatingAgent::default());
    assert_eq!(game.play_round(), RoundOutcome::BothCooperated);
    assert_eq!(game.left_score(), 2);
    assert_eq!(game.right_score(), 2);
}

#[test]
fn grudger_retaliates_after_first_cheat() {
    let mut game = Game::new(GrudgerAgent::default(), CheatingAgent::default());
    // The grudger opens cooperating and is cheated on.
    assert_eq!(game.play_round(), RoundOutcome::RightCheated);
    // From now on both cheat.
    assert_eq!(game.play_round(), RoundOutcome::BothCheated);
    assert_eq!(game.play_round(), RoundOutcome::BothCheated);
}

#[test]
fn copycat_mirrors_previous_move() {
    let mut copycat = CopycatAgent::default();
    assert_eq!(copycat.next_step(), Step::Cooperate);
    copycat.opponent_step(Step::Cheat);
    assert_eq!(copycat.next_step(), Step::Cheat);
    copycat.opponent_step(Step::Cooperate);
    assert_eq!(copycat.next_step(), Step::Cooperate);
}

#[test]
fn detective_probes_then_exploits_a_pushover() {
    let mut game = Game::new(DetectiveAgent::default(), CooperatingAgent::default());
    // Opening: cooperate, cheat, cooperate, cooperate.
    assert_eq!(game.play_round(), RoundOutcome::BothCooperated);
    assert_eq!(game.play_round(), RoundOutcome::LeftCheated);
    assert_eq!(game.play_round(), RoundOutcome::BothCooperated);
    assert_eq!(game.play_round(), RoundOutcome::BothCooperated);
    // The opponent never cheated back, so the detective exploits it.
    assert_eq!(game.play_round(), RoundOutcome::LeftCheated);
    assert_eq!(game.play_round(), RoundOutcome::LeftCheated);
}

#[test]
fn detective_turns_copycat_against_a_retaliator() {
    let mut game = Game::new(DetectiveAgent::default(), GrudgerAgent::default());
    // Opening: cooperate, cheat (the grudger turns), cooperate, cooperate.
    assert_eq!(game.play_round(), RoundOutcome::BothCooperated);
    assert_eq!(game.play_round(), RoundOutcome::LeftCheated);
    assert_eq!(game.play_round(), RoundOutcome::RightCheated);
    assert_eq!(game.play_round(), RoundOutcome::RightCheated);
    // The grudger cheated during the opening, so the detective copies it.
    assert_eq!(game.play_round(), RoundOutcome::BothCheated);
}

#[test]
fn default_step_is_cheat() {
    assert_eq!(Step::default(), Step::Cheat);
}
