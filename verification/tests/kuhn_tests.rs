use cfr_solver::config::CFRConfig;
use cfr_solver::game::{Game, InfoState};
use cfr_solver::kuhn::{KuhnAction, KuhnPoker, KuhnState};
use cfr_solver::solver::CFRSolver;

#[test]
fn test_kuhn_game_tree() {
    let game = KuhnPoker::new();

    let state = game.initial_state();
    assert!(!state.dealt);
    assert!(game.is_chance(&state));

    let dealt_state = KuhnState {
        cards: [2, 0],
        history: String::new(),
        pot: [1, 1],
        dealt: true,
    };
    assert!(!game.is_chance(&dealt_state));
    assert!(!game.is_terminal(&dealt_state));
    assert_eq!(game.current_player(&dealt_state), Some(0));

    let actions = game.available_actions(&dealt_state);
    assert_eq!(actions.len(), 2);
    assert!(actions.contains(&KuhnAction::Pass));
    assert!(actions.contains(&KuhnAction::Bet));
}

#[test]
fn test_kuhn_terminal_payoffs() {
    let game = KuhnPoker::new();
    // Payoffs are fixed-point: one chip is a million units.
    let one = 1_000_000i64;

    let pp_state = KuhnState {
        cards: [2, 0],
        history: "pp".to_string(),
        pot: [1, 1],
        dealt: true,
    };
    assert!(game.is_terminal(&pp_state));
    assert_eq!(game.get_payoff(&pp_state, 0), one);
    assert_eq!(game.get_payoff(&pp_state, 1), -one);

    let bp_state = KuhnState {
        cards: [0, 2],
        history: "bp".to_string(),
        pot: [2, 1],
        dealt: true,
    };
    assert!(game.is_terminal(&bp_state));
    assert_eq!(game.get_payoff(&bp_state, 0), one);

    let bb_state = KuhnState {
        cards: [0, 2],
        history: "bb".to_string(),
        pot: [2, 2],
        dealt: true,
    };
    assert!(game.is_terminal(&bb_state));
    assert_eq!(game.get_payoff(&bb_state, 0), -2 * one);
    assert_eq!(game.get_payoff(&bb_state, 1), 2 * one);
}

#[test]
fn test_kuhn_info_states() {
    let game = KuhnPoker::new();

    let state = KuhnState {
        cards: [1, 2],
        history: "p".to_string(),
        pot: [1, 1],
        dealt: true,
    };

    assert_eq!(game.current_player(&state), Some(1));

    let info = game.info_state(&state);
    assert_eq!(info.card, 2);
    assert_eq!(info.history, "p");
    assert_eq!(info.key(), "2:p");
}

#[test]
fn test_kuhn_cfr_convergence() {
    let game = KuhnPoker::new();
    let config = CFRConfig::new().with_seed(42);
    let mut solver = CFRSolver::new(game, config);

    solver.train(50_000);

    assert!(solver.num_info_sets() > 0);

    // Strategies are fixed-point probabilities: one million units to
    // one.  Index 0 is Pass, index 1 is Bet.
    let jack_strategy = solver.get_average_strategy("0:", 2);
    let jack_bet_prob = jack_strategy[1];
    assert!(
        jack_bet_prob > 150_000 && jack_bet_prob < 500_000,
        "Jack bet probability {} should be near 1/3",
        jack_bet_prob
    );

    let queen_strategy = solver.get_average_strategy("1:", 2);
    assert!(
        queen_strategy[0] > 950_000,
        "Queen pass probability {} should be near 1.0",
        queen_strategy[0]
    );

    let king_strategy = solver.get_average_strategy("2:", 2);
    assert!(king_strategy[1] > 500_000, "King bet probability {} should be >50%", king_strategy[1]);
    assert!(king_strategy[1] > jack_bet_prob, "King should bet more often than Jack");

    let p2_jack_vs_bet = solver.get_average_strategy("0:b", 2);
    let p2_queen_vs_bet = solver.get_average_strategy("1:b", 2);
    let p2_king_vs_bet = solver.get_average_strategy("2:b", 2);

    assert!(p2_jack_vs_bet[0] > 950_000, "P2 Jack should fold to bet");
    assert!(p2_king_vs_bet[1] > 950_000, "P2 King should call bet");
    assert!(
        p2_queen_vs_bet[1] > 200_000 && p2_queen_vs_bet[1] < 500_000,
        "P2 Queen call probability {} should be near 1/3",
        p2_queen_vs_bet[1]
    );
}
