use cfr_solver::storage::RegretStorage;

// Current-strategy probabilities sum to exactly one.
#[test]
fn test_current_strategy_sums_to_one() {
    let mut store = RegretStorage::new();
    store.update_regrets("k", &vec![7_777i64, 3_333, 1_111], true, None);
    let strategy = store.get_current_strategy("k", 3);
    let sum: u64 = strategy.iter().sum();
    assert_eq!(sum, 1_000_000);
}

// Average-strategy probabilities sum to exactly one.
#[test]
fn test_average_strategy_sums_to_one() {
    let mut store = RegretStorage::new();
    store.update_regrets("k", &vec![0i64, 0, 0], true, None);
    store.update_strategy_sum("k", &vec![333_333u64, 333_333, 333_334], 500_000);
    let strategy = store.get_average_strategy("k", 3);
    let sum: u64 = strategy.iter().sum();
    assert_eq!(sum, 1_000_000);
}

// Under CFR+ every stored regret stays non-negative.
#[test]
fn test_cfr_plus_keeps_regrets_nonnegative() {
    let mut store = RegretStorage::new();
    store.update_regrets("k", &vec![5i64, -9, 3], true, None);
    store.update_regrets("k", &vec![-100i64, 4, -1], true, None);
    let regrets = store.get_regrets("k").unwrap();
    for r in regrets {
        assert!(r >= 0);
    }
}

// Without CFR+ negative regrets accumulate as plain sums.
#[test]
fn test_vanilla_regrets_accumulate() {
    let mut store = RegretStorage::new();
    store.update_regrets("k", &vec![5i64, -9], false, None);
    store.update_regrets("k", &vec![-100i64, 4], false, None);
    assert_eq!(store.get_regrets("k").unwrap(), vec![-95i64, -5]);
}

// Without CFR+ a configured floor bounds each regret from below.
#[test]
fn test_regret_floor_applies() {
    let mut store = RegretStorage::new();
    store.update_regrets("k", &vec![5i64, -9], false, Some(-6));
    store.update_regrets("k", &vec![-100i64, 4], false, Some(-6));
    assert_eq!(store.get_regrets("k").unwrap(), vec![-6i64, -2]);
}

// Vector widths are fixed by the first write at a key.
#[test]
fn test_vector_widths_fixed_on_first_visit() {
    let mut store = RegretStorage::new();
    store.update_regrets("two", &vec![1i64, 2], true, None);
    store.update_regrets("three", &vec![1i64, 2, 3], true, None);
    store.update_regrets("two", &vec![4i64, 5], true, None);
    assert_eq!(store.get_regrets("two").unwrap().len(), 2);
    assert_eq!(store.get_strategy_sums("two").unwrap().len(), 2);
    assert_eq!(store.get_regrets("three").unwrap().len(), 3);
    assert_eq!(store.get_strategy_sums("three").unwrap().len(), 3);
}

// An unseen key gets the uniform strategy from both queries.
#[test]
fn test_uniform_fallback() {
    let store = RegretStorage::new();
    assert_eq!(store.get_current_strategy("unseen", 4), vec![250_000u64; 4]);
    assert_eq!(store.get_average_strategy("unseen", 4), vec![250_000u64; 4]);
}

// When the action count does not divide the scale, the division
// remainder goes to the first action, so the sum is still exact.
#[test]
fn test_uniform_remainder_on_first_action() {
    let store = RegretStorage::new();
    let strategy = store.get_current_strategy("unseen", 3);
    assert_eq!(strategy, vec![333_334u64, 333_333, 333_333]);
    assert_eq!(strategy.iter().sum::<u64>(), 1_000_000);
}

// The regret-matching remainder lands on the most likely action.
#[test]
fn test_matching_remainder_on_largest() {
    let mut store = RegretStorage::new();
    store.update_regrets("k", &vec![1i64, 1, 1], true, None);
    let strategy = store.get_current_strategy("k", 3);
    assert_eq!(strategy, vec![333_334u64, 333_333, 333_333]);
    store.update_regrets("k", &vec![0i64, 1, 0], true, None);
    let strategy = store.get_current_strategy("k", 3);
    // The middle action now holds the most regret and takes the
    // remainder: 2/4 and twice 1/4 of the scale.
    assert_eq!(strategy, vec![250_000u64, 500_000, 250_000]);
}

// More positive regret never gets less probability, and a larger share
// when the regret mass is within one unit of probability.
#[test]
fn test_regret_matching_monotonicity() {
    let mut store = RegretStorage::new();
    store.update_regrets("k", &vec![600_000i64, 300_000, 100_000], true, None);
    let strategy = store.get_current_strategy("k", 3);
    assert!(strategy[0] > strategy[1]);
    assert!(strategy[1] > strategy[2]);
}

// All-zero strategy sums yield the uniform average strategy.
#[test]
fn test_zero_strategy_sum_neutrality() {
    let mut store = RegretStorage::new();
    store.update_regrets("k", &vec![9i64, 1], true, None);
    assert_eq!(store.get_average_strategy("k", 2), vec![500_000u64, 500_000]);
}

// Discounting by half twice equals discounting by a quarter once, on
// values the fixed-point scale divides exactly.
#[test]
fn test_discount_composition() {
    let mut twice = RegretStorage::new();
    twice.update_regrets("k", &vec![4_000_000i64, -8_000_000], false, None);
    twice.discount_regrets(500_000);
    twice.discount_regrets(500_000);

    let mut once = RegretStorage::new();
    once.update_regrets("k", &vec![4_000_000i64, -8_000_000], false, None);
    once.discount_regrets(250_000);

    assert_eq!(twice.get_regrets("k").unwrap(), once.get_regrets("k").unwrap());
    assert_eq!(twice.get_regrets("k").unwrap(), vec![1_000_000i64, -2_000_000]);
}

// Clearing removes every record.
#[test]
fn test_clear() {
    let mut store = RegretStorage::new();
    store.update_regrets("a", &vec![1i64], true, None);
    store.update_regrets("b", &vec![1i64, 2], true, None);
    assert_eq!(store.num_info_sets(), 2);
    store.clear();
    assert_eq!(store.num_info_sets(), 0);
    assert!(!store.contains("a"));
}

// The store's export round-trips through import.
#[test]
fn test_storage_export_import() {
    let mut store = RegretStorage::new();
    store.update_regrets("a", &vec![5i64, -2], false, None);
    store.update_strategy_sum("a", &vec![700_000u64, 300_000], 1_000_000);
    store.set_action_names("a", vec!["Pass".to_string(), "Bet".to_string()]);

    let exported = store.export();
    let mut other = RegretStorage::new();
    other.import(exported);

    assert_eq!(other.get_regrets("a"), store.get_regrets("a"));
    assert_eq!(other.get_strategy_sums("a"), store.get_strategy_sums("a"));
    assert_eq!(other.get_action_names("a"), store.get_action_names("a"));
}

// A weighted strategy contribution lands scaled by the weight.
#[test]
fn test_strategy_sum_update_exact() {
    let mut store = RegretStorage::new();
    store.update_regrets("k", &vec![0i64, 0], true, None);
    store.update_strategy_sum("k", &vec![750_000u64, 250_000], 2_000_000);
    assert_eq!(store.get_strategy_sums("k").unwrap(), vec![1_500_000i64, 500_000]);
}

// Drift against a snapshot of an identical store is zero.
#[test]
fn test_drift_zero_against_self() {
    let mut store = RegretStorage::new();
    store.update_regrets("k", &vec![10i64, 5], true, None);
    store.update_strategy_sum("k", &vec![600_000u64, 400_000], 1_000_000);
    let snapshot = store.snapshot_strategies();
    assert_eq!(store.calculate_ci(&snapshot), Some(0));
}

// Drift with nothing to compare reports no value.
#[test]
fn test_drift_empty() {
    let store = RegretStorage::new();
    let snapshot = store.snapshot_strategies();
    assert_eq!(store.calculate_ci(&snapshot), None);
}

// Action names are stored once and kept.
#[test]
fn test_action_names_stored_once() {
    let mut store = RegretStorage::new();
    store.update_regrets("k", &vec![0i64, 0], true, None);
    store.set_action_names("k", vec!["x".to_string(), "y".to_string()]);
    store.set_action_names("k", vec!["other".to_string(), "names".to_string()]);
    assert_eq!(store.get_action_names("k"), Some(vec!["x".to_string(), "y".to_string()]));
}
