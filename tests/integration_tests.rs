use super_fair_division::{calculate_fair_division_equal_weights, calculate_fair_division_weighted};

#[test]
fn test_equal_weights_basic() {
    let input = vec![10, 50];
    let result = calculate_fair_division_equal_weights(&input).unwrap();

    assert_eq!(result.len(), input.len());

    assert_eq!(result.iter().sum::<i128>(), 0);

    let mut max_v = input[0];
    let mut max_index = 0;
    for (i, &v) in input.iter().enumerate() {
        if v > max_v {
            max_v = v;
            max_index = i;
        }
    }

    assert!(result[max_index] < 0);

    let sum_others: i128 = result.iter().enumerate()
        .filter(|&(i, _)| i != max_index)
        .map(|(_, &v)| v)
        .sum();
    assert_eq!(result[max_index], -sum_others);

    assert_eq!(result[0], 15);
    assert_eq!(result[1], -15);
}

#[test]
fn test_weighted_basic() {
    let input = vec![30, 60];
    let weights = vec![1, 2];
    let result = calculate_fair_division_weighted(&input, &weights).unwrap();

    assert_eq!(result.len(), input.len());

    assert_eq!(result.iter().sum::<i128>(), 0);

    assert_eq!(result[0], 13);
    assert_eq!(result[1], -13);
}

#[test]
fn test_weighted_algorithm_correctness() {
    let input = vec![9000, 7000, 6000,5000,4000];
    let weights = vec![5,40,40,5,10];
    let result = calculate_fair_division_weighted(&input, &weights).unwrap();

    assert_eq!(result[0], -8415, "result[0] should be -8415");
    assert_eq!(result[1], 3880, "result[0] should be 3880");
    assert_eq!(result[2], 3480, "result[0] should be 3480");
    assert_eq!(result[3], 385, "result[0] should be 385");
    assert_eq!(result[4], 670, "result[0] should be 670");
}

#[test]
fn test_empty_input() {
    let empty: Vec<i128> = vec![];
    assert!(calculate_fair_division_equal_weights(&empty).is_err());
    assert!(calculate_fair_division_weighted(&empty, &empty).is_err());
}

#[test]
fn test_not_enough_participants() {
    let single_input = vec![100];
    let single_weight = vec![1];

    let result_equal = calculate_fair_division_equal_weights(&single_input);
    assert!(result_equal.is_err());
    match result_equal {
        Err(super_fair_division::Error::NotEnoughParticipants) => {},
        _ => panic!("Expected NotEnoughParticipants error for equal weights with single participant")
    }

    let result_weighted = calculate_fair_division_weighted(&single_input, &single_weight);
    assert!(result_weighted.is_err());
    match result_weighted {
        Err(super_fair_division::Error::NotEnoughParticipants) => {},
        _ => panic!("Expected NotEnoughParticipants error for weighted with single participant")
    }
}

#[test]
fn test_large_numbers() {
    let input = vec![i128::MAX / (1 << 40), i128::MAX / (1 << 41), i128::MAX / (1 << 42)];
    let weights = vec![1, 2, 3];

    let result_equal = calculate_fair_division_equal_weights(&input);
    assert!(result_equal.is_ok());

    let result_weighted = calculate_fair_division_weighted(&input, &weights);
    assert!(result_weighted.is_ok());
}

#[test]
fn test_negative_numbers() {
    let input = vec![-10, -20, -30];
    let weights = vec![1, 2, 3];

    let result_equal = calculate_fair_division_equal_weights(&input);
    assert!(result_equal.is_ok());

    let result_weighted = calculate_fair_division_weighted(&input, &weights);
    assert!(result_weighted.is_ok());
}

#[test]
fn test_equal_weights_algorithm_correctness() {
    let input = vec![10, 20, 30, 40];
    let result = calculate_fair_division_equal_weights(&input).unwrap();

    let n = input.len() as i128;
    let sum_v: i128 = input.iter().sum();
    let max_v = *input.iter().max().unwrap();
    let max_index = input.iter().position(|&v| v == max_v).unwrap();
    let delta = (n * max_v - sum_v) / (n * n);

    for (i, &v) in input.iter().enumerate() {
        if i != max_index {
            let expected = v / n + delta;
            assert_eq!(result[i], expected, "Incorrect allocation for participant {}", i);
        }
    }

    let sum_others: i128 = result.iter().enumerate()
        .filter(|&(i, _)| i != max_index)
        .map(|(_, &v)| v)
        .sum();
    assert_eq!(result[max_index], -sum_others, "Incorrect allocation for highest bidder");

    assert_eq!(result.iter().sum::<i128>(), 0, "Sum of allocations should be 0");
}

#[test]
fn test_mixed_numbers() {
    let input = vec![-10, 0, 30];
    let weights = vec![1, 2, 3];

    let result_equal = calculate_fair_division_equal_weights(&input);
    assert!(result_equal.is_ok());

    let result_weighted = calculate_fair_division_weighted(&input, &weights);
    assert!(result_weighted.is_ok());
}

#[test]
fn test_invalid_weights() {
    let input = vec![10, 20, 30];

    let short_weights = vec![1, 2];
    assert!(calculate_fair_division_weighted(&input, &short_weights).is_err());

    let negative_weights = vec![1, -2, 3];
    assert!(calculate_fair_division_weighted(&input, &negative_weights).is_err());

    let zero_weights = vec![1, 0, 3];
    assert!(calculate_fair_division_weighted(&input, &zero_weights).is_err());
}
