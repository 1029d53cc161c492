use aggregator::data::Submission;
use aggregator::errors::Error;
use aggregator::median::calculate_submission_median;

fn subs(rows: Vec<Vec<u64>>) -> Vec<Submission> {
    let mut v = Vec::new();
    for values in rows {
        v.push(Submission { values });
    }
    v
}

#[test]
fn median_of_three_is_middle() {
    let s = subs(vec![vec![10], vec![20], vec![30]]);
    let m = calculate_submission_median(&s).unwrap();
    assert_eq!(m.values, vec![20]);
}

#[test]
fn median_of_four_is_floor_mean_of_central_pair() {
    let s = subs(vec![vec![10], vec![20], vec![30], vec![40]]);
    let m = calculate_submission_median(&s).unwrap();
    assert_eq!(m.values, vec![25]);
}

#[test]
fn median_is_taken_per_slot_independently() {
    let s = subs(vec![vec![10, 9], vec![30, 5], vec![20, 7]]);
    let m = calculate_submission_median(&s).unwrap();
    assert_eq!(m.values, vec![20, 7]);
}

#[test]
fn median_of_single_submission_is_itself() {
    let s = subs(vec![vec![42, 7]]);
    let m = calculate_submission_median(&s).unwrap();
    assert_eq!(m.values, vec![42, 7]);
}

#[test]
fn median_handles_equal_values() {
    let s = subs(vec![vec![5], vec![5], vec![5], vec![5]]);
    let m = calculate_submission_median(&s).unwrap();
    assert_eq!(m.values, vec![5]);
}

#[test]
fn median_of_unsorted_even_count() {
    let s = subs(vec![vec![40], vec![10], vec![30], vec![20]]);
    let m = calculate_submission_median(&s).unwrap();
    assert_eq!(m.values, vec![25]);
}

#[test]
fn median_of_zero_submissions_is_rejected() {
    let s: Vec<Submission> = Vec::new();
    assert_eq!(calculate_submission_median(&s).unwrap_err(), Error::EmptyInput);
}

#[test]
fn median_floor_rounds_odd_sums_down() {
    let s = subs(vec![vec![1], vec![2]]);
    let m = calculate_submission_median(&s).unwrap();
    assert_eq!(m.values, vec![1]);
}
