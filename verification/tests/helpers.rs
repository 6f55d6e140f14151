use lispy::types::EvaluationError;
use lispy::util::{map_m, tuple_even_vector};

#[test]
fn map_m_collects_successes() {
    let r: Result<Vec<i32>, String> = map_m(vec![Ok(1), Ok(2), Ok(3)]);
    assert_eq!(r, Ok(vec![1, 2, 3]));
    let r: Result<Vec<i32>, String> = map_m(vec![]);
    assert_eq!(r, Ok(vec![]));
}

#[test]
fn map_m_gives_first_failure() {
    let r: Result<Vec<i32>, &str> = map_m(vec![Ok(1), Err("a"), Ok(3), Err("b")]);
    assert_eq!(r, Err("a"));
}

#[test]
fn tuple_even_vector_pairs_up() {
    let r = tuple_even_vector(vec![1, 2, 3, 4]).unwrap();
    assert_eq!(r, vec![(1, 2), (3, 4)]);
    let r = tuple_even_vector(Vec::<u8>::new()).unwrap();
    assert_eq!(r, vec![]);
}

#[test]
fn tuple_even_vector_flattens_back() {
    let v = vec![5, 6, 7, 8, 9, 10];
    let pairs = tuple_even_vector(v.clone()).unwrap();
    let flat: Vec<i32> = pairs.iter().flat_map(|(a, b)| vec![*a, *b]).collect();
    assert_eq!(flat, v);
}

#[test]
fn tuple_even_vector_rejects_odd() {
    match tuple_even_vector(vec![1, 2, 3]) {
        Err(EvaluationError::MustHaveEvenNumberOfForms(m)) => assert_eq!(m, "let binding"),
        _ => panic!("expected an error"),
    }
}
