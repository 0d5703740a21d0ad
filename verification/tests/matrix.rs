use pipeline_service::matrix::{MatrixExpander, MatrixPlan};
use pipeline_service::models::{MatrixStrategy, Strategy};
use std::collections::HashMap;

fn strategy(matrix: Option<MatrixStrategy>, parallel: Option<u32>) -> Strategy {
    Strategy { matrix, parallel, max_parallel: Some(2), run_once: None, rolling: None, canary: None }
}

#[test]
fn parallel_copies_are_numbered_from_one() {
    let copies = MatrixExpander::parallel_instances(3);
    assert_eq!(copies.len(), 3);
    assert_eq!(copies[0].name, "Job 1");
    assert_eq!(copies[2].name, "Job 3");
    assert_eq!((copies[1].position, copies[1].total), (2, 3));
    assert!(MatrixExpander::parallel_instances(0).is_empty());
}

#[test]
fn an_inline_matrix_with_entries_wins_over_parallel() {
    let mut m = HashMap::new();
    m.insert("linux".to_string(), HashMap::new());
    assert_eq!(MatrixExpander::plan(&strategy(Some(MatrixStrategy::Inline(m)), Some(4))), MatrixPlan::Inline);
    assert_eq!(
        MatrixExpander::plan(&strategy(Some(MatrixStrategy::Inline(HashMap::new())), Some(4))),
        MatrixPlan::Parallel(4)
    );
    assert_eq!(MatrixExpander::plan(&strategy(Some(MatrixStrategy::Expression("x".to_string())), None)), MatrixPlan::Single);
    assert_eq!(MatrixExpander::max_parallel(&strategy(None, None)), Some(2));
}
