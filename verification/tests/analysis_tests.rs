use strategy::cv::{CrossValidator, CvConfig, CvError, CvMethod};
use strategy::walk_forward::{WalkForwardAnalyzer, WalkForwardConfig, WalkForwardError};

fn make_config(n: usize, method: CvMethod) -> CvConfig {
    CvConfig {
        n_folds: n,
        method,
        purge_gap: 0,
    }
}

#[test]
fn kfold_generates_n_folds() {
    let cfg = make_config(5, CvMethod::KFold);
    let cv = CrossValidator::new(cfg);
    let splits = cv.split(100).unwrap();
    assert_eq!(splits.len(), 4); // first fold has no training data, skipped
}

#[test]
fn kfold_index_ranges_correct() {
    let cfg = make_config(4, CvMethod::KFold);
    let cv = CrossValidator::new(cfg);
    let splits = cv.split(100).unwrap();
    // Fold 1: train=[0,25), test=[25,50)
    assert_eq!(splits[0], (0, 25, 25, 50));
    // Fold 2: train=[0,50), test=[50,75)
    assert_eq!(splits[1], (0, 50, 50, 75));
}

#[test]
fn purged_kfold_has_gap() {
    let cfg = CvConfig {
        n_folds: 4,
        method: CvMethod::PurgedKFold,
        purge_gap: 5,
    };
    let cv = CrossValidator::new(cfg);
    let splits = cv.split(100).unwrap();
    for (train_start, train_end, test_start, _test_end) in &splits {
        // Gap must be respected: train_end <= test_start - gap
        assert!(*train_end + 5 <= *test_start || *train_end == 0);
        let _ = train_start; // use it
    }
}

#[test]
fn walk_forward_kfold_expands() {
    let cfg = make_config(4, CvMethod::WalkForwardKFold);
    let cv = CrossValidator::new(cfg);
    let splits = cv.split(100).unwrap();
    assert!(!splits.is_empty());
    // Training window should expand each fold
    for i in 1..splits.len() {
        assert!(splits[i].1 > splits[i - 1].1);
    }
}

#[test]
fn insufficient_data_error() {
    let cfg = make_config(10, CvMethod::KFold);
    let cv = CrossValidator::new(cfg);
    let result = cv.split(5);
    assert!(matches!(result, Err(CvError::InsufficientData)));
}

#[test]
fn zero_folds_is_invalid_config() {
    let cv = CrossValidator::new(make_config(0, CvMethod::KFold));
    match cv.split(100) {
        Err(CvError::InvalidConfig(msg)) => assert_eq!(msg, "n_folds must be > 0"),
        other => panic!("unexpected {:?}", other),
    }
}

#[test]
fn single_kfold_fold_has_no_training_data() {
    let cv = CrossValidator::new(make_config(1, CvMethod::KFold));
    assert!(matches!(cv.split(100), Err(CvError::InsufficientData)));
}

#[test]
fn kfold_last_fold_absorbs_remainder() {
    let cv = CrossValidator::new(make_config(3, CvMethod::KFold));
    let splits = cv.split(10).unwrap();
    assert_eq!(splits, vec![(0, 3, 3, 6), (0, 6, 6, 10)]);
}

#[test]
fn purged_kfold_drops_folds_inside_the_gap() {
    let cfg = CvConfig {
        n_folds: 4,
        method: CvMethod::PurgedKFold,
        purge_gap: 30,
    };
    let splits = CrossValidator::new(cfg).split(100).unwrap();
    assert_eq!(splits, vec![(0, 20, 50, 75), (0, 45, 75, 100)]);
}

#[test]
fn purged_kfold_with_gap_beyond_data_is_insufficient() {
    let cfg = CvConfig {
        n_folds: 4,
        method: CvMethod::PurgedKFold,
        purge_gap: 100,
    };
    assert!(matches!(
        CrossValidator::new(cfg).split(100),
        Err(CvError::InsufficientData)
    ));
}

#[test]
fn purged_kfold_with_zero_gap_matches_kfold() {
    let purged = CvConfig {
        n_folds: 4,
        method: CvMethod::PurgedKFold,
        purge_gap: 0,
    };
    let a = CrossValidator::new(purged).split(103).unwrap();
    let b = CrossValidator::new(make_config(4, CvMethod::KFold)).split(103).unwrap();
    assert_eq!(a, b);
}

#[test]
fn walk_forward_kfold_exact_windows() {
    let cv = CrossValidator::new(make_config(4, CvMethod::WalkForwardKFold));
    let splits = cv.split(100).unwrap();
    assert_eq!(
        splits,
        vec![(0, 20, 20, 40), (0, 40, 40, 60), (0, 60, 60, 80), (0, 80, 80, 100)]
    );
    let short = CrossValidator::new(make_config(4, CvMethod::WalkForwardKFold));
    assert!(matches!(short.split(4), Err(CvError::InsufficientData)));
}

fn make_wf_config(in_sample: usize, oos: usize, step: usize) -> WalkForwardConfig {
    WalkForwardConfig {
        in_sample_size: in_sample,
        out_of_sample_size: oos,
        step_size: step,
        min_windows: 1,
    }
}

#[test]
fn windows_generates_correct_ranges() {
    let config = make_wf_config(100, 20, 20);
    let analyzer = WalkForwardAnalyzer::new(config);
    let windows = analyzer.windows(200).unwrap();
    assert!(!windows.is_empty());
    // First window: in=[0,100), oos=[100,120)
    assert_eq!(windows[0], (0, 100, 100, 120));
    // Second: in=[20,120), oos=[120,140)
    assert_eq!(windows[1], (20, 120, 120, 140));
}

#[test]
fn windows_insufficient_data_error() {
    let config = make_wf_config(100, 20, 20);
    let analyzer = WalkForwardAnalyzer::new(config);
    let result = analyzer.windows(50);
    assert!(matches!(result, Err(WalkForwardError::InsufficientData { .. })));
}

#[test]
fn windows_too_few_windows_error() {
    let config = WalkForwardConfig {
        in_sample_size: 100,
        out_of_sample_size: 20,
        step_size: 20,
        min_windows: 10,
    };
    let analyzer = WalkForwardAnalyzer::new(config);
    // Only 2 windows fit in 200 bars
    let result = analyzer.windows(140);
    assert!(matches!(result, Err(WalkForwardError::TooFewWindows { .. })));
}

#[test]
fn windows_count_and_error_fields() {
    let analyzer = WalkForwardAnalyzer::new(make_wf_config(100, 20, 20));
    assert_eq!(analyzer.windows(200).unwrap().len(), 5);
    match analyzer.windows(50) {
        Err(WalkForwardError::InsufficientData { required, available }) => {
            assert_eq!((required, available), (120, 50));
        }
        other => panic!("unexpected {:?}", other),
    }
    let strict = WalkForwardAnalyzer::new(WalkForwardConfig {
        in_sample_size: 100,
        out_of_sample_size: 20,
        step_size: 20,
        min_windows: 10,
    });
    match strict.windows(140) {
        Err(WalkForwardError::TooFewWindows { min, found }) => assert_eq!((min, found), (10, 2)),
        other => panic!("unexpected {:?}", other),
    }
}

#[test]
fn windows_zero_step_advances_one_bar() {
    let analyzer = WalkForwardAnalyzer::new(make_wf_config(3, 2, 0));
    let windows = analyzer.windows(7).unwrap();
    assert_eq!(windows, vec![(0, 3, 3, 5), (1, 4, 4, 6), (2, 5, 5, 7)]);
}
