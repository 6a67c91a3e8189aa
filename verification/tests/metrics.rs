use complex_code_spotter::metrics::{Cognitive, ComplexityChecker, Cyclomatic};
use complex_code_spotter::{Complexity, Space};

fn space(cyc: usize, cyc_max: usize, cog: usize, cog_max: usize) -> Space {
    Space {
        start_line: 1,
        end_line: 3,
        cyclomatic: cyc,
        cyclomatic_max: cyc_max,
        cognitive: cog,
        cognitive_max: cog_max,
        spaces: Vec::new(),
    }
}

#[test]
fn compute_reports_value_above_threshold() {
    assert_eq!(Cyclomatic::compute(16, 16, 15), Some(16));
    assert_eq!(Cyclomatic::compute(15, 15, 15), None);
    assert_eq!(Cyclomatic::compute(3, 20, 15), Some(3));
    assert_eq!(Cognitive::compute(0, 0, 0), None);
    assert_eq!(Cognitive::compute(1, 0, 0), Some(1));
}

#[test]
fn value_reads_the_metric_of_the_space() {
    let s = space(20, 20, 2, 2);
    assert_eq!(Complexity::Cyclomatic.value(&s, 15), Some(20));
    assert_eq!(Complexity::Cognitive.value(&s, 15), None);
    assert_eq!(Complexity::Cognitive.value(&s, 1), Some(2));
    assert_eq!(Cyclomatic::value(&s, 19), Some(20));
    assert_eq!(Cognitive::value(&space(1, 1, 4, 9), 8), Some(4));
}

#[test]
fn complexity_names_round_trip() {
    for c in Complexity::all() {
        assert_eq!(Complexity::from_name(c.name()), Some(*c));
    }
    assert_eq!(Complexity::Cyclomatic.name(), "cyclomatic");
    assert_eq!(Complexity::Cognitive.name(), "cognitive");
    assert_eq!(Complexity::from_name("halstead"), None);
    assert_eq!(Complexity::Cyclomatic.variant_name(), "Cyclomatic");
    assert_eq!(Complexity::Cognitive.variant_name(), "Cognitive");
    assert_eq!(Complexity::from_name("Cyclomatic"), None);
}

#[test]
fn complexity_defaults() {
    assert_eq!(Complexity::all(), &[Complexity::Cyclomatic, Complexity::Cognitive]);
    assert_eq!(Complexity::Cyclomatic.default_threshold(), 15);
    assert_eq!(Complexity::Cognitive.default_threshold(), 15);
    assert_eq!(Complexity::default(), Complexity::Cyclomatic);
    assert!(Complexity::Cyclomatic < Complexity::Cognitive);
}

#[test]
fn threshold_range() {
    assert!(complex_code_spotter::metrics::threshold_in_range(0));
    assert!(complex_code_spotter::metrics::threshold_in_range(100));
    assert!(!complex_code_spotter::metrics::threshold_in_range(101));
}
