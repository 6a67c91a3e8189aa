use vstd::prelude::*;

use crate::space::Space;
use crate::text::str_equals;

verus! {

/// Supported complexity metrics.
#[derive(Clone, Copy, Debug, PartialEq, Eq, Structural, Hash, PartialOrd, Ord)]
pub enum Complexity {
    /// Cyclomatic metric.
    Cyclomatic,
    /// Cognitive metric.
    Cognitive,
}

/// The value reported for a metric: the value itself, when either the value
/// or the largest value among the nested spaces exceeds the threshold.
pub open spec fn spec_compute(value: usize, max_value: usize, threshold: usize) -> Option<usize> {
    if value > threshold || max_value > threshold {
        Some(value)
    } else {
        None
    }
}

/// Decides whether a metric value is reported, given its value, the largest
/// value among the nested spaces, and a threshold.
pub trait ComplexityChecker {
    /// Value and largest nested value of this metric for a space.
    spec fn spec_metric(space: Space) -> (usize, usize);

    /// The metric value of `space` when it exceeds `threshold`.
    fn value(space: &Space, threshold: usize) -> (r: Option<usize>)
        ensures
            r == spec_compute(Self::spec_metric(*space).0, Self::spec_metric(*space).1, threshold),
    ;

    /// `Some(metric_value)` when `metric_value` or `metric_max_value`
    /// exceeds `threshold`.
    fn compute(metric_value: usize, metric_max_value: usize, threshold: usize) -> (r: Option<usize>)
        ensures
            r == spec_compute(metric_value, metric_max_value, threshold),
    {
        if metric_value > threshold || metric_max_value > threshold {
            Some(metric_value)
        } else {
            None
        }
    }
}

/// The cyclomatic metric.
pub struct Cyclomatic;

impl ComplexityChecker for Cyclomatic {
    open spec fn spec_metric(space: Space) -> (usize, usize) {
        (space.cyclomatic, space.cyclomatic_max)
    }

    fn value(space: &Space, threshold: usize) -> (r: Option<usize>) {
        Self::compute(space.cyclomatic, space.cyclomatic_max, threshold)
    }
}

/// The cognitive metric.
pub struct Cognitive;

impl ComplexityChecker for Cognitive {
    open spec fn spec_metric(space: Space) -> (usize, usize) {
        (space.cognitive, space.cognitive_max)
    }

    fn value(space: &Space, threshold: usize) -> (r: Option<usize>) {
        Self::compute(space.cognitive, space.cognitive_max, threshold)
    }
}

impl Complexity {
    /// The value reported for this metric on `space` with `threshold`.
    pub open spec fn spec_value(self, space: Space, threshold: usize) -> Option<usize> {
        match self {
            Complexity::Cyclomatic => spec_compute(
                space.cyclomatic,
                space.cyclomatic_max,
                threshold,
            ),
            Complexity::Cognitive => spec_compute(space.cognitive, space.cognitive_max, threshold),
        }
    }

    /// The metric value of `space`, when it or the largest value among the
    /// nested spaces exceeds `threshold`.
    pub fn value(&self, space: &Space, threshold: usize) -> (r: Option<usize>)
        ensures
            r == self.spec_value(*space, threshold),
    {
        match self {
            Complexity::Cyclomatic => Cyclomatic::value(space, threshold),
            Complexity::Cognitive => Cognitive::value(space, threshold),
        }
    }

    /// The name of the metric.
    pub open spec fn spec_name(self) -> Seq<char> {
        match self {
            Complexity::Cyclomatic => "cyclomatic"@,
            Complexity::Cognitive => "cognitive"@,
        }
    }

    /// The name of the metric: `cyclomatic` or `cognitive`.
    pub fn name(&self) -> (r: &'static str)
        ensures
            r@ == self.spec_name(),
    {
        match self {
            Complexity::Cyclomatic => "cyclomatic",
            Complexity::Cognitive => "cognitive",
        }
    }

    /// The name of the variant of the metric, as the output files write it.
    pub open spec fn spec_variant_name(self) -> Seq<char> {
        match self {
            Complexity::Cyclomatic => "Cyclomatic"@,
            Complexity::Cognitive => "Cognitive"@,
        }
    }

    /// The name of the variant of the metric, as the output files write it:
    /// `Cyclomatic` or `Cognitive`.
    pub fn variant_name(&self) -> (r: &'static str)
        ensures
            r@ == self.spec_variant_name(),
    {
        match self {
            Complexity::Cyclomatic => "Cyclomatic",
            Complexity::Cognitive => "Cognitive",
        }
    }

    /// The metric whose name is `s`, if any.
    pub open spec fn spec_from_name(s: Seq<char>) -> Option<Complexity> {
        if s == "cyclomatic"@ {
            Some(Complexity::Cyclomatic)
        } else if s == "cognitive"@ {
            Some(Complexity::Cognitive)
        } else {
            None
        }
    }

    /// Parses a metric name: `cyclomatic` or `cognitive`.
    pub fn from_name(s: &str) -> (r: Option<Complexity>)
        ensures
            r == Self::spec_from_name(s@),
    {
        if str_equals(s, "cyclomatic") {
            Some(Complexity::Cyclomatic)
        } else if str_equals(s, "cognitive") {
            Some(Complexity::Cognitive)
        } else {
            None
        }
    }

    /// Default threshold for a metric.
    pub fn default_threshold(&self) -> (r: usize)
        ensures
            r == 15,
    {
        match self {
            Complexity::Cyclomatic => 15,
            Complexity::Cognitive => 15,
        }
    }

    /// All complexity metrics.
    pub fn all() -> (r: &'static [Complexity])
        ensures
            r@ == seq![Complexity::Cyclomatic, Complexity::Cognitive],
    {
        &[Complexity::Cyclomatic, Complexity::Cognitive]
    }
}

impl Default for Complexity {
    fn default() -> (r: Self)
        ensures
            r == Complexity::Cyclomatic,
    {
        Complexity::Cyclomatic
    }
}

/// Whether a threshold is in the range the command line accepts: from 0
/// (no threshold at all) to 100 (no complexity value accepted).
pub fn threshold_in_range(threshold: usize) -> (r: bool)
    ensures
        r == (threshold <= 100),
{
    threshold <= 100
}

/// Reading back the name of a metric gives the metric.
pub proof fn lemma_complexity_name_round_trip(c: Complexity)
    ensures
        Complexity::spec_from_name(c.spec_name()) == Some(c),
{
    reveal_strlit("cyclomatic");
    reveal_strlit("cognitive");
    assert("cyclomatic"@[1] != "cognitive"@[1]);
}

} // verus!
