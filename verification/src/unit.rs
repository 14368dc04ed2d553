//! Units of measurement.
use vstd::prelude::*;

verus! {

/// Unit of a measurement: one of the time, size, rate and count units that
/// the CloudWatch backend knows.
#[derive(Debug, Clone, Copy, PartialEq, Eq, Structural)]
pub enum MetricUnit {
    Seconds,
    Microseconds,
    Milliseconds,
    Bytes,
    Kilobytes,
    Megabytes,
    Gigabytes,
    Terabytes,
    Count,
    BytesPerSecond,
    KilobytesPerSecond,
    MegabytesPerSecond,
    GigabytesPerSecond,
    TerabytesPerSecond,
    BitsPerSecond,
    KilobitsPerSecond,
    MegabitsPerSecond,
    GigabitsPerSecond,
    TerabitsPerSecond,
    CountPerSecond,
}

impl MetricUnit {
    /// The string by which the backend knows this unit.
    pub open spec fn name(self) -> Seq<char> {
        match self {
            MetricUnit::Seconds => "Seconds"@,
            MetricUnit::Microseconds => "Microseconds"@,
            MetricUnit::Milliseconds => "Milliseconds"@,
            MetricUnit::Bytes => "Bytes"@,
            MetricUnit::Kilobytes => "Kilobytes"@,
            MetricUnit::Megabytes => "Megabytes"@,
            MetricUnit::Gigabytes => "Gigabytes"@,
            MetricUnit::Terabytes => "Terabytes"@,
            MetricUnit::Count => "Count"@,
            MetricUnit::BytesPerSecond => "Bytes/Second"@,
            MetricUnit::KilobytesPerSecond => "Kilobytes/Second"@,
            MetricUnit::MegabytesPerSecond => "Megabytes/Second"@,
            MetricUnit::GigabytesPerSecond => "Gigabytes/Second"@,
            MetricUnit::TerabytesPerSecond => "Terabytes/Second"@,
            MetricUnit::BitsPerSecond => "Bits/Second"@,
            MetricUnit::KilobitsPerSecond => "Kilobits/Second"@,
            MetricUnit::MegabitsPerSecond => "Megabits/Second"@,
            MetricUnit::GigabitsPerSecond => "Gigabits/Second"@,
            MetricUnit::TerabitsPerSecond => "Terabits/Second"@,
            MetricUnit::CountPerSecond => "Count/Second"@,
        }
    }

    /// Returns the string by which the backend knows this unit.
    pub fn as_str(&self) -> (s: &'static str)
        ensures
            s@ == self.name(),
    {
        match self {
            MetricUnit::Seconds => "Seconds",
            MetricUnit::Microseconds => "Microseconds",
            MetricUnit::Milliseconds => "Milliseconds",
            MetricUnit::Bytes => "Bytes",
            MetricUnit::Kilobytes => "Kilobytes",
            MetricUnit::Megabytes => "Megabytes",
            MetricUnit::Gigabytes => "Gigabytes",
            MetricUnit::Terabytes => "Terabytes",
            MetricUnit::Count => "Count",
            MetricUnit::BytesPerSecond => "Bytes/Second",
            MetricUnit::KilobytesPerSecond => "Kilobytes/Second",
            MetricUnit::MegabytesPerSecond => "Megabytes/Second",
            MetricUnit::GigabytesPerSecond => "Gigabytes/Second",
            MetricUnit::TerabytesPerSecond => "Terabytes/Second",
            MetricUnit::BitsPerSecond => "Bits/Second",
            MetricUnit::KilobitsPerSecond => "Kilobits/Second",
            MetricUnit::MegabitsPerSecond => "Megabits/Second",
            MetricUnit::GigabitsPerSecond => "Gigabits/Second",
            MetricUnit::TerabitsPerSecond => "Terabits/Second",
            MetricUnit::CountPerSecond => "Count/Second",
        }
    }
}

/// No two units go by the same string.
pub proof fn lemma_unit_names_differ(a: MetricUnit, b: MetricUnit)
    requires
        a != b,
    ensures
        a.name() != b.name(),
{
    reveal_strlit("Seconds");
    reveal_strlit("Microseconds");
    reveal_strlit("Milliseconds");
    reveal_strlit("Bytes");
    reveal_strlit("Kilobytes");
    reveal_strlit("Megabytes");
    reveal_strlit("Gigabytes");
    reveal_strlit("Terabytes");
    reveal_strlit("Count");
    reveal_strlit("Bytes/Second");
    reveal_strlit("Kilobytes/Second");
    reveal_strlit("Megabytes/Second");
    reveal_strlit("Gigabytes/Second");
    reveal_strlit("Terabytes/Second");
    reveal_strlit("Bits/Second");
    reveal_strlit("Kilobits/Second");
    reveal_strlit("Megabits/Second");
    reveal_strlit("Gigabits/Second");
    reveal_strlit("Terabits/Second");
    reveal_strlit("Count/Second");
    // A name's length with its first and third character tells it from
    // every other.
    let x = a.name();
    let y = b.name();
    assert(x.len() != y.len() || x[0] != y[0] || x[2] != y[2]);
}

} // verus!
