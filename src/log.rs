use vstd::prelude::*;

use crate::observation::{copy_observation, observations_view, Observation, ObservationView};
use crate::settings::SettingError;
use crate::text::same_text;
use crate::time::Timestamp;

verus! {

/// How the observation log is written.
#[derive(Clone, Copy, Debug, PartialEq, Eq, Structural)]
pub enum OutputFormat {
    /// Nothing is logged.
    Disabled,
    /// One JSON object per line.
    Json,
    /// One JSON object per line, under its other name.
    Jsonl,
}

/// The output format that a setting names: "none", "json" or "jsonl".
pub open spec fn output_format_of(s: Seq<char>) -> Option<OutputFormat> {
    if s == "none"@ {
        Some(OutputFormat::Disabled)
    } else if s == "json"@ {
        Some(OutputFormat::Json)
    } else if s == "jsonl"@ {
        Some(OutputFormat::Jsonl)
    } else {
        None
    }
}

/// Reads the output-format setting.
pub fn parse_output_format(s: &str) -> (r: Result<OutputFormat, SettingError>)
    ensures
        match output_format_of(s@) {
            Some(f) => r == Ok::<OutputFormat, SettingError>(f),
            None => r == Err::<OutputFormat, SettingError>(SettingError::UnsupportedOutputFormat),
        },
{
    if same_text(s, "none") {
        Ok(OutputFormat::Disabled)
    } else if same_text(s, "json") {
        Ok(OutputFormat::Json)
    } else if same_text(s, "jsonl") {
        Ok(OutputFormat::Jsonl)
    } else {
        Err(SettingError::UnsupportedOutputFormat)
    }
}

impl OutputFormat {
    /// Whether observations are appended to the log at all.
    pub fn logs(&self) -> (r: bool)
        ensures
            r == !(*self is Disabled),
    {
        match self {
            OutputFormat::Disabled => false,
            _ => true,
        }
    }
}

/// How one line of the log read.
#[derive(Clone, Debug)]
pub enum LogLine {
    /// Nothing but white space.
    Blank,
    /// A well-formed record.
    Record(Observation),
    /// A line that is not a record; it is skipped.
    Malformed,
    /// A record cut short by the end of its line, as a write that was
    /// interrupted leaves it at the end of the log; it is skipped like a
    /// malformed line, wherever it stands.
    Truncated,
}

/// Bounds on the time of the observations read; each bound is inclusive,
/// and an absent one does not bound.
#[derive(Clone, Copy, Debug, PartialEq, Eq, Structural)]
pub struct TimeRange {
    pub since: Option<Timestamp>,
    pub until: Option<Timestamp>,
}

/// Whether `t` lies within the range.
pub open spec fn in_range(r: TimeRange, t: int) -> bool {
    &&& (r.since matches Some(s) ==> s.nanos <= t)
    &&& (r.until matches Some(u) ==> t <= u.nanos)
}

/// The records that a read of `lines` returns, in order: the records of
/// all well-formed lines within the range; every other line is skipped.
pub open spec fn selected_records(lines: Seq<LogLine>, range: TimeRange) -> Seq<ObservationView>
    decreases lines.len(),
{
    if lines.len() == 0 {
        Seq::empty()
    } else {
        match lines.last() {
            LogLine::Record(o) => if in_range(range, o@.timestamp) {
                selected_records(lines.drop_last(), range).push(o@)
            } else {
                selected_records(lines.drop_last(), range)
            },
            _ => selected_records(lines.drop_last(), range),
        }
    }
}

/// Whether `t` lies within the range.
pub fn within(range: &TimeRange, t: Timestamp) -> (r: bool)
    ensures
        r == in_range(*range, t.nanos as int),
{
    let after_since = match range.since {
        Some(s) => s.nanos <= t.nanos,
        None => true,
    };
    let before_until = match range.until {
        Some(u) => t.nanos <= u.nanos,
        None => true,
    };
    after_since && before_until
}

/// Reads the records of a log, line by line: blank, malformed and
/// truncated lines are skipped, and records outside `range` are left out.
pub fn select_records(lines: &Vec<LogLine>, range: TimeRange) -> (r: Vec<Observation>)
    ensures
        observations_view(r@) == selected_records(lines@, range),
{
    let ghost ls = lines@;
    let mut out: Vec<Observation> = Vec::new();
    let mut i: usize = 0;
    while i < lines.len()
        invariant
            0 <= i <= lines.len(),
            ls == lines@,
            observations_view(out@) == selected_records(ls.subrange(0, i as int), range),
        decreases lines.len() - i,
    {
        let ghost p = ls.subrange(0, i + 1);
        assert(p.drop_last() =~= ls.subrange(0, i as int));
        match &lines[i] {
            LogLine::Record(o) => {
                if within(&range, o.timestamp) {
                    let c = copy_observation(o);
                    let ghost before = out@;
                    out.push(c);
                    assert(observations_view(out@) =~= observations_view(before).push(c@));
                }
            },
            _ => {},
        }
        i = i + 1;
    }
    assert(ls.subrange(0, ls.len() as int) =~= ls);
    out
}

/// The range that bounds nothing.
pub open spec fn unbounded() -> TimeRange {
    TimeRange { since: None, until: None }
}

/// Reading two stretches of a log one after the other reads what each
/// holds, in order.
pub proof fn lemma_selected_concat(a: Seq<LogLine>, b: Seq<LogLine>, range: TimeRange)
    ensures
        selected_records(a + b, range) == selected_records(a, range) + selected_records(b, range),
    decreases b.len(),
{
    if b.len() == 0 {
        assert(a + b =~= a);
        assert(selected_records(a, range) + selected_records(b, range) =~= selected_records(
            a,
            range,
        ));
    } else {
        lemma_selected_concat(a, b.drop_last(), range);
        assert((a + b).drop_last() =~= a + b.drop_last());
        assert((a + b).last() == b.last());
        match b.last() {
            LogLine::Record(o) => {
                if in_range(range, o@.timestamp) {
                    assert(selected_records(a + b, range) =~= selected_records(a, range)
                        + selected_records(b, range));
                }
            },
            _ => {},
        }
    }
}

/// A line that holds no record, wherever it stands, changes nothing that
/// is read: the records of every other line are still read, in order.
pub proof fn lemma_other_lines_skipped(
    before: Seq<LogLine>,
    line: LogLine,
    after: Seq<LogLine>,
    range: TimeRange,
)
    requires
        !(line is Record),
    ensures
        selected_records(before + seq![line] + after, range) == selected_records(
            before + after,
            range,
        ),
{
    lemma_selected_concat(before + seq![line], after, range);
    lemma_selected_concat(before, seq![line], range);
    lemma_selected_concat(before, after, range);
    assert(seq![line].drop_last() =~= Seq::<LogLine>::empty());
    assert(seq![line].last() == line);
    assert(selected_records(Seq::<LogLine>::empty(), range) == Seq::<ObservationView>::empty());
    assert(selected_records(seq![line], range) =~= Seq::<ObservationView>::empty());
    assert(selected_records(before, range) + Seq::<ObservationView>::empty() =~= selected_records(
        before,
        range,
    ));
}

/// Observations written to the log one per line read back, over the
/// unbounded range, as the same observations in the same order.
pub proof fn lemma_log_round_trip(os: Seq<Observation>)
    ensures
        selected_records(os.map_values(|o: Observation| LogLine::Record(o)), unbounded())
            == observations_view(os),
    decreases os.len(),
{
    let lines = os.map_values(|o: Observation| LogLine::Record(o));
    if os.len() > 0 {
        lemma_log_round_trip(os.drop_last());
        assert(lines.drop_last() =~= os.drop_last().map_values(|o: Observation| LogLine::Record(o)));
        assert(observations_view(os) =~= observations_view(os.drop_last()).push(os.last()@));
    } else {
        assert(observations_view(os) =~= Seq::<ObservationView>::empty());
    }
}

/// A truncated last line, such as a write cut short leaves at the end of
/// the log, does not keep the records before it from being read.
pub proof fn lemma_truncated_line_ends_read(valid: Seq<LogLine>, range: TimeRange)
    ensures
        selected_records(valid + seq![LogLine::Truncated], range) == selected_records(
            valid,
            range,
        ),
{
    let t = LogLine::Truncated;
    assert(valid + seq![t] =~= valid + seq![t] + Seq::<LogLine>::empty());
    assert(valid =~= valid + Seq::<LogLine>::empty());
    lemma_other_lines_skipped(valid, t, Seq::<LogLine>::empty(), range);
}

} // verus!
