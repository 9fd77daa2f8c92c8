//! Phase timings of a command run, checked against a latency objective (SLO), and the report
//! printed from them.

use vstd::prelude::*;
use crate::text::{
    chars_eq, chars_less, chars_of, decimal_chars, decimal_text, lemma_str_less_order, push_all,
    str_less, string_of,
};

verus! {

/// A span of time, held as a whole number of nanoseconds (as `std::time::Duration` holds it).
#[derive(Clone, Copy, Debug, PartialEq, Eq, Structural)]
pub struct Duration {
    pub nanos: u128,
}

impl Duration {
    pub fn from_nanos(nanos: u128) -> (r: Duration)
        ensures
            r.nanos == nanos,
    {
        Duration { nanos }
    }

    pub fn from_millis(millis: u64) -> (r: Duration)
        ensures
            r.nanos == millis * 1_000_000,
    {
        assert(millis * 1_000_000 <= u128::MAX) by (nonlinear_arith)
            requires
                millis <= u64::MAX,
        ;
        Duration { nanos: (millis as u128) * 1_000_000 }
    }

    pub fn from_secs(secs: u64) -> (r: Duration)
        ensures
            r.nanos == secs * 1_000_000_000,
    {
        assert(secs * 1_000_000_000 <= u128::MAX) by (nonlinear_arith)
            requires
                secs <= u64::MAX,
        ;
        Duration { nanos: (secs as u128) * 1_000_000_000 }
    }

    /// Whole milliseconds in the span.
    pub fn as_millis(&self) -> (r: u128)
        ensures
            r == self.nanos / 1_000_000,
    {
        self.nanos / 1_000_000
    }

    pub fn as_nanos(&self) -> (r: u128)
        ensures
            r == self.nanos,
    {
        self.nanos
    }
}

/// A phase entry as plain values: name and nanoseconds.
pub type PhaseView = (Seq<char>, u128);

pub open spec fn phases_view(p: Seq<(String, Duration)>) -> Seq<PhaseView> {
    p.map_values(|e: (String, Duration)| (e.0@, e.1.nanos))
}

/// Names strictly increase along the list: each phase occurs once, in name order (the order
/// of a map keyed by the name).
pub open spec fn names_increasing(p: Seq<PhaseView>) -> bool {
    forall|i: int, j: int| 0 <= i < j < p.len() ==> str_less(#[trigger] p[i].0, #[trigger] p[j].0)
}

/// The list after recording `e`: an entry with the same name is replaced in place, otherwise
/// `e` goes before the first entry whose name orders after it.
pub open spec fn record_spec(s: Seq<PhaseView>, e: PhaseView) -> Seq<PhaseView>
    decreases s.len(),
{
    if s.len() == 0 {
        seq![e]
    } else if s[0].0 == e.0 {
        seq![e] + s.drop_first()
    } else if str_less(e.0, s[0].0) {
        seq![e] + s
    } else {
        seq![s[0]] + record_spec(s.drop_first(), e)
    }
}

/// The time recorded for `name`, if any.
pub open spec fn lookup(s: Seq<PhaseView>, name: Seq<char>) -> Option<u128>
    decreases s.len(),
{
    if s.len() == 0 {
        None
    } else if s[0].0 == name {
        Some(s[0].1)
    } else {
        lookup(s.drop_first(), name)
    }
}

/// Recording keeps the names strictly increasing.
pub proof fn lemma_record_keeps_order(s: Seq<PhaseView>, e: PhaseView)
    requires
        names_increasing(s),
    ensures
        names_increasing(record_spec(s, e)),
        record_spec(s, e).len() > 0,
        s.len() > 0 ==> (record_spec(s, e)[0].0 == s[0].0 || record_spec(s, e)[0].0 == e.0),
    decreases s.len(),
{
    if s.len() == 0 {
    } else if s[0].0 == e.0 {
        let r = seq![e] + s.drop_first();
        assert forall|i: int, j: int| 0 <= i < j < r.len() implies str_less(
            #[trigger] r[i].0,
            #[trigger] r[j].0,
        ) by {
            if i == 0 {
                assert(r[j] == s[j]);
                assert(str_less(s[0].0, s[j].0));
            } else {
                assert(r[i] == s[i] && r[j] == s[j]);
            }
        }
    } else if str_less(e.0, s[0].0) {
        let r = seq![e] + s;
        assert forall|i: int, j: int| 0 <= i < j < r.len() implies str_less(
            #[trigger] r[i].0,
            #[trigger] r[j].0,
        ) by {
            if i == 0 {
                assert(r[j] == s[j - 1]);
                if j > 1 {
                    assert(str_less(s[0].0, s[j - 1].0));
                    lemma_str_less_order(e.0, s[0].0, s[j - 1].0);
                }
            } else {
                assert(r[i] == s[i - 1] && r[j] == s[j - 1]);
            }
        }
    } else {
        let t = s.drop_first();
        assert(names_increasing(t)) by {
            assert forall|i: int, j: int| 0 <= i < j < t.len() implies str_less(
                #[trigger] t[i].0,
                #[trigger] t[j].0,
            ) by {
                assert(t[i] == s[i + 1] && t[j] == s[j + 1]);
            }
        }
        lemma_record_keeps_order(t, e);
        let rt = record_spec(t, e);
        let r = seq![s[0]] + rt;
        lemma_str_less_order(s[0].0, e.0, e.0);
        assert(str_less(s[0].0, e.0));
        assert forall|i: int, j: int| 0 <= i < j < r.len() implies str_less(
            #[trigger] r[i].0,
            #[trigger] r[j].0,
        ) by {
            if i == 0 {
                assert(r[j] == rt[j - 1]);
                lemma_record_members(t, e, j - 1);
                if rt[j - 1].0 != e.0 {
                    let k = choose|k: int| 0 <= k < t.len() && t[k] == rt[j - 1];
                    assert(t[k] == s[k + 1]);
                    assert(str_less(s[0].0, s[k + 1].0));
                }
            } else {
                assert(r[i] == rt[i - 1] && r[j] == rt[j - 1]);
            }
        }
    }
}

/// Every entry after recording is `e` or an entry that was already there.
pub proof fn lemma_record_members(s: Seq<PhaseView>, e: PhaseView, k: int)
    requires
        0 <= k < record_spec(s, e).len(),
    ensures
        record_spec(s, e)[k] == e || exists|m: int| 0 <= m < s.len() && s[m] == record_spec(s, e)[k],
    decreases s.len(),
{
    if s.len() == 0 {
    } else if s[0].0 == e.0 {
        if k > 0 {
            assert(record_spec(s, e)[k] == s[k]);
        }
    } else if str_less(e.0, s[0].0) {
        if k > 0 {
            assert(record_spec(s, e)[k] == s[k - 1]);
        }
    } else {
        if k == 0 {
            assert(record_spec(s, e)[0] == s[0]);
        } else {
            lemma_record_members(s.drop_first(), e, k - 1);
            assert(record_spec(s, e)[k] == record_spec(s.drop_first(), e)[k - 1]);
            if record_spec(s, e)[k] != e {
                let m = choose|m: int|
                    0 <= m < s.drop_first().len() && s.drop_first()[m] == record_spec(
                        s.drop_first(),
                        e,
                    )[k - 1];
                assert(s[m + 1] == s.drop_first()[m]);
            }
        }
    }
}

/// A read after a write: once `e` is recorded its name looks up to its time, and every other
/// name looks up to what it did before.
pub proof fn lemma_lookup_after_record(s: Seq<PhaseView>, e: PhaseView, name: Seq<char>)
    ensures
        lookup(record_spec(s, e), name) == (if name == e.0 {
            Some(e.1)
        } else {
            lookup(s, name)
        }),
    decreases s.len(),
{
    let r = record_spec(s, e);
    reveal_with_fuel(lookup, 2);
    if s.len() == 0 {
        assert(r =~= seq![e]);
        assert(r.drop_first() =~= Seq::<PhaseView>::empty());
        assert(r[0] == e);
    } else if s[0].0 == e.0 {
        assert(r == seq![e] + s.drop_first());
        assert(r[0] == e);
        assert(r.drop_first() =~= s.drop_first());
    } else if str_less(e.0, s[0].0) {
        assert(r == seq![e] + s);
        assert(r[0] == e);
        assert(r.drop_first() =~= s);
    } else {
        lemma_lookup_after_record(s.drop_first(), e, name);
        assert(r == seq![s[0]] + record_spec(s.drop_first(), e));
        assert(r[0] == s[0]);
        assert(r.drop_first() =~= record_spec(s.drop_first(), e));
    }
}

/// A name ordering before every recorded name is not recorded.
proof fn lemma_lookup_before_first(s: Seq<PhaseView>, x: Seq<char>)
    requires
        names_increasing(s),
        s.len() > 0,
        str_less(x, s[0].0),
    ensures
        lookup(s, x) is None,
    decreases s.len(),
{
    lemma_str_less_order(x, s[0].0, s[0].0);
    let t = s.drop_first();
    assert(s[0].0 != x);
    assert(lookup(s, x) == lookup(t, x));
    if t.len() > 0 {
        assert(t[0] == s[1]);
        assert(str_less(s[0].0, s[1].0));
        lemma_str_less_order(x, s[0].0, s[1].0);
        assert(names_increasing(t)) by {
            assert forall|i: int, j: int| 0 <= i < j < t.len() implies str_less(#[trigger] t[i].0, #[trigger] t[j].0) by {
                assert(t[i] == s[i + 1] && t[j] == s[j + 1]);
            }
        }
        lemma_lookup_before_first(t, x);
    }
}

/// Recording a phase adds exactly one entry when its name is new, and none when the name was
/// already recorded.
pub proof fn law_record_length(s: Seq<PhaseView>, e: PhaseView)
    requires
        names_increasing(s),
    ensures
        record_spec(s, e).len() == s.len() + (if lookup(s, e.0) is Some { 0int } else { 1int }),
    decreases s.len(),
{
    if s.len() == 0 {
    } else if s[0].0 == e.0 {
    } else if str_less(e.0, s[0].0) {
        lemma_lookup_before_first(s, e.0);
    } else {
        let t = s.drop_first();
        assert(names_increasing(t)) by {
            assert forall|i: int, j: int| 0 <= i < j < t.len() implies str_less(#[trigger] t[i].0, #[trigger] t[j].0) by {
                assert(t[i] == s[i + 1] && t[j] == s[j + 1]);
            }
        }
        law_record_length(t, e);
    }
}

proof fn lemma_record_skips_prefix(s: Seq<PhaseView>, e: PhaseView, j: int)
    requires
        0 <= j <= s.len(),
        forall|k: int| 0 <= k < j ==> str_less(#[trigger] s[k].0, e.0),
    ensures
        record_spec(s, e) == s.subrange(0, j) + record_spec(s.subrange(j, s.len() as int), e),
    decreases j,
{
    if j == 0 {
        assert(s.subrange(0, 0) + record_spec(s.subrange(0, s.len() as int), e) =~= record_spec(
            s,
            e,
        )) by {
            assert(s.subrange(0, s.len() as int) =~= s);
        }
    } else {
        let t = s.drop_first();
        assert(str_less(s[0].0, e.0));
        lemma_str_less_order(s[0].0, e.0, e.0);
        assert(s[0].0 != e.0);
        assert(forall|k: int| 0 <= k < j - 1 ==> str_less(#[trigger] t[k].0, e.0)) by {
            assert forall|k: int| 0 <= k < j - 1 implies str_less(#[trigger] t[k].0, e.0) by {
                assert(t[k] == s[k + 1]);
            }
        }
        lemma_record_skips_prefix(t, e, j - 1);
        assert(t.subrange(j - 1, t.len() as int) =~= s.subrange(j, s.len() as int));
        assert(s.subrange(0, j) =~= seq![s[0]] + t.subrange(0, j - 1));
        assert(record_spec(s, e) =~= s.subrange(0, j) + record_spec(
            s.subrange(j, s.len() as int),
            e,
        ));
    }
}

/// Timings of one command run: each named phase (each name once, in name order), the total,
/// and the latency objective in milliseconds.
#[derive(Clone, Debug)]
pub struct PerformanceMetrics {
    pub phases: Vec<(String, Duration)>,
    pub total_duration: Duration,
    pub slo_threshold_ms: u64,
}

impl PerformanceMetrics {
    /// The phase list holds each name once, in name order.
    pub open spec fn wf(&self) -> bool {
        names_increasing(phases_view(self.phases@))
    }

    /// A tracker with no phases, a zero total and the given objective.
    pub fn new(slo_threshold_ms: u64) -> (r: PerformanceMetrics)
        ensures
            r.wf(),
            r.phases@.len() == 0,
            r.total_duration.nanos == 0,
            r.slo_threshold_ms == slo_threshold_ms,
    {
        PerformanceMetrics {
            phases: Vec::new(),
            total_duration: Duration::from_secs(0),
            slo_threshold_ms,
        }
    }

    /// Record `duration` for the phase `name`, replacing an earlier time for the same name.
    pub fn record_phase(&mut self, name: &str, duration: Duration)
        requires
            old(self).wf(),
        ensures
            final(self).wf(),
            phases_view(final(self).phases@) == record_spec(
                phases_view(old(self).phases@),
                (name@, duration.nanos),
            ),
            final(self).total_duration == old(self).total_duration,
            final(self).slo_threshold_ms == old(self).slo_threshold_ms,
    {
        let ghost s = phases_view(self.phases@);
        let ghost e: PhaseView = (name@, duration.nanos);
        let key = chars_of(name);
        let mut j: usize = 0;
        while j < self.phases.len() && chars_less(
            chars_of(self.phases[j].0.as_str()).as_slice(),
            key.as_slice(),
        )
            invariant
                j <= self.phases.len(),
                s == phases_view(self.phases@),
                key@ == name@,
                e == (name@, duration.nanos),
                forall|k: int| 0 <= k < j ==> str_less(#[trigger] s[k].0, e.0),
            decreases self.phases.len() - j,
        {
            assert(s[j as int] == (self.phases@[j as int].0@, self.phases@[j as int].1.nanos));
            j = j + 1;
        }
        proof {
            lemma_record_skips_prefix(s, e, j as int);
            lemma_record_keeps_order(s, e);
        }
        let ghost tail = s.subrange(j as int, s.len() as int);
        assert(j < s.len() ==> s[j as int] == (self.phases@[j as int].0@, self.phases@[j as int].1.nanos));
        if j < self.phases.len() && chars_eq(
            chars_of(self.phases[j].0.as_str()).as_slice(),
            key.as_slice(),
        ) {
            assert(tail[0] == s[j as int]);
            assert(record_spec(tail, e) == seq![e] + tail.drop_first());
            self.phases.set(j, (name.to_string(), duration));
            assert(phases_view(self.phases@) =~= s.subrange(0, j as int) + (seq![e]
                + tail.drop_first()));
        } else {
            proof {
                if j < s.len() {
                    assert(tail[0] == s[j as int]);
                    lemma_str_less_order(s[j as int].0, e.0, e.0);
                    assert(record_spec(tail, e) == seq![e] + tail);
                } else {
                    assert(tail =~= Seq::<PhaseView>::empty());
                    assert(record_spec(tail, e) =~= seq![e] + tail);
                }
            }
            self.phases.insert(j, (name.to_string(), duration));
            assert(phases_view(self.phases@) =~= s.subrange(0, j as int) + (seq![e] + tail));
        }
    }

    /// Record the whole run's time.
    pub fn set_total(&mut self, duration: Duration)
        ensures
            final(self).total_duration == duration,
            final(self).phases@ == old(self).phases@,
            final(self).slo_threshold_ms == old(self).slo_threshold_ms,
    {
        self.total_duration = duration;
    }

    /// Whether the total, in whole milliseconds taken as a `u64`, is over the objective.
    pub fn exceeds_slo(&self) -> (r: bool)
        ensures
            r == ((self.total_duration.nanos / 1_000_000) as u64 > self.slo_threshold_ms),
    {
        (self.total_duration.as_millis() as u64) > self.slo_threshold_ms
    }

    /// The report, given the total already written in seconds with two decimals: the
    /// `Uendeshaji` line, each phase in name order with its whole milliseconds, and a warning
    /// line when the objective is exceeded.
    pub fn report(&self, total_seconds: &str) -> (r: String)
        ensures
            r@ == report_spec(
                phases_view(self.phases@),
                total_seconds@,
                (self.total_duration.nanos / 1_000_000) as u64 > self.slo_threshold_ms,
                self.slo_threshold_ms,
            ),
    {
        let mut out = chars_of("Uendeshaji: ");
        push_all(&mut out, chars_of(total_seconds).as_slice());
        out.push('s');
        let ghost s = phases_view(self.phases@);
        if self.phases.len() > 0 {
            push_all(&mut out, chars_of("\n\nAwamu:\n").as_slice());
            let ghost head = out@;
            let mut i: usize = 0;
            while i < self.phases.len()
                invariant
                    i <= self.phases.len(),
                    s == phases_view(self.phases@),
                    out@ == head + phase_lines(s.subrange(0, i as int)),
                decreases self.phases.len() - i,
            {
                let ghost before = out@;
                push_all(&mut out, chars_of("  ").as_slice());
                push_all(&mut out, chars_of(self.phases[i].0.as_str()).as_slice());
                push_all(&mut out, chars_of(": ").as_slice());
                let ms = self.phases[i].1.as_millis();
                push_all(&mut out, decimal_chars(ms).as_slice());
                push_all(&mut out, chars_of("ms\n").as_slice());
                proof {
                    assert(s.subrange(0, i + 1).drop_last() =~= s.subrange(0, i as int));
                    assert(out@ =~= before + phase_line(s[i as int]));
                }
                i = i + 1;
            }
            assert(s.subrange(0, s.len() as int) =~= s);
        }
        if self.exceeds_slo() {
            push_all(&mut out, chars_of("\nOnyo: Kuzidi SLO (").as_slice());
            push_all(&mut out, decimal_chars(self.slo_threshold_ms as u128).as_slice());
            push_all(&mut out, chars_of(" ms)\n").as_slice());
        }
        string_of(out.as_slice())
    }
}

/// One report line for a phase.
pub open spec fn phase_line(e: PhaseView) -> Seq<char> {
    "  "@ + e.0 + ": "@ + decimal_text((e.1 / 1_000_000) as nat) + "ms\n"@
}

/// The report lines for a list of phases.
pub open spec fn phase_lines(s: Seq<PhaseView>) -> Seq<char>
    decreases s.len(),
{
    if s.len() == 0 {
        Seq::empty()
    } else {
        phase_lines(s.drop_last()) + phase_line(s.last())
    }
}

/// The whole report.
pub open spec fn report_spec(
    phases: Seq<PhaseView>,
    total_seconds: Seq<char>,
    exceeded: bool,
    slo_ms: u64,
) -> Seq<char> {
    "Uendeshaji: "@ + total_seconds + seq!['s'] + (if phases.len() > 0 {
        "\n\nAwamu:\n"@ + phase_lines(phases)
    } else {
        Seq::empty()
    }) + (if exceeded {
        "\nOnyo: Kuzidi SLO ("@ + decimal_text(slo_ms as nat) + " ms)\n"@
    } else {
        Seq::empty()
    })
}

/// The clock's reading at one moment.
#[verifier::external_type_specification]
#[verifier::external_body]
pub struct ExInstant(std::time::Instant);

/// `Instant::now`: the current reading of the monotonic clock; nothing is stated of it.
#[verifier::external_body]
fn clock_now() -> std::time::Instant {
    std::time::Instant::now()
}

/// `Instant::elapsed`: the time since `start`, by the clock; nothing is stated of it.
#[verifier::external_body]
fn clock_elapsed(start: &std::time::Instant) -> Duration {
    Duration { nanos: start.elapsed().as_nanos() }
}

/// A timer for one named phase, started when it is made.
pub struct ScopedTimer {
    name: String,
    start: std::time::Instant,
}

impl ScopedTimer {
    /// The phase name.
    pub closed spec fn phase_name(&self) -> Seq<char> {
        self.name@
    }

    /// Start timing the phase `name`.
    pub fn new(name: &str) -> (r: ScopedTimer)
        ensures
            r.phase_name() == name@,
    {
        ScopedTimer { name: name.to_string(), start: clock_now() }
    }

    /// Time since the timer was made (read from the clock).
    pub fn elapsed(&self) -> Duration {
        clock_elapsed(&self.start)
    }

    pub fn name(&self) -> (r: &str)
        ensures
            r@ == self.phase_name(),
    {
        self.name.as_str()
    }
}

} // verus!
