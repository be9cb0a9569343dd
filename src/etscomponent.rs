//! The measurement components: energy, transfer and storage.

use vstd::prelude::*;

use crate::decimal::{
    all_digits, decimal, digit_of, digits_value, is_digit, is_u64_text, lemma_pow10_small,
    parse_u64, pow10, push_decimal, unsigned_digits,
};
use crate::service::Service;
use crate::system_call::string_views;

verus! {

broadcast use vstd::string::group_string_axioms;

/// The hooks shared by every measurement component.
pub trait ETSComponent {
    /// The fewest repetitions of a test for the component's measure to mean
    /// something.
    spec fn spec_min_iteration(&self) -> int;

    fn min_iteration(&self) -> (r: i32)
        ensures
            r as int == self.spec_min_iteration(),
    ;
}

/// A component whose measure is a count of bytes.
pub trait OctetsComponent: ETSComponent {
    /// The bytes measured for the last test.
    spec fn spec_octets(&self) -> nat;

    fn to_octets(&self) -> (r: u64)
        ensures
            r as nat == self.spec_octets(),
    ;
}

/// `s` capped at the largest `u64`.
pub open spec fn capped(s: nat) -> nat {
    if s <= u64::MAX {
        s
    } else {
        u64::MAX as nat
    }
}

pub open spec fn seq_sum(s: Seq<u64>) -> nat
    decreases s.len(),
{
    if s.len() == 0 {
        0
    } else {
        seq_sum(s.drop_last()) + s.last() as nat
    }
}

/// The sum of `s`, capped at the largest `u64`.
pub fn capped_sum(s: &Vec<u64>) -> (r: u64)
    ensures
        r as nat == capped(seq_sum(s@)),
{
    let mut acc: u64 = 0;
    let mut i: usize = 0;
    while i < s.len()
        invariant
            i <= s@.len(),
            acc as nat == capped(seq_sum(s@.subrange(0, i as int))),
        decreases s.len() - i,
    {
        assert(s@.subrange(0, i + 1).drop_last() =~= s@.subrange(0, i as int));
        acc = acc.saturating_add(s[i]);
        i = i + 1;
    }
    assert(s@.subrange(0, s@.len() as int) =~= s@);
    acc
}

// ---------------------------------------------------------------- lifecycle
/// Where a component stands in a campaign.
#[derive(PartialEq, Eq, Structural, Clone, Copy, Debug)]
pub enum Stage {
    /// Before `before_campaign`.
    Uninitialized,
    /// After `before_campaign`, before any test.
    Prepared,
    /// Between `before_test` and `after_test`.
    Armed,
    /// After `after_test`.
    Measured,
    /// After `after_campaign`.
    Released,
}

/// A test can be measured from here: the campaign is prepared and no test is
/// under measure.
pub open spec fn can_arm(stage: Stage) -> bool {
    stage == Stage::Prepared || stage == Stage::Measured
}

/// Why a component refused a call.
#[derive(PartialEq, Eq, Structural, Clone, Copy, Debug)]
pub enum ComponentError {
    /// `before_test` came before `before_campaign`, after `after_campaign`,
    /// or while a test was already under measure.
    NotPrepared,
    /// A call that belongs to a test under measure came while none was.
    NotArmed,
    /// The readings at the end of a test are not as many as at its start.
    ReadingsMismatch,
}

// ---------------------------------------------------------------- energy
/// The energy measure. The host reads, for each service with a process name
/// and in the order of the services, the cumulative energy counter of its
/// processes in microjoules; the component keeps the readings at the start
/// of a test and turns them into what each service consumed during it.
pub struct EComponent {
    values: Vec<u64>,
    stage: Stage,
    need_stop: bool,
}

/// What each counter grew by between two readings; a counter that went back
/// counts as no consumption.
pub open spec fn deltas(start: Seq<u64>, end: Seq<u64>) -> Seq<u64> {
    Seq::new(
        end.len(),
        |k: int|
            if end[k] >= start[k] {
                (end[k] - start[k]) as u64
            } else {
                0u64
            },
    )
}

impl EComponent {
    /// The per-service values: readings while a test runs, consumptions once
    /// it is over.
    pub closed spec fn spec_values(&self) -> Seq<u64> {
        self.values@
    }

    pub closed spec fn spec_stage(&self) -> Stage {
        self.stage
    }

    /// Whether the accounting service was started by this component.
    pub closed spec fn spec_need_stop(&self) -> bool {
        self.need_stop
    }

    pub fn new() -> (r: Self)
        ensures
            r.spec_values() == Seq::<u64>::empty(),
            r.spec_stage() == Stage::Uninitialized,
            !r.spec_need_stop(),
    {
        EComponent { values: Vec::new(), stage: Stage::Uninitialized, need_stop: false }
    }

    /// Prepares the campaign, and records whether the accounting service was
    /// already running when it began; if it was not, the host starts it and
    /// this component owes it a stop at the end.
    pub fn before_campaign(&mut self, service_active: bool)
        ensures
            final(self).spec_stage() == Stage::Prepared,
            final(self).spec_need_stop() == !service_active,
            final(self).spec_values() == old(self).spec_values(),
    {
        self.need_stop = !service_active;
        self.stage = Stage::Prepared;
    }

    /// Ends the campaign; the result says whether the host must stop the
    /// accounting service.
    pub fn after_campaign(&mut self) -> (r: bool)
        ensures
            r == old(self).spec_need_stop(),
            final(self).spec_stage() == Stage::Released,
            final(self).spec_need_stop() == old(self).spec_need_stop(),
            final(self).spec_values() == old(self).spec_values(),
    {
        self.stage = Stage::Released;
        self.need_stop
    }

    /// Keeps the counters read as a test begins. Refused unless the campaign
    /// is prepared and no test is under measure.
    pub fn before_test(&mut self, readings: Vec<u64>) -> (r: Result<(), ComponentError>)
        ensures
            can_arm(old(self).spec_stage()) ==> r is Ok && final(self).spec_values() == readings@
                && final(self).spec_stage() == Stage::Armed && final(self).spec_need_stop()
                == old(self).spec_need_stop(),
            !can_arm(old(self).spec_stage()) ==> r == Err::<(), ComponentError>(
                ComponentError::NotPrepared,
            ) && *final(self) == *old(self),
    {
        if self.stage != Stage::Prepared && self.stage != Stage::Measured {
            return Err(ComponentError::NotPrepared);
        }
        self.values = readings;
        self.stage = Stage::Armed;
        Ok(())
    }

    /// Turns the counters read as a test ends into the consumption of each
    /// service during the test.
    pub fn after_test(&mut self, readings: &Vec<u64>) -> (r: Result<(), ComponentError>)
        ensures
            old(self).spec_stage() != Stage::Armed ==> r == Err::<(), ComponentError>(
                ComponentError::NotArmed,
            ) && *final(self) == *old(self),
            old(self).spec_stage() == Stage::Armed && readings@.len() != old(
                self,
            ).spec_values().len() ==> r == Err::<(), ComponentError>(
                ComponentError::ReadingsMismatch,
            ) && *final(self) == *old(self),
            old(self).spec_stage() == Stage::Armed && readings@.len() == old(
                self,
            ).spec_values().len() ==> r is Ok && final(self).spec_values() == deltas(
                old(self).spec_values(),
                readings@,
            ) && final(self).spec_stage() == Stage::Measured && final(self).spec_need_stop()
                == old(self).spec_need_stop(),
    {
        if self.stage != Stage::Armed {
            return Err(ComponentError::NotArmed);
        }
        if readings.len() != self.values.len() {
            return Err(ComponentError::ReadingsMismatch);
        }
        let ghost start = self.values@;
        let mut k: usize = 0;
        while k < readings.len()
            invariant
                readings@.len() == start.len(),
                self.values@.len() == start.len(),
                self.need_stop == old(self).need_stop,
                k <= start.len(),
                forall|m: int| 0 <= m < k ==> #[trigger] self.values@[m] == deltas(start, readings@)[m],
                forall|m: int| k <= m < start.len() ==> #[trigger] self.values@[m] == start[m],
            decreases start.len() - k,
        {
            let d = readings[k].saturating_sub(self.values[k]);
            self.values.set(k, d);
            k = k + 1;
        }
        assert(self.values@ =~= deltas(start, readings@));
        self.stage = Stage::Measured;
        Ok(())
    }

    /// The energy consumed by the services during the last measured test, in
    /// microjoules, capped at the largest `u64`; nothing while a test is
    /// under measure.
    pub fn value(&self) -> (r: u64)
        ensures
            self.spec_stage() == Stage::Armed ==> r == 0,
            self.spec_stage() != Stage::Armed ==> r as nat == capped(seq_sum(self.spec_values())),
    {
        if self.stage == Stage::Armed {
            return 0;
        }
        capped_sum(&self.values)
    }
}

/// The microjoules in a joule.
pub const MICROJOULES_PER_JOULE: u64 = 1_000_000;

/// The first six digits of a fraction, padded with zeros: its microunits.
pub open spec fn six_digits(f: Seq<char>) -> Seq<char> {
    if f.len() >= 6 {
        f.subrange(0, 6)
    } else {
        f + Seq::new((6 - f.len()) as nat, |i: int| '0')
    }
}

/// The text of a counter without its line end.
pub open spec fn reading_body(s: Seq<char>) -> Seq<char> {
    if s.len() > 0 && s.last() == '\n' {
        s.drop_last()
    } else {
        s
    }
}

/// A counter's text read as microjoules: a whole number of joules as
/// `u64::from_str` reads it, optionally followed by `.` and decimal digits,
/// of which the first six count.
pub open spec fn reading_value(b: Seq<char>) -> Option<nat> {
    if b.contains('.') {
        let k = choose|k: int| 0 <= k < b.len() && b[k] == '.';
        let whole = b.subrange(0, k);
        let frac = b.subrange(k + 1, b.len() as int);
        if is_u64_text(whole) && all_digits(frac) {
            Some(
                digits_value(unsigned_digits(whole)) * (MICROJOULES_PER_JOULE as nat) + digits_value(
                    six_digits(frac),
                ),
            )
        } else {
            None
        }
    } else if is_u64_text(b) {
        Some(digits_value(unsigned_digits(b)) * (MICROJOULES_PER_JOULE as nat))
    } else {
        None
    }
}

proof fn lemma_six_digits(f: Seq<char>)
    requires
        all_digits(f),
    ensures
        all_digits(six_digits(f)),
        six_digits(f).len() == 6,
{
}

impl EComponent {
    /// Reads the text of an energy counter, as the accounting service writes
    /// it: joules with a decimal fraction, and a line end. Gives nothing for
    /// a text of another shape or a value beyond the largest `u64`.
    pub fn parse_reading(text: &str) -> (r: Option<u64>)
        ensures
            r matches Some(v) ==> reading_value(reading_body(text@)) == Some(v as nat),
            r is None ==> match reading_value(reading_body(text@)) {
                Some(v) => v > u64::MAX,
                None => true,
            },
    {
        let ghost b = reading_body(text@);
        let mut n = text.unicode_len();
        if n > 0 && text.get_char(n - 1) == '\n' {
            n = n - 1;
        }
        assert(b =~= text@.subrange(0, n as int));
        let mut k: usize = 0;
        while k < n && text.get_char(k) != '.'
            invariant
                k <= n <= text@.len(),
                b == reading_body(text@),
                b =~= text@.subrange(0, n as int),
                forall|i: int| 0 <= i < k ==> #[trigger] b[i] != '.',
            decreases n - k,
        {
            k = k + 1;
        }
        if k == n {
            assert(!b.contains('.'));
            let whole = match parse_u64(text.substring_char(0, n)) {
                Some(w) => w,
                None => {
                    return None;
                },
            };
            return whole.checked_mul(MICROJOULES_PER_JOULE);
        }
        assert(b[k as int] == '.');
        let whole = match parse_u64(text.substring_char(0, k)) {
            Some(w) => w,
            None => {
                proof {
                    let c = choose|c: int| 0 <= c < b.len() && b[c] == '.';
                    if c != k {
                        assert(c > k);
                        let w = b.subrange(0, c);
                        assert(w[k as int] == '.');
                        let d = unsigned_digits(w);
                        if w.len() > 0 && w[0] == '+' {
                            assert(d[k - 1] == '.');
                        } else {
                            assert(d[k as int] == '.');
                        }
                    } else {
                        assert(b.subrange(0, c) =~= text@.subrange(0, k as int));
                    }
                }
                return None;
            },
        };
        let ghost frac = b.subrange(k + 1, n as int);
        assert(b.contains('.'));
        let mut j: usize = k + 1;
        while j < n
            invariant
                k < j <= n <= text@.len(),
                b == reading_body(text@),
                b =~= text@.subrange(0, n as int),
                b[k as int] == '.',
                forall|i: int| 0 <= i < k ==> #[trigger] b[i] != '.',
                frac == b.subrange(k + 1, n as int),
                forall|i: int| k + 1 <= i < j ==> is_digit(#[trigger] b[i]),
            decreases n - j,
        {
            let c = text.get_char(j);
            if c < '0' || c > '9' {
                proof {
                    let c0 = choose|c0: int| 0 <= c0 < b.len() && b[c0] == '.';
                    if c0 == k {
                        assert(frac[j - k - 1] == b[j as int]);
                        assert(!is_digit(frac[j - k - 1]));
                        assert(!all_digits(b.subrange(c0 + 1, b.len() as int)));
                    } else if c0 < k {
                        assert(false);
                    } else {
                        let w = b.subrange(0, c0);
                        assert(w[k as int] == '.');
                        let d = unsigned_digits(w);
                        if w.len() > 0 && w[0] == '+' {
                            assert(d[k - 1] == '.');
                        } else {
                            assert(d[k as int] == '.');
                        }
                        assert(!is_u64_text(w));
                    }
                    assert(reading_value(b) is None);
                }
                return None;
            }
            j = j + 1;
        }
        assert(all_digits(frac));
        proof {
            let c0 = choose|c0: int| 0 <= c0 < b.len() && b[c0] == '.';
            assert(c0 == k) by {
                if c0 > k {
                    assert(is_digit(b[c0]));
                }
            }
            assert(b.subrange(0, k as int) =~= text@.subrange(0, k as int));
            lemma_six_digits(frac);
        }
        let ghost six = six_digits(frac);
        let mut f: u64 = 0;
        let mut m: usize = 0;
        while m < 6
            invariant
                k < n <= text@.len(),
                b == reading_body(text@),
                b =~= text@.subrange(0, n as int),
                frac == b.subrange(k + 1, n as int),
                all_digits(frac),
                six == six_digits(frac),
                six.len() == 6,
                all_digits(six),
                m <= 6,
                f as nat == digits_value(six.subrange(0, m as int)),
                f < 1_000_000,
                f + 1 <= pow10(m as nat),
            decreases 6 - m,
        {
            let d: u64 = if m < n - k - 1 {
                let c = text.get_char(k + 1 + m);
                assert(six[m as int] == c);
                (c as u32 - '0' as u32) as u64
            } else {
                assert(six[m as int] == '0');
                0
            };
            assert(digit_of(six[m as int]) == d);
            assert(six.subrange(0, m + 1).drop_last() =~= six.subrange(0, m as int));
            assert(f * 10 + d + 1 <= pow10((m + 1) as nat)) by (nonlinear_arith)
                requires
                    f + 1 <= pow10(m as nat),
                    d <= 9,
                    pow10((m + 1) as nat) == pow10(m as nat) * 10,
            ;
            f = f * 10 + d;
            m = m + 1;
            assert(f < 1_000_000) by {
                assert(pow10(m as nat) <= 1_000_000) by {
                    lemma_pow10_small(m as nat);
                }
            }
        }
        assert(six.subrange(0, 6) =~= six);
        match whole.checked_mul(MICROJOULES_PER_JOULE) {
            Some(w) => w.checked_add(f),
            None => {
                assert(whole * MICROJOULES_PER_JOULE + f > u64::MAX);
                None
            },
        }
    }
}

impl ETSComponent for EComponent {
    open spec fn spec_min_iteration(&self) -> int {
        1
    }

    fn min_iteration(&self) -> (r: i32) {
        1
    }
}

// ---------------------------------------------------------------- transfer
/// The ports of all services, service after service.
pub open spec fn all_ports(services: Seq<Service>) -> Seq<u32>
    decreases services.len(),
{
    if services.len() == 0 {
        Seq::empty()
    } else {
        all_ports(services.drop_last()) + services.last().ports@
    }
}

/// `port a or port b or ...` for the ports `ps`, in order.
pub open spec fn port_clauses(ps: Seq<u32>) -> Seq<char>
    decreases ps.len(),
{
    if ps.len() == 0 {
        Seq::empty()
    } else if ps.len() == 1 {
        "port "@ + decimal(ps[0] as nat)
    } else {
        port_clauses(ps.drop_last()) + " or port "@ + decimal(ps.last() as nat)
    }
}

/// The capture filter for the traffic of all services: local traffic on any
/// of their ports.
pub open spec fn capture_filter_of(services: Seq<Service>) -> Seq<char> {
    "host 127.0.0.1 and ("@ + port_clauses(all_ports(services)) + ")"@
}

/// The capture filter for the traffic on the ports of every service, whichever
/// test runs.
pub fn capture_filter(services: &Vec<Service>) -> (r: String)
    ensures
        r@ == capture_filter_of(services@),
{
    let mut clauses = String::new();
    let ghost mut done: Seq<u32> = Seq::empty();
    let mut i: usize = 0;
    while i < services.len()
        invariant
            i <= services@.len(),
            done == all_ports(services@.subrange(0, i as int)),
            clauses@ == port_clauses(done),
        decreases services.len() - i,
    {
        let ports = &services[i].ports;
        let mut j: usize = 0;
        while j < ports.len()
            invariant
                ports == services@[i as int].ports,
                j <= ports@.len(),
                done == all_ports(services@.subrange(0, i as int)) + ports@.subrange(0, j as int),
                clauses@ == port_clauses(done),
            decreases ports.len() - j,
        {
            let ghost prev = done;
            if j > 0 || clauses.unicode_len() > 0 {
                assert(prev.len() > 0) by {
                    if prev.len() == 0 {
                        assert(j == 0);
                    }
                }
                clauses.append(" or port ");
            } else {
                assert(prev.len() == 0) by {
                    if prev.len() > 0 {
                        assert(port_clauses(prev).len() > 0) by {
                            lemma_port_clauses_nonempty(prev);
                        }
                    }
                }
                clauses.append("port ");
            }
            push_decimal(&mut clauses, ports[j]);
            proof {
                done = prev.push(ports@[j as int]);
                assert(done.drop_last() =~= prev);
                assert(ports@.subrange(0, j + 1) =~= ports@.subrange(0, j as int).push(ports@[j as int]));
                assert(done =~= all_ports(services@.subrange(0, i as int)) + ports@.subrange(0, j + 1));
                if prev.len() == 0 {
                    assert(done =~= seq![ports@[j as int]]);
                }
            }
            j = j + 1;
        }
        proof {
            let next = services@.subrange(0, i + 1);
            assert(next.drop_last() =~= services@.subrange(0, i as int));
            assert(ports@.subrange(0, ports@.len() as int) =~= ports@);
        }
        i = i + 1;
    }
    assert(services@.subrange(0, services@.len() as int) =~= services@);
    let mut r = String::new();
    r.append("host 127.0.0.1 and (");
    r.append(clauses.as_str());
    r.append(")");
    r
}

proof fn lemma_port_clauses_nonempty(ps: Seq<u32>)
    requires
        ps.len() > 0,
    ensures
        port_clauses(ps).len() > 0,
{
    reveal_strlit("port ");
    reveal_strlit(" or port ");
}

/// The transfer measure: the bytes of the frames captured during a test.
pub struct TComponent {
    value: u64,
    stage: Stage,
}

impl TComponent {
    pub closed spec fn spec_stage(&self) -> Stage {
        self.stage
    }

    pub fn new() -> (r: Self)
        ensures
            r.spec_octets() == 0,
            r.spec_stage() == Stage::Uninitialized,
    {
        TComponent { value: 0, stage: Stage::Uninitialized }
    }

    pub fn before_campaign(&mut self)
        ensures
            final(self).spec_stage() == Stage::Prepared,
            final(self).spec_octets() == old(self).spec_octets(),
    {
        self.stage = Stage::Prepared;
    }

    pub fn after_campaign(&mut self)
        ensures
            final(self).spec_stage() == Stage::Released,
            final(self).spec_octets() == old(self).spec_octets(),
    {
        self.stage = Stage::Released;
    }

    /// Starts the measure of a test: the count goes back to zero, and the
    /// result is the filter under which the host captures. Refused unless the
    /// campaign is prepared and no test is under measure.
    pub fn before_test(&mut self, services: &Vec<Service>) -> (r: Result<String, ComponentError>)
        ensures
            can_arm(old(self).spec_stage()) ==> (r matches Ok(filter) && filter@ == capture_filter_of(
                services@,
            )) && final(self).spec_octets() == 0 && final(self).spec_stage() == Stage::Armed,
            !can_arm(old(self).spec_stage()) ==> (r matches Err(e) && e == ComponentError::NotPrepared)
                && *final(self) == *old(self),
    {
        if self.stage != Stage::Prepared && self.stage != Stage::Measured {
            return Err(ComponentError::NotPrepared);
        }
        self.value = 0;
        self.stage = Stage::Armed;
        Ok(capture_filter(services))
    }

    /// Counts one captured frame of the test under measure from the text of
    /// its length; a text that is not a number counts as nothing. The count
    /// stops at the largest `u64`. Refused when no test is under measure.
    pub fn add_frame_len(&mut self, frame_len: &str) -> (r: Result<(), ComponentError>)
        ensures
            old(self).spec_stage() == Stage::Armed ==> r is Ok && final(self).spec_stage()
                == Stage::Armed && final(self).spec_octets() == capped(
                old(self).spec_octets() + if is_u64_text(frame_len@) {
                    digits_value(unsigned_digits(frame_len@))
                } else {
                    0
                },
            ),
            old(self).spec_stage() != Stage::Armed ==> r == Err::<(), ComponentError>(
                ComponentError::NotArmed,
            ) && *final(self) == *old(self),
    {
        if self.stage != Stage::Armed {
            return Err(ComponentError::NotArmed);
        }
        let n = match parse_u64(frame_len) {
            Some(v) => v,
            None => 0,
        };
        self.value = self.value.saturating_add(n);
        Ok(())
    }

    /// Ends the measure of a test, once its frames are counted.
    pub fn after_test(&mut self) -> (r: Result<(), ComponentError>)
        ensures
            old(self).spec_stage() == Stage::Armed ==> r is Ok && final(self).spec_stage()
                == Stage::Measured && final(self).spec_octets() == old(self).spec_octets(),
            old(self).spec_stage() != Stage::Armed ==> r == Err::<(), ComponentError>(
                ComponentError::NotArmed,
            ) && *final(self) == *old(self),
    {
        if self.stage != Stage::Armed {
            return Err(ComponentError::NotArmed);
        }
        self.stage = Stage::Measured;
        Ok(())
    }
}

impl ETSComponent for TComponent {
    open spec fn spec_min_iteration(&self) -> int {
        1
    }

    fn min_iteration(&self) -> (r: i32) {
        1
    }
}

impl OctetsComponent for TComponent {
    closed spec fn spec_octets(&self) -> nat {
        self.value as nat
    }

    fn to_octets(&self) -> (r: u64) {
        self.value
    }
}

// ---------------------------------------------------------------- storage
/// The sum of the sizes that could be read.
pub open spec fn present_sum(sizes: Seq<Option<u64>>) -> nat
    decreases sizes.len(),
{
    if sizes.len() == 0 {
        0
    } else {
        present_sum(sizes.drop_last()) + match sizes.last() {
            Some(v) => v as nat,
            None => 0,
        }
    }
}

/// Every storage path, service after service, each service's in its order.
pub open spec fn all_storage_paths(services: Seq<Service>) -> Seq<Seq<char>>
    decreases services.len(),
{
    if services.len() == 0 {
        Seq::empty()
    } else {
        all_storage_paths(services.drop_last()) + string_views(services.last().storage_paths@)
    }
}

/// Every storage path of the services, in order.
pub fn storage_paths(services: &Vec<Service>) -> (r: Vec<String>)
    ensures
        string_views(r@) == all_storage_paths(services@),
{
    let mut out: Vec<String> = Vec::new();
    let mut i: usize = 0;
    while i < services.len()
        invariant
            i <= services@.len(),
            string_views(out@) == all_storage_paths(services@.subrange(0, i as int)),
        decreases services.len() - i,
    {
        let paths = &services[i].storage_paths;
        let ghost before = string_views(out@);
        assert(out@.len() == before.len());
        let mut j: usize = 0;
        while j < paths.len()
            invariant
                i < services@.len(),
                paths == services@[i as int].storage_paths,
                j <= paths@.len(),
                out@.len() == before.len() + j,
                string_views(out@) =~= before + string_views(paths@).subrange(0, j as int),
            decreases paths.len() - j,
        {
            let p = paths[j].clone();
            let ghost prev = out@;
            out.push(p);
            assert(string_views(out@) =~= string_views(prev).push(p@));
            j = j + 1;
        }
        assert(string_views(paths@).subrange(0, paths@.len() as int) =~= string_views(paths@));
        assert(services@.subrange(0, i + 1).drop_last() =~= services@.subrange(0, i as int));
        i = i + 1;
    }
    assert(services@.subrange(0, services@.len() as int) =~= services@);
    out
}

/// The storage measure from the sizes of the paths: a path whose size could
/// not be read counts as nothing, and the total stops at the largest `u64`.
pub fn storage_total(sizes: &Vec<Option<u64>>) -> (r: u64)
    ensures
        r as nat == capped(present_sum(sizes@)),
{
    let mut acc: u64 = 0;
    let mut i: usize = 0;
    while i < sizes.len()
        invariant
            i <= sizes@.len(),
            acc as nat == capped(present_sum(sizes@.subrange(0, i as int))),
        decreases sizes.len() - i,
    {
        assert(sizes@.subrange(0, i + 1).drop_last() =~= sizes@.subrange(0, i as int));
        match sizes[i] {
            Some(v) => {
                acc = acc.saturating_add(v);
            },
            None => {},
        }
        i = i + 1;
    }
    assert(sizes@.subrange(0, sizes@.len() as int) =~= sizes@);
    acc
}

pub open spec fn size_of(s: Option<u64>) -> nat {
    match s {
        Some(v) => v as nat,
        None => 0,
    }
}

/// The sum of sizes splits over a concatenation.
pub proof fn lemma_present_sum_concat(a: Seq<Option<u64>>, b: Seq<Option<u64>>)
    ensures
        present_sum(a + b) == present_sum(a) + present_sum(b),
    decreases b.len(),
{
    if b.len() > 0 {
        lemma_present_sum_concat(a, b.drop_last());
        assert((a + b).drop_last() =~= a + b.drop_last());
    } else {
        assert(a + b =~= a);
    }
}

/// The storage measure follows the disk: when one path's size goes from what
/// `before` read to what `after` reads, everything else alike, the sum moves
/// by the difference (and stays exact while it fits in a `u64`).
pub proof fn law_storage_path_resized(before: Seq<Option<u64>>, after: Seq<Option<u64>>, i: int)
    requires
        before.len() == after.len(),
        0 <= i < before.len(),
        forall|k: int| 0 <= k < before.len() && k != i ==> #[trigger] before[k] == after[k],
    ensures
        present_sum(after) + size_of(before[i]) == present_sum(before) + size_of(after[i]),
{
    let n = before.len() as int;
    lemma_present_sum_concat(before.subrange(0, i), before.subrange(i, n));
    lemma_present_sum_concat(after.subrange(0, i), after.subrange(i, n));
    lemma_present_sum_concat(seq![before[i]], before.subrange(i + 1, n));
    lemma_present_sum_concat(seq![after[i]], after.subrange(i + 1, n));
    assert(before.subrange(0, i) =~= after.subrange(0, i));
    assert(before.subrange(i + 1, n) =~= after.subrange(i + 1, n));
    assert(before =~= before.subrange(0, i) + before.subrange(i, n));
    assert(after =~= after.subrange(0, i) + after.subrange(i, n));
    assert(before.subrange(i, n) =~= seq![before[i]] + before.subrange(i + 1, n));
    assert(after.subrange(i, n) =~= seq![after[i]] + after.subrange(i + 1, n));
    assert(seq![before[i]].drop_last() =~= Seq::<Option<u64>>::empty());
    assert(seq![after[i]].drop_last() =~= Seq::<Option<u64>>::empty());
}

/// A storage path added at any place adds its size to the sum read next,
/// and nothing to sums read before.
pub proof fn law_storage_path_added(sizes: Seq<Option<u64>>, i: int, added: Option<u64>)
    requires
        0 <= i <= sizes.len(),
    ensures
        present_sum(sizes.insert(i, added)) == present_sum(sizes) + size_of(added),
{
    let n = sizes.len() as int;
    lemma_present_sum_concat(sizes.subrange(0, i), sizes.subrange(i, n));
    lemma_present_sum_concat(sizes.subrange(0, i), seq![added] + sizes.subrange(i, n));
    lemma_present_sum_concat(seq![added], sizes.subrange(i, n));
    assert(sizes =~= sizes.subrange(0, i) + sizes.subrange(i, n));
    assert(sizes.insert(i, added) =~= sizes.subrange(0, i) + (seq![added] + sizes.subrange(i, n)));
    assert(seq![added].drop_last() =~= Seq::<Option<u64>>::empty());
    reveal_with_fuel(present_sum, 2);
    assert(present_sum(seq![added]) == size_of(added));
}

/// Relies on fs_extra's `dir::get_size`: the bytes of a file, or of all files
/// under a directory, or an error when the path cannot be read. The result
/// depends on the disk at the time of the call.
#[verifier::external_body]
fn path_size(path: &String) -> (r: Option<u64>) {
    fs_extra::dir::get_size(path).ok()
}

/// The storage measure: the bytes on disk under the storage paths of the
/// services, read afresh at each call.
pub struct SComponent {}

impl SComponent {
    pub fn new() -> (r: Self) {
        SComponent {  }
    }

    /// The bytes under every storage path of every service, as the disk holds
    /// them now: fs_extra is asked for the size of each path of
    /// `storage_paths(services)`, in order, and the sizes are summed by
    /// `storage_total`.
    pub fn to_octets(&self, services: &Vec<Service>) -> (r: u64)
        ensures
            exists|sizes: Seq<Option<u64>>|
                sizes.len() == all_storage_paths(services@).len() && r as nat == capped(
                    #[trigger] present_sum(sizes),
                ),
    {
        let paths = storage_paths(services);
        let mut sizes: Vec<Option<u64>> = Vec::new();
        let mut j: usize = 0;
        while j < paths.len()
            invariant
                j <= paths@.len(),
                sizes@.len() == j,
            decreases paths.len() - j,
        {
            sizes.push(path_size(&paths[j]));
            j = j + 1;
        }
        storage_total(&sizes)
    }
}

impl ETSComponent for SComponent {
    open spec fn spec_min_iteration(&self) -> int {
        1
    }

    fn min_iteration(&self) -> (r: i32) {
        1
    }
}

} // verus!
