//! Which parts of a file are read to measure its entropy, and how the readings
//! are combined.
//!
//! An entropy is held as the bits of the non-negative floating-point number of
//! bits per byte: such numbers are ordered as the integers of their bits are.

use vstd::prelude::*;

use crate::clock::{is_reading, system_time, NANOS_PER_SEC};

verus! {

/// How many points in a file to sample for entropy.
pub const PROBE_COUNT: usize = 5;

/// The seed that stands in for the time while the clock has none to give.
pub const FALLBACK_SEED: u64 = 0x243F_6A88_85A3_08D3;

/// A tiny xorshift64 generator, used only to pick sampling offsets.
pub struct Rng(u64);

/// The state that follows `x`.
pub open spec fn xorshift(x: u64) -> u64 {
    let a = x ^ (x << 13);
    let b = a ^ (a >> 7);
    b ^ (b << 17)
}

/// A generator that is not stuck at zero never becomes so.
pub proof fn xorshift_never_reaches_zero(x: u64)
    requires
        x != 0,
    ensures
        xorshift(x) != 0,
{
    let a = x ^ (x << 13);
    let b = a ^ (a >> 7);
    assert(a != 0) by (bit_vector)
        requires
            a == x ^ (x << 13),
            x != 0,
    ;
    assert(b != 0) by (bit_vector)
        requires
            b == a ^ (a >> 7),
            a != 0,
    ;
    assert(b ^ (b << 17) != 0) by (bit_vector)
        requires
            b != 0,
    ;
}

/// The seed of a reading of the system's clock.
pub open spec fn seed_of(reading: Option<(u64, u32)>) -> u64 {
    match reading {
        Some(since) => ((since.0 * NANOS_PER_SEC + since.1) as u128 as u64) | 1,
        None => FALLBACK_SEED | 1,
    }
}

impl View for Rng {
    type V = u64;

    closed spec fn view(&self) -> u64 {
        self.0
    }
}

impl Rng {
    /// A generator seeded from the clock.
    pub fn new() -> (rng: Rng)
        ensures
            exists|reading: Option<(u64, u32)>| #[trigger]
                is_reading(reading) && rng@ == seed_of(reading),
            rng@ != 0,
    {
        let reading = system_time();
        Rng::from_reading(reading)
    }

    /// A generator seeded from a reading of the system's clock, never with zero.
    pub fn from_reading(reading: Option<(u64, u32)>) -> (rng: Rng)
        ensures
            rng@ == seed_of(reading),
            rng@ != 0,
    {
        let nanos: u64 = match reading {
            Some(since) => (since.0 as u128 * NANOS_PER_SEC + since.1 as u128) as u64,
            None => FALLBACK_SEED,
        };
        assert(nanos | 1 != 0) by (bit_vector);
        Rng(nanos | 1)
    }

    /// Steps the generator and returns its new state.
    pub fn next(&mut self) -> (value: u64)
        ensures
            final(self)@ == xorshift(old(self)@),
            value == final(self)@,
            old(self)@ != 0 ==> final(self)@ != 0,
    {
        proof {
            if self.0 != 0 {
                xorshift_never_reaches_zero(self.0);
            }
        }
        self.0 = self.0 ^ (self.0 << 13);
        self.0 = self.0 ^ (self.0 >> 7);
        self.0 = self.0 ^ (self.0 << 17);
        self.0
    }

    /// A value in `0..bound`, or zero where that range is empty, which leaves
    /// the generator as it is.
    pub fn below(&mut self, bound: u64) -> (value: u64)
        ensures
            bound == 0 ==> value == 0 && final(self)@ == old(self)@,
            bound > 0 ==> final(self)@ == xorshift(old(self)@) && value == final(self)@ % bound,
            bound > 0 ==> value < bound,
            old(self)@ != 0 ==> final(self)@ != 0,
    {
        if bound == 0 {
            0
        } else {
            self.next() % bound
        }
    }
}

/// A part of a file to read: `len` bytes from `offset` on.
#[derive(Clone, Copy, PartialEq, Eq, Structural, Debug)]
pub struct Probe {
    pub offset: u64,
    pub len: usize,
}

/// A copy of `probes`.
pub(crate) fn copied(probes: &Vec<Probe>) -> (copy: Vec<Probe>)
    ensures
        copy@ == probes@,
{
    let mut copy: Vec<Probe> = Vec::new();
    let mut i: usize = 0;
    while i < probes.len()
        invariant
            i <= probes.len(),
            copy@ == probes@.take(i as int),
        decreases probes.len() - i,
    {
        copy.push(probes[i]);
        i += 1;
    }
    copy
}

/// The parts to read of a file of `size` bytes to find out whether it holds
/// plain content: the whole file where it fits the budget, else a third of the
/// budget at its start, in its middle and at its end. A part of no bytes is left
/// out.
pub open spec fn baseline_plan(size: u64, budget: usize) -> Seq<Probe> {
    let third = (budget / 3) as usize;
    let last = (budget - 2 * third) as usize;
    if size <= budget {
        if budget > 0 {
            seq![Probe { offset: 0, len: budget }]
        } else {
            Seq::empty()
        }
    } else if third > 0 {
        seq![
            Probe { offset: 0, len: third },
            Probe { offset: size / 2, len: third },
            Probe { offset: (size - last) as u64, len: last },
        ]
    } else if last > 0 {
        seq![Probe { offset: (size - last) as u64, len: last }]
    } else {
        Seq::empty()
    }
}

/// The parts to read of an existing file during the startup scan.
pub fn baseline_probes(size: u64, budget: usize) -> (probes: Vec<Probe>)
    ensures
        probes@ == baseline_plan(size, budget),
{
    let mut probes: Vec<Probe> = Vec::new();
    if size <= budget as u64 {
        if budget > 0 {
            probes.push(Probe { offset: 0, len: budget });
        }
    } else {
        let third: usize = budget / 3;
        let last: usize = budget - 2 * third;
        if third > 0 {
            probes.push(Probe { offset: 0, len: third });
            probes.push(Probe { offset: size / 2, len: third });
        }
        if last > 0 {
            probes.push(Probe { offset: size - last as u64, len: last });
        }
    }
    assert(probes@ =~= baseline_plan(size, budget));
    probes
}

/// The bytes that a plan reads in all.
pub open spec fn bytes_read(plan: Seq<Probe>) -> nat
    decreases plan.len(),
{
    if plan.len() == 0 {
        0
    } else {
        bytes_read(plan.drop_last()) + plan.last().len as nat
    }
}

/// The startup scan never reads more than the budget, never plans to read past
/// the end of a file that is larger than the budget, reads a smaller file whole,
/// and of a larger one reads up to its last byte.
pub proof fn baseline_plan_keeps_to_its_budget(size: u64, budget: usize)
    ensures
        bytes_read(baseline_plan(size, budget)) <= budget,
        size > budget ==> forall|i: int|
            0 <= i < baseline_plan(size, budget).len() ==> (#[trigger] baseline_plan(
                size,
                budget,
            )[i]).offset + baseline_plan(size, budget)[i].len <= size,
        size <= budget && budget > 0 ==> baseline_plan(size, budget) == seq![
            Probe { offset: 0, len: budget },
        ],
        size > budget && budget > 0 ==> baseline_plan(size, budget).last().offset + baseline_plan(
            size,
            budget,
        ).last().len == size,
{
    reveal_with_fuel(bytes_read, 4);
    let plan = baseline_plan(size, budget);
    if plan.len() == 3 {
        assert(plan.drop_last() =~= seq![plan[0], plan[1]]);
        assert(plan.drop_last().drop_last() =~= seq![plan[0]]);
        assert(plan.drop_last().drop_last().drop_last() =~= Seq::<Probe>::empty());
    } else if plan.len() == 1 {
        assert(plan.drop_last() =~= Seq::<Probe>::empty());
    }
}

/// The bytes that one random probe reads.
pub open spec fn chunk_len(budget: usize) -> usize {
    if budget / PROBE_COUNT > 1 {
        (budget / PROBE_COUNT) as usize
    } else {
        1
    }
}

/// The number of offsets at which a random probe may start.
pub open spec fn span(size: u64, budget: usize) -> u64 {
    if size >= chunk_len(budget) {
        if size - chunk_len(budget) < u64::MAX {
            (size - chunk_len(budget) + 1) as u64
        } else {
            u64::MAX
        }
    } else {
        1
    }
}

/// The state of the generator after `n` steps from `x`.
pub open spec fn stepped(x: u64, n: nat) -> u64
    decreases n,
{
    if n == 0 {
        x
    } else {
        xorshift(stepped(x, (n - 1) as nat))
    }
}

/// The parts to read of a file that was just written: the whole file where it
/// fits the budget, else as many chunks as there are probes, at offsets that the
/// generator picks.
pub open spec fn live_plan(size: u64, budget: usize, state: u64) -> Seq<Probe> {
    if size <= budget {
        if budget > 0 {
            seq![Probe { offset: 0, len: budget }]
        } else {
            Seq::empty()
        }
    } else {
        Seq::new(
            PROBE_COUNT as nat,
            |i: int|
                Probe {
                    offset: stepped(state, (i + 1) as nat) % span(size, budget),
                    len: chunk_len(budget),
                },
        )
    }
}

/// The parts to read of a file that was just written. Offsets are picked at
/// random so that nobody can leave plain content at exactly those places.
pub fn live_probes(size: u64, budget: usize, rng: &mut Rng) -> (probes: Vec<Probe>)
    ensures
        probes@ == live_plan(size, budget, old(rng)@),
        size <= budget ==> final(rng)@ == old(rng)@,
        size > budget ==> final(rng)@ == stepped(old(rng)@, PROBE_COUNT as nat),
        old(rng)@ != 0 ==> final(rng)@ != 0,
{
    let mut probes: Vec<Probe> = Vec::new();
    if size <= budget as u64 {
        if budget > 0 {
            probes.push(Probe { offset: 0, len: budget });
        }
        assert(probes@ =~= live_plan(size, budget, rng@));
        return probes;
    }
    let share: usize = budget / PROBE_COUNT;
    let chunk: usize = if share > 1 {
        share
    } else {
        1
    };
    let start_span: u64 = size.saturating_sub(chunk as u64).saturating_add(1);
    assert(start_span == span(size, budget));
    let mut i: usize = 0;
    while i < PROBE_COUNT
        invariant
            i <= PROBE_COUNT,
            chunk == chunk_len(budget),
            start_span == span(size, budget),
            start_span > 0,
            size > budget,
            rng@ == stepped(old(rng)@, i as nat),
            old(rng)@ != 0 ==> rng@ != 0,
            probes@ == live_plan(size, budget, old(rng)@).take(i as int),
        decreases PROBE_COUNT - i,
    {
        let offset: u64 = rng.below(start_span);
        probes.push(Probe { offset, len: chunk });
        i = i + 1;
    }
    assert(probes@ =~= live_plan(size, budget, old(rng)@));
    probes
}

/// The live sampling never reads past the end of a file that is larger than the
/// budget, takes as many probes as there should be, and with a budget of at
/// least one byte for each never reads more than the budget.
pub proof fn live_plan_keeps_to_its_budget(size: u64, budget: usize, state: u64)
    ensures
        size > budget ==> live_plan(size, budget, state).len() == PROBE_COUNT,
        size > budget ==> forall|i: int|
            0 <= i < live_plan(size, budget, state).len() ==> (#[trigger] live_plan(
                size,
                budget,
                state,
            )[i]).offset + live_plan(size, budget, state)[i].len <= size,
        budget >= PROBE_COUNT ==> bytes_read(live_plan(size, budget, state)) <= budget,
{
    let plan = live_plan(size, budget, state);
    if size > budget {
        assert(chunk_len(budget) <= size);
        assert forall|i: int| 0 <= i < plan.len() implies (#[trigger] plan[i]).offset + plan[i].len
            <= size by {
            assert(plan[i].offset < span(size, budget));
        }
        equal_probes_add_up(plan, chunk_len(budget));
        assert(PROBE_COUNT * chunk_len(budget) <= budget || budget < PROBE_COUNT);
    } else if budget > 0 {
        reveal_with_fuel(bytes_read, 2);
        assert(plan.drop_last() =~= Seq::<Probe>::empty());
    }
}

proof fn equal_probes_add_up(plan: Seq<Probe>, len: usize)
    requires
        forall|i: int| 0 <= i < plan.len() ==> (#[trigger] plan[i]).len == len,
    ensures
        bytes_read(plan) == plan.len() * len,
    decreases plan.len(),
{
    if plan.len() > 0 {
        let shorter = plan.drop_last();
        assert forall|i: int| 0 <= i < shorter.len() implies (#[trigger] shorter[i]).len == len by {
            assert(shorter[i] == plan[i]);
        }
        equal_probes_add_up(shorter, len);
        assert((plan.len() - 1) * len + len == plan.len() * len) by (nonlinear_arith);
    }
}

/// Whether a probe of a file of `size` bytes that starts at `offset` reads the byte
/// at `place`.
pub open spec fn reads(size: u64, budget: usize, offset: u64, place: u64) -> bool {
    offset < span(size, budget) && offset <= place < offset + chunk_len(budget)
}

/// No place in a large file is safe from a random probe: for each byte there is an
/// offset, among those that are picked from, at which a probe reads it.
pub proof fn no_byte_is_out_of_reach(size: u64, budget: usize, place: u64)
    requires
        size > budget,
        place < size,
    ensures
        exists|offset: u64| #[trigger] reads(size, budget, offset, place),
{
    if place < span(size, budget) {
        assert(reads(size, budget, place, place));
    } else {
        assert(reads(size, budget, (span(size, budget) - 1) as u64, place));
    }
}

/// Whether nothing could be read: no part has an entropy.
pub open spec fn nothing_read(scores: Seq<Option<u64>>) -> bool {
    forall|i: int| 0 <= i < scores.len() ==> #[trigger] scores[i] is None
}

/// Whether a part has an entropy below `threshold`.
pub open spec fn any_below(scores: Seq<Option<u64>>, threshold: u64) -> bool {
    exists|i: int|
        0 <= i < scores.len() && #[trigger] scores[i] is Some && scores[i]->0 < threshold
}

/// Whether a part has an entropy above `threshold`.
pub open spec fn any_above(scores: Seq<Option<u64>>, threshold: u64) -> bool {
    exists|i: int|
        0 <= i < scores.len() && #[trigger] scores[i] is Some && scores[i]->0 > threshold
}

/// Whether `best` is the least entropy among `scores`; none where there is none.
pub open spec fn is_lowest(best: Option<u64>, scores: Seq<Option<u64>>) -> bool {
    match best {
        Some(low) => scores.contains(Some(low)) && forall|i: int|
            0 <= i < scores.len() && #[trigger] scores[i] is Some ==> low <= scores[i]->0,
        None => nothing_read(scores),
    }
}

/// Whether `best` is the greatest entropy among `scores`; none where there is none.
pub open spec fn is_highest(best: Option<u64>, scores: Seq<Option<u64>>) -> bool {
    match best {
        Some(high) => scores.contains(Some(high)) && forall|i: int|
            0 <= i < scores.len() && #[trigger] scores[i] is Some ==> scores[i]->0 <= high,
        None => nothing_read(scores),
    }
}

/// The lowest entropy of the parts of a file: a file with any plain part is evidence
/// of plain content. A part of which nothing could be read has no entropy.
pub fn min_sampled_entropy(scores: &Vec<Option<u64>>) -> (best: Option<u64>)
    ensures
        is_lowest(best, scores@),
{
    let mut best: Option<u64> = None;
    let mut i: usize = 0;
    while i < scores.len()
        invariant
            i <= scores.len(),
            is_lowest(best, scores@.take(i as int)),
        decreases scores.len() - i,
    {
        let ghost before = scores@.take(i as int);
        let ghost now = scores@.take(i + 1);
        assert(now =~= before.push(scores@[i as int]));
        assert forall|e: Option<u64>| before.contains(e) implies now.contains(e) by {
            let k = choose|k: int| 0 <= k < before.len() && before[k] == e;
            assert(now[k] == e);
        }
        assert(now[i as int] == scores@[i as int]);
        match (best, scores[i]) {
            (Some(low), Some(e)) => {
                if e < low {
                    best = Some(e);
                }
            },
            (None, Some(e)) => {
                best = Some(e);
            },
            _ => {},
        }
        i = i + 1;
    }
    assert(scores@.take(i as int) =~= scores@);
    best
}

/// The highest entropy of the parts of a file: a file with any encrypted part is
/// suspicious. A part of which nothing could be read has no entropy.
pub fn max_sampled_entropy(scores: &Vec<Option<u64>>) -> (best: Option<u64>)
    ensures
        is_highest(best, scores@),
{
    let mut best: Option<u64> = None;
    let mut i: usize = 0;
    while i < scores.len()
        invariant
            i <= scores.len(),
            is_highest(best, scores@.take(i as int)),
        decreases scores.len() - i,
    {
        let ghost before = scores@.take(i as int);
        let ghost now = scores@.take(i + 1);
        assert(now =~= before.push(scores@[i as int]));
        assert forall|e: Option<u64>| before.contains(e) implies now.contains(e) by {
            let k = choose|k: int| 0 <= k < before.len() && before[k] == e;
            assert(now[k] == e);
        }
        assert(now[i as int] == scores@[i as int]);
        match (best, scores[i]) {
            (Some(high), Some(e)) => {
                if e > high {
                    best = Some(e);
                }
            },
            (None, Some(e)) => {
                best = Some(e);
            },
            _ => {},
        }
        i = i + 1;
    }
    assert(scores@.take(i as int) =~= scores@);
    best
}

/// A file reads as encrypted exactly where one of its sampled parts does: a part
/// that was left plain cannot pull the reading down.
pub proof fn one_encrypted_part_decides(
    best: Option<u64>,
    scores: Seq<Option<u64>>,
    threshold: u64,
)
    requires
        is_highest(best, scores),
    ensures
        (best is Some && best->0 > threshold) <==> any_above(scores, threshold),
        best is None <==> nothing_read(scores),
{
    if let Some(high) = best {
        let k = choose|k: int| 0 <= k < scores.len() && scores[k] == Some(high);
        assert(scores[k] is Some && scores[k]->0 == high);
    }
}

/// A file counts as plain exactly where one of its sampled parts does: a part
/// that was encrypted cannot withhold the baseline.
pub proof fn one_plain_part_decides(best: Option<u64>, scores: Seq<Option<u64>>, threshold: u64)
    requires
        is_lowest(best, scores),
    ensures
        (best is Some && best->0 < threshold) <==> any_below(scores, threshold),
        best is None <==> nothing_read(scores),
{
    if let Some(low) = best {
        let k = choose|k: int| 0 <= k < scores.len() && scores[k] == Some(low);
        assert(scores[k] is Some && scores[k]->0 == low);
    }
}

/// A file that fits the budget is read whole, in one part from its start, by the startup
/// scan and by the live sampling alike, whatever the generator would pick.
pub proof fn what_fits_the_budget_is_read_whole(size: u64, budget: usize, state: u64, place: u64)
    requires
        size <= budget,
        place < size,
    ensures
        baseline_plan(size, budget).len() == 1,
        baseline_plan(size, budget)[0].offset <= place < baseline_plan(size, budget)[0].offset
            + baseline_plan(size, budget)[0].len,
        baseline_plan(size, budget)[0].offset == 0,
        baseline_plan(size, budget)[0].len == budget,
        live_plan(size, budget, state) == baseline_plan(size, budget),
{
}

/// Of a file that is larger than a budget of three bytes or more, the startup scan reads
/// a third of the budget at the start, as much from the middle on, and all the rest of
/// the budget at the end, up to the last byte.
pub proof fn start_middle_and_end_are_read(size: u64, budget: usize)
    requires
        size > budget,
        budget >= 3,
    ensures
        ({
            let plan = baseline_plan(size, budget);
            &&& plan.len() == 3
            &&& plan[0].offset == 0
            &&& plan[1].offset == size / 2
            &&& plan[2].offset + plan[2].len == size
            &&& 3 * plan[0].len <= budget < 3 * plan[0].len + 3
            &&& plan[1].len == plan[0].len
            &&& plan[0].len + plan[1].len + plan[2].len == budget
        }),
{
}

/// A budget of one or two bytes is spent at the end of a larger file, and none is not
/// spent.
pub proof fn a_tiny_budget_is_spent_at_the_end(size: u64, budget: usize)
    requires
        size > budget,
        budget < 3,
    ensures
        budget > 0 ==> baseline_plan(size, budget).len() == 1 && baseline_plan(
            size,
            budget,
        )[0].len == budget && baseline_plan(size, budget)[0].offset + budget == size,
        budget == 0 ==> baseline_plan(size, budget).len() == 0,
{
}

/// Of a larger file the live sampling reads five parts, each a fifth of the budget, or one
/// byte where that is more. The first starts at the offset that the generator's next state
/// gives, as the remainder by how many offsets there are from which such a part fits; the
/// others follow in the same way from the states after it.
pub proof fn five_parts_are_read_at_random(size: u64, budget: usize, state: u64, i: int)
    requires
        size > budget,
        0 <= i < 5,
    ensures
        ({
            let plan = live_plan(size, budget, state);
            let later = live_plan(size, budget, xorshift(state));
            let offsets = size - plan[i].len + 1;
            &&& plan.len() == 5
            &&& budget >= 5 ==> 5 * plan[i].len <= budget < 5 * plan[i].len + 5
            &&& budget < 5 ==> plan[i].len == 1
            &&& plan[i].offset + plan[i].len <= size
            &&& offsets <= u64::MAX ==> plan[0].offset == xorshift(state) % (offsets as u64)
            &&& i < 4 ==> plan[i + 1] == later[i]
        }),
{
    live_plan_keeps_to_its_budget(size, budget, state);
    let plan = live_plan(size, budget, state);
    assert(plan[i].len == chunk_len(budget));
    assert(plan[i].offset + plan[i].len <= size);
    assert(stepped(state, 0) == state);
    assert(stepped(state, 1) == xorshift(stepped(state, 0)));
    steps_add_up(state, (i + 1) as nat);
}

proof fn steps_add_up(x: u64, n: nat)
    ensures
        stepped(x, n + 1) == stepped(xorshift(x), n),
    decreases n,
{
    if n > 0 {
        steps_add_up(x, (n - 1) as nat);
    } else {
        assert(stepped(x, 1) == xorshift(stepped(x, 0)));
    }
}

/// Each state follows from the one before by three shifts, by thirteen to the left, seven
/// to the right and seventeen to the left, each joined to what was shifted by exclusive
/// or; and the generator is stepped once for each state.
pub proof fn a_step_is_three_shifts(x: u64, a: u64, b: u64, n: nat)
    requires
        a == x ^ (x << 13u64),
        b == a ^ (a >> 7u64),
    ensures
        xorshift(x) == b ^ (b << 17u64),
        stepped(x, 0) == x,
        stepped(x, 1) == b ^ (b << 17u64),
        stepped(x, n + 1) == xorshift(stepped(x, n)),
{
    assert(stepped(x, 1) == xorshift(stepped(x, 0)));
}

/// A seed is the number of nanoseconds that the clock shows, as far as it fits sixty-four
/// bits, made odd, and a number of its own where the clock shows none.
pub proof fn a_seed_is_an_odd_number_of_nanoseconds(seconds: u64, nanos: u32)
    ensures
        seed_of(None) == 0x243F_6A88_85A3_08D3,
        seed_of(Some((seconds, nanos))) % 2 == 1,
        seed_of(Some((seconds, nanos))) / 2 == ((seconds * 1_000_000_000 + nanos)
            % 0x1_0000_0000_0000_0000) / 2,
{
    let wide = (seconds * NANOS_PER_SEC + nanos) as u128;
    let total = wide as u64;
    assert(wide as u64 == wide % 0x1_0000_0000_0000_0000) by (bit_vector);
    assert((total | 1) % 2 == 1 && (total | 1) / 2 == total / 2) by (bit_vector);
    assert(0x243F_6A88_85A3_08D3u64 | 1 == 0x243F_6A88_85A3_08D3u64) by (bit_vector);
}

/// The lowest reading is one of the readings, and none is lower; the highest likewise, and
/// there is neither exactly where no part could be read.
pub proof fn extremes_are_among_the_readings(
    low: Option<u64>,
    high: Option<u64>,
    scores: Seq<Option<u64>>,
    i: int,
)
    requires
        is_lowest(low, scores),
        is_highest(high, scores),
        0 <= i < scores.len(),
    ensures
        scores[i] is Some ==> low is Some && high is Some && low->0 <= scores[i]->0 <= high->0,
        low is Some ==> exists|j: int| 0 <= j < scores.len() && #[trigger] scores[j] == low,
        high is Some ==> exists|j: int| 0 <= j < scores.len() && #[trigger] scores[j] == high,
        low is None ==> scores[i] is None,
        high is None ==> scores[i] is None,
{
}

/// Of any readings the lowest is no higher than the highest, each is one of them, and
/// there are both or neither; taking a reading more can only lower the one and raise the
/// other.
pub proof fn a_further_reading_widens_the_range(
    scores: &Vec<Option<u64>>,
    more: &Vec<Option<u64>>,
    reading: u64,
    low: Option<u64>,
    high: Option<u64>,
    lower: Option<u64>,
    higher: Option<u64>,
)
    requires
        more@ == scores@.push(Some(reading)),
        call_ensures(min_sampled_entropy, (scores,), low),
        call_ensures(max_sampled_entropy, (scores,), high),
        call_ensures(min_sampled_entropy, (more,), lower),
        call_ensures(max_sampled_entropy, (more,), higher),
    ensures
        low is Some <==> high is Some,
        low is Some ==> low->0 <= high->0,
        low is None ==> lower == Some(reading) && higher == Some(reading),
        low is Some ==> lower == Some(
            if reading < low->0 {
                reading
            } else {
                low->0
            },
        ),
        high is Some ==> higher == Some(
            if reading > high->0 {
                reading
            } else {
                high->0
            },
        ),
{
    let n = scores@.len() as int;
    assert(more@[n] == Some(reading));
    assert(forall|i: int| 0 <= i < n ==> #[trigger] more@[i] == scores@[i]);
    if low is Some {
        let i = choose|i: int| 0 <= i < n && scores@[i] == low;
        assert(scores@[i] is Some && more@[i] == low);
    }
    if high is Some {
        let i = choose|i: int| 0 <= i < n && scores@[i] == high;
        assert(scores@[i] is Some && more@[i] == high);
    }
    if lower is Some {
        let i = choose|i: int| 0 <= i < n + 1 && more@[i] == lower;
        assert(i < n ==> scores@[i] is Some);
    }
    if higher is Some {
        let i = choose|i: int| 0 <= i < n + 1 && more@[i] == higher;
        assert(i < n ==> scores@[i] is Some);
    }
}

/// The generator gives the state that it steps to, and a value below a bound is the
/// remainder of that by the bound; a bound of zero leaves the generator alone.
pub proof fn values_below_a_bound_are_remainders(
    rng: &mut Rng,
    value: u64,
    other: &mut Rng,
    bound: u64,
    below: u64,
)
    requires
        call_ensures(Rng::next, (rng,), value),
        call_ensures(Rng::below, (other, bound), below),
    ensures
        final(rng)@ == value,
        value == xorshift(old(rng)@),
        bound > 0 ==> below == final(other)@ % bound && final(other)@ == xorshift(old(other)@),
        bound == 0 ==> below == 0 && final(other)@ == old(other)@,
{
}

/// The parts that are read of a file lie within it where it is larger than the budget, and
/// cover it where it is not; the generator moves on only where parts were picked.
pub proof fn parts_lie_within_the_file(
    size: u64,
    budget: usize,
    probes: Vec<Probe>,
    rng: &mut Rng,
    live: Vec<Probe>,
    i: int,
)
    requires
        call_ensures(baseline_probes, (size, budget), probes),
        call_ensures(live_probes, (size, budget, rng), live),
        budget >= 5,
    ensures
        size > budget ==> probes@.len() == 3 && live@.len() == 5,
        size > budget && 0 <= i < 3 ==> probes@[i].offset + probes@[i].len <= size,
        size > budget && 0 <= i < 5 ==> live@[i].offset + live@[i].len <= size && 5 * live@[i].len
            <= budget,
        size <= budget ==> probes@.len() == 1 && probes@[0].offset == 0 && probes@[0].len >= size,
        size <= budget ==> live@ == probes@ && final(rng)@ == old(rng)@,
        size > budget ==> final(rng)@ == xorshift(
            xorshift(xorshift(xorshift(xorshift(old(rng)@)))),
        ),
{
    reveal_with_fuel(stepped, 6);
    if size > budget {
        start_middle_and_end_are_read(size, budget);
        baseline_plan_keeps_to_its_budget(size, budget);
        live_plan_keeps_to_its_budget(size, budget, old(rng)@);
        if 0 <= i < 5 {
            five_parts_are_read_at_random(size, budget, old(rng)@, i);
        }
        assert(0 <= i < 3 ==> baseline_plan(size, budget)[i].offset + baseline_plan(
            size,
            budget,
        )[i].len <= size);
    }
}

} // verus!
