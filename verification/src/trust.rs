//! Executables that are exempt from the burst heuristic, recognised by their path
//! and by their content.

use std::collections::HashMap;

use vstd::prelude::*;
use vstd::string::*;

use crate::clock::{age, age_of, Clock, NANOS_PER_SEC};
use crate::config::TrustedExecutable;
use crate::digest::{is_hashable, sha256, sha256_hex};
use crate::path::{components, same_path, FilePath};
use crate::table::keys_of;
use crate::text::{
    a_decimal_number_is_read_back, are_words, chars_of, decimal, eq_ignore_ascii_case, hex,
    is_whitespace_char, nth_word, parse_u64, parsed_u64, row, same_ignoring_ascii_case,
    split_words, the_words_of_a_row_are_its_fields, white_space_parts_words, words,
};

verus! {

broadcast use vstd::std_specs::hash::group_hash_axioms;

/// How long a verdict on a process is kept, in seconds.
pub const CACHE_TTL_SECS: u128 = 60;

/// A verdict on a process, when it was reached, and when that process was started.
#[derive(Clone, Copy, PartialEq, Eq, Structural, Debug)]
pub struct Checked {
    pub trusted: bool,
    pub at: u128,
    pub start: u64,
}

/// What is known of the executable of a process: its path, and what is in the file
/// at that path, as far as they could be read.
pub struct Sighting {
    pub path: Option<FilePath>,
    pub content: Option<Vec<u8>>,
}

/// What a trust store knows.
#[verifier::ext_equal]
pub struct TrustModel {
    pub trusted: Seq<TrustedExecutable>,
    /// The verdicts reached of late, by process.
    pub cache: Map<i32, Checked>,
}

/// Whether the operator lists an executable at `path`.
pub open spec fn lists_path(trusted: Seq<TrustedExecutable>, path: Seq<u8>) -> bool {
    exists|i: int| 0 <= i < trusted.len() && same_path((#[trigger] trusted[i]).path@, path)
}

/// Whether an executable at `path` whose content has the hexadecimal digest
/// `digest` is trusted: whether the operator lists the two together.
pub open spec fn trusts(
    trusted: Seq<TrustedExecutable>,
    path: Seq<u8>,
    digest: Seq<char>,
) -> bool {
    exists|i: int|
        0 <= i < trusted.len() && same_path((#[trigger] trusted[i]).path@, path)
            && same_ignoring_ascii_case(digest, trusted[i].sha256@)
}

/// Whether what was seen of an executable makes it a trusted one.
pub open spec fn sighting_is_trusted(trusted: Seq<TrustedExecutable>, seen: Sighting) -> bool {
    match (seen.path, seen.content) {
        (Some(path), Some(content)) => trusts(trusted, path@, hex(sha256(content@))),
        _ => false,
    }
}

impl TrustModel {
    /// The verdict that still holds of the process `pid` that was started at
    /// `starttime`.
    pub open spec fn cached(self, pid: i32, now: u128, starttime: Option<u64>) -> Option<bool> {
        if self.cache.contains_key(pid) && starttime == Some(self.cache[pid].start) && age(
            now,
            self.cache[pid].at,
        ) < CACHE_TTL_SECS * NANOS_PER_SEC {
            Some(self.cache[pid].trusted)
        } else {
            None
        }
    }

    /// Whether the executable of the process has to be looked at to reach a verdict.
    pub open spec fn must_look(self, pid: i32, now: u128, starttime: Option<u64>) -> bool {
        self.trusted.len() > 0 && self.cached(pid, now, starttime) is None
    }

    /// The verdict on the process, where `looked` is what a look at its executable
    /// says.
    pub open spec fn verdict(
        self,
        pid: i32,
        now: u128,
        starttime: Option<u64>,
        looked: bool,
    ) -> bool {
        if self.trusted.len() == 0 {
            false
        } else {
            match self.cached(pid, now, starttime) {
                Some(trusted) => trusted,
                None => looked,
            }
        }
    }

    /// The cache with the verdict `looked`, where there is a start time to bind it
    /// to.
    pub open spec fn cache_with(
        self,
        pid: i32,
        now: u128,
        starttime: Option<u64>,
        looked: bool,
    ) -> Map<i32, Checked> {
        match starttime {
            Some(start) => self.cache.insert(pid, Checked { trusted: looked, at: now, start }),
            None => self.cache,
        }
    }

    /// What is known after that verdict. Verdicts well past their time are dropped
    /// whenever an executable was looked at.
    pub open spec fn after(
        self,
        pid: i32,
        now: u128,
        starttime: Option<u64>,
        looked: bool,
    ) -> TrustModel {
        if self.must_look(pid, now, starttime) {
            let cache = self.cache_with(pid, now, starttime, looked);
            TrustModel {
                cache: Map::new(
                    |p: i32| cache.contains_key(p) && is_recent(cache[p], now),
                    |p: i32| cache[p],
                ),
                ..self
            }
        } else {
            self
        }
    }
}

/// Whether a verdict is not yet well past its time.
pub open spec fn is_recent(checked: Checked, now: u128) -> bool {
    age(now, checked.at) < CACHE_TTL_SECS * 4 * NANOS_PER_SEC
}

/// The executables that the operator trusts, and the verdicts reached of late.
pub struct TrustStore {
    trusted: Vec<TrustedExecutable>,
    cache: HashMap<i32, Checked>,
    clock: Clock,
}

impl View for TrustStore {
    type V = TrustModel;

    closed spec fn view(&self) -> TrustModel {
        TrustModel { trusted: self.trusted@, cache: self.cache@ }
    }
}

/// What follows the last `c` in `s`.
pub open spec fn after_last(s: Seq<char>, c: char) -> Option<Seq<char>>
    decreases s.len(),
{
    if s.len() == 0 {
        None
    } else if s.last() == c {
        Some(Seq::empty())
    } else {
        match after_last(s.drop_last(), c) {
            Some(rest) => Some(rest.push(s.last())),
            None => None,
        }
    }
}

/// The start time in the text of a process's stat file: the twentieth word behind
/// the last closing bracket. The name of the process stands inside those brackets
/// and may itself hold spaces and brackets.
pub open spec fn starttime_in(stat: Seq<char>) -> Option<u64> {
    match after_last(stat, ')') {
        Some(rest) => match nth_word(rest, 19) {
            Some(word) => parsed_u64(word),
            None => None,
        },
        None => None,
    }
}

proof fn after_last_is_the_rest(s: Seq<char>, c: char, at: int)
    requires
        0 <= at < s.len(),
        s[at] == c,
        forall|i: int| at < i < s.len() ==> s[i] != c,
    ensures
        after_last(s, c) == Some(s.skip(at + 1)),
    decreases s.len(),
{
    if at == s.len() - 1 {
        assert(s.skip(at + 1) =~= Seq::<char>::empty());
    } else {
        after_last_is_the_rest(s.drop_last(), c, at);
        assert(s.drop_last().skip(at + 1).push(s.last()) =~= s.skip(at + 1));
    }
}

proof fn no_last_without_one(s: Seq<char>, c: char)
    requires
        forall|i: int| 0 <= i < s.len() ==> s[i] != c,
    ensures
        after_last(s, c) is None,
    decreases s.len(),
{
    if s.len() > 0 {
        no_last_without_one(s.drop_last(), c);
    }
}

impl TrustStore {
    /// What the store's clock showed when it was last read.
    pub closed spec fn latest(self) -> u128 {
        self.clock@
    }

    /// Whether that many nanoseconds were measured since the store's clock was started.
    pub closed spec fn measures(self, elapsed: u128) -> bool {
        self.clock.measures(elapsed)
    }

    /// A store that trusts the given executables and has looked at none yet.
    pub fn new(trusted: Vec<TrustedExecutable>) -> (store: TrustStore)
        ensures
            store@ == (TrustModel { trusted: trusted@, cache: Map::empty() }),
            store.latest() == 0,
    {
        TrustStore { trusted, cache: HashMap::new(), clock: Clock::start() }
    }

    /// The time on the store's clock, which never runs backwards. What the store knows
    /// stays as it is.
    pub fn now(&mut self) -> (now: u128)
        ensures
            final(self)@ == old(self)@,
            now >= old(self).latest(),
            final(self).latest() == now,
            exists|elapsed: u128| #[trigger]
                old(self).measures(elapsed) && now == if elapsed > old(self).latest() {
                    elapsed
                } else {
                    old(self).latest()
                },
    {
        let now: u128 = self.clock.read();
        proof {
            let elapsed = choose|elapsed: u128| #[trigger]
                old(self).clock.measures(elapsed) && now == if elapsed > old(self).clock@ {
                    elapsed
                } else {
                    old(self).clock@
                };
            assert(old(self).measures(elapsed));
        }
        now
    }

    /// The start time that a process's stat file gives; none where the file could
    /// not be read.
    pub fn process_starttime(stat: Option<&str>) -> (starttime: Option<u64>)
        ensures
            starttime == match stat {
                Some(text) => starttime_in(text@),
                None => None,
            },
    {
        let text = match stat {
            Some(text) => text,
            None => {
                return None;
            },
        };
        let chars = chars_of(text);
        let mut i: usize = chars.len();
        while i > 0
            invariant
                chars@ == text@,
                i <= chars.len(),
                stat == Some(text),
                forall|j: int| i <= j < chars@.len() ==> chars@[j] != ')',
            decreases i,
        {
            if chars[i - 1] == ')' {
                proof {
                    after_last_is_the_rest(text@, ')', i - 1);
                }
                let words = split_words(&chars, i);
                let ghost list = words@.map_values(|w: Vec<char>| w@);
                if words.len() > 19 {
                    assert(list[19] == words@[19]@);
                    return parse_u64(&words[19]);
                }
                return None;
            }
            i = i - 1;
        }
        proof {
            no_last_without_one(text@, ')');
        }
        None
    }

    /// Whether an executable at this path could be trusted, so that its content is
    /// worth reading.
    pub fn lists(&self, path: &FilePath) -> (b: bool)
        ensures
            b == lists_path(self@.trusted, path@),
    {
        let mut i: usize = 0;
        while i < self.trusted.len()
            invariant
                i <= self.trusted.len(),
                forall|j: int|
                    0 <= j < i ==> !same_path((#[trigger] self.trusted@[j]).path@, path@),
            decreases self.trusted.len() - i,
        {
            if self.trusted[i].path.same(path) {
                return true;
            }
            i = i + 1;
        }
        false
    }

    /// Whether an executable at `path` whose content has the given digest is
    /// trusted. A listed path with a digest that is not listed for it is not.
    pub fn trusts_digest(&self, path: &FilePath, digest: &str) -> (b: bool)
        ensures
            b == trusts(self@.trusted, path@, digest@),
    {
        let mut i: usize = 0;
        while i < self.trusted.len()
            invariant
                i <= self.trusted.len(),
                forall|j: int|
                    0 <= j < i ==> !(same_path((#[trigger] self.trusted@[j]).path@, path@)
                        && same_ignoring_ascii_case(digest@, self.trusted@[j].sha256@)),
            decreases self.trusted.len() - i,
        {
            if self.trusted[i].path.same(path) && eq_ignore_ascii_case(
                digest,
                self.trusted[i].sha256.as_str(),
            ) {
                return true;
            }
            i = i + 1;
        }
        false
    }

    /// Whether what was seen of an executable makes it a trusted one.
    pub fn compute_trust(&self, seen: &Sighting) -> (b: bool)
        requires
            seen.content matches Some(content) ==> is_hashable(content@.len()),
        ensures
            b == sighting_is_trusted(self@.trusted, *seen),
    {
        match (&seen.path, &seen.content) {
            (Some(path), Some(content)) => {
                let digest = sha256_hex(content.as_slice());
                self.trusts_digest(path, digest.as_str())
            },
            _ => false,
        }
    }

    /// The verdict that still holds of the very process that it was reached of.
    pub fn cached_verdict(&self, pid: i32, now: u128, starttime: Option<u64>) -> (verdict: Option<
        bool,
    >)
        ensures
            verdict == self@.cached(pid, now, starttime),
    {
        match (self.cache.get(&pid), starttime) {
            (Some(checked), Some(start)) => {
                if checked.start == start && age_of(now, checked.at) < CACHE_TTL_SECS
                    * NANOS_PER_SEC {
                    Some(checked.trusted)
                } else {
                    None
                }
            },
            _ => None,
        }
    }

    /// The verdict that was last reached of a process with this number, if it is still
    /// remembered.
    pub fn last_verdict(&self, pid: i32) -> (verdict: Option<bool>)
        ensures
            verdict == if self@.cache.contains_key(pid) {
                Some(self@.cache[pid].trusted)
            } else {
                None
            },
    {
        match self.cache.get(&pid) {
            Some(checked) => Some(checked.trusted),
            None => None,
        }
    }

    /// Whether the executable of the process has to be looked at to reach a verdict.
    pub fn needs_inspection(&self, pid: i32, now: u128, starttime: Option<u64>) -> (b: bool)
        ensures
            b == self@.must_look(pid, now, starttime),
    {
        self.trusted.len() > 0 && self.cached_verdict(pid, now, starttime).is_none()
    }

    fn drop_old(&mut self, now: u128)
        ensures
            final(self)@.trusted == old(self)@.trusted,
            forall|p: i32| #[trigger]
                final(self)@.cache.contains_key(p) <==> old(self)@.cache.contains_key(p)
                    && is_recent(old(self)@.cache[p], now),
            forall|p: i32| #[trigger]
                final(self)@.cache.contains_key(p) ==> final(self)@.cache[p] == old(
                    self,
                )@.cache[p],
            final(self).latest() == old(self).latest(),
    {
        let keys = keys_of(&self.cache);
        let ghost all = self.cache@;
        let mut i: usize = 0;
        while i < keys.len()
            invariant
                i <= keys.len(),
                all == old(self)@.cache,
                keys@.no_duplicates(),
                forall|p: i32| #[trigger] all.contains_key(p) <==> keys@.contains(p),
                self@.trusted == old(self)@.trusted,
                self.latest() == old(self).latest(),
                forall|p: i32| #[trigger]
                    self.cache@.contains_key(p) <==> all.contains_key(p) && (is_recent(all[p], now)
                        || !keys@.take(i as int).contains(p)),
                forall|p: i32| #[trigger] self.cache@.contains_key(p) ==> self.cache@[p] == all[p],
            decreases keys.len() - i,
        {
            let pid: i32 = keys[i];
            assert(keys@.contains(pid));
            assert forall|p: i32| keys@.take(i + 1).contains(p) <==> keys@.take(i as int).contains(p)
                || p == pid by {
                let now_done = keys@.take(i + 1);
                if keys@.take(i as int).contains(p) {
                    let j = choose|j: int| 0 <= j < i && keys@.take(i as int)[j] == p;
                    assert(now_done[j] == p);
                }
                if p == pid {
                    assert(now_done[i as int] == p);
                }
                if now_done.contains(p) {
                    let j = choose|j: int| 0 <= j < i + 1 && now_done[j] == p;
                    if j < i {
                        assert(keys@.take(i as int)[j] == p);
                    }
                }
            }
            let old_enough = match self.cache.get(&pid) {
                Some(checked) => !(age_of(now, checked.at) < CACHE_TTL_SECS * 4 * NANOS_PER_SEC),
                None => false,
            };
            if old_enough {
                self.cache.remove(&pid);
            }
            i = i + 1;
        }
        assert(keys@.take(i as int) =~= keys@);
    }

    /// Whether the process `pid`, started at `starttime`, runs a trusted executable,
    /// at the time `now`. All calls take their times from one clock, be it that of the
    /// store or another. `seen` is what a look at its
    /// executable shows; it makes no difference where no look is needed. A verdict
    /// is kept for a while, bound to the start time of the process: a number that
    /// was given to another process since does not inherit it.
    pub fn is_trusted(
        &mut self,
        pid: i32,
        now: u128,
        starttime: Option<u64>,
        seen: &Sighting,
    ) -> (trusted: bool)
        requires
            seen.content matches Some(content) ==> is_hashable(content@.len()),
        ensures
            trusted == old(self)@.verdict(
                pid,
                now,
                starttime,
                sighting_is_trusted(old(self)@.trusted, *seen),
            ),
            final(self)@ == old(self)@.after(
                pid,
                now,
                starttime,
                sighting_is_trusted(old(self)@.trusted, *seen),
            ),
            final(self).latest() == old(self).latest(),
    {
        if self.trusted.len() == 0 {
            return false;
        }
        if let Some(verdict) = self.cached_verdict(pid, now, starttime) {
            return verdict;
        }
        let looked = self.compute_trust(seen);
        if let Some(start) = starttime {
            self.cache.insert(pid, Checked { trusted: looked, at: now, start });
        }
        self.drop_old(now);
        assert(self@ =~= old(self)@.after(pid, now, starttime, looked));
        looked
    }
}

/// Trust takes both, and both are enough: the operator's list holds the path of the
/// executable, and with it the digest of its content. A different binary at a trusted
/// path, and a trusted binary at a different path, are not trusted.
pub proof fn trust_takes_both_path_and_content(
    trusted: Seq<TrustedExecutable>,
    seen: Sighting,
)
    ensures
        sighting_is_trusted(trusted, seen) <==> seen.path is Some && seen.content is Some
            && exists|i: int|
            0 <= i < trusted.len() && same_path((#[trigger] trusted[i]).path@, seen.path->0@)
                && same_ignoring_ascii_case(
                hex(sha256(seen.content->0@)),
                trusted[i].sha256@,
            ),
        sighting_is_trusted(trusted, seen) ==> lists_path(trusted, seen.path->0@),
{
}

/// An operator who trusts nothing exempts nothing.
pub proof fn an_empty_list_trusts_nothing(
    m: TrustModel,
    pid: i32,
    now: u128,
    starttime: Option<u64>,
    looked: bool,
)
    requires
        m.trusted.len() == 0,
    ensures
        !m.verdict(pid, now, starttime, looked),
        m.after(pid, now, starttime, looked) == m,
{
}

/// A look that is not needed makes no difference to the verdict or to what is
/// known afterwards.
pub proof fn a_look_that_is_not_needed_makes_no_difference(
    m: TrustModel,
    pid: i32,
    now: u128,
    starttime: Option<u64>,
    one: bool,
    other: bool,
)
    requires
        !m.must_look(pid, now, starttime),
    ensures
        m.verdict(pid, now, starttime, one) == m.verdict(pid, now, starttime, other),
        m.after(pid, now, starttime, one) == m.after(pid, now, starttime, other),
{
}

/// A process is only trusted without a look where the same process, and not merely
/// one of the same number, was trusted less than a minute ago.
pub proof fn trust_without_a_look_is_of_the_same_process(
    m: TrustModel,
    pid: i32,
    now: u128,
    starttime: Option<u64>,
)
    requires
        m.verdict(pid, now, starttime, false),
    ensures
        m.cache.contains_key(pid),
        m.cache[pid].trusted,
        starttime == Some(m.cache[pid].start),
        age(now, m.cache[pid].at) < CACHE_TTL_SECS * NANOS_PER_SEC,
{
}

/// A number that was given to another process since is looked at anew, whatever
/// was found of its former bearer.
pub proof fn a_reused_number_is_looked_at_anew(
    m: TrustModel,
    pid: i32,
    earlier: u128,
    former: u64,
    looked: bool,
    now: u128,
    starttime: Option<u64>,
)
    requires
        m.must_look(pid, earlier, Some(former)),
        starttime != Some(former),
    ensures
        m.after(pid, earlier, Some(former), looked).must_look(pid, now, starttime),
        m.after(pid, earlier, Some(former), looked).verdict(pid, now, starttime, false) == false,
{
}

/// Within a minute the same process gets the verdict that a look has reached,
/// without another.
pub proof fn a_verdict_holds_for_a_minute(
    m: TrustModel,
    pid: i32,
    earlier: u128,
    start: u64,
    looked: bool,
    now: u128,
    ignored: bool,
)
    requires
        m.must_look(pid, earlier, Some(start)),
        age(now, earlier) < CACHE_TTL_SECS * NANOS_PER_SEC,
    ensures
        !m.after(pid, earlier, Some(start), looked).must_look(pid, now, Some(start)),
        m.after(pid, earlier, Some(start), looked).verdict(pid, now, Some(start), ignored)
            == looked,
{
}

/// After a look, every verdict in the cache is that of the look or was there
/// before, and none is well past its time.
pub proof fn the_cache_holds_only_recent_verdicts(
    m: TrustModel,
    pid: i32,
    now: u128,
    starttime: Option<u64>,
    looked: bool,
)
    requires
        m.must_look(pid, now, starttime),
    ensures
        forall|p: i32| #[trigger]
            m.after(pid, now, starttime, looked).cache.contains_key(p) ==> is_recent(
                m.after(pid, now, starttime, looked).cache[p],
                now,
            ),
        forall|p: i32| #[trigger]
            m.after(pid, now, starttime, looked).cache.contains_key(p) ==> (p == pid && starttime
                == Some(m.after(pid, now, starttime, looked).cache[p].start) && m.after(
                pid,
                now,
                starttime,
                looked,
            ).cache[p].trusted == looked) || (m.cache.contains_key(p) && m.after(
                pid,
                now,
                starttime,
                looked,
            ).cache[p] == m.cache[p]),
{
}

proof fn what_follows_a_bracket(name: Seq<char>, rest: Seq<char>)
    requires
        forall|i: int| 0 <= i < rest.len() ==> #[trigger] rest[i] != ')',
    ensures
        after_last(name + seq![')'] + rest, ')') == Some(rest),
{
    let stat = name + seq![')'] + rest;
    let at = name.len() as int;
    assert forall|i: int| at < i < stat.len() implies stat[i] != ')' by {
        assert(stat[i] == rest[i - at - 1]);
    }
    after_last_is_the_rest(stat, ')', at);
    assert(stat.skip(at + 1) =~= rest);
}

/// Whatever stands in front of the last closing bracket, the start time is the number
/// that is the twentieth word behind it, however many words follow.
pub proof fn the_start_time_is_the_twentieth_word(name: Seq<char>, rest: Seq<char>, start: u64)
    requires
        forall|i: int| 0 <= i < rest.len() ==> #[trigger] rest[i] != ')',
        words(rest).len() >= 20,
        words(rest)[19] == decimal(start as nat),
    ensures
        starttime_in(name + seq![')'] + rest) == Some(start),
{
    what_follows_a_bracket(name, rest);
    a_decimal_number_is_read_back(start);
}

/// The start time is read from a row of fields of any length, with white space in front
/// of each, in which it is the twentieth.
pub proof fn the_start_time_is_read_from_a_row(
    name: Seq<char>,
    gaps: Seq<char>,
    fields: Seq<Seq<char>>,
    start: u64,
)
    requires
        forall|i: int| 0 <= i < row(gaps, fields).len() ==> #[trigger] row(gaps, fields)[i] != ')',
        forall|i: int| 0 <= i < fields.len() ==> is_whitespace_char(#[trigger] gaps[i]),
        are_words(fields),
        fields.len() >= 20,
        fields[19] == decimal(start as nat),
    ensures
        starttime_in(name + seq![')'] + row(gaps, fields)) == Some(start),
{
    the_words_of_a_row_are_its_fields(gaps, fields);
    the_start_time_is_the_twentieth_word(name, row(gaps, fields), start);
}

/// What follows the twentieth word makes no difference to the start time, nor does the
/// name of the process.
pub proof fn later_words_do_not_change_the_start_time(
    name: Seq<char>,
    other: Seq<char>,
    rest: Seq<char>,
    gap: char,
    more: Seq<char>,
)
    requires
        forall|i: int| 0 <= i < rest.len() ==> #[trigger] rest[i] != ')',
        forall|i: int| 0 <= i < more.len() ==> #[trigger] more[i] != ')',
        is_whitespace_char(gap),
        words(rest).len() >= 20,
    ensures
        starttime_in(other + seq![')'] + rest.push(gap) + more) == starttime_in(
            name + seq![')'] + rest,
        ),
        starttime_in(name + seq![')'] + rest) == parsed_u64(words(rest)[19]),
{
    let longer = rest.push(gap) + more;
    assert forall|i: int| 0 <= i < longer.len() implies #[trigger] longer[i] != ')' by {
        if i < rest.len() {
            assert(longer[i] == rest[i]);
        } else if i > rest.len() {
            assert(longer[i] == more[i - rest.len() - 1]);
        }
    }
    what_follows_a_bracket(name, rest);
    what_follows_a_bracket(other, longer);
    assert(other + seq![')'] + rest.push(gap) + more =~= other + seq![')'] + longer);
    white_space_parts_words(rest, gap, more);
}

/// Without a closing bracket, and with fewer than twenty words behind the last one,
/// there is no start time.
pub proof fn a_text_cut_short_has_no_start_time(name: Seq<char>, rest: Seq<char>)
    requires
        forall|i: int| 0 <= i < rest.len() ==> #[trigger] rest[i] != ')',
    ensures
        starttime_in(rest) is None,
        words(rest).len() < 20 ==> starttime_in(name + seq![')'] + rest) is None,
{
    no_last_without_one(rest, ')');
    what_follows_a_bracket(name, rest);
}

/// A verdict holds of a process exactly where one was reached of the number, the process
/// was started at the same time as then, and less than sixty thousand million
/// nanoseconds have passed; it is the verdict that was reached.
pub proof fn a_verdict_holds_of_one_process_for_sixty_seconds(
    m: TrustModel,
    pid: i32,
    now: u128,
    starttime: Option<u64>,
    looked: bool,
)
    ensures
        m.cached(pid, now, starttime) is Some <==> m.cache.contains_key(pid) && starttime == Some(
            m.cache[pid].start,
        ) && now - m.cache[pid].at < 60_000_000_000,
        m.cached(pid, now, starttime) is Some ==> m.cached(pid, now, starttime) == Some(
            m.cache[pid].trusted,
        ),
        m.must_look(pid, now, starttime) <==> m.trusted.len() > 0 && !(m.cache.contains_key(pid)
            && starttime == Some(m.cache[pid].start) && now - m.cache[pid].at < 60_000_000_000),
        m.must_look(pid, now, starttime) ==> m.verdict(pid, now, starttime, looked) == looked,
        m.trusted.len() > 0 && !m.must_look(pid, now, starttime) ==> m.verdict(
            pid,
            now,
            starttime,
            looked,
        ) == m.cache[pid].trusted,
{
}

/// After a look the verdict on the process stands in the cache, under its start time,
/// where that is known. Of the others exactly those stay, as they were, that were reached
/// less than two hundred and forty thousand million nanoseconds before. The list of
/// trusted executables stays, and without a look everything does.
pub proof fn verdicts_are_kept_for_four_minutes(
    m: TrustModel,
    pid: i32,
    now: u128,
    starttime: Option<u64>,
    looked: bool,
    p: i32,
)
    ensures
        m.after(pid, now, starttime, looked).trusted == m.trusted,
        !m.must_look(pid, now, starttime) ==> m.after(pid, now, starttime, looked) == m,
        m.must_look(pid, now, starttime) && starttime is Some ==> {
            let cache = m.after(pid, now, starttime, looked).cache;
            cache.contains_key(pid) && cache[pid].trusted == looked && cache[pid].at == now
                && cache[pid].start == starttime->0
        },
        m.must_look(pid, now, starttime) && (p != pid || starttime is None) ==> {
            let cache = m.after(pid, now, starttime, looked).cache;
            &&& cache.contains_key(p) <==> m.cache.contains_key(p) && now - m.cache[p].at
                < 240_000_000_000
            &&& cache.contains_key(p) ==> cache[p] == m.cache[p]
        },
{
}

/// The verdict on a process is that of a look at it, unless the same process was looked
/// at in the sixty seconds before: two looks at different processes, or at the same one
/// sixty seconds or more apart, do not bear on each other.
pub proof fn looks_at_different_processes_are_apart(
    m: TrustModel,
    pid: i32,
    earlier: u128,
    start: u64,
    first: bool,
    other: i32,
    now: u128,
    other_start: u64,
    second: bool,
)
    requires
        m.trusted.len() > 0,
        m.cache == Map::<i32, Checked>::empty(),
        earlier <= now,
    ensures
        pid != other || start != other_start || now - earlier >= 60_000_000_000 ==> m.after(
            pid,
            earlier,
            Some(start),
            first,
        ).verdict(other, now, Some(other_start), second) == second,
        pid == other && start == other_start && now - earlier < 60_000_000_000 ==> m.after(
            pid,
            earlier,
            Some(start),
            first,
        ).verdict(other, now, Some(other_start), second) == first,
        m.after(pid, earlier, None, first).verdict(other, now, Some(other_start), second) == second,
{
}

/// Listing more executables takes no trust away, and an executable is trusted by a list
/// exactly where one entry alone would trust it.
pub proof fn each_entry_counts_alone(
    trusted: Seq<TrustedExecutable>,
    more: Seq<TrustedExecutable>,
    seen: Sighting,
)
    ensures
        sighting_is_trusted(trusted + more, seen) <==> sighting_is_trusted(trusted, seen)
            || sighting_is_trusted(more, seen),
{
    let all = trusted + more;
    if seen.path is Some && seen.content is Some {
        let path = seen.path->0@;
        let digest = hex(sha256(seen.content->0@));
        if trusts(trusted, path, digest) {
            let i = choose|i: int|
                0 <= i < trusted.len() && same_path((#[trigger] trusted[i]).path@, path)
                    && same_ignoring_ascii_case(digest, trusted[i].sha256@);
            assert(all[i] == trusted[i]);
        }
        if trusts(more, path, digest) {
            let i = choose|i: int|
                0 <= i < more.len() && same_path((#[trigger] more[i]).path@, path)
                    && same_ignoring_ascii_case(digest, more[i].sha256@);
            assert(all[trusted.len() + i] == more[i]);
        }
        if trusts(all, path, digest) {
            let i = choose|i: int|
                0 <= i < all.len() && same_path((#[trigger] all[i]).path@, path)
                    && same_ignoring_ascii_case(digest, all[i].sha256@);
            if i < trusted.len() {
                assert(all[i] == trusted[i]);
            } else {
                assert(all[i] == more[i - trusted.len()]);
            }
        }
    }
}

/// An operator's list trusts what it lists: where an entry has the components of the
/// path, and as its digest that of the content in whatever case, the executable is
/// trusted; a path that no entry has is not even worth reading.
pub proof fn a_listed_executable_is_trusted(
    trusted: Seq<TrustedExecutable>,
    seen: Sighting,
    at: int,
)
    requires
        seen.path is Some,
        seen.content is Some,
        0 <= at < trusted.len(),
    ensures
        components(trusted[at].path@) == components(seen.path->0@) && same_ignoring_ascii_case(
            hex(sha256(seen.content->0@)),
            trusted[at].sha256@,
        ) ==> sighting_is_trusted(trusted, seen),
        components(trusted[at].path@) == components(seen.path->0@) ==> lists_path(
            trusted,
            seen.path->0@,
        ),
        (forall|i: int|
            0 <= i < trusted.len() ==> components((#[trigger] trusted[i]).path@) != components(
                seen.path->0@,
            )) ==> !lists_path(trusted, seen.path->0@) && !sighting_is_trusted(trusted, seen),
{
    let entry = trusted[at];
    assert(same_path(entry.path@, seen.path->0@) <==> components(entry.path@) == components(
        seen.path->0@,
    ));
}

/// The start time of a process is read from the text of its stat file, as the twentieth
/// word behind the last closing bracket, and from nothing else: without the text there is
/// none.
pub proof fn the_start_time_is_read_from_the_stat_file(
    stat: &str,
    name: Seq<char>,
    rest: Seq<char>,
    start: u64,
    read: Option<u64>,
    unread: Option<u64>,
)
    requires
        stat@ == name + seq![')'] + rest,
        forall|i: int| 0 <= i < rest.len() ==> #[trigger] rest[i] != ')',
        words(rest).len() >= 20,
        words(rest)[19] == decimal(start as nat),
        call_ensures(TrustStore::process_starttime, (Some(stat),), read),
        call_ensures(TrustStore::process_starttime, (None,), unread),
    ensures
        read == Some(start),
        unread is None,
{
    the_start_time_is_the_twentieth_word(name, rest, start);
}

/// The last verdict on a number is the one in the cache, however old it is and whichever
/// process it was on.
pub proof fn the_last_verdict_is_the_one_in_the_cache(
    store: &TrustStore,
    pid: i32,
    verdict: Option<bool>,
)
    requires
        call_ensures(TrustStore::last_verdict, (store, pid), verdict),
    ensures
        verdict is Some <==> store@.cache.contains_key(pid),
        verdict is Some ==> verdict->0 == store@.cache[pid].trusted,
{
}

/// A store begins with the operator's list and no verdicts, asks for a look exactly where
/// it has no verdict on the process that is less than sixty seconds old, and then goes by
/// the look; else it goes by the verdict, and changes nothing.
pub proof fn trust_goes_by_the_look_or_by_a_recent_verdict(
    trusted: Vec<TrustedExecutable>,
    fresh: TrustStore,
    store: &mut TrustStore,
    pid: i32,
    now: u128,
    starttime: Option<u64>,
    seen: &Sighting,
    verdict: bool,
)
    requires
        call_ensures(TrustStore::new, (trusted,), fresh),
        call_ensures(TrustStore::is_trusted, (store, pid, now, starttime, seen), verdict),
    ensures
        fresh@.trusted == trusted@,
        fresh@.cache =~= Map::<i32, Checked>::empty(),
        ({
            let before = old(store)@;
            let after = final(store)@;
            let known = before.cache.contains_key(pid) && starttime == Some(
                before.cache[pid].start,
            ) && now - before.cache[pid].at < 60_000_000_000;
            &&& before.trusted.len() == 0 ==> !verdict && after == before
            &&& before.trusted.len() > 0 && known ==> verdict == before.cache[pid].trusted && after
                == before
            &&& before.trusted.len() > 0 && !known ==> verdict == sighting_is_trusted(
                before.trusted,
                *seen,
            )
            &&& before.trusted.len() > 0 && !known && starttime is Some ==> after.cache.contains_key(
                pid,
            ) && after.cache[pid] == (Checked { trusted: verdict, at: now, start: starttime->0 })
            &&& after.trusted == before.trusted
        }),
{
    let looked = sighting_is_trusted(old(store)@.trusted, *seen);
    a_verdict_holds_of_one_process_for_sixty_seconds(old(store)@, pid, now, starttime, looked);
    if old(store)@.must_look(pid, now, starttime) {
        verdicts_are_kept_for_four_minutes(old(store)@, pid, now, starttime, looked, pid);
    }
}

/// A store says that a look is needed exactly where the operator trusts anyone and there
/// is no verdict on the process that is less than sixty seconds old, and gives the verdict
/// where there is.
pub proof fn a_look_is_asked_for_where_there_is_no_verdict(
    store: &TrustStore,
    pid: i32,
    now: u128,
    starttime: Option<u64>,
    needed: bool,
    cached: Option<bool>,
)
    requires
        call_ensures(TrustStore::needs_inspection, (store, pid, now, starttime), needed),
        call_ensures(TrustStore::cached_verdict, (store, pid, now, starttime), cached),
    ensures
        ({
            let known = store@.cache.contains_key(pid) && starttime == Some(
                store@.cache[pid].start,
            ) && now - store@.cache[pid].at < 60_000_000_000;
            &&& needed <==> store@.trusted.len() > 0 && !known
            &&& known ==> cached == Some(store@.cache[pid].trusted)
            &&& !known ==> cached is None
        }),
{
    a_verdict_holds_of_one_process_for_sixty_seconds(store@, pid, now, starttime, false);
}

/// An executable is worth reading exactly where an entry of the list has the components of
/// its path, and is trusted exactly where such an entry has its digest, too.
pub proof fn an_executable_is_judged_by_path_and_digest(
    store: &TrustStore,
    path: &FilePath,
    listed: bool,
    digest: &str,
    by_digest: bool,
    seen: &Sighting,
    trusted: bool,
)
    requires
        call_ensures(TrustStore::lists, (store, path), listed),
        call_ensures(TrustStore::trusts_digest, (store, path, digest), by_digest),
        call_ensures(TrustStore::compute_trust, (store, seen), trusted),
    ensures
        listed <==> exists|i: int|
            0 <= i < store@.trusted.len() && components((#[trigger] store@.trusted[i]).path@)
                == components(path@),
        by_digest <==> exists|i: int|
            0 <= i < store@.trusted.len() && components((#[trigger] store@.trusted[i]).path@)
                == components(path@) && same_ignoring_ascii_case(
                digest@,
                store@.trusted[i].sha256@,
            ),
        trusted <==> seen.path is Some && seen.content is Some && exists|i: int|
            0 <= i < store@.trusted.len() && components((#[trigger] store@.trusted[i]).path@)
                == components(seen.path->0@) && same_ignoring_ascii_case(
                hex(sha256(seen.content->0@)),
                store@.trusted[i].sha256@,
            ),
{
}

} // verus!
