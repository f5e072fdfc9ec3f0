use vstd::prelude::*;
use std::collections::VecDeque;
use crate::pattern::{pattern_matches, pattern_match};

verus! {

/// Whether an admission at `t` (milliseconds on a monotonic clock) lies
/// outside the window of `window` seconds that ends at `now`.
pub open spec fn stale(t: u64, now: u64, window: u64) -> bool {
    now - t > window * 1000
}

/// The admissions of `s` that still lie inside the window, in order.
pub open spec fn fresh_of(s: Seq<u64>, now: u64, window: u64) -> Seq<u64>
    decreases s.len(),
{
    if s.len() == 0 {
        s
    } else if stale(s[0], now, window) {
        fresh_of(s.drop_first(), now, window)
    } else {
        seq![s[0]] + fresh_of(s.drop_first(), now, window)
    }
}

/// `s` without its leading run of stale admissions.
pub open spec fn drop_stale(s: Seq<u64>, now: u64, window: u64) -> Seq<u64>
    decreases s.len(),
{
    if s.len() > 0 && stale(s[0], now, window) {
        drop_stale(s.drop_first(), now, window)
    } else {
        s
    }
}

/// Whether the admissions of `s` were recorded in time order.
pub open spec fn nondecreasing(s: Seq<u64>) -> bool {
    forall|i: int, j: int| 0 <= i <= j < s.len() ==> s[i] <= s[j]
}

/// One rule: at most `max_signals` admissions per `time_window` seconds
/// for the names that `pattern` matches, with the admissions recorded so far.
pub struct RateLimitRule {
    pattern: String,
    max_signals: u32,
    time_window: u64,
    counter: VecDeque<u64>,
}

/// The mathematical content of a rule.
pub struct RuleView {
    pub pattern: Seq<char>,
    pub max_signals: u32,
    pub time_window: u64,
    pub counter: Seq<u64>,
}

impl View for RateLimitRule {
    type V = RuleView;

    closed spec fn view(&self) -> RuleView {
        RuleView {
            pattern: self.pattern@,
            max_signals: self.max_signals,
            time_window: self.time_window,
            counter: self.counter@,
        }
    }
}

/// The index of the first rule whose pattern matches `name`, if any.
pub open spec fn first_match(rules: Seq<RuleView>, name: Seq<char>) -> Option<int> {
    if exists|i: int| 0 <= i < rules.len() && pattern_matches(rules[i].pattern, name) {
        Some(
            choose|i: int|
                0 <= i < rules.len() && pattern_matches(rules[i].pattern, name) && forall|j: int|
                    0 <= j < i ==> !pattern_matches(#[trigger] rules[j].pattern, name),
        )
    } else {
        None
    }
}

/// The index of the rule for exactly `pattern`, if any.
pub open spec fn rule_index(rules: Seq<RuleView>, pattern: Seq<char>) -> Option<int> {
    if exists|i: int| 0 <= i < rules.len() && rules[i].pattern == pattern {
        Some(choose|i: int| 0 <= i < rules.len() && rules[i].pattern == pattern)
    } else {
        None
    }
}

/// Whether no two rules share a pattern.
pub open spec fn patterns_unique(rules: Seq<RuleView>) -> bool {
    forall|i: int, j: int|
        0 <= i < j < rules.len() ==> rules[i].pattern != rules[j].pattern
}

/// Sliding-window rate limits, one rule per pattern, kept in the order in
/// which their patterns were first configured. Where several rules match a
/// name, the first of them in that order decides.
pub struct RateLimiter {
    rules: Vec<RateLimitRule>,
    last_time: u64,
}

/// Whether every rule's admissions are in time order and none is later
/// than `t`.
pub open spec fn counters_ordered(rules: Seq<RuleView>, t: u64) -> bool {
    forall|i: int|
        0 <= i < rules.len() ==> nondecreasing(#[trigger] rules[i].counter) && forall|k: int|
            0 <= k < rules[i].counter.len() ==> rules[i].counter[k] <= t
}

impl View for RateLimiter {
    type V = Seq<RuleView>;

    closed spec fn view(&self) -> Seq<RuleView> {
        self.rules@.map_values(|r: RateLimitRule| r@)
    }
}

/// The rules after setting the rule for `pattern`: an earlier rule for that
/// pattern gets the new limit and window and keeps its place and its
/// recorded admissions; otherwise the rule comes last, with none recorded.
pub open spec fn with_rule(rules: Seq<RuleView>, pattern: Seq<char>, max_signals: u32, time_window: u64) -> Seq<RuleView> {
    match rule_index(rules, pattern) {
        Some(i) => rules.update(i, RuleView { max_signals, time_window, ..rules[i] }),
        None => rules.push(RuleView { pattern, max_signals, time_window, counter: Seq::empty() }),
    }
}

/// Whether a signal named `name` passes at `now`: no rule matches it, or
/// the first that does has fewer than its maximum admissions inside its
/// window ending at `now`.
pub open spec fn passes(rules: Seq<RuleView>, name: Seq<char>, now: u64) -> bool {
    match first_match(rules, name) {
        None => true,
        Some(i) => fresh_of(rules[i].counter, now, rules[i].time_window).len() < rules[i].max_signals,
    }
}

/// The rules after deciding on a signal named `name` at `now`: the
/// deciding rule keeps only the admissions inside its window and, if the
/// signal passes, records `now`.
pub open spec fn after_check(rules: Seq<RuleView>, name: Seq<char>, now: u64) -> Seq<RuleView> {
    match first_match(rules, name) {
        None => rules,
        Some(i) => {
            let kept = fresh_of(rules[i].counter, now, rules[i].time_window);
            rules.update(
                i,
                RuleView {
                    counter: if kept.len() < rules[i].max_signals { kept.push(now) } else { kept },
                    ..rules[i]
                },
            )
        },
    }
}

/// Compares two strings.
pub fn same_text(a: &String, b: &String) -> (r: bool)
    ensures
        r == (a@ == b@),
{
    a.eq(b)
}

impl RateLimiter {
    /// The latest time (milliseconds on a monotonic clock) that the limiter
    /// was given.
    pub closed spec fn time(&self) -> u64 {
        self.last_time
    }

    /// The limiter's invariant: one rule per pattern, and each rule's
    /// admissions in time order and not later than the latest time given.
    pub open spec fn wf(&self) -> bool {
        &&& patterns_unique(self@)
        &&& counters_ordered(self@, self.time())
    }

    /// The latest time that the limiter was given.
    pub fn latest_time(&self) -> (r: u64)
        ensures
            r == self.time(),
    {
        self.last_time
    }

    /// A limiter without rules.
    pub fn new() -> (r: RateLimiter)
        ensures
            r.wf(),
            r@ == Seq::<RuleView>::empty(),
            r.time() == 0,
    {
        let r = RateLimiter { rules: Vec::new(), last_time: 0 };
        assert(r@ =~= Seq::<RuleView>::empty());
        r
    }

    /// The number of rules.
    pub fn len(&self) -> (r: usize)
        ensures
            r == self@.len(),
    {
        self.rules.len()
    }

    /// The pattern, limit and window of the rule at `i`.
    pub fn rule_at(&self, i: usize) -> (r: (&String, u32, u64))
        requires
            i < self@.len(),
        ensures
            r.0@ == self@[i as int].pattern,
            r.1 == self@[i as int].max_signals,
            r.2 == self@[i as int].time_window,
    {
        let rule = &self.rules[i];
        (&rule.pattern, rule.max_signals, rule.time_window)
    }

    /// Sets the rule for `pattern`, replacing the limit and window of an
    /// earlier rule for that same pattern (its recorded admissions stay).
    pub fn set_rule(&mut self, pattern: String, max_signals: u32, time_window: u64)
        requires
            old(self).wf(),
        ensures
            final(self).wf(),
            final(self)@ == with_rule(old(self)@, pattern@, max_signals, time_window),
            final(self).time() == old(self).time(),
    {
        let mut i: usize = 0;
        while i < self.rules.len()
            invariant
                self.rules@ == old(self).rules@,
                self.last_time == old(self).last_time,
                old(self).wf(),
                i <= self.rules@.len(),
                forall|j: int| 0 <= j < i ==> self@[j].pattern != pattern@,
            decreases self.rules@.len() - i,
        {
            if same_text(&self.rules[i].pattern, &pattern) {
                assert(self@[i as int].pattern == pattern@);
                let ghost idx = rule_index(old(self)@, pattern@);
                assert(idx == Some(i as int)) by {
                    let k = choose|k: int| 0 <= k < old(self)@.len() && old(self)@[k].pattern == pattern@;
                    assert(k == i);
                }
                let mut rule = self.rules.remove(i);
                rule.max_signals = max_signals;
                rule.time_window = time_window;
                self.rules.insert(i, rule);
                assert(self@ =~= old(self)@.update(
                    i as int,
                    RuleView { max_signals, time_window, ..old(self)@[i as int] },
                ));
                assert forall|j: int| 0 <= j < self@.len() implies #[trigger] self@[j].counter == old(self)@[j].counter by {}
                return;
            }
            i = i + 1;
        }
        assert(self@ =~= old(self)@);
        assert forall|j: int| 0 <= j < old(self)@.len() implies old(self)@[j].pattern != pattern@ by {
            assert(self@[j] == old(self)@[j]);
        }
        let ghost added = RuleView { pattern: pattern@, max_signals, time_window, counter: Seq::empty() };
        self.rules.push(RateLimitRule { pattern, max_signals, time_window, counter: VecDeque::new() });
        assert(self@ =~= old(self)@.push(added));
        assert forall|a: int, b: int| 0 <= a < b < self@.len() implies self@[a].pattern != self@[b].pattern by {
            if b == self@.len() - 1 {
                assert(self@[a] == old(self)@[a]);
            } else {
                assert(self@[a] == old(self)@[a] && self@[b] == old(self)@[b]);
            }
        }
        assert forall|j: int| 0 <= j < self@.len() - 1 implies #[trigger] self@[j].counter == old(self)@[j].counter by {}
    }
    /// Decides whether a signal named `signal_name` may pass at `now`
    /// (milliseconds on a monotonic clock, not before the latest time
    /// given). The first rule whose pattern matches decides: it keeps only
    /// the admissions inside its window, and the signal passes, and is
    /// recorded, only if fewer than the rule's maximum remain. A name that
    /// no rule matches always passes.
    pub fn check(&mut self, signal_name: &str, now: u64) -> (r: bool)
        requires
            old(self).wf(),
            old(self).time() <= now,
        ensures
            final(self).wf(),
            final(self).time() == now,
            r == passes(old(self)@, signal_name@, now),
            final(self)@ == after_check(old(self)@, signal_name@, now),
    {
        let mut i: usize = 0;
        while i < self.rules.len()
            invariant
                self.rules@ == old(self).rules@,
                self.last_time == old(self).last_time,
                old(self).wf(),
                old(self).time() <= now,
                i <= self.rules@.len(),
                forall|j: int| 0 <= j < i ==> !pattern_matches(#[trigger] self@[j].pattern, signal_name@),
            decreases self.rules@.len() - i,
        {
            if pattern_match(self.rules[i].pattern.as_str(), signal_name) {
                let ghost idx = i as int;
                assert(self@[idx] == old(self)@[idx]);
                assert(first_match(old(self)@, signal_name@) == Some(idx)) by {
                    assert(forall|j: int| 0 <= j < idx ==> #[trigger] self@[j] == old(self)@[j]);
                    let k = choose|k: int|
                        0 <= k < old(self)@.len() && pattern_matches(old(self)@[k].pattern, signal_name@)
                            && forall|j: int| 0 <= j < k ==> !pattern_matches(#[trigger] old(self)@[j].pattern, signal_name@);
                    if k < idx {
                        assert(self@[k] == old(self)@[k]);
                    }
                }
                let mut rule = self.rules.remove(i);
                let ghost orig = rule@;
                assert(orig == old(self)@[idx]);
                let window = rule.time_window;
                while rule.counter.len() > 0 && is_stale(rule.counter[0], now, window)
                    invariant
                        rule.time_window == window,
                        rule.pattern@ == orig.pattern,
                        rule.max_signals == orig.max_signals,
                        window == orig.time_window,
                        drop_stale(rule.counter@, now, window) == drop_stale(orig.counter, now, window),
                    decreases rule.counter@.len(),
                {
                    let ghost c = rule.counter@;
                    rule.counter.pop_front();
                    assert(rule.counter@ =~= c.drop_first());
                }
                let ghost kept = rule.counter@;
                assert(kept == drop_stale(orig.counter, now, window));
                proof {
                    assert(nondecreasing(orig.counter));
                    lemma_admissions_within_window(orig.counter, now, window);
                    lemma_push_ordered(kept, now);
                }
                let admitted = rule.counter.len() < rule.max_signals as usize;
                if admitted {
                    rule.counter.push_back(now);
                }
                assert(rule@ == RuleView { counter: if admitted { kept.push(now) } else { kept }, ..orig });
                self.rules.insert(i, rule);
                assert(self@ =~= old(self)@.update(idx, rule@));
                assert forall|a: int, b: int| 0 <= a < b < self@.len() implies self@[a].pattern != self@[b].pattern by {
                    assert(self@[a].pattern == old(self)@[a].pattern);
                    assert(self@[b].pattern == old(self)@[b].pattern);
                }
                self.last_time = now;
                assert forall|j: int| 0 <= j < self@.len() implies nondecreasing(#[trigger] self@[j].counter)
                    && forall|k: int| 0 <= k < self@[j].counter.len() ==> self@[j].counter[k] <= now by {
                    if j != idx {
                        assert(self@[j] == old(self)@[j]);
                    } else if admitted {
                        lemma_push_ordered(kept.push(now), now);
                    }
                }
                return admitted;
            }
            i = i + 1;
        }
        assert(self@ =~= old(self)@);
        assert(!(exists|j: int| 0 <= j < old(self)@.len() && pattern_matches(old(self)@[j].pattern, signal_name@))) by {
            assert(forall|j: int| 0 <= j < old(self)@.len() ==> #[trigger] self@[j] == old(self)@[j]);
        }
        self.last_time = now;
        true
    }

    /// Forgets, in every rule, the admissions that lie outside its window
    /// ending at `now` (milliseconds on a monotonic clock).
    pub fn trim(&mut self, now: u64)
        requires
            old(self).wf(),
            old(self).time() <= now,
        ensures
            final(self).wf(),
            final(self).time() == now,
            final(self)@.len() == old(self)@.len(),
            forall|i: int|
                0 <= i < old(self)@.len() ==> #[trigger] final(self)@[i] == (RuleView {
                    counter: fresh_of(old(self)@[i].counter, now, old(self)@[i].time_window),
                    ..old(self)@[i]
                }),
    {
        let n = self.rules.len();
        let mut i: usize = 0;
        while i < n
            invariant
                n == self@.len(),
                n == old(self)@.len(),
                i <= n,
                forall|j: int|
                    0 <= j < i ==> #[trigger] self@[j] == (RuleView {
                        counter: fresh_of(old(self)@[j].counter, now, old(self)@[j].time_window),
                        ..old(self)@[j]
                    }),
                forall|j: int| i <= j < n ==> #[trigger] self@[j] == old(self)@[j],
            decreases n - i,
        {
            let ghost pre = self@;
            assert(pre[i as int] == old(self)@[i as int]);
            assert(self.rules@[i as int]@ == pre[i as int]);
            let mut rule = self.rules.remove(i);
            let ghost orig = rule@;
            assert(orig == old(self)@[i as int]);
            let window = rule.time_window;
            let m = rule.counter.len();
            let mut fresh: VecDeque<u64> = VecDeque::new();
            let mut k: usize = 0;
            while k < m
                invariant
                    m == orig.counter.len(),
                    k <= m,
                    rule.counter@ == orig.counter.subrange(k as int, m as int),
                    fresh_of(orig.counter, now, window) == fresh@ + fresh_of(rule.counter@, now, window),
                    window == orig.time_window,
                    rule.pattern@ == orig.pattern,
                    rule.max_signals == orig.max_signals,
                    rule.time_window == window,
                decreases m - k,
            {
                let ghost c = rule.counter@;
                let t = rule.counter.pop_front().unwrap();
                assert(rule.counter@ =~= c.drop_first());
                assert(rule.counter@ =~= orig.counter.subrange(k + 1, m as int));
                let ghost before = fresh@;
                if !is_stale(t, now, window) {
                    fresh.push_back(t);
                    assert(fresh@ + fresh_of(rule.counter@, now, window) =~= before + (seq![t] + fresh_of(rule.counter@, now, window)));
                }
                k = k + 1;
            }
            assert(fresh@ + fresh_of(rule.counter@, now, window) =~= fresh@);
            rule.counter = fresh;
            self.rules.insert(i, rule);
            assert(self@ =~= pre.update(i as int, rule@));
            i = i + 1;
        }
        assert forall|a: int, b: int| 0 <= a < b < self@.len() implies self@[a].pattern != self@[b].pattern by {
            assert(self@[a] == self@[a]);
            assert(old(self)@[a].pattern != old(self)@[b].pattern);
        }
        self.last_time = now;
        assert forall|j: int| 0 <= j < self@.len() implies nondecreasing(#[trigger] self@[j].counter)
            && forall|k: int| 0 <= k < self@[j].counter.len() ==> self@[j].counter[k] <= now by {
            let c = old(self)@[j].counter;
            assert(nondecreasing(c));
            lemma_admissions_within_window(c, now, old(self)@[j].time_window);
            lemma_push_ordered(fresh_of(c, now, old(self)@[j].time_window), now);
        }
    }
}

/// Whether `t` lies outside the window of `window` seconds ending at `now`.
pub fn is_stale(t: u64, now: u64, window: u64) -> (r: bool)
    ensures
        r == stale(t, now, window),
{
    if t >= now {
        false
    } else {
        ((now - t) as u128) > (window as u128) * 1000
    }
}

/// Under a monotonic clock the admissions recorded for a rule are in time
/// order, and then those that survive the trimming of its stale leading
/// admissions are exactly those inside the window ending at `now`. A signal
/// is therefore admitted only when fewer than the rule's maximum
/// admissions lie inside the window, so that with it they number at most
/// the maximum; and the record, with `now` appended, stays in time order.
pub proof fn lemma_admissions_within_window(counter: Seq<u64>, now: u64, window: u64)
    requires
        nondecreasing(counter),
        forall|k: int| 0 <= k < counter.len() ==> counter[k] <= now,
    ensures
        drop_stale(counter, now, window) == fresh_of(counter, now, window),
        forall|k: int|
            0 <= k < fresh_of(counter, now, window).len() ==> !stale(
                #[trigger] fresh_of(counter, now, window)[k],
                now,
                window,
            ),
        nondecreasing(fresh_of(counter, now, window).push(now)),
    decreases counter.len(),
{
    let d = counter.drop_first();
    if counter.len() > 0 {
        assert(nondecreasing(d)) by {
            assert forall|i: int, j: int| 0 <= i <= j < d.len() implies d[i] <= d[j] by {
                assert(d[i] == counter[i + 1] && d[j] == counter[j + 1]);
            }
        }
        if stale(counter[0], now, window) {
            lemma_admissions_within_window(d, now, window);
        } else {
            lemma_all_fresh(counter, now, window);
        }
    }
}

proof fn lemma_all_fresh(s: Seq<u64>, now: u64, window: u64)
    requires
        nondecreasing(s),
        forall|k: int| 0 <= k < s.len() ==> s[k] <= now,
        s.len() > 0,
        !stale(s[0], now, window),
    ensures
        fresh_of(s, now, window) == s,
        forall|k: int| 0 <= k < s.len() ==> !stale(#[trigger] s[k], now, window),
        nondecreasing(s.push(now)),
    decreases s.len(),
{
    let d = s.drop_first();
    if d.len() > 0 {
        assert(nondecreasing(d)) by {
            assert forall|i: int, j: int| 0 <= i <= j < d.len() implies d[i] <= d[j] by {
                assert(d[i] == s[i + 1] && d[j] == s[j + 1]);
            }
        }
        assert(d[0] == s[1]);
        lemma_all_fresh(d, now, window);
        assert(seq![s[0]] + d =~= s);
        assert forall|k: int| 0 <= k < s.len() implies !stale(#[trigger] s[k], now, window) by {
            if k > 0 {
                assert(s[k] == d[k - 1]);
            }
        }
    } else {
        assert(fresh_of(d, now, window) == d);
        assert(seq![s[0]] + d =~= s);
    }
    assert forall|i: int, j: int| 0 <= i <= j < s.push(now).len() implies s.push(now)[i] <= s.push(now)[j] by {
        if j == s.len() {
            assert(s.push(now)[i] <= now);
        }
    }
}

/// A record that stays in time order with `t` appended is in time order,
/// and none of its admissions is later than `t`.
proof fn lemma_push_ordered(s: Seq<u64>, t: u64)
    requires
        nondecreasing(s.push(t)),
    ensures
        nondecreasing(s),
        forall|k: int| 0 <= k < s.len() ==> s[k] <= t,
{
    assert forall|i: int, j: int| 0 <= i <= j < s.len() implies s[i] <= s[j] by {
        assert(s.push(t)[i] == s[i] && s.push(t)[j] == s[j]);
    }
    assert forall|k: int| 0 <= k < s.len() implies s[k] <= t by {
        assert(s.push(t)[k] == s[k] && s.push(t)[s.len() as int] == t);
    }
}

/// Trimming at `t1` changes no later decision: what lies inside a rule's
/// window at any `t2` not before `t1` is the same with or without the trim.
pub proof fn lemma_trim_keeps_decisions(c: Seq<u64>, t1: u64, t2: u64, window: u64)
    requires
        t1 <= t2,
    ensures
        fresh_of(fresh_of(c, t1, window), t2, window) == fresh_of(c, t2, window),
    decreases c.len(),
{
    if c.len() > 0 {
        lemma_trim_keeps_decisions(c.drop_first(), t1, t2, window);
        if !stale(c[0], t1, window) {
            let f = fresh_of(c, t1, window);
            assert(f == seq![c[0]] + fresh_of(c.drop_first(), t1, window));
            assert(f[0] == c[0]);
            assert(f.drop_first() =~= fresh_of(c.drop_first(), t1, window));
        }
    }
}

} // verus!
