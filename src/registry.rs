use vstd::prelude::*;
use async_channel::Sender;
use crate::pattern::{pattern_matches, pattern_match};
use crate::signal::{Signal, SignalView};

verus! {

#[verifier::external_type_specification]
#[verifier::external_body]
#[verifier::reject_recursive_types(T)]
pub struct ExSender<T>(async_channel::Sender<T>);

/// Relies on `async_channel::Sender::try_send`: it never waits; a full or
/// closed channel refuses the signal, which is then lost for that listener
/// alone. Tells whether the channel took it.
#[verifier::external_body]
fn offer(tx: &Sender<Signal>, signal: Signal) -> (r: bool) {
    tx.try_send(signal).is_ok()
}

/// One listener: the pattern it asked for and the queue that feeds it.
pub struct Subscription {
    pattern: String,
    sender: Sender<Signal>,
}

/// The number of patterns in `s` that match `name`.
pub open spec fn count_matching_patterns(s: Seq<Seq<char>>, name: Seq<char>) -> nat
    decreases s.len(),
{
    if s.len() == 0 {
        0
    } else if pattern_matches(s.last(), name) {
        count_matching_patterns(s.drop_last(), name) + 1
    } else {
        count_matching_patterns(s.drop_last(), name)
    }
}

/// Each listener's log after `s` is offered to every listener whose
/// pattern matches its name: those logs gain `s` at the end, the others stay.
pub open spec fn offers_after(
    patterns: Seq<Seq<char>>,
    logs: Seq<Seq<SignalView>>,
    s: SignalView,
) -> Seq<Seq<SignalView>> {
    Seq::new(
        logs.len(),
        |i: int|
            if pattern_matches(patterns[i], s.name) {
                logs[i].push(s)
            } else {
                logs[i]
            },
    )
}

/// The listeners, in the order in which they subscribed. One connection
/// that subscribes twice is served twice. Beside each listener the registry
/// keeps, as ghost state, the signals offered to it so far.
pub struct Registry {
    subscriptions: Vec<Subscription>,
    offered: Ghost<Seq<Seq<SignalView>>>,
}

impl View for Registry {
    type V = Seq<Seq<char>>;

    /// The patterns of the listeners, in order.
    closed spec fn view(&self) -> Seq<Seq<char>> {
        self.subscriptions@.map_values(|s: Subscription| s.pattern@)
    }
}

impl Registry {
    /// The signals offered to each listener so far, oldest first.
    pub closed spec fn offers(&self) -> Seq<Seq<SignalView>> {
        self.offered@
    }

    /// The registry's invariant: one log per listener.
    pub closed spec fn wf(&self) -> bool {
        self.offered@.len() == self.subscriptions@.len()
    }

    /// A registry without listeners.
    pub fn new() -> (r: Registry)
        ensures
            r.wf(),
            r@ == Seq::<Seq<char>>::empty(),
            r.offers() == Seq::<Seq<SignalView>>::empty(),
    {
        let r = Registry { subscriptions: Vec::new(), offered: Ghost(Seq::empty()) };
        assert(r@ =~= Seq::<Seq<char>>::empty());
        r
    }

    /// The number of listeners.
    pub fn len(&self) -> (r: usize)
        ensures
            r == self@.len(),
    {
        self.subscriptions.len()
    }

    /// Adds a listener for `pattern` fed through `sender`.
    pub fn subscribe(&mut self, pattern: String, sender: Sender<Signal>)
        requires
            old(self).wf(),
        ensures
            final(self).wf(),
            final(self)@ == old(self)@.push(pattern@),
            final(self).offers() == old(self).offers().push(Seq::empty()),
    {
        self.subscriptions.push(Subscription { pattern, sender });
        self.offered = Ghost(self.offered@.push(Seq::empty()));
        assert(self@ =~= old(self)@.push(pattern@));
    }

    /// Offers a copy of `signal` to every listener whose pattern matches its
    /// name, without waiting; a listener whose queue is full or closed loses
    /// it, and the others are still offered it. Returns the number of
    /// listeners it was offered to.
    pub fn fanout(&mut self, signal: &Signal) -> (r: usize)
        requires
            old(self).wf(),
        ensures
            final(self).wf(),
            r == count_matching_patterns(old(self)@, signal.name@),
            final(self)@ == old(self)@,
            final(self).offers() == offers_after(old(self)@, old(self).offers(), signal@),
    {
        let n = self.subscriptions.len();
        let mut count: usize = 0;
        let mut i: usize = 0;
        while i < n
            invariant
                self.subscriptions@ == old(self).subscriptions@,
                self@ == old(self)@,
                old(self).offers().len() == n,
                n == self@.len(),
                self.offered@.len() == n,
                i <= n,
                count == count_matching_patterns(self@.subrange(0, i as int), signal.name@),
                count <= i,
                forall|j: int| 0 <= j < i ==> #[trigger] self.offered@[j] == offers_after(
                    old(self)@,
                    old(self).offers(),
                    signal@,
                )[j],
                forall|j: int| i <= j < n ==> #[trigger] self.offered@[j] == old(self).offers()[j],
            decreases n - i,
        {
            let sub = &self.subscriptions[i];
            assert(self@.subrange(0, i + 1).drop_last() =~= self@.subrange(0, i as int));
            assert(sub.pattern@ == self@[i as int]);
            if pattern_match(sub.pattern.as_str(), signal.name.as_str()) {
                let _ = offer(&sub.sender, signal.duplicate());
                let ghost logs = self.offered@;
                self.offered = Ghost(logs.update(i as int, logs[i as int].push(signal@)));
                count = count + 1;
            }
            assert(self.offered@[i as int] == offers_after(old(self)@, old(self).offers(), signal@)[i as int]);
            i = i + 1;
        }
        assert(self@.subrange(0, n as int) =~= self@);
        assert(self.offered@ =~= offers_after(old(self)@, old(self).offers(), signal@));
        count
    }
}

} // verus!
