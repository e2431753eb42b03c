//! Rate mediation: folding bursts, extrapolating behind the end of a source, and
//! backing off when the producer asks for it.

use vstd::prelude::*;

verus! {

// ---------------------------------------------------------------------------
// Conflate
// ---------------------------------------------------------------------------
/// How an element goes into the aggregate of its burst.
pub enum Merge<T, U> {
    /// It is the first of its burst.
    Seed(T),
    /// It is folded into what is there.
    Fold(U, T),
}

/// Folds the elements of a burst into one aggregate, until it is taken.
pub struct Conflate<U> {
    acc: Option<U>,
}

impl<U> View for Conflate<U> {
    type V = Option<U>;

    closed spec fn view(&self) -> Option<U> {
        self.acc
    }
}

impl<U> Conflate<U> {
    /// No burst yet.
    pub fn new() -> (r: Conflate<U>)
        ensures
            r@ is None,
    {
        Conflate { acc: None }
    }

    /// What to make of an element. The result is to be put back.
    pub fn merge<T>(&mut self, item: T) -> (r: Merge<T, U>)
        ensures
            r == (match old(self)@ {
                None => Merge::Seed(item),
                Some(prev) => Merge::Fold(prev, item),
            }),
            final(self)@ is None,
    {
        match self.acc.take() {
            None => Merge::Seed(item),
            Some(prev) => Merge::Fold(prev, item),
        }
    }

    /// Put an aggregate in.
    pub fn put(&mut self, aggregate: U)
        requires
            old(self)@ is None,
        ensures
            final(self)@ == Some(aggregate),
    {
        self.acc = Some(aggregate);
    }

    /// Take the aggregate of the burst, for emission. The next element starts a
    /// new burst.
    pub fn take(&mut self) -> (r: Option<U>)
        ensures
            r == old(self)@,
            final(self)@ is None,
    {
        self.acc.take()
    }
}

/// The aggregate of a burst.
pub open spec fn folded<T, U>(
    burst: Seq<T>,
    seed: spec_fn(T) -> U,
    fold: spec_fn(U, T) -> U,
) -> Option<U>
    decreases burst.len(),
{
    if burst.len() == 0 {
        None
    } else {
        match folded(burst.drop_last(), seed, fold) {
            None => Some(seed(burst.last())),
            Some(prev) => Some(fold(prev, burst.last())),
        }
    }
}

/// What a step makes of an element.
pub open spec fn merged<T, U>(
    step: Merge<T, U>,
    seed: spec_fn(T) -> U,
    fold: spec_fn(U, T) -> U,
) -> U {
    match step {
        Merge::Seed(item) => seed(item),
        Merge::Fold(prev, item) => fold(prev, item),
    }
}

/// Merging one more element and putting it back gives the aggregate of the
/// longer burst: what is taken is the fold of the burst since the last time.
pub proof fn merging_folds_the_burst<T, U>(
    burst: Seq<T>,
    item: T,
    seed: spec_fn(T) -> U,
    fold: spec_fn(U, T) -> U,
)
    ensures
        folded(burst.push(item), seed, fold) == Some(
            merged(
                match folded(burst, seed, fold) {
                    None => Merge::Seed(item),
                    Some(prev) => Merge::Fold(prev, item),
                },
                seed,
                fold,
            ),
        ),
{
    assert(burst.push(item).drop_last() =~= burst);
}

// ---------------------------------------------------------------------------
// Expand
// ---------------------------------------------------------------------------
/// What a source has to offer when it is asked.
#[derive(Debug, Clone, Copy, PartialEq, Eq)]
pub enum Upstream<T> {
    /// The next element.
    Ready(T),
    /// Nothing yet.
    Pending,
    /// Nothing more.
    Ended,
}

/// What to do next.
#[derive(Debug, Clone, Copy, PartialEq, Eq, Structural)]
pub enum ExpandStep {
    /// Emit the element, which is the latest now.
    Emit,
    /// Emit the next synthetic value.
    EmitSynthetic,
    /// Extrapolate from the latest element: its synthetic values are those to
    /// emit from now on.
    Extrapolate,
    /// Wait for the source.
    Wait,
    /// All is emitted.
    Finish,
}

/// Decides what comes next where a source may be slower than who reads it: its
/// elements, and in between and behind the end what is extrapolated from the
/// latest of them.
pub struct Expand<T> {
    last: Option<T>,
    extrapolated: bool,
}

/// The model of [`Expand`].
pub struct ExpandView<T> {
    /// The latest element.
    pub last: Option<T>,
    /// Whether it was extrapolated from already.
    pub extrapolated: bool,
}

impl<T> View for Expand<T> {
    type V = ExpandView<T>;

    closed spec fn view(&self) -> ExpandView<T> {
        ExpandView { last: self.last, extrapolated: self.extrapolated }
    }
}

impl<T> ExpandView<T> {
    /// No element yet.
    pub open spec fn fresh() -> ExpandView<T> {
        ExpandView { last: None, extrapolated: false }
    }

    /// What is done where the source has `upstream` to offer and, of the
    /// synthetic values of the latest element, some are `left` or not: an
    /// element goes first, then a synthetic value.
    pub open spec fn decided(self, upstream: Upstream<T>, left: bool) -> (
        ExpandView<T>,
        ExpandStep,
    ) {
        match upstream {
            Upstream::Ready(item) => (
                ExpandView { last: Some(item), extrapolated: false },
                ExpandStep::Emit,
            ),
            _ => if self.last is Some && !self.extrapolated {
                (ExpandView { extrapolated: true, ..self }, ExpandStep::Extrapolate)
            } else if self.last is Some && left {
                (self, ExpandStep::EmitSynthetic)
            } else if upstream is Ended {
                (self, ExpandStep::Finish)
            } else {
                (self, ExpandStep::Wait)
            },
        }
    }
}

impl<T> Expand<T> {
    /// No element yet.
    pub fn new() -> (r: Expand<T>)
        ensures
            r@ == ExpandView::<T>::fresh(),
    {
        Expand { last: None, extrapolated: false }
    }

    /// What to do next. `left` says whether synthetic values of the latest
    /// element are left.
    pub fn step(&mut self, upstream: Upstream<T>, left: bool) -> (r: ExpandStep)
        ensures
            (final(self)@, r) == old(self)@.decided(upstream, left),
    {
        let ended: bool = match upstream {
            Upstream::Ready(item) => {
                self.last = Some(item);
                self.extrapolated = false;
                return ExpandStep::Emit;
            },
            Upstream::Pending => false,
            Upstream::Ended => true,
        };
        if self.last.is_some() && !self.extrapolated {
            self.extrapolated = true;
            ExpandStep::Extrapolate
        } else if self.last.is_some() && left {
            ExpandStep::EmitSynthetic
        } else if ended {
            ExpandStep::Finish
        } else {
            ExpandStep::Wait
        }
    }

    /// The latest element: the one to emit, or to extrapolate from.
    pub fn latest(&self) -> (r: Option<&T>)
        ensures
            match r {
                Some(item) => self@.last == Some(*item),
                None => self@.last is None,
            },
    {
        match &self.last {
            Some(item) => Some(item),
            None => None,
        }
    }
}

/// What comes out.
pub enum Output<T> {
    Element(T),
    Synthetic(T),
}

/// A source under way: the decisions, and the synthetic values that are left.
pub struct Expansion<T> {
    pub state: ExpandView<T>,
    pub left: Seq<T>,
}

impl<T> Expansion<T> {
    pub open spec fn fresh() -> Expansion<T> {
        Expansion { state: ExpandView::fresh(), left: Seq::empty() }
    }

    /// One step: what it emits, if anything, and where it leads. `extrapolate`
    /// gives the synthetic values of an element.
    pub open spec fn turn(self, upstream: Upstream<T>, extrapolate: spec_fn(T) -> Seq<T>) -> (
        Expansion<T>,
        Option<Output<T>>,
    ) {
        let (state, step) = self.state.decided(upstream, self.left.len() > 0);
        match step {
            ExpandStep::Emit => (
                Expansion { state, left: Seq::empty() },
                Some(Output::Element(state.last->0)),
            ),
            ExpandStep::EmitSynthetic => (
                Expansion { state, left: self.left.drop_first() },
                Some(Output::Synthetic(self.left[0])),
            ),
            ExpandStep::Extrapolate => (
                Expansion { state, left: extrapolate(state.last->0) },
                None,
            ),
            _ => (Expansion { state, left: self.left }, None),
        }
    }

    /// Where a run of offers leads.
    pub open spec fn run(self, offers: Seq<Upstream<T>>, extrapolate: spec_fn(T) -> Seq<T>) -> Expansion<
        T,
    >
        decreases offers.len(),
    {
        if offers.len() == 0 {
            self
        } else {
            self.run(offers.drop_last(), extrapolate).turn(offers.last(), extrapolate).0
        }
    }

    /// What a run of offers emits.
    pub open spec fn emitted(
        self,
        offers: Seq<Upstream<T>>,
        extrapolate: spec_fn(T) -> Seq<T>,
    ) -> Seq<Output<T>>
        decreases offers.len(),
    {
        if offers.len() == 0 {
            Seq::empty()
        } else {
            let before = self.emitted(offers.drop_last(), extrapolate);
            match self.run(offers.drop_last(), extrapolate).turn(offers.last(), extrapolate).1 {
                Some(output) => before.push(output),
                None => before,
            }
        }
    }

    /// The synthetic values that are still to come where no element does.
    pub open spec fn owed(self, extrapolate: spec_fn(T) -> Seq<T>) -> Seq<T> {
        match self.state.last {
            None => Seq::empty(),
            Some(item) => if self.state.extrapolated {
                self.left
            } else {
                extrapolate(item)
            },
        }
    }
}

/// The elements among outputs, in order.
pub open spec fn elements<T>(outputs: Seq<Output<T>>) -> Seq<T>
    decreases outputs.len(),
{
    if outputs.len() == 0 {
        Seq::empty()
    } else {
        match outputs.last() {
            Output::Element(item) => elements(outputs.drop_last()).push(item),
            Output::Synthetic(_) => elements(outputs.drop_last()),
        }
    }
}

/// The elements that a source offered, in order.
pub open spec fn offered<T>(offers: Seq<Upstream<T>>) -> Seq<T>
    decreases offers.len(),
{
    if offers.len() == 0 {
        Seq::empty()
    } else {
        match offers.last() {
            Upstream::Ready(item) => offered(offers.drop_last()).push(item),
            _ => offered(offers.drop_last()),
        }
    }
}

/// Elements pass in order: whatever is extrapolated in between, the elements that
/// come out are those that the source offered.
pub proof fn elements_pass_in_order<T>(
    start: Expansion<T>,
    offers: Seq<Upstream<T>>,
    extrapolate: spec_fn(T) -> Seq<T>,
)
    ensures
        elements(start.emitted(offers, extrapolate)) == offered(offers),
    decreases offers.len(),
{
    if offers.len() > 0 {
        elements_pass_in_order(start, offers.drop_last(), extrapolate);
        let before = start.emitted(offers.drop_last(), extrapolate);
        let output = start.run(offers.drop_last(), extrapolate).turn(offers.last(), extrapolate).1;
        if output is Some {
            assert(before.push(output->0).drop_last() =~= before);
        }
    }
}

/// Synthetic values are those of the latest element: what is left is always what
/// its extrapolation has not yielded yet.
pub proof fn synthetic_values_are_of_the_latest_element<T>(
    offers: Seq<Upstream<T>>,
    extrapolate: spec_fn(T) -> Seq<T>,
)
    ensures
        ({
            let now = Expansion::<T>::fresh().run(offers, extrapolate);
            match now.state.last {
                Some(item) => now.state.extrapolated ==> exists|taken: int|
                    0 <= taken <= extrapolate(item).len() && now.left == #[trigger] extrapolate(
                        item,
                    ).skip(taken),
                None => now.left.len() == 0 && !now.state.extrapolated,
            }
        }),
    decreases offers.len(),
{
    if offers.len() > 0 {
        synthetic_values_are_of_the_latest_element(offers.drop_last(), extrapolate);
        let before = Expansion::<T>::fresh().run(offers.drop_last(), extrapolate);
        let (state, step) = before.state.decided(offers.last(), before.left.len() > 0);
        if step == ExpandStep::Extrapolate {
            let all = extrapolate(state.last->0);
            assert(all.skip(0) =~= all);
        } else if step == ExpandStep::EmitSynthetic {
            let all = extrapolate(state.last->0);
            let taken = choose|taken: int|
                0 <= taken <= all.len() && before.left == #[trigger] all.skip(taken);
            assert(before.left.drop_first() =~= all.skip(taken + 1));
        } else if before.state.last is Some && before.state.extrapolated && step
            != ExpandStep::Emit {
            let all = extrapolate(state.last->0);
            let taken = choose|taken: int|
                0 <= taken <= all.len() && before.left == #[trigger] all.skip(taken);
            assert(before.left == all.skip(taken));
        }
    }
}

/// What an offer leads to: an element is emitted, whatever is left of the
/// extrapolation before it, and is the latest from then on. Where the source has
/// no element, for now or for good, the latest one is extrapolated from once, and
/// its synthetic values go out while some are left; then an idle source is waited
/// for and an ended one is finished. Without any element there is nothing to
/// extrapolate from.
pub proof fn elements_go_before_synthetic_values<T>(
    s: ExpandView<T>,
    upstream: Upstream<T>,
    left: bool,
)
    ensures
        ({
            let (after, step) = s.decided(upstream, left);
            &&& upstream matches Upstream::Ready(item) ==> {
                &&& step == ExpandStep::Emit
                &&& after.last == Some(item)
                &&& !after.extrapolated
            }
            &&& !(upstream is Ready) ==> {
                &&& step != ExpandStep::Emit
                &&& after.last == s.last
                &&& s.last is Some && !s.extrapolated ==> step == ExpandStep::Extrapolate
                    && after.extrapolated
                &&& s.last is None || s.extrapolated ==> after.extrapolated == s.extrapolated
                &&& s.last is Some && s.extrapolated && left ==> step == ExpandStep::EmitSynthetic
                &&& s.last is None || (s.extrapolated && !left) ==> step == if upstream is Ended {
                    ExpandStep::Finish
                } else {
                    ExpandStep::Wait
                }
            }
        }),
{
}

/// `n` times the answer that there is nothing more.
pub open spec fn ended<T>(n: nat) -> Seq<Upstream<T>> {
    Seq::new(n, |i: int| Upstream::Ended)
}

/// Behind the end, the extrapolation of the last element is drained: what comes
/// out is exactly what is owed, in order, and only then is all emitted.
pub proof fn extrapolation_is_drained_at_the_end<T>(
    start: Expansion<T>,
    extrapolate: spec_fn(T) -> Seq<T>,
    n: nat,
)
    requires
        start.state.last is None ==> !start.state.extrapolated,
    ensures
        ({
            let owed = start.owed(extrapolate);
            let asked = if start.state.last is Some && !start.state.extrapolated {
                1nat
            } else {
                0nat
            };
            let now = start.run(ended(n), extrapolate);
            let out = start.emitted(ended(n), extrapolate);
            let count = if n <= asked {
                0int
            } else if n - asked <= owed.len() {
                n - asked
            } else {
                owed.len() as int
            };
            &&& out =~= owed.take(count).map_values(|item: T| Output::Synthetic(item))
            &&& now.state.decided(Upstream::Ended, now.left.len() > 0).1 == ExpandStep::Finish
                <==> n >= asked + owed.len()
        }),
    decreases n,
{
    let owed = start.owed(extrapolate);
    let asked = if start.state.last is Some && !start.state.extrapolated {
        1nat
    } else {
        0nat
    };
    lemma_state_behind_the_end(start, extrapolate, n);
    if n == 0 {
        assert(owed.take(0).map_values(|item: T| Output::Synthetic(item)) =~= Seq::<
            Output<T>,
        >::empty());
    } else {
        let k = (n - 1) as nat;
        extrapolation_is_drained_at_the_end(start, extrapolate, k);
        lemma_state_behind_the_end(start, extrapolate, k);
        assert(ended::<T>(n).drop_last() =~= ended::<T>(k));
        let before = start.run(ended(k), extrapolate);
        if k >= asked && k - asked < owed.len() {
            assert(before.left =~= owed.skip(k - asked));
            assert(owed.take(k - asked + 1).map_values(|item: T| Output::Synthetic(item))
                =~= owed.take(k - asked).map_values(|item: T| Output::Synthetic(item)).push(
                Output::Synthetic(owed[k - asked]),
            ));
        }
    }
}

/// Where a source stands after it answered `n` times that there is nothing more.
proof fn lemma_state_behind_the_end<T>(
    start: Expansion<T>,
    extrapolate: spec_fn(T) -> Seq<T>,
    n: nat,
)
    requires
        start.state.last is None ==> !start.state.extrapolated,
    ensures
        ({
            let owed = start.owed(extrapolate);
            let asked = if start.state.last is Some && !start.state.extrapolated {
                1nat
            } else {
                0nat
            };
            let now = start.run(ended(n), extrapolate);
            &&& now.state.last == start.state.last
            &&& start.state.last is Some ==> (now.state.extrapolated <==> n >= asked)
            &&& start.state.last is Some && n >= asked ==> now.left =~= owed.skip(
                if n - asked <= owed.len() {
                    n - asked
                } else {
                    owed.len() as int
                },
            )
        }),
    decreases n,
{
    let owed = start.owed(extrapolate);
    if n > 0 {
        let k = (n - 1) as nat;
        lemma_state_behind_the_end(start, extrapolate, k);
        assert(ended::<T>(n).drop_last() =~= ended::<T>(k));
    }
}

// ---------------------------------------------------------------------------
// Back-off
// ---------------------------------------------------------------------------
/// The producer asks to be left alone for some seconds.
#[derive(Debug, Clone, Copy, PartialEq, Eq, Structural)]
pub struct RetryAfter {
    pub seconds: u64,
}

/// Delays what comes behind an element that asks for it. The element itself goes
/// through, and nothing is dropped.
pub struct Backoff {
    pending: Option<u64>,
}

impl View for Backoff {
    type V = Option<u64>;

    closed spec fn view(&self) -> Option<u64> {
        self.pending
    }
}

/// The pause, in seconds, that an element asks for.
pub open spec fn pause_of<T>(item: Result<T, RetryAfter>) -> Option<u64> {
    match item {
        Ok(_) => None,
        Err(ra) => if ra.seconds > 0 {
            Some(ra.seconds)
        } else {
            None
        },
    }
}

impl Backoff {
    /// No pause is due.
    pub fn new() -> (r: Backoff)
        ensures
            r@ is None,
    {
        Backoff { pending: None }
    }

    /// The pause to make before the next element is asked for. It is made once.
    pub fn take_pause(&mut self) -> (r: Option<u64>)
        ensures
            r == old(self)@,
            final(self)@ is None,
    {
        self.pending.take()
    }

    /// An element goes through.
    pub fn saw<T>(&mut self, item: &Result<T, RetryAfter>)
        requires
            old(self)@ is None,
        ensures
            final(self)@ == pause_of(*item),
    {
        if let Err(ra) = item {
            if ra.seconds > 0 {
                self.pending = Some(ra.seconds);
            }
        }
    }
}

/// An element asks for a pause exactly if it is a request to retry after more
/// than zero seconds, and then for that many seconds.
pub proof fn pauses_are_as_asked<T>(item: Result<T, RetryAfter>)
    ensures
        item is Ok ==> pause_of(item) is None,
        item matches Err(ra) ==> ra.seconds == 0 ==> pause_of(item) is None,
        item matches Err(ra) ==> ra.seconds > 0 ==> pause_of(item) == Some(ra.seconds),
{
}

/// A burst of one element is its seed, and every further element is folded into
/// what the elements before it gave; no element, no aggregate.
pub proof fn bursts_fold_from_the_left<T, U>(
    burst: Seq<T>,
    item: T,
    seed: spec_fn(T) -> U,
    fold: spec_fn(U, T) -> U,
)
    ensures
        folded(Seq::<T>::empty(), seed, fold) is None,
        folded(seq![item], seed, fold) == Some(seed(item)),
        burst.len() > 0 ==> {
            &&& folded(burst, seed, fold) is Some
            &&& folded(burst.push(item), seed, fold) == Some(
                fold(folded(burst, seed, fold)->0, item),
            )
        },
    decreases burst.len(),
{
    reveal_with_fuel(folded, 2);
    assert(seq![item].drop_last() =~= Seq::<T>::empty());
    assert(burst.push(item).drop_last() =~= burst);
    if burst.len() > 0 {
        bursts_fold_from_the_left(burst.drop_last(), burst.last(), seed, fold);
        assert(burst.drop_last().push(burst.last()) =~= burst);
    }
}

} // verus!
