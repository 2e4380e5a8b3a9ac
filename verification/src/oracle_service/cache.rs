//! The price cache: for each pair, the last tick that was accepted.

use crate::decimal::{DecimalView, FixedDecimal};
use crate::utils::str_eq;
use vstd::prelude::*;

verus! {

/// One observation of the oracle: the price of a pair at a moment.
#[derive(Debug)]
pub struct Tick {
    pub pair: String,
    pub price: FixedDecimal,
    pub ts_ms: i64,
}

/// A tick with its symbol as a sequence of characters and its price as a
/// number.
pub struct TickView {
    pub pair: Seq<char>,
    pub price: DecimalView,
    pub ts_ms: i64,
}

impl View for Tick {
    type V = TickView;

    open spec fn view(&self) -> TickView {
        TickView { pair: self.pair@, price: self.price@, ts_ms: self.ts_ms }
    }
}

impl Clone for Tick {
    fn clone(&self) -> (r: Tick)
        ensures
            r == *self,
    {
        Tick { pair: self.pair.clone(), price: self.price, ts_ms: self.ts_ms }
    }
}

/// Whether `ticks[i]` is the tick of `pair`.
spec fn at(ticks: Seq<Tick>, pair: Seq<char>, i: int) -> bool {
    0 <= i < ticks.len() && ticks[i].pair@ == pair
}

/// No pair has two ticks.
spec fn one_tick_per_pair(ticks: Seq<Tick>) -> bool {
    forall|i: int, j: int|
        0 <= i < j < ticks.len() ==> (#[trigger] ticks[i]).pair@ != (#[trigger] ticks[j]).pair@
}

/// The last tick of each pair. Readers get whole ticks: a price and a
/// timestamp that were written together.
pub struct OracleCache {
    ticks: Vec<Tick>,
}

impl View for OracleCache {
    type V = Map<Seq<char>, TickView>;

    closed spec fn view(&self) -> Map<Seq<char>, TickView> {
        Map::new(
            |pair: Seq<char>| exists|i: int| at(self.ticks@, pair, i),
            |pair: Seq<char>| self.ticks@[choose|i: int| at(self.ticks@, pair, i)]@,
        )
    }
}

impl OracleCache {
    #[verifier::type_invariant]
    spec fn well_formed(self) -> bool {
        one_tick_per_pair(self.ticks@)
    }

    /// The index of the tick of `pair`, or the number of ticks if it has none.
    fn position(ticks: &Vec<Tick>, pair: &str) -> (i: usize)
        ensures
            i <= ticks.len(),
            i < ticks.len() ==> at(ticks@, pair@, i as int),
            i == ticks.len() ==> forall|j: int| !at(ticks@, pair@, j),
    {
        let mut i: usize = 0;
        while i < ticks.len()
            invariant
                i <= ticks.len(),
                forall|j: int| 0 <= j < i ==> !at(ticks@, pair@, j),
            decreases ticks.len() - i,
        {
            if str_eq(ticks[i].pair.as_str(), pair) {
                return i;
            }
            i += 1;
        }
        i
    }

    /// The cache that has seen no tick.
    pub fn new() -> (cache: OracleCache)
        ensures
            cache@ == Map::<Seq<char>, TickView>::empty(),
    {
        let cache = OracleCache { ticks: Vec::new() };
        assert(cache@ =~= Map::<Seq<char>, TickView>::empty());
        cache
    }

    /// Makes `t` the tick of its pair. The last write wins; the ticks of
    /// other pairs stay as they are.
    pub fn set(&mut self, t: Tick)
        ensures
            final(self)@ == old(self)@.insert(t.pair@, t@),
    {
        proof {
            use_type_invariant(&*self);
        }
        let ghost before = self.ticks@;
        let ghost tick = t;
        let mut ticks: Vec<Tick> = Vec::new();
        std::mem::swap(&mut ticks, &mut self.ticks);
        let i = Self::position(&ticks, t.pair.as_str());
        if i < ticks.len() {
            ticks.set(i, t);
        } else {
            ticks.push(t);
        }
        let ghost after = ticks@;
        assert(one_tick_per_pair(after)) by {
            assert forall|a: int, b: int| 0 <= a < b < after.len() implies (#[trigger] after[a]).pair@
                != (#[trigger] after[b]).pair@ by {
                if i < before.len() {
                    assert(before[a].pair@ != before[b].pair@);
                    assert(after[a].pair@ == before[a].pair@);
                    assert(after[b].pair@ == before[b].pair@);
                } else if b < before.len() {
                    assert(before[a].pair@ != before[b].pair@);
                } else {
                    assert(!at(before, tick.pair@, a));
                }
            }
        }
        self.ticks = ticks;
        proof {
            let old_map = old(self)@;
            let new_map = self@;
            assert forall|pair: Seq<char>| #[trigger]
                new_map.contains_key(pair) == old_map.insert(tick.pair@, tick@).contains_key(
                    pair,
                ) by {
                if new_map.contains_key(pair) {
                    let j = choose|j: int| at(after, pair, j);
                    if pair != tick.pair@ {
                        assert(at(before, pair, j));
                    }
                }
                if old_map.insert(tick.pair@, tick@).contains_key(pair) {
                    if pair == tick.pair@ {
                        assert(at(after, pair, i as int));
                    } else {
                        let j = choose|j: int| at(before, pair, j);
                        assert(at(after, pair, j));
                    }
                }
            }
            assert forall|pair: Seq<char>| #[trigger] new_map.contains_key(pair) implies new_map[pair]
                == old_map.insert(tick.pair@, tick@)[pair] by {
                let j = choose|j: int| at(after, pair, j);
                if pair == tick.pair@ {
                    assert(at(after, pair, i as int));
                    assert(j == i);
                } else {
                    assert(at(before, pair, j));
                    let k = choose|k: int| at(before, pair, k);
                    assert(k == j);
                }
            }
            assert(new_map =~= old_map.insert(tick.pair@, tick@));
        }
    }

    /// The price and timestamp of the last tick of `pair`, or `None` if no
    /// tick of that pair was ever set.
    pub fn get_price(&self, pair: &str) -> (r: Option<(FixedDecimal, i64)>)
        ensures
            match r {
                Some((price, ts_ms)) => self@.contains_key(pair@) && price@ == self@[pair@].price
                    && ts_ms == self@[pair@].ts_ms,
                None => !self@.contains_key(pair@),
            },
    {
        proof {
            use_type_invariant(self);
        }
        let i = Self::position(&self.ticks, pair);
        if i < self.ticks.len() {
            proof {
                let j = choose|j: int| at(self.ticks@, pair@, j);
                assert(j == i);
            }
            Some((self.ticks[i].price, self.ticks[i].ts_ms))
        } else {
            None
        }
    }

    /// The pairs that have a tick, each once.
    pub fn pairs(&self) -> (r: Vec<String>)
        ensures
            forall|pair: Seq<char>|
                self@.contains_key(pair) <==> exists|i: int|
                    0 <= i < r.len() && (#[trigger] r[i])@ == pair,
            forall|i: int, j: int| 0 <= i < j < r.len() ==> (#[trigger] r[i])@ != (#[trigger] r[j])@,
            r.len() == self@.dom().len(),
    {
        proof {
            use_type_invariant(self);
        }
        let mut out: Vec<String> = Vec::new();
        let mut i: usize = 0;
        while i < self.ticks.len()
            invariant
                i <= self.ticks.len(),
                out.len() == i,
                forall|k: int| 0 <= k < i ==> (#[trigger] out[k])@ == self.ticks[k].pair@,
            decreases self.ticks.len() - i,
        {
            out.push(self.ticks[i].pair.clone());
            i += 1;
        }
        proof {
            assert forall|pair: Seq<char>|
                self@.contains_key(pair) <==> exists|i: int|
                    0 <= i < out.len() && (#[trigger] out[i])@ == pair by {
                if self@.contains_key(pair) {
                    let j = choose|j: int| at(self.ticks@, pair, j);
                    assert(out[j]@ == pair);
                }
                if exists|i: int| 0 <= i < out.len() && (#[trigger] out[i])@ == pair {
                    let j = choose|i: int| 0 <= i < out.len() && (#[trigger] out[i])@ == pair;
                    assert(at(self.ticks@, pair, j));
                }
            }
            lemma_domain_size(self.ticks@);
            assert(self@.dom() =~= pairs_of(self.ticks@));
        }
        out
    }
}

/// The cache after a sequence of writes, each made as `set` makes it.
pub open spec fn after_writes(start: Map<Seq<char>, TickView>, writes: Seq<TickView>) -> Map<
    Seq<char>,
    TickView,
>
    decreases writes.len(),
{
    if writes.len() == 0 {
        start
    } else {
        after_writes(start, writes.drop_last()).insert(writes.last().pair, writes.last())
    }
}

/// Whether `writes[k]` is the last write for `pair`.
pub open spec fn last_write(writes: Seq<TickView>, pair: Seq<char>, k: int) -> bool {
    &&& 0 <= k < writes.len()
    &&& writes[k].pair == pair
    &&& forall|j: int| k < j < writes.len() ==> (#[trigger] writes[j]).pair != pair
}

/// Whether no write is for `pair`.
pub open spec fn never_written(writes: Seq<TickView>, pair: Seq<char>) -> bool {
    forall|j: int| 0 <= j < writes.len() ==> (#[trigger] writes[j]).pair != pair
}

/// A reader never sees a mixed tick: after any sequence of writes, what the
/// cache holds for a pair is one whole tick, the last that was written for
/// that pair. The price and the timestamp that `get_price` returns are
/// those of that one tick.
pub proof fn lemma_reads_see_the_last_write(
    start: Map<Seq<char>, TickView>,
    writes: Seq<TickView>,
    pair: Seq<char>,
    k: int,
)
    requires
        last_write(writes, pair, k),
    ensures
        after_writes(start, writes).contains_key(pair),
        after_writes(start, writes)[pair] == writes[k],
    decreases writes.len(),
{
    let earlier = writes.drop_last();
    if k < writes.len() - 1 {
        assert(writes[writes.len() - 1].pair != pair);
        assert(earlier[k] == writes[k]);
        assert forall|j: int| k < j < earlier.len() implies (#[trigger] earlier[j]).pair
            != pair by {
            assert(earlier[j] == writes[j]);
        }
        lemma_reads_see_the_last_write(start, earlier, pair, k);
    }
}

/// Writes for other pairs leave a pair as it was: where no write is for
/// `pair`, the cache holds for it what it held before, or nothing if it
/// held nothing.
pub proof fn lemma_other_writes_change_nothing(
    start: Map<Seq<char>, TickView>,
    writes: Seq<TickView>,
    pair: Seq<char>,
)
    requires
        never_written(writes, pair),
    ensures
        after_writes(start, writes).contains_key(pair) <==> start.contains_key(pair),
        start.contains_key(pair) ==> after_writes(start, writes)[pair] == start[pair],
    decreases writes.len(),
{
    if writes.len() > 0 {
        let earlier = writes.drop_last();
        assert(writes[writes.len() - 1].pair != pair);
        assert forall|j: int| 0 <= j < earlier.len() implies (#[trigger] earlier[j]).pair
            != pair by {
            assert(earlier[j] == writes[j]);
        }
        lemma_other_writes_change_nothing(start, earlier, pair);
    }
}

/// The set of pairs that have a tick among `ticks`.
spec fn pairs_of(ticks: Seq<Tick>) -> Set<Seq<char>> {
    Set::new(|pair: Seq<char>| exists|i: int| at(ticks, pair, i))
}

/// With one tick per pair there are as many pairs as ticks.
proof fn lemma_domain_size(ticks: Seq<Tick>)
    requires
        one_tick_per_pair(ticks),
    ensures
        pairs_of(ticks).finite(),
        pairs_of(ticks).len() == ticks.len(),
    decreases ticks.len(),
{
    if ticks.len() == 0 {
        assert(pairs_of(ticks) =~= Set::<Seq<char>>::empty());
    } else {
        let init = ticks.drop_last();
        let last = ticks.last();
        assert(one_tick_per_pair(init)) by {
            assert forall|i: int, j: int| 0 <= i < j < init.len() implies (#[trigger] init[i]).pair@
                != (#[trigger] init[j]).pair@ by {
                assert(init[i] == ticks[i]);
                assert(init[j] == ticks[j]);
            }
        }
        lemma_domain_size(init);
        assert(!pairs_of(init).contains(last.pair@)) by {
            if pairs_of(init).contains(last.pair@) {
                let i = choose|i: int| at(init, last.pair@, i);
                assert(init[i] == ticks[i]);
                assert(ticks[ticks.len() - 1] == last);
            }
        }
        assert(pairs_of(ticks) =~= pairs_of(init).insert(last.pair@)) by {
            assert forall|pair: Seq<char>| pairs_of(ticks).contains(pair) implies pairs_of(
                init,
            ).insert(last.pair@).contains(pair) by {
                let i = choose|i: int| at(ticks, pair, i);
                if i < init.len() {
                    assert(init[i] == ticks[i]);
                    assert(at(init, pair, i));
                }
            }
            assert forall|pair: Seq<char>| pairs_of(init).insert(last.pair@).contains(
                pair,
            ) implies pairs_of(ticks).contains(pair) by {
                if pair == last.pair@ {
                    assert(at(ticks, pair, ticks.len() - 1));
                } else {
                    let i = choose|i: int| at(init, pair, i);
                    assert(init[i] == ticks[i]);
                    assert(at(ticks, pair, i));
                }
            }
        }
    }
}

impl Default for OracleCache {
    fn default() -> (cache: OracleCache)
        ensures
            cache@ == Map::<Seq<char>, TickView>::empty(),
    {
        OracleCache::new()
    }
}

} // verus!
