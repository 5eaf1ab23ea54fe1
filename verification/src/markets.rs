//! What the liquidator keeps of each lending market between iterations:
//! the latest reserves, prices and obligations, and whether the market has
//! been read at least once.

use crate::lending::{key_eq, Enhanced, Obligation, OracleData, Pubkey, Reserve};
use crate::model::Resef;
use vstd::prelude::*;

verus! {

/// A market's reserves, price data and obligations, as last read.
#[derive(Debug)]
pub struct MarketData {
    pub oracle_data: Vec<OracleData>,
    pub obligations: Vec<Enhanced<Obligation>>,
    pub reserves: Vec<Enhanced<Reserve>>,
}

impl MarketData {
    /// No data.
    pub fn empty() -> (r: MarketData)
        ensures
            r.oracle_data@.len() == 0,
            r.obligations@.len() == 0,
            r.reserves@.len() == 0,
    {
        MarketData { oracle_data: Vec::new(), obligations: Vec::new(), reserves: Vec::new() }
    }
}

/// `i` is the first obligation stored at address `key`.
pub open spec fn is_first_obligation(s: Seq<Enhanced<Obligation>>, key: Seq<u8>, i: int) -> bool {
    &&& 0 <= i < s.len()
    &&& s[i].pubkey@ == key
    &&& forall|j: int| 0 <= j < i ==> s[j].pubkey@ != key
}

/// The obligation kept for each address: the first stored there.
pub open spec fn obligation_at(s: Seq<Enhanced<Obligation>>, key: Seq<u8>) -> Option<
    Enhanced<Obligation>,
> {
    if exists|i: int| is_first_obligation(s, key, i) {
        Some(s[choose|i: int| is_first_obligation(s, key, i)])
    } else {
        None
    }
}

proof fn lemma_first_obligation(s: Seq<Enhanced<Obligation>>, key: Seq<u8>, i: int)
    requires
        is_first_obligation(s, key, i),
    ensures
        obligation_at(s, key) == Some(s[i]),
{
    let c = choose|c: int| is_first_obligation(s, key, c);
    assert(c == i) by {
        if c < i {
            assert(s[c].pubkey@ != key);
        }
        if c > i {
            assert(s[i].pubkey@ != key);
        }
    }
}

/// No two obligations are stored at one address.
pub open spec fn distinct_keys(s: Seq<Enhanced<Obligation>>) -> bool {
    forall|i: int, j: int|
        0 <= i < j < s.len() ==> #[trigger] s[i].pubkey@ != #[trigger] s[j].pubkey@
}

/// The last obligation of `s` stored at `key`: what a map filled with `s`
/// in order holds there.
pub open spec fn last_obligation_at(s: Seq<Enhanced<Obligation>>, key: Seq<u8>) -> Option<
    Enhanced<Obligation>,
>
    decreases s.len(),
{
    if s.len() == 0 {
        None
    } else if s.last().pubkey@ == key {
        Some(s.last())
    } else {
        last_obligation_at(s.drop_last(), key)
    }
}

/// The state kept for one market.
#[derive(Debug)]
pub struct MarketReservesRetriever {
    inner: MarketData,
    lending_market: String,
    input_reserves: Vec<Resef>,
    initialized: bool,
}

impl MarketReservesRetriever {
    /// No two obligations are kept at one address.
    #[verifier::type_invariant]
    spec fn keys_distinct(self) -> bool {
        distinct_keys(self.inner.obligations@)
    }

    /// The market's address text.
    pub closed spec fn market(&self) -> Seq<char> {
        self.lending_market@
    }

    /// The market's configured reserves.
    pub closed spec fn configured_reserves(&self) -> Seq<Resef> {
        self.input_reserves@
    }

    /// Whether market data has been stored since creation.
    pub closed spec fn is_initialized(&self) -> bool {
        self.initialized
    }

    /// The price data last stored.
    pub closed spec fn oracle_data(&self) -> Seq<OracleData> {
        self.inner.oracle_data@
    }

    /// The reserves last stored.
    pub closed spec fn reserves(&self) -> Seq<Enhanced<Reserve>> {
        self.inner.reserves@
    }

    /// The obligations kept, one per address.
    pub closed spec fn obligations(&self) -> Seq<Enhanced<Obligation>> {
        self.inner.obligations@
    }

    /// State for a market that has not been read yet.
    pub fn new(lending_market: String, input_reserves: Vec<Resef>) -> (r: MarketReservesRetriever)
        ensures
            r.market() == lending_market@,
            r.configured_reserves() == input_reserves@,
            !r.is_initialized(),
            r.oracle_data().len() == 0,
            r.obligations().len() == 0,
            r.reserves().len() == 0,
    {
        MarketReservesRetriever {
            inner: MarketData::empty(),
            lending_market,
            input_reserves,
            initialized: false,
        }
    }

    /// The market's address text.
    pub fn lending_market(&self) -> (r: &String)
        ensures
            r@ == self.market(),
    {
        &self.lending_market
    }

    /// The market's configured reserves.
    pub fn input_reserves(&self) -> (r: &Vec<Resef>)
        ensures
            r@ == self.configured_reserves(),
    {
        &self.input_reserves
    }

    /// The data last stored.
    pub fn data(&self) -> (r: &MarketData)
        ensures
            r.oracle_data@ == self.oracle_data(),
            r.reserves@ == self.reserves(),
            r.obligations@ == self.obligations(),
            distinct_keys(self.obligations()),
    {
        proof {
            use_type_invariant(self);
        }
        &self.inner
    }

    /// Stores freshly read market data, one obligation per address (the
    /// last one given at it).
    pub fn update_market_data(&mut self, market_data: MarketData)
        ensures
            final(self).oracle_data() == market_data.oracle_data@,
            final(self).reserves() == market_data.reserves@,
            forall|k: Seq<u8>|
                #[trigger] obligation_at(final(self).obligations(), k) == last_obligation_at(
                    market_data.obligations@,
                    k,
                ),
            final(self).is_initialized(),
            final(self).market() == old(self).market(),
            final(self).configured_reserves() == old(self).configured_reserves(),
    {
        let MarketData { oracle_data, obligations, reserves } = market_data;
        let keyed = keyed_obligations(obligations);
        self.inner = MarketData { oracle_data, obligations: keyed, reserves };
        self.initialized = true;
    }

    /// Which obligations to read next: `None` (every obligation of the
    /// market) before the first read, afterwards the addresses already
    /// known.
    pub fn obligations_to_fetch(&self) -> (r: Option<Vec<Pubkey>>)
        ensures
            !self.is_initialized() ==> r is None,
            self.is_initialized() ==> r is Some && r->Some_0@.len() == self.obligations().len()
                && forall|i: int|
                0 <= i < r->Some_0@.len() ==> #[trigger] r->Some_0@[i] == self.obligations()[i].pubkey,
    {
        if !self.initialized {
            return None;
        }
        let mut keys: Vec<Pubkey> = Vec::new();
        let mut i: usize = 0;
        while i < self.inner.obligations.len()
            invariant
                i <= self.inner.obligations@.len(),
                keys@.len() == i,
                forall|j: int| 0 <= j < i ==> #[trigger] keys@[j] == self.inner.obligations@[j].pubkey,
            decreases self.inner.obligations@.len() - i,
        {
            keys.push(self.inner.obligations[i].pubkey);
            i = i + 1;
        }
        Some(keys)
    }

    /// Replaces the stored obligation at the same address, or adds it.
    pub fn update_distinct_obligation(&mut self, obligation: Enhanced<Obligation>)
        ensures
            obligation_at(final(self).obligations(), obligation.pubkey@) == Some(obligation),
            forall|k: Seq<u8>|
                k != obligation.pubkey@ ==> #[trigger] obligation_at(final(self).obligations(), k)
                    == obligation_at(old(self).obligations(), k),
            final(self).reserves() == old(self).reserves(),
            final(self).oracle_data() == old(self).oracle_data(),
            final(self).is_initialized() == old(self).is_initialized(),
            final(self).market() == old(self).market(),
            final(self).configured_reserves() == old(self).configured_reserves(),
    {
        proof {
            use_type_invariant(&*self);
        }
        let mut obligations: Vec<Enhanced<Obligation>> = Vec::new();
        std::mem::swap(&mut obligations, &mut self.inner.obligations);
        insert_obligation(&mut obligations, obligation);
        self.inner.obligations = obligations;
    }
}

/// Stores `obligation` at its address in a list of distinct addresses:
/// replaces the one there, or appends it.
fn insert_obligation(v: &mut Vec<Enhanced<Obligation>>, obligation: Enhanced<Obligation>)
    requires
        distinct_keys(old(v)@),
    ensures
        distinct_keys(final(v)@),
        obligation_at(final(v)@, obligation.pubkey@) == Some(obligation),
        forall|k: Seq<u8>|
            k != obligation.pubkey@ ==> #[trigger] obligation_at(final(v)@, k) == obligation_at(
                old(v)@,
                k,
            ),
{
    let ghost before = v@;
    match position_of_obligation(v, &obligation.pubkey) {
        Some(i) => {
            v.set(i, obligation);
            proof {
                lemma_obligation_replaced(before, i as int, obligation);
                let t = before.update(i as int, obligation);
                assert forall|j: int, k: int| 0 <= j < k < t.len() implies #[trigger] t[j].pubkey@
                    != #[trigger] t[k].pubkey@ by {
                    assert(t[j].pubkey@ == before[j].pubkey@);
                    assert(t[k].pubkey@ == before[k].pubkey@);
                }
            }
        },
        None => {
            v.push(obligation);
            proof {
                lemma_obligation_appended(before, obligation);
                let t = before.push(obligation);
                assert forall|j: int, k: int| 0 <= j < k < t.len() implies #[trigger] t[j].pubkey@
                    != #[trigger] t[k].pubkey@ by {
                    assert(t[j] == before[j]);
                    if k < before.len() {
                        assert(t[k] == before[k]);
                    }
                }
            }
        },
    }
}

/// The obligations of `list`, one per address: the last one given there.
fn keyed_obligations(list: Vec<Enhanced<Obligation>>) -> (r: Vec<Enhanced<Obligation>>)
    ensures
        distinct_keys(r@),
        forall|k: Seq<u8>| #[trigger] obligation_at(r@, k) == last_obligation_at(list@, k),
{
    let ghost input = list@;
    let mut rest = list;
    let mut out: Vec<Enhanced<Obligation>> = Vec::new();
    let ghost mut done: int = 0;
    proof {
        assert(input.take(0) =~= Seq::<Enhanced<Obligation>>::empty());
        assert(rest@ =~= input.skip(0));
    }
    while rest.len() > 0
        invariant
            0 <= done <= input.len(),
            rest@ =~= input.skip(done),
            distinct_keys(out@),
            forall|k: Seq<u8>| #[trigger] obligation_at(out@, k) == last_obligation_at(
                input.take(done),
                k,
            ),
        decreases rest@.len(),
    {
        let ghost before = out@;
        let o = rest.remove(0);
        proof {
            assert(o == input[done]);
        }
        insert_obligation(&mut out, o);
        proof {
            let next = input.take(done + 1);
            assert(next.drop_last() =~= input.take(done));
            assert(next.last() == input[done]);
            assert forall|k: Seq<u8>| #[trigger] obligation_at(out@, k) == last_obligation_at(
                next,
                k,
            ) by {
                if k != o.pubkey@ {
                    assert(obligation_at(out@, k) == obligation_at(before, k));
                }
            }
            done = done + 1;
            assert(rest@ =~= input.skip(done));
        }
    }
    proof {
        assert(input.take(done) =~= input);
    }
    out
}

/// The position of the first obligation stored at `key`, if any.
fn position_of_obligation(s: &Vec<Enhanced<Obligation>>, key: &Pubkey) -> (r: Option<usize>)
    ensures
        match r {
            Some(i) => is_first_obligation(s@, key@, i as int),
            None => forall|j: int| 0 <= j < s@.len() ==> #[trigger] s@[j].pubkey@ != key@,
        },
{
    let mut i: usize = 0;
    while i < s.len()
        invariant
            i <= s@.len(),
            forall|j: int| 0 <= j < i ==> #[trigger] s@[j].pubkey@ != key@,
        decreases s@.len() - i,
    {
        if key_eq(&s[i].pubkey, key) {
            return Some(i);
        }
        i = i + 1;
    }
    None
}

proof fn lemma_obligation_replaced(s: Seq<Enhanced<Obligation>>, i: int, o: Enhanced<Obligation>)
    requires
        is_first_obligation(s, o.pubkey@, i),
    ensures
        obligation_at(s.update(i, o), o.pubkey@) == Some(o),
        forall|k: Seq<u8>|
            k != o.pubkey@ ==> #[trigger] obligation_at(s.update(i, o), k) == obligation_at(s, k),
{
    let t = s.update(i, o);
    assert(is_first_obligation(t, o.pubkey@, i));
    lemma_first_obligation(t, o.pubkey@, i);
    assert forall|k: Seq<u8>| k != o.pubkey@ implies #[trigger] obligation_at(t, k) == obligation_at(
        s,
        k,
    ) by {
        lemma_same_lookup_after_update(s, i, o, k);
    }
}

proof fn lemma_obligation_appended(s: Seq<Enhanced<Obligation>>, o: Enhanced<Obligation>)
    requires
        forall|j: int| 0 <= j < s.len() ==> #[trigger] s[j].pubkey@ != o.pubkey@,
    ensures
        obligation_at(s.push(o), o.pubkey@) == Some(o),
        forall|k: Seq<u8>|
            k != o.pubkey@ ==> #[trigger] obligation_at(s.push(o), k) == obligation_at(s, k),
{
    let t = s.push(o);
    assert(is_first_obligation(t, o.pubkey@, s.len() as int)) by {
        assert forall|j: int| 0 <= j < s.len() implies t[j].pubkey@ != o.pubkey@ by {
            assert(t[j] == s[j]);
        }
    }
    lemma_first_obligation(t, o.pubkey@, s.len() as int);
    assert forall|k: Seq<u8>| k != o.pubkey@ implies #[trigger] obligation_at(t, k) == obligation_at(
        s,
        k,
    ) by {
        lemma_same_lookup_after_push(s, o, k);
    }
}

proof fn lemma_same_lookup_after_update(
    s: Seq<Enhanced<Obligation>>,
    i: int,
    o: Enhanced<Obligation>,
    k: Seq<u8>,
)
    requires
        0 <= i < s.len(),
        s[i].pubkey@ == o.pubkey@,
        k != o.pubkey@,
    ensures
        obligation_at(s.update(i, o), k) == obligation_at(s, k),
{
    let t = s.update(i, o);
    if exists|j: int| is_first_obligation(s, k, j) {
        let j = choose|j: int| is_first_obligation(s, k, j);
        assert(j != i);
        assert forall|m: int| 0 <= m < j implies t[m].pubkey@ != k by {
            if m != i {
                assert(t[m] == s[m]);
            }
        }
        assert(is_first_obligation(t, k, j));
        lemma_first_obligation(t, k, j);
        lemma_first_obligation(s, k, j);
    } else {
        if exists|j: int| is_first_obligation(t, k, j) {
            let j = choose|j: int| is_first_obligation(t, k, j);
            assert(j != i);
            assert forall|m: int| 0 <= m < j implies s[m].pubkey@ != k by {
                if m != i {
                    assert(t[m] == s[m]);
                }
            }
            assert(s[j] == t[j]);
            assert(is_first_obligation(s, k, j));
        }
    }
}

proof fn lemma_same_lookup_after_push(s: Seq<Enhanced<Obligation>>, o: Enhanced<Obligation>, k: Seq<u8>)
    requires
        k != o.pubkey@,
    ensures
        obligation_at(s.push(o), k) == obligation_at(s, k),
{
    let t = s.push(o);
    if exists|j: int| is_first_obligation(s, k, j) {
        let j = choose|j: int| is_first_obligation(s, k, j);
        assert forall|m: int| 0 <= m < j implies t[m].pubkey@ != k by {
            assert(t[m] == s[m]);
        }
        assert(is_first_obligation(t, k, j));
        lemma_first_obligation(t, k, j);
        lemma_first_obligation(s, k, j);
    } else {
        if exists|j: int| is_first_obligation(t, k, j) {
            let j = choose|j: int| is_first_obligation(t, k, j);
            assert(j < s.len());
            assert forall|m: int| 0 <= m < j implies s[m].pubkey@ != k by {
                assert(t[m] == s[m]);
            }
            assert(s[j] == t[j]);
            assert(is_first_obligation(s, k, j));
        }
    }
}

/// The state of every market, by market address text.
#[derive(Debug)]
pub struct MarketsCapsule {
    markets: Vec<MarketReservesRetriever>,
}

/// `i` is the first market named `name`.
pub open spec fn is_first_market(s: Seq<MarketReservesRetriever>, name: Seq<char>, i: int) -> bool {
    &&& 0 <= i < s.len()
    &&& s[i].market() == name
    &&& forall|j: int| 0 <= j < i ==> s[j].market() != name
}

/// The state kept under a market name.
pub open spec fn market_at(s: Seq<MarketReservesRetriever>, name: Seq<char>) -> Option<
    MarketReservesRetriever,
> {
    if exists|i: int| is_first_market(s, name, i) {
        Some(s[choose|i: int| is_first_market(s, name, i)])
    } else {
        None
    }
}

proof fn lemma_first_market(s: Seq<MarketReservesRetriever>, name: Seq<char>, i: int)
    requires
        is_first_market(s, name, i),
    ensures
        market_at(s, name) == Some(s[i]),
{
    let c = choose|c: int| is_first_market(s, name, c);
    assert(c == i) by {
        if c < i {
            assert(s[c].market() != name);
        }
        if c > i {
            assert(s[i].market() != name);
        }
    }
}

proof fn lemma_market_update_keeps_others(
    s: Seq<MarketReservesRetriever>,
    i: int,
    r: MarketReservesRetriever,
    name: Seq<char>,
)
    requires
        0 <= i < s.len(),
        s[i].market() == r.market(),
        name != r.market(),
    ensures
        market_at(s.update(i, r), name) == market_at(s, name),
{
    let t = s.update(i, r);
    if exists|j: int| is_first_market(s, name, j) {
        let j = choose|j: int| is_first_market(s, name, j);
        assert(j != i);
        assert forall|m: int| 0 <= m < j implies t[m].market() != name by {
            if m != i {
                assert(t[m] == s[m]);
            }
        }
        assert(is_first_market(t, name, j));
        lemma_first_market(t, name, j);
        lemma_first_market(s, name, j);
    } else {
        if exists|j: int| is_first_market(t, name, j) {
            let j = choose|j: int| is_first_market(t, name, j);
            assert(j != i);
            assert forall|m: int| 0 <= m < j implies s[m].market() != name by {
                if m != i {
                    assert(t[m] == s[m]);
                }
            }
            assert(s[j] == t[j]);
            assert(is_first_market(s, name, j));
        }
    }
}

proof fn lemma_market_push_keeps_others(
    s: Seq<MarketReservesRetriever>,
    r: MarketReservesRetriever,
    name: Seq<char>,
)
    requires
        name != r.market(),
    ensures
        market_at(s.push(r), name) == market_at(s, name),
{
    let t = s.push(r);
    if exists|j: int| is_first_market(s, name, j) {
        let j = choose|j: int| is_first_market(s, name, j);
        assert forall|m: int| 0 <= m < j implies t[m].market() != name by {
            assert(t[m] == s[m]);
        }
        assert(is_first_market(t, name, j));
        lemma_first_market(t, name, j);
        lemma_first_market(s, name, j);
    } else {
        if exists|j: int| is_first_market(t, name, j) {
            let j = choose|j: int| is_first_market(t, name, j);
            assert(j < s.len());
            assert forall|m: int| 0 <= m < j implies s[m].market() != name by {
                assert(t[m] == s[m]);
            }
            assert(s[j] == t[j]);
            assert(is_first_market(s, name, j));
        }
    }
}

/// Replacing the first state kept under a name changes only what that name
/// reads.
proof fn lemma_market_replaced(s: Seq<MarketReservesRetriever>, i: int, r: MarketReservesRetriever)
    requires
        is_first_market(s, r.market(), i),
    ensures
        market_at(s.update(i, r), r.market()) == Some(r),
        forall|n: Seq<char>|
            n != r.market() ==> #[trigger] market_at(s.update(i, r), n) == market_at(s, n),
{
    let t = s.update(i, r);
    assert forall|m: int| 0 <= m < i implies t[m].market() != r.market() by {
        assert(t[m] == s[m]);
    }
    assert(is_first_market(t, r.market(), i));
    lemma_first_market(t, r.market(), i);
    assert forall|n: Seq<char>| n != r.market() implies #[trigger] market_at(t, n) == market_at(
        s,
        n,
    ) by {
        lemma_market_update_keeps_others(s, i, r, n);
    }
}

/// Appending the state of a name not kept yet changes only what that name
/// reads.
proof fn lemma_market_appended(s: Seq<MarketReservesRetriever>, r: MarketReservesRetriever)
    requires
        forall|j: int| 0 <= j < s.len() ==> #[trigger] s[j].market() != r.market(),
    ensures
        market_at(s.push(r), r.market()) == Some(r),
        forall|n: Seq<char>|
            n != r.market() ==> #[trigger] market_at(s.push(r), n) == market_at(s, n),
{
    let t = s.push(r);
    assert forall|m: int| 0 <= m < s.len() implies t[m].market() != r.market() by {
        assert(t[m] == s[m]);
    }
    assert(is_first_market(t, r.market(), s.len() as int));
    lemma_first_market(t, r.market(), s.len() as int);
    assert forall|n: Seq<char>| n != r.market() implies #[trigger] market_at(t, n) == market_at(
        s,
        n,
    ) by {
        lemma_market_push_keeps_others(s, r, n);
    }
}

/// A name that no kept state carries reads as absent.
proof fn lemma_market_absent(s: Seq<MarketReservesRetriever>, name: Seq<char>)
    requires
        forall|j: int| 0 <= j < s.len() ==> #[trigger] s[j].market() != name,
    ensures
        market_at(s, name) is None,
{
}

/// No two states carry the same market name.
pub open spec fn distinct_names(s: Seq<MarketReservesRetriever>) -> bool {
    forall|i: int, j: int|
        0 <= i < j < s.len() ==> #[trigger] s[i].market() != #[trigger] s[j].market()
}

proof fn lemma_distinct_after_update(s: Seq<MarketReservesRetriever>, i: int, r: MarketReservesRetriever)
    requires
        distinct_names(s),
        0 <= i < s.len(),
        s[i].market() == r.market(),
    ensures
        distinct_names(s.update(i, r)),
{
    let t = s.update(i, r);
    assert forall|j: int, k: int| 0 <= j < k < t.len() implies #[trigger] t[j].market()
        != #[trigger] t[k].market() by {
        assert(t[j].market() == s[j].market());
        assert(t[k].market() == s[k].market());
    }
}

proof fn lemma_distinct_after_push(s: Seq<MarketReservesRetriever>, r: MarketReservesRetriever)
    requires
        distinct_names(s),
        forall|j: int| 0 <= j < s.len() ==> #[trigger] s[j].market() != r.market(),
    ensures
        distinct_names(s.push(r)),
{
    let t = s.push(r);
    assert forall|j: int, k: int| 0 <= j < k < t.len() implies #[trigger] t[j].market()
        != #[trigger] t[k].market() by {
        assert(t[j] == s[j]);
        if k < s.len() {
            assert(t[k] == s[k]);
        }
    }
}

impl MarketsCapsule {
    /// No two states are kept under one market name.
    #[verifier::type_invariant]
    spec fn names_distinct(self) -> bool {
        distinct_names(self.markets@)
    }

    /// The state kept for each market name.
    pub closed spec fn market(&self, name: Seq<char>) -> Option<MarketReservesRetriever> {
        market_at(self.markets@, name)
    }

    /// No markets.
    pub fn new() -> (r: MarketsCapsule)
        ensures
            forall|name: Seq<char>| #[trigger] r.market(name) is None,
    {
        MarketsCapsule { markets: Vec::new() }
    }

    fn find(&self, name: &String) -> (r: Option<usize>)
        ensures
            match r {
                Some(i) => is_first_market(self.markets@, name@, i as int),
                None => forall|j: int|
                    0 <= j < self.markets@.len() ==> #[trigger] self.markets@[j].market() != name@,
            },
    {
        let mut i: usize = 0;
        while i < self.markets.len()
            invariant
                i <= self.markets@.len(),
                forall|j: int| 0 <= j < i ==> #[trigger] self.markets@[j].market() != name@,
            decreases self.markets@.len() - i,
        {
            if *self.markets[i].lending_market() == *name {
                return Some(i);
            }
            i = i + 1;
        }
        None
    }

    /// Starts tracking `market` afresh: its state becomes that of a market
    /// not read yet, with the given configured reserves.
    pub fn update_initially(&mut self, market: String, input_reserves: Vec<Resef>)
        ensures
            final(self).market(market@) is Some,
            !final(self).market(market@)->Some_0.is_initialized(),
            final(self).market(market@)->Some_0.market() == market@,
            final(self).market(market@)->Some_0.configured_reserves() == input_reserves@,
            final(self).market(market@)->Some_0.obligations().len() == 0,
            final(self).market(market@)->Some_0.reserves().len() == 0,
            final(self).market(market@)->Some_0.oracle_data().len() == 0,
            forall|name: Seq<char>|
                name != market@ ==> #[trigger] final(self).market(name) == old(self).market(name),
    {
        proof {
            use_type_invariant(&*self);
        }
        let found = self.find(&market);
        let mut markets: Vec<MarketReservesRetriever> = Vec::new();
        std::mem::swap(&mut markets, &mut self.markets);
        let ghost before = markets@;
        let fresh = MarketReservesRetriever::new(market, input_reserves);
        match found {
            Some(i) => {
                markets.set(i, fresh);
                proof {
                    lemma_market_replaced(before, i as int, fresh);
                    lemma_distinct_after_update(before, i as int, fresh);
                }
            },
            None => {
                markets.push(fresh);
                proof {
                    lemma_market_appended(before, fresh);
                    lemma_distinct_after_push(before, fresh);
                }
            },
        }
        self.markets = markets;
    }

    /// Stores freshly read data for `market`, if it is tracked.
    pub fn update_market_data_for(&mut self, market: String, market_data: MarketData)
        ensures
            old(self).market(market@) is None ==> forall|name: Seq<char>|
                #[trigger] final(self).market(name) == old(self).market(name),
            old(self).market(market@) is Some ==> {
                &&& final(self).market(market@) is Some
                &&& final(self).market(market@)->Some_0.oracle_data() == market_data.oracle_data@
                &&& final(self).market(market@)->Some_0.reserves() == market_data.reserves@
                &&& forall|k: Seq<u8>|
                    #[trigger] obligation_at(final(self).market(market@)->Some_0.obligations(), k)
                        == last_obligation_at(market_data.obligations@, k)
                &&& final(self).market(market@)->Some_0.is_initialized()
                &&& final(self).market(market@)->Some_0.market() == market@
                &&& final(self).market(market@)->Some_0.configured_reserves() == old(self).market(
                    market@,
                )->Some_0.configured_reserves()
                &&& forall|name: Seq<char>|
                    name != market@ ==> #[trigger] final(self).market(name) == old(self).market(name)
            },
    {
        proof {
            use_type_invariant(&*self);
        }
        match self.find(&market) {
            Some(i) => {
                let mut markets: Vec<MarketReservesRetriever> = Vec::new();
                std::mem::swap(&mut markets, &mut self.markets);
                let ghost before = markets@;
                let mut target = markets.remove(i);
                proof {
                    lemma_first_market(before, market@, i as int);
                }
                target.update_market_data(market_data);
                markets.insert(i, target);
                proof {
                    assert(markets@ =~= before.update(i as int, target));
                    assert(is_first_market(markets@, market@, i as int));
                    lemma_first_market(markets@, market@, i as int);
                    assert forall|n: Seq<char>| n != market@ implies #[trigger] market_at(
                        markets@,
                        n,
                    ) == market_at(before, n) by {
                        lemma_market_update_keeps_others(before, i as int, target, n);
                    }
                    lemma_distinct_after_update(before, i as int, target);
                }
                self.markets = markets;
            },
            None => {},
        }
    }

    /// Stores a freshly read obligation for `market`, if it is tracked.
    pub fn update_distinct_obligation_for(&mut self, market: String, obligation: Enhanced<Obligation>)
        ensures
            old(self).market(market@) is None ==> forall|name: Seq<char>|
                #[trigger] final(self).market(name) == old(self).market(name),
            old(self).market(market@) is Some ==> {
                &&& final(self).market(market@) is Some
                &&& obligation_at(
                    final(self).market(market@)->Some_0.obligations(),
                    obligation.pubkey@,
                ) == Some(obligation)
                &&& forall|k: Seq<u8>|
                    k != obligation.pubkey@ ==> #[trigger] obligation_at(
                        final(self).market(market@)->Some_0.obligations(),
                        k,
                    ) == obligation_at(old(self).market(market@)->Some_0.obligations(), k)
                &&& final(self).market(market@)->Some_0.reserves() == old(self).market(
                    market@,
                )->Some_0.reserves()
                &&& final(self).market(market@)->Some_0.oracle_data() == old(self).market(
                    market@,
                )->Some_0.oracle_data()
                &&& final(self).market(market@)->Some_0.is_initialized() == old(self).market(
                    market@,
                )->Some_0.is_initialized()
                &&& final(self).market(market@)->Some_0.market() == market@
                &&& final(self).market(market@)->Some_0.configured_reserves() == old(self).market(
                    market@,
                )->Some_0.configured_reserves()
                &&& forall|name: Seq<char>|
                    name != market@ ==> #[trigger] final(self).market(name) == old(self).market(name)
            },
    {
        proof {
            use_type_invariant(&*self);
        }
        match self.find(&market) {
            Some(i) => {
                let mut markets: Vec<MarketReservesRetriever> = Vec::new();
                std::mem::swap(&mut markets, &mut self.markets);
                let ghost before = markets@;
                let mut target = markets.remove(i);
                proof {
                    lemma_first_market(before, market@, i as int);
                }
                target.update_distinct_obligation(obligation);
                markets.insert(i, target);
                proof {
                    assert(markets@ =~= before.update(i as int, target));
                    assert(is_first_market(markets@, market@, i as int));
                    lemma_first_market(markets@, market@, i as int);
                    assert forall|n: Seq<char>| n != market@ implies #[trigger] market_at(
                        markets@,
                        n,
                    ) == market_at(before, n) by {
                        lemma_market_update_keeps_others(before, i as int, target, n);
                    }
                    lemma_distinct_after_update(before, i as int, target);
                }
                self.markets = markets;
            },
            None => {},
        }
    }

    /// Whether a state is kept for `market`.
    pub fn is_tracked(&self, market: &String) -> (r: bool)
        ensures
            r == self.market(market@) is Some,
    {
        match self.find(market) {
            Some(i) => {
                proof {
                    lemma_first_market(self.markets@, market@, i as int);
                }
                true
            },
            None => {
                proof {
                    lemma_market_absent(self.markets@, market@);
                }
                false
            },
        }
    }

    /// The state kept for a tracked market.
    pub fn read_for(&self, market: &String) -> (r: &MarketReservesRetriever)
        requires
            self.market(market@) is Some,
        ensures
            *r == self.market(market@)->Some_0,
    {
        match self.find(market) {
            Some(i) => {
                proof {
                    lemma_first_market(self.markets@, market@, i as int);
                }
                &self.markets[i]
            },
            None => {
                proof {
                    lemma_market_absent(self.markets@, market@);
                }
                &self.markets[0]
            },
        }
    }
}

} // verus!
