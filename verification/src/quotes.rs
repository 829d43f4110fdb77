//! The quote pool and the deduplication ledger.
//!
//! A quote is eligible for posting exactly when the ledger has no entry for
//! it, or the entry's `suppressed_until` is not in the future.  Entries are
//! never deleted; a lapsed entry is simply shadowed by that rule.
use vstd::prelude::*;

use crate::ids;

verus! {

/// One quote of the operator-curated pool.
pub struct Quote {
    /// Time-sortable identifier, unique within the pool.
    pub id: u128,
    /// The quote text, UTF-8 bytes.
    pub text: Vec<u8>,
}

/// One ledger record: the quote may not be posted again before
/// `suppressed_until`.
pub struct DedupEntry {
    pub quote_id: u128,
    pub suppressed_until: i64,
}

/// The mathematical content of a ledger: quote id to suppression deadline,
/// later records shadowing earlier ones.
pub open spec fn entries_map(s: Seq<DedupEntry>) -> Map<u128, int>
    decreases s.len(),
{
    if s.len() == 0 {
        Map::empty()
    } else {
        entries_map(s.drop_last()).insert(
            s.last().quote_id,
            s.last().suppressed_until as int,
        )
    }
}

/// A quote is eligible when the ledger does not mention it, or its
/// suppression deadline has passed (`suppressed_until <= now`).
pub open spec fn spec_eligible(m: Map<u128, int>, id: u128, now: int) -> bool {
    !m.contains_key(id) || m[id] <= now
}

/// The deduplication ledger: one record per quote id.
pub struct DedupLedger {
    records: Vec<DedupEntry>,
}

impl View for DedupLedger {
    type V = Map<u128, int>;

    closed spec fn view(&self) -> Map<u128, int> {
        entries_map(self.records@)
    }
}

/// Every key of `entries_map` comes from some record.
proof fn lemma_entries_map_domain(s: Seq<DedupEntry>, k: u128)
    requires
        entries_map(s).contains_key(k),
    ensures
        exists|i: int| 0 <= i < s.len() && s[i].quote_id == k,
    decreases s.len(),
{
    if s.len() > 0 {
        if s.last().quote_id == k {
            assert(s[s.len() - 1].quote_id == k);
        } else {
            lemma_entries_map_domain(s.drop_last(), k);
            let i = choose|i: int| 0 <= i < s.drop_last().len() && s.drop_last()[i].quote_id == k;
            assert(s[i].quote_id == k);
        }
    }
}

/// With distinct ids, each record gives its own key and value.
proof fn lemma_entries_map_index(s: Seq<DedupEntry>, i: int)
    requires
        forall|p: int, q: int|
            0 <= p < q < s.len() ==> s[p].quote_id != s[q].quote_id,
        0 <= i < s.len(),
    ensures
        entries_map(s).contains_key(s[i].quote_id),
        entries_map(s)[s[i].quote_id] == s[i].suppressed_until as int,
    decreases s.len(),
{
    if i == s.len() - 1 {
    } else {
        lemma_entries_map_index(s.drop_last(), i);
        assert(s.drop_last()[i] == s[i]);
        assert(s.last().quote_id != s[i].quote_id);
    }
}

impl DedupLedger {
    /// Record ids are pairwise distinct.
    pub closed spec fn wf(&self) -> bool {
        forall|p: int, q: int|
            0 <= p < q < self.records@.len() ==> self.records@[p].quote_id
                != self.records@[q].quote_id
    }

    /// An empty ledger.
    pub fn new() -> (r: DedupLedger)
        ensures
            r.wf(),
            r@ == Map::<u128, int>::empty(),
    {
        DedupLedger { records: Vec::new() }
    }

    /// The records, for writing the ledger back to the store.
    pub fn records(&self) -> (r: &Vec<DedupEntry>)
        ensures
            entries_map(r@) == self@,
    {
        &self.records
    }

    /// The suppression deadline recorded for `id`, if any.
    pub fn lookup(&self, id: u128) -> (r: Option<i64>)
        requires
            self.wf(),
        ensures
            match r {
                Some(t) => self@.contains_key(id) && self@[id] == t as int,
                None => !self@.contains_key(id),
            },
    {
        let n = self.records.len();
        let mut i: usize = 0;
        while i < n
            invariant
                self.wf(),
                n == self.records@.len(),
                i <= n,
                forall|k: int| 0 <= k < i ==> self.records@[k].quote_id != id,
            decreases n - i,
        {
            if self.records[i].quote_id == id {
                proof {
                    lemma_entries_map_index(self.records@, i as int);
                }
                return Some(self.records[i].suppressed_until);
            }
            i = i + 1;
        }
        proof {
            if self@.contains_key(id) {
                lemma_entries_map_domain(self.records@, id);
            }
        }
        None
    }

    /// Whether the quote `id` may be posted at time `now`.
    pub fn is_eligible(&self, id: u128, now: i64) -> (r: bool)
        requires
            self.wf(),
        ensures
            r == spec_eligible(self@, id, now as int),
    {
        match self.lookup(id) {
            None => true,
            Some(t) => t <= now,
        }
    }

    /// Records that `id` is suppressed until `until`, replacing any earlier
    /// record for the same quote.
    pub fn upsert(&mut self, id: u128, until: i64)
        requires
            old(self).wf(),
        ensures
            final(self).wf(),
            final(self)@ == old(self)@.insert(id, until as int),
    {
        let n = self.records.len();
        let mut i: usize = 0;
        while i < n
            invariant
                self == old(self),
                old(self).wf(),
                n == self.records@.len(),
                i <= n,
                forall|k: int| 0 <= k < i ==> self.records@[k].quote_id != id,
            decreases n - i,
        {
            if self.records[i].quote_id == id {
                proof {
                    assert(old(self).records@[i as int].quote_id == id);
                }
                self.records[i] = DedupEntry { quote_id: id, suppressed_until: until };
                proof {
                    lemma_entries_map_update(old(self).records@, i as int, until as int);
                    assert(forall|k: int|
                        0 <= k < self.records@.len() ==> self.records@[k].quote_id == old(
                            self,
                        ).records@[k].quote_id);
                }
                return ;
            }
            i = i + 1;
        }
        self.records.push(DedupEntry { quote_id: id, suppressed_until: until });
        assert(self.records@.drop_last() =~= old(self).records@);
    }
}

/// Overwriting the record at `i` (whose id occurs only there) updates the
/// map at that id and nothing else.
proof fn lemma_entries_map_update(s: Seq<DedupEntry>, i: int, until: int)
    requires
        forall|p: int, q: int|
            0 <= p < q < s.len() ==> s[p].quote_id != s[q].quote_id,
        0 <= i < s.len(),
        until == until as i64 as int,
    ensures
        entries_map(
            s.update(i, DedupEntry { quote_id: s[i].quote_id, suppressed_until: until as i64 }),
        ) == entries_map(s).insert(s[i].quote_id, until),
    decreases s.len(),
{
    let e = DedupEntry { quote_id: s[i].quote_id, suppressed_until: until as i64 };
    let s2 = s.update(i, e);
    if i == s.len() - 1 {
        assert(s2.drop_last() =~= s.drop_last());
        assert(s2.last() == e);
        assert(entries_map(s2) == entries_map(s.drop_last()).insert(s[i].quote_id, until));
        assert(entries_map(s).insert(s[i].quote_id, until) == entries_map(
            s.drop_last(),
        ).insert(s.last().quote_id, s.last().suppressed_until as int).insert(s[i].quote_id, until));
        assert(entries_map(s.drop_last()).insert(s[i].quote_id, until) =~= entries_map(
            s.drop_last(),
        ).insert(s.last().quote_id, s.last().suppressed_until as int).insert(
            s[i].quote_id,
            until,
        ));
    } else {
        lemma_entries_map_update(s.drop_last(), i, until);
        assert(s2.drop_last() =~= s.drop_last().update(i, e));
        assert(s2.last() == s.last());
        assert(s.last().quote_id != s[i].quote_id);
        assert(entries_map(s2) == entries_map(s.drop_last()).insert(s[i].quote_id, until).insert(
            s.last().quote_id,
            s.last().suppressed_until as int,
        ));
        assert(entries_map(s.drop_last()).insert(s[i].quote_id, until).insert(
            s.last().quote_id,
            s.last().suppressed_until as int,
        ) =~= entries_map(s.drop_last()).insert(
            s.last().quote_id,
            s.last().suppressed_until as int,
        ).insert(s[i].quote_id, until));
    }
}

/// A raw store record for the ledger: the stored key and, when the stored
/// timestamp parsed, the suppression deadline it named.
pub struct LedgerRecord {
    /// The key under which the record was stored: an identifier string.
    pub key: Vec<u8>,
    /// The parsed deadline; `None` when the stored value was unreadable, in
    /// which case the quote counts as not suppressed.
    pub deadline: Option<i64>,
}

/// The ledger contents described by raw store records: keys that parse as
/// identifiers and carry a readable deadline, later records shadowing
/// earlier ones.
pub open spec fn spec_ledger_of(s: Seq<(Seq<u8>, Option<i64>)>) -> Map<u128, int>
    decreases s.len(),
{
    if s.len() == 0 {
        Map::empty()
    } else {
        let rest = spec_ledger_of(s.drop_last());
        let last = s.last();
        if last.0.len() == 26 && ids::id_chars_valid(last.0) && last.1 is Some {
            rest.insert(ids::id_fold(last.0), last.1->0 as int)
        } else {
            rest
        }
    }
}

/// Builds the ledger from raw store records, skipping keys that are not
/// identifier strings and records without a readable deadline.
pub fn ledger_from_store(raw: &Vec<LedgerRecord>) -> (r: DedupLedger)
    ensures
        r.wf(),
        r@ == spec_ledger_of(raw@.map_values(|rec: LedgerRecord| (rec.key@, rec.deadline))),
{
    let ghost target = raw@.map_values(|rec: LedgerRecord| (rec.key@, rec.deadline));
    let mut ledger = DedupLedger::new();
    let mut i: usize = 0;
    while i < raw.len()
        invariant
            i <= raw@.len(),
            target == raw@.map_values(|rec: LedgerRecord| (rec.key@, rec.deadline)),
            ledger.wf(),
            ledger@ == spec_ledger_of(target.take(i as int)),
        decreases raw@.len() - i,
    {
        assert(target.take(i + 1).drop_last() =~= target.take(i as int));
        assert(target.take(i + 1).last() == (raw@[i as int].key@, raw@[i as int].deadline));
        match ids::parse_id(raw[i].key.as_slice()) {
            Ok(id) => {
                match raw[i].deadline {
                    Some(t) => {
                        ledger.upsert(id, t);
                    },
                    None => {},
                }
            },
            Err(_) => {},
        }
        i = i + 1;
    }
    assert(target.take(raw@.len() as int) =~= target);
    ledger
}

/// A quote as the admin view shows it: identifier, text, and whether it is
/// currently suppressed.
pub struct QuoteRecord {
    pub id: u128,
    pub text: Vec<u8>,
    pub suppressed: bool,
}

impl View for QuoteRecord {
    type V = (u128, Seq<u8>, bool);

    open spec fn view(&self) -> (u128, Seq<u8>, bool) {
        (self.id, self.text@, self.suppressed)
    }
}

/// A raw quote-store record: stored key and quote text.
pub struct StoredQuote {
    pub key: Vec<u8>,
    pub text: Vec<u8>,
}

/// The quote view described by raw store records at time `now`: entries
/// whose key parses as an identifier, in store order, each marked
/// suppressed exactly when the ledger still blocks it.
pub open spec fn spec_quote_view(
    s: Seq<(Seq<u8>, Seq<u8>)>,
    m: Map<u128, int>,
    now: int,
) -> Seq<(u128, Seq<u8>, bool)>
    decreases s.len(),
{
    if s.len() == 0 {
        Seq::empty()
    } else {
        let rest = spec_quote_view(s.drop_last(), m, now);
        let last = s.last();
        if last.0.len() == 26 && ids::id_chars_valid(last.0) {
            rest.push((ids::id_fold(last.0), last.1, !spec_eligible(m, ids::id_fold(last.0), now)))
        } else {
            rest
        }
    }
}

/// Builds the admin quote view: parseable keys only, store order kept, each
/// quote marked suppressed exactly when the ledger blocks it at `now`.
pub fn build_quote_view(raw: Vec<StoredQuote>, ledger: &DedupLedger, now: i64) -> (r: Vec<
    QuoteRecord,
>)
    requires
        ledger.wf(),
    ensures
        r@.map_values(|q: QuoteRecord| q@) == spec_quote_view(
            raw@.map_values(|sq: StoredQuote| (sq.key@, sq.text@)),
            ledger@,
            now as int,
        ),
{
    let ghost target = raw@.map_values(|sq: StoredQuote| (sq.key@, sq.text@));
    let mut out: Vec<QuoteRecord> = Vec::new();
    let n = raw.len();
    let mut i: usize = 0;
    let mut rest = raw;
    // consume from the front to move texts out without cloning
    let mut consumed: usize = 0;
    while consumed < n
        invariant
            ledger.wf(),
            consumed <= n,
            n == target.len(),
            rest@.len() == n - consumed,
            forall|k: int| 0 <= k < rest@.len() ==> (rest@[k].key@, rest@[k].text@) == target[
                consumed + k],
            out@.map_values(|q: QuoteRecord| q@) == spec_quote_view(
                target.take(consumed as int),
                ledger@,
                now as int,
            ),
        decreases n - consumed,
    {
        let sq = rest.remove(0);
        assert((sq.key@, sq.text@) == target[consumed as int]);
        assert(target.take(consumed + 1).drop_last() =~= target.take(consumed as int));
        assert(target.take(consumed + 1).last() == target[consumed as int]);
        match ids::parse_id(sq.key.as_slice()) {
            Ok(id) => {
                let suppressed = !ledger.is_eligible(id, now);
                out.push(QuoteRecord { id, text: sq.text, suppressed });
                assert(out@.map_values(|q: QuoteRecord| q@) =~= spec_quote_view(
                    target.take(consumed + 1),
                    ledger@,
                    now as int,
                ));
            },
            Err(_) => {
                assert(out@.map_values(|q: QuoteRecord| q@) =~= spec_quote_view(
                    target.take(consumed + 1),
                    ledger@,
                    now as int,
                ));
            },
        }
        consumed = consumed + 1;
    }
    assert(target.take(n as int) =~= target);
    out
}

/// Allocates store records for a batch of new quotes, starting from a
/// fresh identifier: each record keeps its text, under the text form of
/// the next identifier in the run.
pub fn new_quote_batch(texts: Vec<Vec<u8>>) -> (r: Vec<StoredQuote>)
    ensures
        r@.len() == texts@.len(),
        exists|seed: u128|
            #![trigger ids::spec_id_batch(seed, texts@.len() as nat)]
            forall|i: int|
                0 <= i < r@.len() ==> #[trigger] r@[i].text@ == texts@[i]@ && r@[i].key@
                    == ids::id_text(ids::spec_id_batch(seed, texts@.len() as nat)[i]),
{
    let seed = ids::fresh_id();
    let r = allocate_quotes(seed, texts);
    proof {
        ids::lemma_id_batch_len(seed, texts@.len() as nat);
        assert(forall|i: int|
            0 <= i < r@.len() ==> #[trigger] r@[i].text@ == texts@[i]@ && r@[i].key@
                == ids::id_text(ids::spec_id_batch(seed, texts@.len() as nat)[i]));
    }
    r
}

/// Allocates identifiers for `texts` starting from the fresh seed and pairs
/// them up: the store keys are the text forms of successive ids.
pub fn allocate_quotes(seed: u128, texts: Vec<Vec<u8>>) -> (r: Vec<StoredQuote>)
    ensures
        r@.len() == texts@.len(),
        forall|i: int|
            0 <= i < r@.len() ==> #[trigger] r@[i].text@ == texts@[i]@ && r@[i].key@ == ids::id_text(
                ids::spec_id_batch(seed, texts@.len() as nat)[i],
            ),
{
    let ghost count = texts@.len() as nat;
    let mut out: Vec<StoredQuote> = Vec::new();
    let mut id: u128 = seed;
    let mut rest = texts;
    let ghost all = rest@;
    let n = rest.len();
    let mut i: usize = 0;
    while i < n
        invariant
            n == all.len(),
            i <= n,
            rest@.len() == n - i,
            forall|k: int| 0 <= k < rest@.len() ==> rest@[k]@ == all[i + k]@,
            out@.len() == i,
            forall|k: int|
                0 <= k < i ==> #[trigger] out@[k].text@ == all[k]@ && out@[k].key@ == ids::id_text(
                    ids::spec_id_batch(seed, all.len() as nat)[k],
                ),
            id == if i == 0 {
                seed
            } else {
                ids::spec_id_batch(seed, all.len() as nat)[i - 1]
            },
        decreases n - i,
    {
        let text = rest.remove(0);
        id = ids::succ_id(id);
        proof {
            ids::lemma_id_batch_index(seed, all.len() as nat, i as int);
        }
        let key = ids::format_id(id);
        out.push(StoredQuote { key, text });
        i = i + 1;
    }
    out
}

} // verus!
