//! The scheduled quote poster's selection logic.
//!
//! One run selects at most one quote: among the quotes the ledger does not
//! currently suppress, one is chosen uniformly at random; if none is
//! eligible the run is a successful no-op and nothing may be posted or
//! written.  The ledger is only updated by the caller after the post call
//! succeeded, so a failed post leaves the quote eligible for the next run.
use vstd::prelude::*;

use crate::quotes::{DedupLedger, Quote, spec_eligible};
use crate::rng;

verus! {

/// The decision of one poster run: which quote to post and until when to
/// suppress it afterwards.
pub struct PostPlan {
    pub quote_id: u128,
    pub text: Vec<u8>,
    pub suppressed_until: i64,
}

/// Selects a quote for posting at `now`, suppressing it for
/// `dedup_minutes` minutes on success.
///
/// Returns `None` exactly when no quote of the pool is eligible; otherwise
/// the plan carries an eligible quote of the pool, unchanged, with
/// `suppressed_until` equal to `now` plus the suppression window.
pub fn plan_post(pool: Vec<Quote>, ledger: &DedupLedger, now: i64, dedup_minutes: u32) -> (r:
    Option<PostPlan>)
    requires
        ledger.wf(),
        now + 60 * (dedup_minutes as int) <= i64::MAX,
    ensures
        match r {
            Some(p) => {
                &&& exists|i: int|
                    0 <= i < pool@.len() && pool@[i].id == p.quote_id && pool@[i].text@ == p.text@
                &&& spec_eligible(ledger@, p.quote_id, now as int)
                &&& p.suppressed_until == now + 60 * (dedup_minutes as int)
            },
            None => forall|i: int|
                0 <= i < pool@.len() ==> !spec_eligible(ledger@, #[trigger] pool@[i].id, now as int),
        },
{
    let mut eligible_idx: Vec<usize> = Vec::new();
    let n = pool.len();
    let mut i: usize = 0;
    while i < n
        invariant
            ledger.wf(),
            n == pool@.len(),
            i <= n,
            forall|k: int|
                0 <= k < eligible_idx@.len() ==> #[trigger] eligible_idx@[k] < i as int
                    && spec_eligible(ledger@, pool@[eligible_idx@[k] as int].id, now as int),
            forall|k: int|
                0 <= k < i && spec_eligible(ledger@, #[trigger] pool@[k].id, now as int)
                    ==> eligible_idx@.contains(k as usize),
        decreases n - i,
    {
        let ghost prev = eligible_idx@;
        let elig = ledger.is_eligible(pool[i].id, now);
        if elig {
            eligible_idx.push(i);
        }
        proof {
            assert forall|k: int|
                0 <= k < i + 1 && spec_eligible(
                    ledger@,
                    #[trigger] pool@[k].id,
                    now as int,
                ) implies eligible_idx@.contains(k as usize) by {
                if k < i {
                    assert(prev.contains(k as usize));
                    let j = choose|j: int| 0 <= j < prev.len() && prev[j] == k as usize;
                    assert(eligible_idx@[j] == k as usize);
                } else {
                    assert(eligible_idx@[prev.len() as int] == i);
                }
            }
            assert forall|k: int|
                0 <= k < eligible_idx@.len() implies #[trigger] eligible_idx@[k] < i + 1
                    && spec_eligible(
                    ledger@,
                    pool@[eligible_idx@[k] as int].id,
                    now as int,
                ) by {
                if k < prev.len() {
                    assert(eligible_idx@[k] == prev[k]);
                }
            }
        }
        i = i + 1;
    }
    if eligible_idx.len() == 0 {
        assert forall|k: int|
            0 <= k < pool@.len() implies !spec_eligible(
            ledger@,
            #[trigger] pool@[k].id,
            now as int,
        ) by {
            if spec_eligible(ledger@, pool@[k].id, now as int) {
                assert(eligible_idx@.contains(k as usize));
            }
        }
        return None;
    }
    let pick = rng::random_in(0, (eligible_idx.len() - 1) as u64);
    let idx = eligible_idx[pick as usize];
    assert(spec_eligible(ledger@, pool@[idx as int].id, now as int));
    let mut pool = pool;
    let quote = pool.swap_remove(idx);
    let until = now + 60 * (dedup_minutes as i64);
    Some(PostPlan { quote_id: quote.id, text: quote.text, suppressed_until: until })
}

/// Once a post is recorded, the quote stays ineligible until the recorded
/// deadline passes: re-running the poster at any earlier time cannot select
/// it again.
pub proof fn lemma_suppression_blocks(m: Map<u128, int>, id: u128, until: int, t: int)
    requires
        t < until,
    ensures
        !spec_eligible(m.insert(id, until), id, t),
{
}

} // verus!
